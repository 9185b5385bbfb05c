//! Positions in the outline: notes are counted from the first top-level
//! note on, each note before its children and its children before its next
//! sibling.

use crate::model::{all_well_formed, is_well_formed, lemma_children_view, notes, NoteView, OrgNote};
use crate::text::{push_all, repeat, texts};
use crate::unicode::{chars_of, string_of};
use vstd::prelude::*;

verus! {

/// The number of notes in a tree: the note and all below it.
pub open spec fn tree_size(note: NoteView) -> nat
    decreases note, 0nat,
{
    1 + forest_size(note.children)
}

/// The number of notes in a list of trees.
pub open spec fn forest_size(list: Seq<NoteView>) -> nat
    decreases list, 1nat,
{
    if list.len() == 0 {
        0
    } else {
        tree_size(list[0]) + forest_size(list.drop_first())
    }
}

/// The note at position `k` of a tree; position 0 is the root.
pub open spec fn note_in_tree(note: NoteView, k: nat) -> Option<NoteView>
    decreases note, 0nat,
{
    if k == 0 {
        Some(note)
    } else {
        note_in_forest(note.children, (k - 1) as nat)
    }
}

/// The note at position `k` of a list of trees.
pub open spec fn note_in_forest(list: Seq<NoteView>, k: nat) -> Option<NoteView>
    decreases list, 1nat,
{
    if list.len() == 0 {
        None
    } else if k < tree_size(list[0]) {
        note_in_tree(list[0], k)
    } else {
        note_in_forest(list.drop_first(), (k - tree_size(list[0])) as nat)
    }
}

/// A tree with `new` in place of the note at position `k`, and all below
/// that note with it.
pub open spec fn tree_with(note: NoteView, k: nat, new: NoteView) -> NoteView
    decreases note, 0nat,
{
    if k == 0 {
        new
    } else {
        NoteView { children: forest_with(note.children, (k - 1) as nat, new), ..note }
    }
}

/// A list of trees with `new` in place of the note at position `k`; the
/// list itself where it has no such position.
pub open spec fn forest_with(list: Seq<NoteView>, k: nat, new: NoteView) -> Seq<NoteView>
    decreases list, 1nat,
{
    if list.len() == 0 {
        list
    } else if k < tree_size(list[0]) {
        seq![tree_with(list[0], k, new)] + list.drop_first()
    } else {
        seq![list[0]] + forest_with(list.drop_first(), (k - tree_size(list[0])) as nat, new)
    }
}

/// A tree without the note at position `k` and all below that note, for a
/// position below the root.
pub open spec fn tree_without(note: NoteView, k: nat) -> NoteView
    decreases note, 0nat,
{
    NoteView { children: forest_without(note.children, (k - 1) as nat), ..note }
}

/// A list of trees without the note at position `k` and all below that
/// note; the list itself where it has no such position.
pub open spec fn forest_without(list: Seq<NoteView>, k: nat) -> Seq<NoteView>
    decreases list, 1nat,
{
    if list.len() == 0 {
        list
    } else if k == 0 {
        list.drop_first()
    } else if k < tree_size(list[0]) {
        seq![tree_without(list[0], k)] + list.drop_first()
    } else {
        seq![list[0]] + forest_without(list.drop_first(), (k - tree_size(list[0])) as nat)
    }
}

/// A list of trees has a note at exactly the positions below its size.
pub proof fn lemma_note_in_forest(list: Seq<NoteView>, k: nat)
    ensures
        note_in_forest(list, k) is Some <==> k < forest_size(list),
    decreases list, 1nat,
{
    if list.len() > 0 {
        if k < tree_size(list[0]) {
            lemma_note_in_tree(list[0], k);
        } else {
            lemma_note_in_forest(list.drop_first(), (k - tree_size(list[0])) as nat);
        }
    }
}

/// A tree has a note at exactly the positions below its size.
pub proof fn lemma_note_in_tree(note: NoteView, k: nat)
    ensures
        note_in_tree(note, k) is Some <==> k < tree_size(note),
    decreases note, 0nat,
{
    if k > 0 {
        lemma_note_in_forest(note.children, (k - 1) as nat);
    }
}

/// Looks for position `k` in `list`. `Err` holds what is left of `k` behind
/// the last note of the list.
fn locate<'a>(list: &'a Vec<OrgNote>, k: usize) -> (r: Result<&'a OrgNote, usize>)
    ensures
        match r {
            Ok(note) => k < forest_size(notes(list@)) && note_in_forest(notes(list@), k as nat)
                == Some(note@),
            Err(rest) => k >= forest_size(notes(list@)) && rest == k - forest_size(notes(list@)),
        },
    decreases list,
{
    let ghost all = notes(list@);
    let mut rest: usize = k;
    let mut i: usize = 0;
    assert(all.skip(0) == all);
    while i < list.len()
        invariant
            i <= list.len(),
            all == notes(list@),
            rest <= k,
            forest_size(all) - forest_size(all.skip(i as int)) == k - rest,
            note_in_forest(all, k as nat) == note_in_forest(all.skip(i as int), rest as nat),
        decreases list.len() - i,
    {
        let note = &list[i];
        proof {
            assert(all.skip(i as int)[0] == note@);
            assert(all.skip(i as int).drop_first() == all.skip(i + 1));
            lemma_children_view(*note);
            lemma_note_in_forest(all, k as nat);
            assert(tree_size(note@) == 1 + forest_size(note@.children));
            assert(forest_size(all.skip(i as int)) == tree_size(note@) + forest_size(
                all.skip(i + 1),
            ));
        }
        if rest == 0 {
            assert(note_in_forest(all.skip(i as int), 0) == note_in_tree(note@, 0));
            return Ok(note);
        }
        match locate(&note.children, rest - 1) {
            Ok(found) => {
                assert(note_in_forest(all.skip(i as int), rest as nat) == note_in_tree(
                    note@,
                    rest as nat,
                ));
                return Ok(found);
            },
            Err(left) => {
                rest = left;
            },
        }
        i += 1;
    }
    Err(rest)
}

/// The note at position `target` of the outline.
pub fn find_note_by_flat_index(list: &Vec<OrgNote>, target: usize) -> (r: Option<&OrgNote>)
    ensures
        match r {
            Some(note) => note_in_forest(notes(list@), target as nat) == Some(note@),
            None => note_in_forest(notes(list@), target as nat) is None,
        },
{
    proof {
        lemma_note_in_forest(notes(list@), target as nat);
    }
    match locate(list, target) {
        Ok(note) => Some(note),
        Err(_) => None,
    }
}

/// Removes position `k` from `list`, with all below it. `Err` holds what
/// is left of `k` behind the last note of the list, which is then as it
/// was.
fn remove_at(list: &mut Vec<OrgNote>, k: usize) -> (r: Result<(), usize>)
    ensures
        match r {
            Ok(_) => k < forest_size(notes(old(list)@)) && notes(final(list)@) == forest_without(
                notes(old(list)@),
                k as nat,
            ),
            Err(rest) => k >= forest_size(notes(old(list)@)) && rest == k - forest_size(
                notes(old(list)@),
            ) && notes(final(list)@) == notes(old(list)@),
        },
    decreases forest_size(notes(old(list)@)),
{
    let ghost all = notes(list@);
    let mut rest: usize = k;
    let mut i: usize = 0;
    assert(all.skip(0) == all);
    assert(all.take(0) + forest_without(all, k as nat) == forest_without(all, k as nat));
    while i < list.len()
        invariant
            i <= list.len(),
            all == notes(old(list)@),
            all == notes(list@),
            rest <= k,
            forest_size(all) - forest_size(all.skip(i as int)) == k - rest,
            forest_without(all, k as nat) == all.take(i as int) + forest_without(
                all.skip(i as int),
                rest as nat,
            ),
        decreases list.len() - i,
    {
        let ghost tail = all.skip(i as int);
        let ghost before = list[i as int];
        proof {
            assert(tail[0] == before@);
            assert(tail.drop_first() == all.skip(i + 1));
            lemma_children_view(before);
            assert(tree_size(before@) == 1 + forest_size(before@.children));
            assert(forest_size(tail) == tree_size(before@) + forest_size(all.skip(i + 1)));
        }
        if rest == 0 {
            list.remove(i);
            assert(notes(list@) == all.take(i as int) + all.skip(i + 1));
            return Ok(());
        }
        match remove_at(&mut list[i].children, rest - 1) {
            Ok(_) => {
                proof {
                    let after = list[i as int];
                    lemma_children_view(after);
                    assert(after@ == tree_without(before@, rest as nat));
                    assert(notes(list@) == all.take(i as int) + (seq![after@] + all.skip(i + 1)));
                }
                return Ok(());
            },
            Err(left) => {
                proof {
                    let after = list[i as int];
                    lemma_children_view(after);
                    assert(after@ == before@);
                    assert(notes(list@) == all);
                    assert(all.take(i + 1) == all.take(i as int) + seq![before@]);
                    assert(forest_without(all, k as nat) == all.take(i + 1) + forest_without(
                        all.skip(i + 1),
                        left as nat,
                    ));
                }
                rest = left;
            },
        }
        i += 1;
    }
    assert(all.take(list.len() as int) == all);
    Err(rest)
}

/// Removes the note at position `target` from the outline, with all below
/// it. Tells whether there was such a note.
pub fn remove_note_by_flat_index(list: &mut Vec<OrgNote>, target: usize) -> (removed: bool)
    ensures
        removed == (target < forest_size(notes(old(list)@))),
        notes(final(list)@) == forest_without(notes(old(list)@), target as nat),
        all_well_formed(notes(old(list)@)) ==> all_well_formed(notes(final(list)@)),
{
    proof {
        if all_well_formed(notes(list@)) {
            lemma_forest_without_well_formed(notes(list@), target as nat);
        }
    }
    match remove_at(list, target) {
        Ok(_) => true,
        Err(_) => {
            proof {
                lemma_forest_without_beyond(notes(old(list)@), target as nat);
            }
            false
        },
    }
}

/// Behind the last position nothing is removed.
pub proof fn lemma_forest_without_beyond(list: Seq<NoteView>, k: nat)
    requires
        k >= forest_size(list),
    ensures
        forest_without(list, k) == list,
    decreases list.len(),
{
    if list.len() > 0 {
        lemma_forest_without_beyond(list.drop_first(), (k - tree_size(list[0])) as nat);
        assert(seq![list[0]] + list.drop_first() == list);
    }
}

/// The stars of a row: one, and one more for each level that the note
/// lies deeper than its row is indented.
pub open spec fn row_stars(level: nat, depth: nat) -> nat {
    if level > depth {
        (1 + level - depth) as nat
    } else {
        1
    }
}

/// The row that shows a note at `depth`: two spaces for each step of
/// depth, the stars, a space, the status keyword and a space if there is
/// one, and the title.
pub open spec fn row_text(note: NoteView, depth: nat) -> Seq<char> {
    repeat(' ', 2 * depth) + repeat('*', row_stars(note.level, depth)) + seq![' '] + (
    match note.status {
        Some(s) => s + seq![' '],
        None => Seq::empty(),
    }) + note.title
}

/// The rows of a tree: the note, then all below it one step deeper.
pub open spec fn tree_rows(note: NoteView, depth: nat) -> Seq<Seq<char>>
    decreases note, 0nat,
{
    seq![row_text(note, depth)] + forest_rows(note.children, depth + 1)
}

/// The rows of a list of trees, in the order of their positions.
pub open spec fn forest_rows(list: Seq<NoteView>, depth: nat) -> Seq<Seq<char>>
    decreases list, 1nat,
{
    if list.len() == 0 {
        Seq::empty()
    } else {
        tree_rows(list[0], depth) + forest_rows(list.drop_first(), depth)
    }
}

fn row_of(note: &OrgNote, indent: &Vec<char>) -> (out: Vec<char>)
    requires
        indent@ == repeat(' ', indent.len() as nat),
        indent.len() % 2 == 0,
    ensures
        out@ == row_text(note@, (indent.len() / 2) as nat),
{
    let depth: usize = indent.len() / 2;
    let mut out: Vec<char> = Vec::new();
    push_all(&mut out, indent);
    let extra: usize = if note.level > depth {
        note.level - depth
    } else {
        0
    };
    let mut stars: Vec<char> = Vec::new();
    stars.push('*');
    while stars.len() <= extra
        invariant
            1 <= stars.len() <= extra + 1,
            stars@ == repeat('*', stars.len() as nat),
        decreases extra + 1 - stars.len(),
    {
        stars.push('*');
    }
    push_all(&mut out, &stars);
    out.push(' ');
    let ghost head = out@;
    match &note.status {
        Some(s) => {
            push_all(&mut out, &chars_of(s.as_str()));
            out.push(' ');
            assert(out@ == head + (s@ + seq![' ']));
        },
        None => {
            assert(out@ == head + Seq::<char>::empty());
        },
    }
    push_all(&mut out, &chars_of(note.title.as_str()));
    out
}

fn rows_of(list: &Vec<OrgNote>, indent: &Vec<char>) -> (out: Vec<Vec<char>>)
    requires
        indent@ == repeat(' ', indent.len() as nat),
        indent.len() % 2 == 0,
    ensures
        texts(out@) == forest_rows(notes(list@), (indent.len() / 2) as nat),
    decreases list,
{
    let ghost all = notes(list@);
    let ghost depth = (indent.len() / 2) as nat;
    let mut out: Vec<Vec<char>> = Vec::new();
    let mut i: usize = 0;
    assert(all.skip(0) == all);
    assert(texts(out@) + forest_rows(all, depth) == forest_rows(all, depth));
    while i < list.len()
        invariant
            i <= list.len(),
            all == notes(list@),
            depth == indent.len() / 2,
            indent@ == repeat(' ', indent.len() as nat),
            indent.len() % 2 == 0,
            texts(out@) + forest_rows(all.skip(i as int), depth) == forest_rows(all, depth),
        decreases list.len() - i,
    {
        let note = &list[i];
        let ghost before = texts(out@);
        proof {
            assert(all.skip(i as int)[0] == note@);
            assert(all.skip(i as int).drop_first() == all.skip(i + 1));
            lemma_children_view(*note);
        }
        let row = row_of(note, indent);
        out.push(row);
        let mut deeper: Vec<char> = Vec::new();
        push_all(&mut deeper, indent);
        deeper.push(' ');
        deeper.push(' ');
        assert(deeper@ == repeat(' ', deeper.len() as nat));
        let mut below = rows_of(&note.children, &deeper);
        let ghost below_rows = texts(below@);
        let ghost with_row = texts(out@);
        assert(with_row == before + seq![row@]);
        let mut k: usize = 0;
        while k < below.len()
            invariant
                k <= below.len(),
                below_rows == texts(below@),
                texts(out@) == with_row + below_rows.take(k as int),
            decreases below.len() - k,
        {
            let ghost so_far = texts(out@);
            let mut copy: Vec<char> = Vec::new();
            push_all(&mut copy, &below[k]);
            assert(copy@ == below_rows[k as int]);
            out.push(copy);
            assert(texts(out@) == so_far.push(below_rows[k as int]));
            assert(below_rows.take(k + 1) == below_rows.take(k as int).push(below_rows[k as int]));
            k += 1;
        }
        proof {
            assert(below_rows.take(below.len() as int) == below_rows);
            assert(tree_rows(note@, depth) == seq![row@] + below_rows);
            assert(texts(out@) == before + tree_rows(note@, depth));
            assert(texts(out@) + forest_rows(all.skip(i + 1), depth) == before + (tree_rows(
                note@,
                depth,
            ) + forest_rows(all.skip(i + 1), depth)));
        }
        i += 1;
    }
    assert(texts(out@) + Seq::<Seq<char>>::empty() == texts(out@));
    out
}

/// The rows that show the outline: for each position its index and its
/// row.
pub fn flatten_notes(list: &Vec<OrgNote>) -> (flat: Vec<(usize, String)>)
    ensures
        flat.len() == forest_rows(notes(list@), 0).len(),
        forall|i: int|
            0 <= i < flat.len() ==> (#[trigger] flat[i]).0 == i && flat[i].1@ == forest_rows(
                notes(list@),
                0,
            )[i],
{
    let indent: Vec<char> = Vec::new();
    assert(indent@ == repeat(' ', 0));
    let rows = rows_of(list, &indent);
    let mut flat: Vec<(usize, String)> = Vec::new();
    let mut i: usize = 0;
    while i < rows.len()
        invariant
            i <= rows.len(),
            flat.len() == i,
            forall|j: int| 0 <= j < i ==> (#[trigger] flat[j]).0 == j && flat[j].1@ == rows@[j]@,
        decreases rows.len() - i,
    {
        flat.push((i, string_of(&rows[i])));
        i += 1;
    }
    assert(texts(rows@).len() == rows.len());
    assert forall|i: int| 0 <= i < flat.len() implies (#[trigger] flat[i]).0 == i && flat[i].1@
        == forest_rows(notes(list@), 0)[i] by {
        assert(texts(rows@)[i] == rows@[i]@);
    }
    flat
}

/// A list with one more tree at its end has the notes of the list and
/// those of the tree.
pub proof fn lemma_forest_size_push(list: Seq<NoteView>, note: NoteView)
    ensures
        forest_size(list.push(note)) == forest_size(list) + tree_size(note),
    decreases list.len(),
{
    let all = list.push(note);
    if list.len() == 0 {
        assert(all.drop_first() == Seq::<NoteView>::empty());
        assert(forest_size(Seq::<NoteView>::empty()) == 0);
    } else {
        assert(all[0] == list[0]);
        assert(all.drop_first() == list.drop_first().push(note));
        lemma_forest_size_push(list.drop_first(), note);
    }
}

/// An outline is shown in as many rows as it has notes.
pub proof fn lemma_rows_count(list: Seq<NoteView>, depth: nat)
    ensures
        forest_rows(list, depth).len() == forest_size(list),
    decreases list, 1nat,
{
    if list.len() > 0 {
        lemma_tree_rows_count(list[0], depth);
        lemma_rows_count(list.drop_first(), depth);
    }
}

/// A tree is shown in as many rows as it has notes.
pub proof fn lemma_tree_rows_count(note: NoteView, depth: nat)
    ensures
        tree_rows(note, depth).len() == tree_size(note),
    decreases note, 0nat,
{
    lemma_rows_count(note.children, depth + 1);
}

/// The number of notes in the outline.
pub fn note_count(list: &Vec<OrgNote>) -> (n: usize)
    ensures
        n == forest_size(notes(list@)),
{
    proof {
        lemma_rows_count(notes(list@), 0);
    }
    flatten_notes(list).len()
}

/// Replacing a note by one of its level leaves the levels of the top
/// notes of a list as they were.
pub proof fn lemma_forest_with_levels(list: Seq<NoteView>, k: nat, new: NoteView)
    requires
        note_in_forest(list, k) matches Some(note) ==> new.level == note.level,
    ensures
        forest_with(list, k, new).len() == list.len(),
        forall|i: int|
            0 <= i < list.len() ==> (#[trigger] forest_with(list, k, new)[i]).level
                == list[i].level,
    decreases list.len(),
{
    if list.len() > 0 {
        let rest = list.drop_first();
        if k < tree_size(list[0]) {
            let first = tree_with(list[0], k, new);
            let all = seq![first] + rest;
            assert(note_in_forest(list, k) == note_in_tree(list[0], k));
            assert(first.level == list[0].level);
            assert forall|i: int| 0 <= i < list.len() implies (#[trigger] all[i]).level
                == list[i].level by {
                if i > 0 {
                    assert(all[i] == rest[i - 1]);
                }
            }
        } else {
            let left = (k - tree_size(list[0])) as nat;
            lemma_forest_with_levels(rest, left, new);
            let all = seq![list[0]] + forest_with(rest, left, new);
            assert forall|i: int| 0 <= i < list.len() implies (#[trigger] all[i]).level
                == list[i].level by {
                if i > 0 {
                    assert(all[i] == forest_with(rest, left, new)[i - 1]);
                    assert(rest[i - 1] == list[i]);
                }
            }
        }
    }
}

/// Replacing a note of a well-formed tree by a well-formed note of its
/// level leaves the tree well formed.
pub proof fn lemma_tree_with_well_formed(note: NoteView, k: nat, new: NoteView)
    requires
        is_well_formed(note),
        is_well_formed(new),
        note_in_tree(note, k) matches Some(target) ==> new.level == target.level,
    ensures
        is_well_formed(tree_with(note, k, new)),
        tree_with(note, k, new).level == note.level || k == 0,
    decreases note, 0nat,
{
    if k > 0 {
        let left = (k - 1) as nat;
        assert(all_well_formed(note.children));
        lemma_forest_with_well_formed(note.children, left, new);
        lemma_forest_with_levels(note.children, left, new);
        let after = tree_with(note, k, new);
        assert forall|i: int| 0 <= i < after.children.len() implies (
        #[trigger] after.children[i]).level > after.level && is_well_formed(after.children[i]) by {
            assert(note.children[i].level > note.level);
        }
    }
}

/// Replacing a note of a well-formed list by a well-formed note of its
/// level leaves the list well formed.
pub proof fn lemma_forest_with_well_formed(list: Seq<NoteView>, k: nat, new: NoteView)
    requires
        all_well_formed(list),
        is_well_formed(new),
        note_in_forest(list, k) matches Some(target) ==> new.level == target.level,
    ensures
        all_well_formed(forest_with(list, k, new)),
    decreases list, 1nat,
{
    if list.len() > 0 {
        let rest = list.drop_first();
        assert(all_well_formed(rest)) by {
            assert forall|i: int| 0 <= i < rest.len() implies is_well_formed(
                #[trigger] rest[i],
            ) by {
                assert(rest[i] == list[i + 1]);
            }
        }
        assert(is_well_formed(list[0]));
        if k < tree_size(list[0]) {
            lemma_tree_with_well_formed(list[0], k, new);
            let all = seq![tree_with(list[0], k, new)] + rest;
            assert forall|i: int| 0 <= i < all.len() implies is_well_formed(#[trigger] all[i]) by {
                if i > 0 {
                    assert(all[i] == rest[i - 1]);
                }
            }
        } else {
            let left = (k - tree_size(list[0])) as nat;
            lemma_forest_with_well_formed(rest, left, new);
            let tail = forest_with(rest, left, new);
            let all = seq![list[0]] + tail;
            assert forall|i: int| 0 <= i < all.len() implies is_well_formed(#[trigger] all[i]) by {
                if i > 0 {
                    assert(all[i] == tail[i - 1]);
                }
            }
        }
    }
}

/// What is left of a list after a note is removed are notes of the list,
/// or such notes without one below them.
pub proof fn lemma_forest_without_well_formed(list: Seq<NoteView>, k: nat)
    requires
        all_well_formed(list),
    ensures
        all_well_formed(forest_without(list, k)),
        forall|i: int|
            0 <= i < forest_without(list, k).len() ==> exists|j: int|
                0 <= j < list.len() && (#[trigger] forest_without(list, k)[i]).level
                    == list[j].level,
    decreases list, 1nat,
{
    if list.len() > 0 {
        let rest = list.drop_first();
        assert(all_well_formed(rest)) by {
            assert forall|i: int| 0 <= i < rest.len() implies is_well_formed(
                #[trigger] rest[i],
            ) by {
                assert(rest[i] == list[i + 1]);
            }
        }
        assert(is_well_formed(list[0]));
        let after = forest_without(list, k);
        if k == 0 {
            assert forall|i: int| 0 <= i < after.len() implies (exists|j: int|
                0 <= j < list.len() && (#[trigger] after[i]).level == list[j].level) by {
                assert(after[i] == list[i + 1]);
            }
        } else if k < tree_size(list[0]) {
            let note = list[0];
            let left = (k - 1) as nat;
            assert(all_well_formed(note.children));
            lemma_forest_without_well_formed(note.children, left);
            let first = tree_without(note, k);
            let below = forest_without(note.children, left);
            assert(first.children == below);
            assert forall|i: int| 0 <= i < first.children.len() implies (
            #[trigger] first.children[i]).level > first.level && is_well_formed(
                first.children[i],
            ) by {
                let j = choose|j: int|
                    0 <= j < note.children.len() && below[i].level == note.children[j].level;
                assert(note.children[j].level > note.level);
            }
            assert(is_well_formed(first));
            assert(after == seq![first] + rest);
            assert forall|i: int| 0 <= i < after.len() implies is_well_formed(
                #[trigger] after[i],
            ) && (exists|j: int| 0 <= j < list.len() && after[i].level == list[j].level) by {
                if i > 0 {
                    assert(after[i] == rest[i - 1]);
                    assert(after[i] == list[i]);
                } else {
                    assert(after[i].level == list[0].level);
                }
            }
        } else {
            let left = (k - tree_size(list[0])) as nat;
            lemma_forest_without_well_formed(rest, left);
            let tail = forest_without(rest, left);
            assert(after == seq![list[0]] + tail);
            assert forall|i: int| 0 <= i < after.len() implies is_well_formed(
                #[trigger] after[i],
            ) && (exists|j: int| 0 <= j < list.len() && after[i].level == list[j].level) by {
                if i > 0 {
                    assert(after[i] == tail[i - 1]);
                    let j = choose|j: int|
                        0 <= j < rest.len() && tail[i - 1].level == rest[j].level;
                    assert(rest[j] == list[j + 1]);
                } else {
                    assert(after[i] == list[0]);
                }
            }
        }
    }
}

} // verus!
