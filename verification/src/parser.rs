//! The outline parser: from the lines of a document to the tree of its
//! notes, in one pass from the first line to the last.

use crate::body::{
    body_elements, body_elements_of, lemma_body_elements_well_formed, planning_timestamp,
    planning_timestamp_of,
};
use crate::clock::{clock_entry, clock_entry_of};
use crate::heading::{
    header_fields, header_fields_of, header_text, header_text_of, heading_level, heading_level_of,
    is_heading,
};
use crate::model::{
    is_well_formed, lemma_children_view, notes, opt_clock_entry, opt_logbook, opt_note,
    opt_planning, opt_string, opt_timestamp, strings, NoteView, OrgClockEntry, OrgLogbook, OrgNote,
    OrgPlanning, OrgTimestamp,
};
use crate::text::{copy_range, join, join_chars, lines, split_lines, texts};
use crate::timestamp::{timestamp, timestamp_of};
use crate::unicode::{chars_of, string_of};
use vstd::prelude::*;

verus! {

/// `line` is a heading that ends the section of a heading of `level`: one
/// of the same level or of a lower one.
pub open spec fn closes_section(line: Seq<char>, level: nat) -> bool {
    heading_level(line) matches Some(l) && l <= level
}

/// The index of the first heading at or after `pos`; the number of lines if
/// there is none.
pub open spec fn body_end(source: Seq<Seq<char>>, pos: int) -> int
    decreases source.len() - pos,
{
    if pos >= source.len() {
        source.len() as int
    } else if is_heading(source[pos]) {
        pos
    } else {
        body_end(source, pos + 1)
    }
}

/// The index of the first line at or after `pos` that closes the section of
/// a heading of `level`; the number of lines if there is none.
pub open spec fn section_end(source: Seq<Seq<char>>, pos: int, level: nat) -> int
    decreases source.len() - pos,
{
    if pos >= source.len() {
        source.len() as int
    } else if closes_section(source[pos], level) {
        pos
    } else {
        section_end(source, pos + 1, level)
    }
}

/// A body ends at the first heading behind its beginning, or behind the last
/// line.
pub proof fn lemma_body_end(source: Seq<Seq<char>>, pos: int)
    requires
        0 <= pos <= source.len(),
    ensures
        pos <= body_end(source, pos) <= source.len(),
        forall|j: int| pos <= j < body_end(source, pos) ==> !is_heading(#[trigger] source[j]),
        body_end(source, pos) < source.len() ==> is_heading(source[body_end(source, pos)]),
    decreases source.len() - pos,
{
    if pos < source.len() && !is_heading(source[pos]) {
        lemma_body_end(source, pos + 1);
    }
}

/// A section ends at the first line behind its beginning that closes it, or
/// behind the last line.
pub proof fn lemma_section_end(source: Seq<Seq<char>>, pos: int, level: nat)
    requires
        0 <= pos <= source.len(),
    ensures
        pos <= section_end(source, pos, level) <= source.len(),
        forall|j: int|
            pos <= j < section_end(source, pos, level) ==> !closes_section(
                #[trigger] source[j],
                level,
            ),
        section_end(source, pos, level) < source.len() ==> closes_section(
            source[section_end(source, pos, level)],
            level,
        ),
    decreases source.len() - pos,
{
    if pos < source.len() && !closes_section(source[pos], level) {
        lemma_section_end(source, pos + 1, level);
    }
}

/// The note whose heading is line `pos`, read as a heading of `level`.
///
/// Status, title and tags come from the heading line. The body is the run
/// of lines after it up to the next heading of any level; joined by line
/// feeds it yields text, planning and log. The children are the notes of
/// the section: of the lines up to the next heading of this level or a
/// lower one.
pub open spec fn note_at(source: Seq<Seq<char>>, pos: int, level: nat) -> NoteView
    decreases source.len() - pos, 0nat,
{
    let fields = header_fields(header_text(source[pos], level));
    let body = source.subrange(pos + 1, body_end(source, pos + 1));
    let parts = body_elements(join(body, '\n'));
    NoteView {
        level,
        status: fields.status,
        title: fields.title,
        labels: fields.labels,
        content: parts.content,
        children: if 0 <= pos < source.len() {
            notes_between(source, pos + 1, section_end(source, pos + 1, level))
        } else {
            Seq::empty()
        },
        planning: parts.planning,
        logbook: parts.logbook,
    }
}

/// The notes that begin in the lines from `pos` up to `end`, in order.
/// Lines before the first heading belong to no note. A heading begins a
/// note at its own level; the next note begins where that one's section
/// ends.
pub open spec fn notes_between(source: Seq<Seq<char>>, pos: int, end: int) -> Seq<NoteView>
    decreases source.len() - pos, 1nat,
{
    if 0 <= pos < end <= source.len() {
        match heading_level(source[pos]) {
            Some(level) => {
                proof {
                    lemma_section_end(source, pos + 1, level);
                }
                seq![note_at(source, pos, level)] + notes_between(
                    source,
                    section_end(source, pos + 1, level),
                    end,
                )
            },
            None => notes_between(source, pos + 1, end),
        }
    } else {
        Seq::empty()
    }
}

/// The top-level notes of a document given by its lines.
pub open spec fn document(source: Seq<Seq<char>>) -> Seq<NoteView> {
    notes_between(source, 0, source.len() as int)
}

/// The levels of the notes of a list never rise from one to the next: a
/// heading that lies deeper than the one before it begins no sibling of
/// that one, but a note below it.
pub open spec fn levels_descend(list: Seq<NoteView>) -> bool {
    forall|i: int| 0 < i < list.len() ==> (#[trigger] list[i]).level <= list[i - 1].level
}

/// Every child lies deeper than its parent and the levels of the children
/// never rise, all the way down.
pub open spec fn well_nested(note: NoteView) -> bool
    decreases note,
{
    &&& levels_descend(note.children)
    &&& forall|i: int|
        0 <= i < note.children.len() ==> (#[trigger] note.children[i]).level > note.level
            && well_nested(note.children[i])
}

/// A parser over the lines of one document, with the line it has come to.
pub struct OrgParser {
    lines: Vec<Vec<char>>,
    current_line: usize,
}

impl OrgParser {
    #[verifier::type_invariant]
    spec fn in_bounds(self) -> bool {
        self.current_line <= self.lines.len()
    }

    /// The lines of the document.
    pub closed spec fn source(&self) -> Seq<Seq<char>> {
        texts(self.lines@)
    }

    /// The index of the line that is read next.
    pub closed spec fn cursor(&self) -> int {
        self.current_line as int
    }

    /// A parser at the first line of `content`.
    pub fn new(content: &str) -> (parser: Self)
        ensures
            parser.source() == lines(content@),
            parser.cursor() == 0,
    {
        Self { lines: split_lines(&chars_of(content)), current_line: 0 }
    }

    /// Reads the rest of the document: the notes that begin at or after the
    /// cursor. The cursor ends behind the last line.
    ///
    /// Every note read is well formed and well nested, and the levels of the
    /// notes never rise. Lines without a heading among them yield no
    /// notes.
    pub fn parse(&mut self) -> (r: Vec<OrgNote>)
        ensures
            notes(r@) == notes_between(
                old(self).source(),
                old(self).cursor(),
                old(self).source().len() as int,
            ),
            old(self).cursor() == 0 ==> notes(r@) == document(old(self).source()),
            forall|i: int|
                0 <= i < r.len() ==> well_nested(#[trigger] r[i]@) && is_well_formed(r[i]@),
            levels_descend(notes(r@)),
            (forall|i: int|
                old(self).cursor() <= i < old(self).source().len() ==> !is_heading(
                    #[trigger] old(self).source()[i],
                )) ==> r.len() == 0,
            final(self).source() == old(self).source(),
            final(self).cursor() == final(self).source().len(),
    {
        let ghost source = self.source();
        let ghost start = self.cursor();
        let ghost end = source.len() as int;
        proof {
            use_type_invariant(&*self);
        }
        let found = self.parse_rest();
        proof {
            lemma_notes_between_nested(source, start, end);
            lemma_notes_between_well_formed(source, start, end, 0);
            assert forall|i: int| 0 <= i < found.len() implies well_nested(#[trigger] found[i]@)
                && is_well_formed(found[i]@) by {
                assert(found[i]@ == notes(found@)[i]);
            }
            if forall|i: int| start <= i < end ==> !is_heading(#[trigger] source[i]) {
                lemma_plain_lines_hold_no_notes(source, start, end);
            }
        }
        found
    }

    fn parse_rest(&mut self) -> (r: Vec<OrgNote>)
        ensures
            notes(r@) == notes_between(
                old(self).source(),
                old(self).cursor(),
                old(self).source().len() as int,
            ),
            final(self).source() == old(self).source(),
            final(self).cursor() == final(self).source().len(),
    {
        proof {
            use_type_invariant(&*self);
        }
        let ghost source = texts(self.lines@);
        let ghost start = self.current_line as int;
        let ghost end = source.len() as int;
        let mut found: Vec<OrgNote> = Vec::new();
        assert(notes(found@) == Seq::<NoteView>::empty());
        while self.current_line < self.lines.len()
            invariant
                source == texts(self.lines@),
                end == source.len(),
                start <= self.current_line <= self.lines.len(),
                notes(found@) + notes_between(source, self.current_line as int, end)
                    == notes_between(source, start, end),
            decreases self.lines.len() - self.current_line,
        {
            let ghost before = notes(found@);
            let ghost pos = self.current_line as int;
            match heading_level_of(&self.lines[self.current_line]) {
                Some(level) => {
                    proof {
                        lemma_section_end(source, pos + 1, level as nat);
                    }
                    match self.parse_note(level) {
                        Some(note) => {
                            found.push(note);
                            assert(notes(found@) == before + seq![note@]);
                        },
                        None => {},
                    }
                    assert(notes(found@) + notes_between(source, self.current_line as int, end)
                        == before + (seq![note_at(source, pos, level as nat)] + notes_between(
                        source,
                        self.current_line as int,
                        end,
                    )));
                },
                None => {
                    self.current_line += 1;
                },
            }
        }
        assert(notes_between(source, end, end) == Seq::<NoteView>::empty());
        assert(notes(found@) + Seq::<NoteView>::empty() == notes(found@));
        found
    }

    /// The level of the heading that `line` is, if it is one.
    pub fn count_asterisks(&self, line: &str) -> (r: Option<usize>)
        ensures
            match r {
                Some(n) => heading_level(line@) == Some(n as nat),
                None => heading_level(line@) is None,
            },
    {
        heading_level_of(&chars_of(line))
    }

    /// Reads the note whose heading is the line at the cursor, as a heading
    /// of `level`, and moves the cursor to the end of its section. Behind
    /// the last line there is no note.
    pub fn parse_note(&mut self, level: usize) -> (r: Option<OrgNote>)
        ensures
            final(self).source() == old(self).source(),
            old(self).cursor() >= old(self).source().len() ==> r is None && final(self).cursor()
                == old(self).cursor(),
            old(self).cursor() < old(self).source().len() ==> opt_note(r) == Some(
                note_at(old(self).source(), old(self).cursor(), level as nat),
            ) && final(self).cursor() == section_end(
                old(self).source(),
                old(self).cursor() + 1,
                level as nat,
            ),
        decreases old(self).source().len() - old(self).cursor(),
    {
        proof {
            use_type_invariant(&*self);
        }
        if self.current_line >= self.lines.len() {
            return None;
        }
        let ghost source = texts(self.lines@);
        let ghost start = self.current_line as int;
        let ghost first_heading = body_end(source, start + 1);
        let ghost end = section_end(source, start + 1, level as nat);
        proof {
            lemma_body_end(source, start + 1);
            lemma_section_end(source, start + 1, level as nat);
        }
        let header = header_text_of(&self.lines[self.current_line], level);
        let (status, title, labels) = header_fields_of(&header);
        self.current_line += 1;
        let mut content_lines: Vec<Vec<char>> = Vec::new();
        let mut children: Vec<OrgNote> = Vec::new();
        let mut done = false;
        assert(texts(content_lines@) == source.subrange(start + 1, start + 1));
        assert(notes(children@) == Seq::<NoteView>::empty());
        while !done && self.current_line < self.lines.len()
            invariant
                source == texts(self.lines@),
                source == old(self).source(),
                start == old(self).cursor(),
                0 <= start < source.len(),
                first_heading == body_end(source, start + 1),
                end == section_end(source, start + 1, level as nat),
                start + 1 <= first_heading <= end <= source.len(),
                forall|j: int| start + 1 <= j < first_heading ==> !is_heading(#[trigger] source[j]),
                first_heading < source.len() ==> is_heading(source[first_heading]),
                forall|j: int|
                    start + 1 <= j < end ==> !closes_section(#[trigger] source[j], level as nat),
                end < source.len() ==> closes_section(source[end], level as nat),
                start + 1 <= self.current_line <= end,
                self.current_line >= first_heading ==> self.current_line == source.len()
                    || is_heading(source[self.current_line as int]),
                texts(content_lines@) == source.subrange(
                    start + 1,
                    if self.current_line <= first_heading {
                        self.current_line as int
                    } else {
                        first_heading
                    },
                ),
                notes(children@) + notes_between(source, self.current_line as int, end)
                    == notes_between(source, start + 1, end),
                done ==> self.current_line == end,
            decreases self.lines.len() - self.current_line, if done { 0int } else { 1int },
        {
            let ghost pos = self.current_line as int;
            let ghost before = notes(children@);
            match heading_level_of(&self.lines[self.current_line]) {
                Some(next_level) => {
                    if next_level <= level {
                        done = true;
                    } else {
                        proof {
                            lemma_section_end(source, pos + 1, next_level as nat);
                        }
                        match self.parse_note(next_level) {
                            Some(child) => {
                                children.push(child);
                                assert(notes(children@) == before + seq![child@]);
                            },
                            None => {},
                        }
                        proof {
                            let next = self.current_line as int;
                            if next > end {
                                assert(closes_section(source[end], next_level as nat));
                            }
                            assert(notes(children@) + notes_between(source, next, end) == before
                                + (seq![note_at(source, pos, next_level as nat)] + notes_between(
                                source,
                                next,
                                end,
                            )));
                        }
                    }
                },
                None => {
                    let line = &self.lines[self.current_line];
                    let ghost kept = texts(content_lines@);
                    content_lines.push(copy_range(line, 0, line.len()));
                    assert(line@.subrange(0, line@.len() as int) == line@);
                    assert(texts(content_lines@) == kept.push(source[pos]));
                    self.current_line += 1;
                },
            }
        }
        assert(self.current_line == end);
        assert(texts(content_lines@) == source.subrange(start + 1, first_heading));
        assert(notes_between(source, end, end) == Seq::<NoteView>::empty());
        assert(notes(children@) == notes_between(source, start + 1, end));
        let text = join_chars(&content_lines, '\n');
        let (content, planning, logbook) = body_elements_of(&text);
        let note = OrgNote {
            level,
            status,
            title,
            labels,
            content,
            children,
            planning,
            logbook,
        };
        proof {
            lemma_children_view(note);
        }
        Some(note)
    }

    /// What follows the markers and the space in a heading line of `level`.
    pub fn extract_header_content(&self, line: &str, level: usize) -> (r: String)
        ensures
            r@ == header_text(line@, level as nat),
    {
        string_of(&header_text_of(&chars_of(line), level))
    }

    /// Status keyword, title and tags of a header.
    pub fn parse_header_parts(&self, header: &str) -> (r: (Option<String>, String, Vec<String>))
        ensures
            opt_string(r.0) == header_fields(header@).status,
            r.1@ == header_fields(header@).title,
            strings(r.2@) == header_fields(header@).labels,
    {
        header_fields_of(&chars_of(header))
    }

    /// Text, planning and log of a note's body.
    pub fn parse_time_elements(&self, content: &str) -> (r: (
        String,
        Option<OrgPlanning>,
        Option<OrgLogbook>,
    ))
        ensures
            r.0@ == body_elements(content@).content,
            opt_planning(r.1) == body_elements(content@).planning,
            opt_logbook(r.2) == body_elements(content@).logbook,
    {
        body_elements_of(&chars_of(content))
    }

    /// The timestamp after the first occurrence of `keyword` in `line`.
    pub fn extract_planning_timestamp(&self, line: &str, keyword: &str) -> (r: Option<
        OrgTimestamp,
    >)
        ensures
            opt_timestamp(r) == planning_timestamp(line@, keyword@),
    {
        planning_timestamp_of(&chars_of(line), &chars_of(keyword))
    }

    /// The entry that a line of a time log writes.
    pub fn parse_clock_line(&self, line: &str) -> (r: Option<OrgClockEntry>)
        ensures
            opt_clock_entry(r) == clock_entry(line@),
    {
        clock_entry_of(&chars_of(line))
    }

    /// The timestamp that `text` writes.
    pub fn parse_timestamp_from_text(&self, text: &str) -> (r: Option<OrgTimestamp>)
        ensures
            opt_timestamp(r) == timestamp(text@),
    {
        timestamp_of(&chars_of(text))
    }
}

/// The timestamp that `text` writes.
pub fn parse_timestamp_from_text(text: &str) -> (r: Option<OrgTimestamp>)
    ensures
        opt_timestamp(r) == timestamp(text@),
{
    timestamp_of(&chars_of(text))
}

/// Lines without a heading among them begin no note.
pub proof fn lemma_plain_lines_hold_no_notes(source: Seq<Seq<char>>, pos: int, end: int)
    requires
        0 <= pos,
        end <= source.len(),
        forall|i: int| pos <= i < end ==> !is_heading(#[trigger] source[i]),
    ensures
        notes_between(source, pos, end) == Seq::<NoteView>::empty(),
    decreases end - pos,
{
    if pos < end {
        assert(!is_heading(source[pos]));
        lemma_plain_lines_hold_no_notes(source, pos + 1, end);
    }
}

/// The notes of lines that begin with a heading begin with the note of that
/// heading.
pub proof fn lemma_first_note_level(source: Seq<Seq<char>>, pos: int, end: int)
    requires
        0 <= pos < end <= source.len(),
        is_heading(source[pos]),
    ensures
        notes_between(source, pos, end).len() > 0,
        notes_between(source, pos, end)[0].level == heading_level(source[pos])->0,
{
    let level = heading_level(source[pos])->0;
    let first = note_at(source, pos, level);
    let rest = notes_between(source, section_end(source, pos + 1, level), end);
    assert(notes_between(source, pos, end) == seq![first] + rest);
    assert((seq![first] + rest)[0] == first);
}

/// A note before notes whose levels never rise and whose first lies no
/// deeper than it makes a list whose levels never rise.
pub proof fn lemma_levels_descend_cons(first: NoteView, rest: Seq<NoteView>)
    requires
        levels_descend(rest),
        rest.len() > 0 ==> rest[0].level <= first.level,
    ensures
        levels_descend(seq![first] + rest),
{
    let all = seq![first] + rest;
    assert forall|i: int| 0 < i < all.len() implies (#[trigger] all[i]).level <= all[i
        - 1].level by {
        assert(all[i] == rest[i - 1]);
        if i > 1 {
            assert(all[i - 1] == rest[i - 2]);
        }
    }
}

/// A note read as a heading of `level` has that level, and is well nested.
pub proof fn lemma_note_at_nested(source: Seq<Seq<char>>, pos: int, level: nat)
    requires
        0 <= pos < source.len(),
    ensures
        note_at(source, pos, level).level == level,
        well_nested(note_at(source, pos, level)),
    decreases source.len() - pos, 0nat,
{
    lemma_section_end(source, pos + 1, level);
    let end = section_end(source, pos + 1, level);
    let below = notes_between(source, pos + 1, end);
    lemma_notes_between_deeper(source, pos + 1, end, level);
    let note = note_at(source, pos, level);
    assert(note.children == below);
    assert(note.level == level);
    assert forall|i: int| 0 <= i < note.children.len() implies (#[trigger] note.children[i]).level
        > note.level && well_nested(note.children[i]) by {
        assert(note.children[i] == below[i]);
    }
}

/// In lines that hold no heading of `level` or above it, every note lies
/// deeper than `level` and is well nested, and the levels of the notes
/// never rise.
pub proof fn lemma_notes_between_deeper(source: Seq<Seq<char>>, pos: int, end: int, level: nat)
    requires
        0 <= pos,
        end <= source.len(),
        forall|j: int| pos <= j < end ==> !closes_section(#[trigger] source[j], level),
    ensures
        forall|i: int|
            0 <= i < notes_between(source, pos, end).len() ==> (#[trigger] notes_between(
                source,
                pos,
                end,
            )[i]).level > level && well_nested(notes_between(source, pos, end)[i]),
        levels_descend(notes_between(source, pos, end)),
    decreases source.len() - pos, 1nat,
{
    if 0 <= pos < end <= source.len() {
        match heading_level(source[pos]) {
            Some(l) => {
                lemma_section_end(source, pos + 1, l);
                lemma_note_at_nested(source, pos, l);
                let next = section_end(source, pos + 1, l);
                lemma_notes_between_deeper(source, next, end, level);
                assert(!closes_section(source[pos], level));
                let first = note_at(source, pos, l);
                let rest = notes_between(source, next, end);
                let all = notes_between(source, pos, end);
                assert(all == seq![first] + rest);
                assert(rest.len() > 0 ==> rest[0].level <= l) by {
                    if rest.len() > 0 {
                        assert(closes_section(source[next], l));
                        lemma_first_note_level(source, next, end);
                    }
                }
                lemma_levels_descend_cons(first, rest);
            },
            None => {
                lemma_notes_between_deeper(source, pos + 1, end, level);
            },
        }
    }
}

/// Every note of a run of lines has a positive level and is well nested,
/// and the levels of the notes never rise.
pub proof fn lemma_notes_between_nested(source: Seq<Seq<char>>, pos: int, end: int)
    requires
        0 <= pos,
        end <= source.len(),
    ensures
        forall|i: int|
            0 <= i < notes_between(source, pos, end).len() ==> (#[trigger] notes_between(
                source,
                pos,
                end,
            )[i]).level > 0 && well_nested(notes_between(source, pos, end)[i]),
        levels_descend(notes_between(source, pos, end)),
{
    lemma_notes_between_deeper(source, pos, end, 0);
}

/// A note read as a heading of a positive level is well formed.
pub proof fn lemma_note_at_well_formed(source: Seq<Seq<char>>, pos: int, level: nat)
    requires
        0 <= pos < source.len(),
        level > 0,
    ensures
        is_well_formed(note_at(source, pos, level)),
    decreases source.len() - pos, 0nat,
{
    lemma_section_end(source, pos + 1, level);
    let end = section_end(source, pos + 1, level);
    let below = notes_between(source, pos + 1, end);
    let body = source.subrange(pos + 1, body_end(source, pos + 1));
    lemma_body_elements_well_formed(join(body, '\n'));
    lemma_notes_between_well_formed(source, pos + 1, end, level);
    let note = note_at(source, pos, level);
    assert(note.children == below);
    assert forall|i: int| 0 <= i < note.children.len() implies (#[trigger] note.children[i]).level
        > note.level && is_well_formed(note.children[i]) by {
        assert(note.children[i] == below[i]);
    }
}

/// In lines that hold no heading of `level` or above it, every note lies
/// deeper than `level` and is well formed.
pub proof fn lemma_notes_between_well_formed(
    source: Seq<Seq<char>>,
    pos: int,
    end: int,
    level: nat,
)
    requires
        0 <= pos,
        end <= source.len(),
        forall|j: int| pos <= j < end ==> !closes_section(#[trigger] source[j], level),
    ensures
        forall|i: int|
            0 <= i < notes_between(source, pos, end).len() ==> (#[trigger] notes_between(
                source,
                pos,
                end,
            )[i]).level > level && is_well_formed(notes_between(source, pos, end)[i]),
    decreases source.len() - pos, 1nat,
{
    if 0 <= pos < end <= source.len() {
        match heading_level(source[pos]) {
            Some(l) => {
                lemma_section_end(source, pos + 1, l);
                lemma_note_at_well_formed(source, pos, l);
                let next = section_end(source, pos + 1, l);
                lemma_notes_between_well_formed(source, next, end, level);
                assert(!closes_section(source[pos], level));
                let first = note_at(source, pos, l);
                let rest = notes_between(source, next, end);
                let all = notes_between(source, pos, end);
                assert(all == seq![first] + rest);
                assert forall|i: int| 0 <= i < all.len() implies (#[trigger] all[i]).level > level
                    && is_well_formed(all[i]) by {
                    if i > 0 {
                        assert(all[i] == rest[i - 1]);
                    }
                }
            },
            None => {
                lemma_notes_between_well_formed(source, pos + 1, end, level);
            },
        }
    }
}

} // verus!
