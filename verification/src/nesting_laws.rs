//! Laws of the outline of a document: where bodies and sections end, that
//! a note is made of the lines of its own section, and that lines without
//! headings hold no notes.

use crate::heading::{heading_level, is_heading};
use crate::model::NoteView;
use crate::parser::{
    body_end, closes_section, document, lemma_body_end, lemma_plain_lines_hold_no_notes,
    lemma_section_end, note_at, notes_between, section_end,
};
use crate::text::lines;
use vstd::prelude::*;

verus! {

/// A document without heading lines has no notes. The empty document is
/// one.
pub proof fn lemma_no_headings_no_notes(source: Seq<Seq<char>>)
    requires
        forall|i: int| 0 <= i < source.len() ==> !is_heading(#[trigger] source[i]),
    ensures
        document(source) == Seq::<NoteView>::empty(),
{
    lemma_plain_lines_hold_no_notes(source, 0, source.len() as int);
}

/// The empty text is a document without notes.
pub proof fn lemma_empty_text_no_notes()
    ensures
        document(lines(Seq::<char>::empty())) == Seq::<NoteView>::empty(),
{
    lemma_no_headings_no_notes(lines(Seq::<char>::empty()));
}

/// Where no line from `pos` up to `b` is a heading and line `b` is one or
/// lies behind the last, the body that begins at `pos` ends at `b`.
pub proof fn lemma_body_end_is(source: Seq<Seq<char>>, pos: int, b: int)
    requires
        0 <= pos <= b <= source.len(),
        forall|j: int| pos <= j < b ==> !is_heading(#[trigger] source[j]),
        b < source.len() ==> is_heading(source[b]),
    ensures
        body_end(source, pos) == b,
    decreases b - pos,
{
    if pos < b {
        assert(!is_heading(source[pos]));
        lemma_body_end_is(source, pos + 1, b);
    }
}

/// Where no line from `pos` up to `e` closes the section and line `e` does
/// or lies behind the last, the section ends at `e`.
pub proof fn lemma_section_end_is(source: Seq<Seq<char>>, pos: int, e: int, level: nat)
    requires
        0 <= pos <= e <= source.len(),
        forall|j: int| pos <= j < e ==> !closes_section(#[trigger] source[j], level),
        e < source.len() ==> closes_section(source[e], level),
    ensures
        section_end(source, pos, level) == e,
    decreases e - pos,
{
    if pos < e {
        assert(!closes_section(source[pos], level));
        lemma_section_end_is(source, pos + 1, e, level);
    }
}

/// Lines that are no headings begin no note: the notes of a run of lines
/// are those behind such lines.
pub proof fn lemma_skip_plain(source: Seq<Seq<char>>, pos: int, b: int, end: int)
    requires
        0 <= pos <= b <= end <= source.len(),
        forall|j: int| pos <= j < b ==> !is_heading(#[trigger] source[j]),
    ensures
        notes_between(source, pos, end) == notes_between(source, b, end),
    decreases b - pos,
{
    if pos < b {
        assert(!is_heading(source[pos]));
        lemma_skip_plain(source, pos + 1, b, end);
    }
}

/// A section of `level` ends no later than any line behind its beginning
/// that closes it.
pub proof fn lemma_section_end_bound(source: Seq<Seq<char>>, pos: int, end: int, level: nat)
    requires
        0 <= pos <= end <= source.len(),
        end < source.len() ==> closes_section(source[end], level),
    ensures
        section_end(source, pos, level) <= end,
{
    lemma_section_end(source, pos, level);
    if section_end(source, pos, level) > end {
        assert(!closes_section(source[end], level));
    }
}

/// A body ends no later than the section it lies in.
pub proof fn lemma_body_end_in_section(source: Seq<Seq<char>>, pos: int, level: nat)
    requires
        0 <= pos <= source.len(),
    ensures
        body_end(source, pos) <= section_end(source, pos, level),
{
    lemma_body_end(source, pos);
    lemma_section_end(source, pos, level);
    let e = section_end(source, pos, level);
    if body_end(source, pos) > e {
        assert(!is_heading(source[e]));
    }
}

/// Where a section ends is decided by the lines up to its end.
pub proof fn lemma_section_end_local(source: Seq<Seq<char>>, n: int, pos: int, level: nat)
    requires
        0 <= pos <= n <= source.len(),
        section_end(source, pos, level) <= n,
    ensures
        section_end(source.take(n), pos, level) == section_end(source, pos, level),
    decreases n - pos,
{
    lemma_section_end(source, pos, level);
    if pos < n {
        assert(source.take(n)[pos] == source[pos]);
        if !closes_section(source[pos], level) {
            lemma_section_end_local(source, n, pos + 1, level);
        }
    }
}

/// Where a body ends is decided by the lines up to its end.
pub proof fn lemma_body_end_local(source: Seq<Seq<char>>, n: int, pos: int)
    requires
        0 <= pos <= n <= source.len(),
        body_end(source, pos) <= n,
    ensures
        body_end(source.take(n), pos) == body_end(source, pos),
    decreases n - pos,
{
    lemma_body_end(source, pos);
    if pos < n {
        assert(source.take(n)[pos] == source[pos]);
        if !is_heading(source[pos]) {
            lemma_body_end_local(source, n, pos + 1);
        }
    }
}

/// A note is made of the lines of its own section: the lines from the one
/// that closes the section on have no part in it.
pub proof fn lemma_note_at_local(source: Seq<Seq<char>>, n: int, pos: int, level: nat)
    requires
        0 <= pos < n <= source.len(),
        section_end(source, pos + 1, level) <= n,
    ensures
        note_at(source.take(n), pos, level) == note_at(source, pos, level),
    decreases source.len() - pos, 0nat,
{
    let cut = source.take(n);
    let end = section_end(source, pos + 1, level);
    let b = body_end(source, pos + 1);
    lemma_section_end(source, pos + 1, level);
    lemma_body_end(source, pos + 1);
    lemma_body_end_in_section(source, pos + 1, level);
    lemma_section_end_local(source, n, pos + 1, level);
    lemma_body_end_local(source, n, pos + 1);
    assert(cut[pos] == source[pos]);
    assert(cut.subrange(pos + 1, b) == source.subrange(pos + 1, b));
    lemma_notes_between_local(source, n, pos + 1, end, level);
}

/// The notes of a section are made of the lines of the section.
pub proof fn lemma_notes_between_local(
    source: Seq<Seq<char>>,
    n: int,
    pos: int,
    end: int,
    level: nat,
)
    requires
        0 <= pos,
        end <= n <= source.len(),
        forall|j: int| pos <= j < end ==> !closes_section(#[trigger] source[j], level),
        end < source.len() ==> closes_section(source[end], level),
    ensures
        notes_between(source.take(n), pos, end) == notes_between(source, pos, end),
    decreases source.len() - pos, 1nat,
{
    let cut = source.take(n);
    if 0 <= pos < end <= source.len() {
        assert(cut[pos] == source[pos]);
        match heading_level(source[pos]) {
            Some(l) => {
                assert(!closes_section(source[pos], level));
                lemma_section_end(source, pos + 1, l);
                lemma_section_end_bound(source, pos + 1, end, l);
                let next = section_end(source, pos + 1, l);
                lemma_section_end_local(source, n, pos + 1, l);
                lemma_note_at_local(source, n, pos, l);
                lemma_notes_between_local(source, n, next, end, level);
            },
            None => {
                lemma_notes_between_local(source, n, pos + 1, end, level);
            },
        }
    }
}

/// A note is decided by the lines from its heading up to the end of its
/// section. What follows the section, a deeper heading too, is no part of
/// it.
pub proof fn lemma_note_is_local(source: Seq<Seq<char>>, pos: int, level: nat)
    requires
        0 <= pos < source.len(),
    ensures
        note_at(source, pos, level) == note_at(
            source.take(section_end(source, pos + 1, level)),
            pos,
            level,
        ),
{
    lemma_section_end(source, pos + 1, level);
    lemma_note_at_local(source, section_end(source, pos + 1, level), pos, level);
}

/// A heading that is followed at once by a heading of its level or of a
/// lower one has no children.
pub proof fn lemma_no_children_before_sibling(source: Seq<Seq<char>>, pos: int, level: nat)
    requires
        0 <= pos,
        pos + 1 < source.len(),
        closes_section(source[pos + 1], level),
    ensures
        note_at(source, pos, level).children == Seq::<NoteView>::empty(),
{
}

} // verus!
