//! The outline written back as text: each note as its heading line, its
//! planning lines, its time-log drawer and its text, then its children.

use crate::model::{
    entries, lemma_children_view, notes, opt_logbook, opt_planning, opt_timestamp, ClockEntryView,
    LogbookView, NoteView, OrgLogbook, OrgNote, OrgPlanning, OrgTimestamp, PlanningView,
    TimestampView,
};
use crate::text::{join, join_chars, push_all, repeat, texts, trim, trimmed};
use crate::unicode::{chars_of, string_of};
use vstd::prelude::*;

verus! {

/// The status keyword as it stands in a heading line: after a space.
pub open spec fn status_part(status: Option<Seq<char>>) -> Seq<char> {
    match status {
        Some(s) => seq![' '] + s,
        None => Seq::empty(),
    }
}

/// The tags as they stand in a heading line: after a space, each between
/// colons.
pub open spec fn labels_part(labels: Seq<Seq<char>>) -> Seq<char> {
    if labels.len() > 0 {
        seq![' ', ':'] + join(labels, ':') + seq![':']
    } else {
        Seq::empty()
    }
}

/// The heading line of a note, without its line feed: as many markers as
/// the level, the status keyword if there is one, a space, the title, and
/// the tags if there are any.
pub open spec fn heading_line(level: nat, status: Option<Seq<char>>, title: Seq<char>, labels: Seq<
    Seq<char>,
>) -> Seq<char> {
    repeat('*', level) + status_part(status) + seq![' '] + title + labels_part(labels)
}

/// One planning line: the keyword, a space, the timestamp as it was read,
/// and a line feed. Nothing where the role has no value.
pub open spec fn planning_line(keyword: Seq<char>, value: Option<TimestampView>) -> Seq<char> {
    match value {
        Some(t) => keyword + seq![' '] + t.raw + seq!['\n'],
        None => Seq::empty(),
    }
}

/// The planning lines of a note, in the order scheduled, deadline, closed.
pub open spec fn planning_text(planning: Option<PlanningView>) -> Seq<char> {
    match planning {
        Some(p) => planning_line("SCHEDULED:"@, p.scheduled) + planning_line(
            "DEADLINE:"@,
            p.deadline,
        ) + planning_line("CLOSED:"@, p.closed),
        None => Seq::empty(),
    }
}

/// The lines of the clock entries, each as it was read.
pub open spec fn entries_text(entries: Seq<ClockEntryView>) -> Seq<char>
    decreases entries.len(),
{
    if entries.len() == 0 {
        Seq::empty()
    } else {
        entries_text(entries.drop_last()) + entries.last().raw + seq!['\n']
    }
}

/// The drawer of a log that has entries; nothing for one without.
pub open spec fn logbook_text(logbook: Option<LogbookView>) -> Seq<char> {
    match logbook {
        Some(l) => if l.clock_entries.len() > 0 {
            ":LOGBOOK:"@ + seq!['\n'] + entries_text(l.clock_entries) + ":END:"@ + seq!['\n']
        } else {
            Seq::empty()
        },
        None => Seq::empty(),
    }
}

/// Nothing but whitespace.
pub open spec fn is_blank(s: Seq<char>) -> bool {
    trim(s).len() == 0
}

/// The text of a note, with a line feed, unless it is blank.
pub open spec fn content_text(content: Seq<char>) -> Seq<char> {
    if is_blank(content) {
        Seq::empty()
    } else {
        content + seq!['\n']
    }
}

/// A note as text: heading line, planning lines, drawer, text, an empty
/// line, and then its children in order.
pub open spec fn note_text(note: NoteView) -> Seq<char>
    decreases note, 0nat,
{
    heading_line(note.level, note.status, note.title, note.labels) + seq!['\n'] + planning_text(
        note.planning,
    ) + logbook_text(note.logbook) + content_text(note.content) + seq!['\n'] + notes_text(
        note.children,
    )
}

/// Notes as text, one after the other.
pub open spec fn notes_text(list: Seq<NoteView>) -> Seq<char>
    decreases list, 1nat,
{
    if list.len() == 0 {
        Seq::empty()
    } else {
        notes_text(list.drop_last()) + note_text(list.last())
    }
}

fn push_planning_line(out: &mut Vec<char>, keyword: &str, value: &Option<OrgTimestamp>)
    ensures
        final(out)@ == old(out)@ + planning_line(keyword@, opt_timestamp(*value)),
{
    match value {
        Some(t) => {
            push_all(out, &chars_of(keyword));
            out.push(' ');
            push_all(out, &chars_of(t.raw.as_str()));
            out.push('\n');
            assert(out@ == old(out)@ + (keyword@ + seq![' '] + t.raw@ + seq!['\n']));
        },
        None => {
            assert(out@ == old(out)@ + Seq::<char>::empty());
        },
    }
}

fn push_planning(out: &mut Vec<char>, planning: &Option<OrgPlanning>)
    ensures
        final(out)@ == old(out)@ + planning_text(opt_planning(*planning)),
{
    match planning {
        Some(p) => {
            push_planning_line(out, "SCHEDULED:", &p.scheduled);
            push_planning_line(out, "DEADLINE:", &p.deadline);
            push_planning_line(out, "CLOSED:", &p.closed);
            assert(out@ == old(out)@ + planning_text(Some(p@)));
        },
        None => {
            assert(out@ == old(out)@ + Seq::<char>::empty());
        },
    }
}

fn push_logbook(out: &mut Vec<char>, logbook: &Option<OrgLogbook>)
    ensures
        final(out)@ == old(out)@ + logbook_text(opt_logbook(*logbook)),
{
    match logbook {
        Some(l) => {
            if l.clock_entries.len() > 0 {
                let ghost all = entries(l.clock_entries@);
                let mut lines: Vec<char> = Vec::new();
                let mut i: usize = 0;
                assert(all.take(0) == Seq::<ClockEntryView>::empty());
                while i < l.clock_entries.len()
                    invariant
                        i <= l.clock_entries.len(),
                        all == entries(l.clock_entries@),
                        lines@ == entries_text(all.take(i as int)),
                    decreases l.clock_entries.len() - i,
                {
                    assert(all.take(i + 1).drop_last() == all.take(i as int));
                    push_all(&mut lines, &chars_of(l.clock_entries[i].raw.as_str()));
                    lines.push('\n');
                    i += 1;
                }
                assert(all.take(all.len() as int) == all);
                push_all(out, &chars_of(":LOGBOOK:"));
                out.push('\n');
                push_all(out, &lines);
                push_all(out, &chars_of(":END:"));
                out.push('\n');
                assert(out@ == old(out)@ + (":LOGBOOK:"@ + seq!['\n'] + entries_text(all)
                    + ":END:"@ + seq!['\n']));
            } else {
                assert(out@ == old(out)@ + Seq::<char>::empty());
            }
        },
        None => {
            assert(out@ == old(out)@ + Seq::<char>::empty());
        },
    }
}

fn heading_line_of(note: &OrgNote) -> (out: Vec<char>)
    ensures
        out@ == heading_line(note@.level, note@.status, note@.title, note@.labels),
{
    let mut out: Vec<char> = Vec::new();
    while out.len() < note.level
        invariant
            out.len() <= note.level,
            out@ == repeat('*', out.len() as nat),
        decreases note.level - out.len(),
    {
        out.push('*');
    }
    let ghost stars = out@;
    match &note.status {
        Some(s) => {
            out.push(' ');
            push_all(&mut out, &chars_of(s.as_str()));
            assert(out@ == stars + (seq![' '] + s@));
        },
        None => {
            assert(out@ == stars + Seq::<char>::empty());
        },
    }
    let ghost with_status = out@;
    out.push(' ');
    push_all(&mut out, &chars_of(note.title.as_str()));
    let ghost with_title = out@;
    assert(with_title == with_status + seq![' '] + note.title@);
    if note.labels.len() > 0 {
        let mut tags: Vec<Vec<char>> = Vec::new();
        let mut i: usize = 0;
        while i < note.labels.len()
            invariant
                i <= note.labels.len(),
                tags.len() == i,
                forall|j: int| 0 <= j < i ==> tags@[j]@ == note.labels@[j]@,
            decreases note.labels.len() - i,
        {
            tags.push(chars_of(note.labels[i].as_str()));
            i += 1;
        }
        assert(texts(tags@) == note@.labels);
        out.push(' ');
        out.push(':');
        push_all(&mut out, &join_chars(&tags, ':'));
        out.push(':');
        assert(out@ == with_title + (seq![' ', ':'] + join(note@.labels, ':') + seq![':']));
    } else {
        assert(out@ == with_title + Seq::<char>::empty());
    }
    out
}

/// The text of one note and of all below it.
pub fn note_chars(note: &OrgNote) -> (out: Vec<char>)
    ensures
        out@ == note_text(note@),
    decreases note,
{
    let mut out = heading_line_of(note);
    out.push('\n');
    push_planning(&mut out, &note.planning);
    push_logbook(&mut out, &note.logbook);
    let content = chars_of(note.content.as_str());
    let ghost before_content = out@;
    if trimmed(&content).len() > 0 {
        push_all(&mut out, &content);
        out.push('\n');
        assert(out@ == before_content + (note.content@ + seq!['\n']));
    } else {
        assert(out@ == before_content + Seq::<char>::empty());
    }
    out.push('\n');
    let ghost head = out@;
    let ghost below = notes(note.children@);
    let mut i: usize = 0;
    assert(below.take(0) == Seq::<NoteView>::empty());
    assert(out@ == head + notes_text(below.take(0)));
    while i < note.children.len()
        invariant
            i <= note.children.len(),
            below == notes(note.children@),
            out@ == head + notes_text(below.take(i as int)),
        decreases note.children.len() - i,
    {
        assert(below.take(i + 1).drop_last() == below.take(i as int));
        assert(below.take(i + 1).last() == note.children[i as int]@);
        let child = note_chars(&note.children[i]);
        push_all(&mut out, &child);
        assert(out@ == head + (notes_text(below.take(i as int)) + child@));
        i += 1;
    }
    proof {
        assert(below.take(below.len() as int) == below);
        lemma_children_view(*note);
    }
    out
}

/// The text of a list of notes.
pub fn notes_chars(list: &Vec<OrgNote>) -> (out: Vec<char>)
    ensures
        out@ == notes_text(notes(list@)),
{
    let ghost all = notes(list@);
    let mut out: Vec<char> = Vec::new();
    let mut i: usize = 0;
    assert(all.take(0) == Seq::<NoteView>::empty());
    while i < list.len()
        invariant
            i <= list.len(),
            all == notes(list@),
            out@ == notes_text(all.take(i as int)),
        decreases list.len() - i,
    {
        assert(all.take(i + 1).drop_last() == all.take(i as int));
        assert(all.take(i + 1).last() == list[i as int]@);
        push_all(&mut out, &note_chars(&list[i]));
        i += 1;
    }
    assert(all.take(all.len() as int) == all);
    out
}

/// Appends the text of `note` and of all below it to `output`.
pub fn serialize_note(output: &mut String, note: &OrgNote)
    ensures
        final(output)@ == old(output)@ + note_text(note@),
{
    let text = note_chars(note);
    let mut i: usize = 0;
    while i < text.len()
        invariant
            i <= text.len(),
            output@ == old(output)@ + text@.take(i as int),
        decreases text.len() - i,
    {
        output.push(text[i]);
        i += 1;
    }
    assert(text@.take(text.len() as int) == text@);
}

/// The whole outline as text.
pub fn serialize_to_org_format(list: &Vec<OrgNote>) -> (r: String)
    ensures
        r@ == notes_text(notes(list@)),
{
    string_of(&notes_chars(list))
}

} // verus!
