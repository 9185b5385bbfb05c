//! The fields of a note that an editor shows, in the order it shows them,
//! and what it says of each.

use crate::clock::datetime_text;
use crate::editor::EditMode;
use crate::model::{
    opt_logbook, opt_planning, strings, ClockEntryView, LogbookView, NoteView, OrgLogbook, OrgNote,
    OrgPlanning, OrgTimestamp, PlanningView,
};
use crate::number::{decimal, decimal_chars};
use crate::text::{join, join_chars, push_all, texts};
use crate::unicode::{chars_of, string_of};
use vstd::prelude::*;

verus! {

/// One field of a note as an editor shows it. A clock field carries the
/// index of its entry in the log.
#[derive(Debug, Clone, Copy, PartialEq, Eq, Structural)]
pub enum Field {
    Status,
    Title,
    Labels,
    Scheduled,
    Deadline,
    Closed,
    Clock(usize),
    Content,
}

/// How the edit of a field begins: the mode, the text to edit, and what
/// the status line says.
#[derive(Debug)]
pub struct EditStart {
    pub mode: EditMode,
    pub buffer: String,
    pub message: String,
}

/// The field, if it is shown.
pub open spec fn one_field(shown: bool, field: Field) -> Seq<Field> {
    if shown {
        seq![field]
    } else {
        Seq::empty()
    }
}

/// The planning fields: one for each role that has a value.
pub open spec fn planning_fields(planning: Option<PlanningView>) -> Seq<Field> {
    match planning {
        Some(p) => one_field(p.scheduled is Some, Field::Scheduled) + one_field(
            p.deadline is Some,
            Field::Deadline,
        ) + one_field(p.closed is Some, Field::Closed),
        None => Seq::empty(),
    }
}

/// The clock fields: one for each entry of the log.
pub open spec fn clock_fields(logbook: Option<LogbookView>) -> Seq<Field> {
    match logbook {
        Some(l) => Seq::new(l.clock_entries.len(), |i: int| Field::Clock(i as usize)),
        None => Seq::empty(),
    }
}

/// The fields of a note in the order shown: the status if there is one,
/// the title, the tags if there are any, the planning fields, the clock
/// fields, and the text.
pub open spec fn visible_fields(note: NoteView) -> Seq<Field> {
    one_field(note.status is Some, Field::Status) + seq![Field::Title] + one_field(
        note.labels.len() > 0,
        Field::Labels,
    ) + planning_fields(note.planning) + clock_fields(note.logbook) + seq![Field::Content]
}

/// The field at `index`, if the note shows that many.
pub open spec fn field_at(note: NoteView, index: nat) -> Option<Field> {
    if index < visible_fields(note).len() {
        Some(visible_fields(note)[index as int])
    } else {
        None
    }
}

/// The tags between colons.
pub open spec fn labels_text(labels: Seq<Seq<char>>) -> Seq<char> {
    seq![':'] + join(labels, ':') + seq![':']
}

/// What follows the start of a clock entry: its duration, or that it runs.
pub open spec fn clock_state_text(e: ClockEntryView) -> Seq<char> {
    match e.duration {
        Some(d) => " => "@ + d,
        None => " (running)"@,
    }
}

/// What the status line says of a field.
pub open spec fn field_name(note: NoteView, field: Option<Field>) -> Seq<char> {
    match field {
        Some(Field::Status) => "Status: "@ + note.status->0,
        Some(Field::Title) => "Title: "@ + note.title,
        Some(Field::Labels) => "Labels: "@ + labels_text(note.labels),
        Some(Field::Scheduled) => "Scheduled: "@ + note.planning->0.scheduled->0.raw,
        Some(Field::Deadline) => "Deadline: "@ + note.planning->0.deadline->0.raw,
        Some(Field::Closed) => "Closed: "@ + note.planning->0.closed->0.raw,
        Some(Field::Clock(i)) => {
            let e = note.logbook->0.clock_entries[i as int];
            "Clock "@ + decimal((i + 1) as nat) + ": "@ + datetime_text(e.start)
                + clock_state_text(e)
        },
        Some(Field::Content) => "Content"@,
        None => "Unknown field"@,
    }
}

/// The value of the beginning of an edit.
pub struct EditStartView {
    pub mode: EditMode,
    pub buffer: Seq<char>,
    pub message: Seq<char>,
}

impl View for EditStart {
    type V = EditStartView;

    open spec fn view(&self) -> EditStartView {
        EditStartView { mode: self.mode, buffer: self.buffer@, message: self.message@ }
    }
}

/// The value of the beginning of an edit, if there is one.
pub open spec fn opt_edit_start(s: Option<EditStart>) -> Option<EditStartView> {
    match s {
        Some(s) => Some(s@),
        None => None,
    }
}

/// What the status line says while a field with the given name is edited.
pub open spec fn editing_message(name: Seq<char>) -> Seq<char> {
    "Editing "@ + name + " - Press Enter to save, Esc to cancel"@
}

/// How the edit of a field begins. A clock entry is edited as text, line
/// by line.
pub open spec fn edit_start(note: NoteView, field: Option<Field>) -> Option<EditStartView> {
    match field {
        Some(Field::Status) => Some(
            EditStartView {
                mode: EditMode::Status,
                buffer: note.status->0,
                message: editing_message("Status"@),
            },
        ),
        Some(Field::Title) => Some(
            EditStartView {
                mode: EditMode::Title,
                buffer: note.title,
                message: editing_message("Title"@),
            },
        ),
        Some(Field::Labels) => Some(
            EditStartView {
                mode: EditMode::Labels,
                buffer: labels_text(note.labels),
                message: editing_message("Labels"@),
            },
        ),
        Some(Field::Scheduled) => Some(
            EditStartView {
                mode: EditMode::Scheduled,
                buffer: note.planning->0.scheduled->0.raw,
                message: editing_message("Scheduled"@),
            },
        ),
        Some(Field::Deadline) => Some(
            EditStartView {
                mode: EditMode::Deadline,
                buffer: note.planning->0.deadline->0.raw,
                message: editing_message("Deadline"@),
            },
        ),
        Some(Field::Closed) => Some(
            EditStartView {
                mode: EditMode::Closed,
                buffer: note.planning->0.closed->0.raw,
                message: editing_message("Closed"@),
            },
        ),
        Some(Field::Clock(i)) => Some(
            EditStartView {
                mode: EditMode::Content,
                buffer: note.logbook->0.clock_entries[i as int].raw,
                message: "Editing Clock Entry "@ + decimal((i + 1) as nat)
                    + " - Press Esc to save, Enter for new line"@,
            },
        ),
        Some(Field::Content) => Some(
            EditStartView {
                mode: EditMode::Content,
                buffer: note.content,
                message: editing_message("Content"@),
            },
        ),
        None => None,
    }
}

/// A field is backed by what the note holds: a status field by a status,
/// a planning field by a value in its role, a clock field by an entry.
pub open spec fn is_backed(note: NoteView, field: Field) -> bool {
    match field {
        Field::Status => note.status is Some,
        Field::Scheduled => note.planning is Some && note.planning->0.scheduled is Some,
        Field::Deadline => note.planning is Some && note.planning->0.deadline is Some,
        Field::Closed => note.planning is Some && note.planning->0.closed is Some,
        Field::Clock(i) => note.logbook is Some && i < note.logbook->0.clock_entries.len(),
        _ => true,
    }
}

/// Every field that a note shows is backed.
pub proof fn lemma_visible(note: NoteView)
    ensures
        forall|f: Field| #[trigger] visible_fields(note).contains(f) ==> is_backed(note, f),
{
    let all = visible_fields(note);
    let head = one_field(note.status is Some, Field::Status) + seq![Field::Title] + one_field(
        note.labels.len() > 0,
        Field::Labels,
    );
    let plan = planning_fields(note.planning);
    let clocks = clock_fields(note.logbook);
    assert forall|f: Field| #[trigger] all.contains(f) implies is_backed(note, f) by {
        let k = choose|k: int| 0 <= k < all.len() && all[k] == f;
        if k < head.len() {
            assert(head[k] == f);
        } else if k < head.len() + plan.len() {
            assert(plan[k - head.len()] == f);
        } else if k < head.len() + plan.len() + clocks.len() {
            let j = k - head.len() - plan.len();
            assert(clocks[j] == f);
            assert(clocks[j] == Field::Clock(j as usize));
        }
    }
}

fn push_planning_fields(out: &mut Vec<Field>, planning: &Option<OrgPlanning>)
    ensures
        final(out)@ == old(out)@ + planning_fields(opt_planning(*planning)),
{
    match planning {
        Some(p) => {
            if p.scheduled.is_some() {
                out.push(Field::Scheduled);
            }
            let ghost first = out@;
            assert(first == old(out)@ + one_field(p@.scheduled is Some, Field::Scheduled));
            if p.deadline.is_some() {
                out.push(Field::Deadline);
            }
            let ghost second = out@;
            assert(second == first + one_field(p@.deadline is Some, Field::Deadline));
            if p.closed.is_some() {
                out.push(Field::Closed);
            }
            assert(out@ == second + one_field(p@.closed is Some, Field::Closed));
            assert(out@ == old(out)@ + planning_fields(Some(p@)));
        },
        None => {
            assert(out@ == old(out)@ + Seq::<Field>::empty());
        },
    }
}

fn push_clock_fields(out: &mut Vec<Field>, logbook: &Option<OrgLogbook>)
    ensures
        final(out)@ == old(out)@ + clock_fields(opt_logbook(*logbook)),
{
    match logbook {
        Some(l) => {
            let mut i: usize = 0;
            assert(out@ == old(out)@ + Seq::new(0, |k: int| Field::Clock(k as usize)));
            while i < l.clock_entries.len()
                invariant
                    i <= l.clock_entries.len(),
                    out@ == old(out)@ + Seq::new(i as nat, |k: int| Field::Clock(k as usize)),
                decreases l.clock_entries.len() - i,
            {
                out.push(Field::Clock(i));
                i += 1;
                assert(out@ == old(out)@ + Seq::new(i as nat, |k: int| Field::Clock(k as usize)));
            }
            assert(l@.clock_entries.len() == l.clock_entries.len());
        },
        None => {
            assert(out@ == old(out)@ + Seq::<Field>::empty());
        },
    }
}

/// The fields that the note shows, in order.
pub fn visible_fields_of(note: &OrgNote) -> (out: Vec<Field>)
    ensures
        out@ == visible_fields(note@),
{
    let mut out: Vec<Field> = Vec::new();
    if note.status.is_some() {
        out.push(Field::Status);
    }
    let ghost first = out@;
    assert(first == one_field(note@.status is Some, Field::Status));
    out.push(Field::Title);
    if note.labels.len() > 0 {
        out.push(Field::Labels);
    }
    let ghost head = out@;
    assert(head == first + seq![Field::Title] + one_field(
        note@.labels.len() > 0,
        Field::Labels,
    ));
    push_planning_fields(&mut out, &note.planning);
    push_clock_fields(&mut out, &note.logbook);
    out.push(Field::Content);
    out
}

/// The number of fields that the note shows.
pub fn count_visible_fields(note: &OrgNote) -> (n: usize)
    ensures
        n == visible_fields(note@).len(),
{
    visible_fields_of(note).len()
}

/// The field that the note shows at `index`.
pub fn field_at_index(note: &OrgNote, index: usize) -> (r: Option<Field>)
    ensures
        r == field_at(note@, index as nat),
        r matches Some(f) ==> is_backed(note@, f),
{
    let all = visible_fields_of(note);
    if index < all.len() {
        proof {
            lemma_visible(note@);
            assert(visible_fields(note@).contains(all@[index as int]));
        }
        Some(all[index])
    } else {
        None
    }
}

fn labels_chars(labels: &Vec<String>) -> (out: Vec<char>)
    ensures
        out@ == labels_text(strings(labels@)),
{
    let mut tags: Vec<Vec<char>> = Vec::new();
    let mut i: usize = 0;
    while i < labels.len()
        invariant
            i <= labels.len(),
            tags.len() == i,
            forall|j: int| 0 <= j < i ==> tags@[j]@ == labels@[j]@,
        decreases labels.len() - i,
    {
        tags.push(chars_of(labels[i].as_str()));
        i += 1;
    }
    assert(texts(tags@) == strings(labels@));
    let mut out: Vec<char> = Vec::new();
    out.push(':');
    push_all(&mut out, &join_chars(&tags, ':'));
    out.push(':');
    out
}

fn prefixed(prefix: &str, text: &Vec<char>) -> (out: Vec<char>)
    ensures
        out@ == prefix@ + text@,
{
    let mut out = chars_of(prefix);
    push_all(&mut out, text);
    out
}

fn raw_of(t: &Option<OrgTimestamp>) -> (out: Vec<char>)
    requires
        t is Some,
    ensures
        out@ == t->0@.raw,
{
    match t {
        Some(t) => chars_of(t.raw.as_str()),
        None => Vec::new(),
    }
}

/// The characters that the status line shows for `field` of `note`.
fn field_name_chars(note: &OrgNote, field: Option<Field>) -> (out: Vec<char>)
    requires
        field matches Some(f) ==> is_backed(note@, f),
    ensures
        out@ == field_name(note@, field),
{
    match field {
        Some(Field::Status) => match &note.status {
            Some(s) => prefixed("Status: ", &chars_of(s.as_str())),
            None => Vec::new(),
        },
        Some(Field::Title) => prefixed("Title: ", &chars_of(note.title.as_str())),
        Some(Field::Labels) => prefixed("Labels: ", &labels_chars(&note.labels)),
        Some(Field::Scheduled) => match &note.planning {
            Some(p) => prefixed("Scheduled: ", &raw_of(&p.scheduled)),
            None => Vec::new(),
        },
        Some(Field::Deadline) => match &note.planning {
            Some(p) => prefixed("Deadline: ", &raw_of(&p.deadline)),
            None => Vec::new(),
        },
        Some(Field::Closed) => match &note.planning {
            Some(p) => prefixed("Closed: ", &raw_of(&p.closed)),
            None => Vec::new(),
        },
        Some(Field::Clock(i)) => match &note.logbook {
            Some(l) => {
                let entry = &l.clock_entries[i];
                let mut out = chars_of("Clock ");
                assert(i < l.clock_entries.len());
                push_all(&mut out, &decimal_chars(i as u64 + 1));
                push_all(&mut out, &chars_of(": "));
                push_all(&mut out, &chars_of(entry.start.to_datetime_string().as_str()));
                match &entry.duration {
                    Some(d) => {
                        push_all(&mut out, &chars_of(" => "));
                        push_all(&mut out, &chars_of(d.as_str()));
                        assert(out@ == "Clock "@ + decimal((i + 1) as nat) + ": "@
                            + datetime_text(entry@.start) + (" => "@ + d@));
                    },
                    None => {
                        push_all(&mut out, &chars_of(" (running)"));
                    },
                }
                out
            },
            None => Vec::new(),
        },
        Some(Field::Content) => chars_of("Content"),
        None => chars_of("Unknown field"),
    }
}

/// What the status line says of the field at `index`.
pub fn get_field_name_at_index(note: &OrgNote, index: usize) -> (r: String)
    ensures
        r@ == field_name(note@, field_at(note@, index as nat)),
{
    let field = field_at_index(note, index);
    string_of(&field_name_chars(note, field))
}

fn start_of(mode: EditMode, buffer: &Vec<char>, name: &str) -> (r: EditStart)
    ensures
        r@ == (EditStartView { mode, buffer: buffer@, message: editing_message(name@) }),
{
    let mut message = chars_of("Editing ");
    push_all(&mut message, &chars_of(name));
    push_all(&mut message, &chars_of(" - Press Enter to save, Esc to cancel"));
    EditStart { mode, buffer: string_of(buffer), message: string_of(&message) }
}

/// How the edit of the field at `index` begins; `None` where the note
/// shows no such field.
pub fn start_editing(note: &OrgNote, index: usize) -> (r: Option<EditStart>)
    ensures
        opt_edit_start(r) == edit_start(note@, field_at(note@, index as nat)),
{
    match field_at_index(note, index) {
        Some(Field::Status) => match &note.status {
            Some(s) => Some(start_of(EditMode::Status, &chars_of(s.as_str()), "Status")),
            None => None,
        },
        Some(Field::Title) => Some(
            start_of(EditMode::Title, &chars_of(note.title.as_str()), "Title"),
        ),
        Some(Field::Labels) => Some(
            start_of(EditMode::Labels, &labels_chars(&note.labels), "Labels"),
        ),
        Some(Field::Scheduled) => match &note.planning {
            Some(p) => Some(start_of(EditMode::Scheduled, &raw_of(&p.scheduled), "Scheduled")),
            None => None,
        },
        Some(Field::Deadline) => match &note.planning {
            Some(p) => Some(start_of(EditMode::Deadline, &raw_of(&p.deadline), "Deadline")),
            None => None,
        },
        Some(Field::Closed) => match &note.planning {
            Some(p) => Some(start_of(EditMode::Closed, &raw_of(&p.closed), "Closed")),
            None => None,
        },
        Some(Field::Clock(i)) => match &note.logbook {
            Some(l) => {
                assert(i < l.clock_entries.len());
                let mut message = chars_of("Editing Clock Entry ");
                push_all(&mut message, &decimal_chars(i as u64 + 1));
                push_all(&mut message, &chars_of(" - Press Esc to save, Enter for new line"));
                Some(
                    EditStart {
                        mode: EditMode::Content,
                        buffer: l.clock_entries[i].raw.clone(),
                        message: string_of(&message),
                    },
                )
            },
            None => None,
        },
        Some(Field::Content) => Some(
            start_of(EditMode::Content, &chars_of(note.content.as_str()), "Content"),
        ),
        None => None,
    }
}

} // verus!
