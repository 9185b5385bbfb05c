//! A summary of an outline: the minutes tracked in its clock logs, and how
//! many of its notes are done, active, scheduled and overdue.

use crate::clock::total_minutes;
use crate::model::{lemma_children_view, notes, NoteView, OrgNote};
use crate::text::same_chars;
use crate::unicode::chars_of;
use vstd::prelude::*;

verus! {

/// The five counts of a summary, as they fit the machine.
#[derive(Debug, Clone, Copy, PartialEq, Eq, Structural)]
pub struct TimeStats {
    pub total_minutes: u32,
    pub completed: u32,
    pub active: u32,
    pub scheduled: u32,
    pub overdue: u32,
}

/// The five counts of a summary.
pub struct Tally {
    pub total_minutes: nat,
    pub completed: nat,
    pub active: nat,
    pub scheduled: nat,
    pub overdue: nat,
}

impl View for TimeStats {
    type V = Tally;

    open spec fn view(&self) -> Tally {
        Tally {
            total_minutes: self.total_minutes as nat,
            completed: self.completed as nat,
            active: self.active as nat,
            scheduled: self.scheduled as nat,
            overdue: self.overdue as nat,
        }
    }
}

/// The sum of two summaries, count by count.
pub open spec fn plus(a: Tally, b: Tally) -> Tally {
    Tally {
        total_minutes: a.total_minutes + b.total_minutes,
        completed: a.completed + b.completed,
        active: a.active + b.active,
        scheduled: a.scheduled + b.scheduled,
        overdue: a.overdue + b.overdue,
    }
}

/// The summary of no notes.
pub open spec fn nothing() -> Tally {
    Tally { total_minutes: 0, completed: 0, active: 0, scheduled: 0, overdue: 0 }
}

/// Each count fits 32 bits.
pub open spec fn fits(t: Tally) -> bool {
    t.total_minutes <= u32::MAX && t.completed <= u32::MAX && t.active <= u32::MAX && t.scheduled
        <= u32::MAX && t.overdue <= u32::MAX
}

/// One if `b` holds, else zero.
pub open spec fn one_if(b: bool) -> nat {
    if b {
        1
    } else {
        0
    }
}

/// A note counts as done with the status `DONE`.
pub open spec fn is_done(note: NoteView) -> bool {
    note.status == Some("DONE"@)
}

/// A note counts as active with the status `TODO` or `IN-PROGRESS`.
pub open spec fn is_active(note: NoteView) -> bool {
    note.status == Some("TODO"@) || note.status == Some("IN-PROGRESS"@)
}

/// A note counts as scheduled with a scheduled timestamp.
pub open spec fn is_scheduled(note: NoteView) -> bool {
    note.planning matches Some(p) && p.scheduled is Some
}

/// A note counts as overdue with a deadline before December 2024.
pub open spec fn is_overdue(note: NoteView) -> bool {
    note.planning matches Some(p) && p.deadline matches Some(d) && (d.year < 2024 || (d.year
        == 2024 && d.month < 12))
}

/// What one note adds to the summary, without its children.
pub open spec fn note_tally(note: NoteView) -> Tally {
    Tally {
        total_minutes: match note.logbook {
            Some(l) => total_minutes(l.clock_entries),
            None => 0,
        },
        completed: one_if(is_done(note)),
        active: one_if(is_active(note)),
        scheduled: one_if(is_scheduled(note)),
        overdue: one_if(is_overdue(note)),
    }
}

/// The summary of a note and all below it.
pub open spec fn tree_tally(note: NoteView) -> Tally
    decreases note, 0nat,
{
    plus(note_tally(note), forest_tally(note.children))
}

/// The summary of a list of notes and all below them.
pub open spec fn forest_tally(list: Seq<NoteView>) -> Tally
    decreases list, 1nat,
{
    if list.len() == 0 {
        nothing()
    } else {
        plus(tree_tally(list[0]), forest_tally(list.drop_first()))
    }
}

fn status_is(note: &OrgNote, word: &str) -> (b: bool)
    ensures
        b == (note@.status == Some(word@)),
{
    match &note.status {
        Some(s) => same_chars(&chars_of(s.as_str()), &chars_of(word)),
        None => false,
    }
}

fn bump(count: u32, by: bool) -> (r: Option<u32>)
    ensures
        match r {
            Some(n) => n == count + one_if(by),
            None => count + one_if(by) > u32::MAX,
        },
{
    if by {
        count.checked_add(1)
    } else {
        Some(count)
    }
}

/// `acc` and what `note` itself adds, where it fits.
fn add_note_tally(note: &OrgNote, acc: TimeStats) -> (r: Option<TimeStats>)
    ensures
        match r {
            Some(s) => s@ == plus(acc@, note_tally(note@)),
            None => !fits(plus(acc@, note_tally(note@))),
        },
{
    let minutes: u32 = match &note.logbook {
        Some(l) => match l.checked_total_minutes() {
            Some(m) => m,
            None => {
                return None;
            },
        },
        None => 0,
    };
    let total_minutes = match acc.total_minutes.checked_add(minutes) {
        Some(t) => t,
        None => {
            return None;
        },
    };
    let done = status_is(note, "DONE");
    let active = status_is(note, "TODO") || status_is(note, "IN-PROGRESS");
    let scheduled = match &note.planning {
        Some(p) => p.scheduled.is_some(),
        None => false,
    };
    let overdue = match &note.planning {
        Some(p) => match &p.deadline {
            Some(d) => d.year < 2024 || (d.year == 2024 && d.month < 12),
            None => false,
        },
        None => false,
    };
    match (
        bump(acc.completed, done),
        bump(acc.active, active),
        bump(acc.scheduled, scheduled),
        bump(acc.overdue, overdue),
    ) {
        (Some(completed), Some(active), Some(scheduled), Some(overdue)) => Some(
            TimeStats { total_minutes, completed, active, scheduled, overdue },
        ),
        _ => None,
    }
}

/// `acc` and the summary of `list`, where it fits.
fn tally_into(list: &Vec<OrgNote>, acc: TimeStats) -> (r: Option<TimeStats>)
    ensures
        match r {
            Some(s) => s@ == plus(acc@, forest_tally(notes(list@))),
            None => !fits(plus(acc@, forest_tally(notes(list@)))),
        },
    decreases list,
{
    let ghost all = notes(list@);
    let mut sum = acc;
    let mut i: usize = 0;
    assert(all.skip(0) == all);
    while i < list.len()
        invariant
            i <= list.len(),
            all == notes(list@),
            plus(sum@, forest_tally(all.skip(i as int))) == plus(acc@, forest_tally(all)),
        decreases list.len() - i,
    {
        let note = &list[i];
        proof {
            assert(all.skip(i as int)[0] == note@);
            assert(all.skip(i as int).drop_first() == all.skip(i + 1));
            lemma_children_view(*note);
            assert(tree_tally(note@) == plus(note_tally(note@), forest_tally(note@.children)));
        }
        match add_note_tally(note, sum) {
            Some(with_note) => match tally_into(&note.children, with_note) {
                Some(with_tree) => {
                    sum = with_tree;
                },
                None => {
                    return None;
                },
            },
            None => {
                return None;
            },
        }
        i += 1;
    }
    Some(sum)
}

/// The summary of the outline; `None` where a count does not fit 32 bits.
pub fn collect_time_stats(list: &Vec<OrgNote>) -> (r: Option<TimeStats>)
    ensures
        match r {
            Some(s) => s@ == forest_tally(notes(list@)),
            None => !fits(forest_tally(notes(list@))),
        },
{
    let zero = TimeStats { total_minutes: 0, completed: 0, active: 0, scheduled: 0, overdue: 0 };
    tally_into(list, zero)
}

} // verus!
