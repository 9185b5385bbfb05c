//! Edits that take the present moment from the machine's clock.

use crate::editor::{
    admits_at, applied_at, apply_at, edit_allowed_at, is_clock_reading, Edit, EditView, Moment,
    MomentView, PlanningRole,
};
use crate::model::{all_well_formed, notes, NoteView, OrgNote};
use crate::outline::{forest_size, lemma_note_in_forest};
use chrono::{Datelike, Timelike};
use vstd::prelude::*;

verus! {

/// An edit that is made at the present moment.
#[derive(Debug, Clone, Copy, PartialEq, Eq, Structural)]
pub enum Stamp {
    /// Start a clock.
    ClockIn,
    /// Stop the running clock.
    ClockOut,
    /// Set the planning timestamp of the role.
    Plan(PlanningRole),
}

/// The edit that `stamp` is at the moment `m`.
pub open spec fn stamped(stamp: Stamp, m: MomentView) -> EditView {
    match stamp {
        Stamp::ClockIn => EditView::ClockIn(m),
        Stamp::ClockOut => EditView::ClockOut(m),
        Stamp::Plan(role) => EditView::Plan(role, m),
    }
}

/// What `apply_now` leaves where the present moment is `m`: the edit is
/// made if the outline has the position and admits the edit there, and
/// nothing is changed otherwise.
pub open spec fn stamped_at(
    before: Seq<NoteView>,
    after: Seq<NoteView>,
    target: nat,
    stamp: Stamp,
    m: MomentView,
    done: bool,
) -> bool {
    if target < forest_size(before) && admits_at(before, target, stamped(stamp, m)) {
        done && after == applied_at(before, target, stamped(stamp, m))
    } else {
        !done && after == before
    }
}

/// The present moment of local time, read from `chrono::Local::now` with
/// the accessors of `chrono::Datelike` and `chrono::Timelike`, and the
/// short weekday name as `format("%a")` writes it. Believed of chrono, not
/// proved: the month lies from 1 to 12, the day from 1 to 31, the hour
/// from 0 to 23 and the minute from 0 to 59. Nothing is claimed of the year
/// or of the name.
#[verifier::external_body]
pub(crate) fn local_now() -> (m: Moment)
    ensures
        is_clock_reading(m@),
{
    let now = chrono::Local::now();
    Moment {
        year: now.year() as u32,
        month: now.month(),
        day: now.day(),
        hour: now.hour(),
        minute: now.minute(),
        day_name: now.format("%a").to_string(),
    }
}

/// Makes `stamp` at the present moment on the note at position `target`.
/// Tells whether it was made: the outline must have the position, and a
/// clock can only be stopped where the time since its start is not
/// negative.
pub fn apply_now(list: &mut Vec<OrgNote>, target: usize, stamp: Stamp) -> (done: bool)
    ensures
        exists|m: MomentView|
            is_clock_reading(m) && #[trigger] stamped_at(
                notes(old(list)@),
                notes(final(list)@),
                target as nat,
                stamp,
                m,
                done,
            ),
        all_well_formed(notes(old(list)@)) ==> all_well_formed(notes(final(list)@)),
{
    let now = local_now();
    let done = apply_stamp(list, target, stamp, &now);
    assert(stamped_at(notes(old(list)@), notes(list@), target as nat, stamp, now@, done));
    done
}

/// Makes `stamp` at the moment `now` on the note at position `target`.
/// Tells whether it was made.
pub fn apply_stamp(list: &mut Vec<OrgNote>, target: usize, stamp: Stamp, now: &Moment) -> (done:
    bool)
    ensures
        stamped_at(notes(old(list)@), notes(final(list)@), target as nat, stamp, now@, done),
        all_well_formed(notes(old(list)@)) ==> all_well_formed(notes(final(list)@)),
{
    let edit = match stamp {
        Stamp::ClockIn => Edit::ClockIn(now),
        Stamp::ClockOut => Edit::ClockOut(now),
        Stamp::Plan(role) => Edit::Plan(role, now),
    };
    proof {
        assert(edit@ == stamped(stamp, now@));
        lemma_note_in_forest(notes(list@), target as nat);
    }
    if edit_allowed_at(list, target, &edit) {
        apply_at(list, target, &edit)
    } else {
        false
    }
}

} // verus!
