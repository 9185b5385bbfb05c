//! Edits of one note: starting and stopping its clock, setting a planning
//! timestamp to a given moment, and committing the text of a field.

use crate::model::{
    all_well_formed, entries, is_well_formed, is_well_formed_entry, lemma_children_view, notes,
    strings, ClockEntryView, LogbookView, NoteView, OrgClockEntry, OrgLogbook, OrgNote, OrgPlanning,
    OrgTimestamp, PlanningView, TimestampView,
};
use crate::number::{decimal, decimal_chars, zero_padded, zero_padded_chars};
use crate::outline::{
    find_note_by_flat_index, forest_size, forest_with, lemma_forest_with_well_formed,
    lemma_note_in_forest, note_in_forest, note_in_tree, tree_size, tree_with,
};
use crate::text::{copy_range, push_all, split_chars, split_on, texts};
use crate::timestamp::{lemma_timestamp_shape, timestamp, timestamp_of};
use crate::unicode::{chars_of, string_of};
use vstd::prelude::*;

verus! {

/// A moment of local time: a date, a time of day, and the short name of
/// the weekday.
#[derive(Debug)]
pub struct Moment {
    pub year: u32,
    pub month: u32,
    pub day: u32,
    pub hour: u32,
    pub minute: u32,
    pub day_name: String,
}

/// The value of a moment.
pub struct MomentView {
    pub year: u32,
    pub month: u32,
    pub day: u32,
    pub hour: u32,
    pub minute: u32,
    pub day_name: Seq<char>,
}

impl View for Moment {
    type V = MomentView;

    open spec fn view(&self) -> MomentView {
        MomentView {
            year: self.year,
            month: self.month,
            day: self.day,
            hour: self.hour,
            minute: self.minute,
            day_name: self.day_name@,
        }
    }
}

/// The three roles of a planning timestamp.
#[derive(Debug, Clone, Copy, PartialEq, Eq, Structural)]
pub enum PlanningRole {
    Scheduled,
    Deadline,
    Closed,
}

/// The field that an edit is for.
#[derive(Debug, Clone, Copy, PartialEq, Eq, Structural)]
pub enum EditMode {
    Idle,
    Status,
    Title,
    Labels,
    Content,
    Scheduled,
    Deadline,
    Closed,
}

/// Hour and minute of `m` are a time of day.
pub open spec fn is_time_of_day(m: MomentView) -> bool {
    m.hour < 24 && m.minute < 60
}

/// `m` is a reading of a clock: a month of the year, a day of a month, and
/// a time of day.
pub open spec fn is_clock_reading(m: MomentView) -> bool {
    1 <= m.month <= 12 && 1 <= m.day <= 31 && is_time_of_day(m)
}

/// Date, weekday and time of `m`, as they stand between brackets: the
/// fields padded with zeros, the year to `year_width` characters.
pub open spec fn moment_text(m: MomentView, year_width: nat) -> Seq<char> {
    zero_padded(m.year as nat, year_width) + seq!['-'] + zero_padded(m.month as nat, 2) + seq!['-']
        + zero_padded(m.day as nat, 2) + seq![' '] + m.day_name + seq![' '] + zero_padded(
        m.hour as nat,
        2,
    ) + seq![':'] + zero_padded(m.minute as nat, 2)
}

/// `m` as the timestamp of a clock line: in square brackets, the year
/// padded to four characters.
pub open spec fn clock_stamp_text(m: MomentView) -> Seq<char> {
    seq!['['] + moment_text(m, 4) + seq![']']
}

/// `m` as a planning timestamp: in angle brackets, the year as it is.
pub open spec fn planning_stamp_text(m: MomentView) -> Seq<char> {
    seq!['<'] + moment_text(m, 1) + seq!['>']
}

/// The timestamp of the moment `m`, with `raw` as its text.
pub open spec fn stamp(m: MomentView, raw: Seq<char>) -> TimestampView {
    TimestampView {
        year: m.year,
        month: m.month,
        day: m.day,
        hour: Some(m.hour),
        minute: Some(m.minute),
        day_name: Some(m.day_name),
        raw,
    }
}

/// The entry of a clock started at `m`: running, without end or duration.
pub open spec fn opened_entry(m: MomentView) -> ClockEntryView {
    ClockEntryView {
        start: stamp(m, clock_stamp_text(m)),
        end: None,
        duration: None,
        raw: "CLOCK: "@ + clock_stamp_text(m),
    }
}

/// `note` with a clock started at `m`: one more entry at the end of its
/// log, in a new log if it had none.
pub open spec fn clocked_in(note: NoteView, m: MomentView) -> NoteView {
    NoteView {
        logbook: Some(
            match note.logbook {
                Some(l) => LogbookView {
                    clock_entries: l.clock_entries.push(opened_entry(m)),
                    raw_content: l.raw_content,
                },
                None => LogbookView {
                    clock_entries: seq![opened_entry(m)],
                    raw_content: Seq::empty(),
                },
            },
        ),
        ..note
    }
}

/// The index of the first entry that is still running.
pub open spec fn first_open(log: Seq<ClockEntryView>) -> Option<int>
    decreases log.len(),
{
    if log.len() == 0 {
        None
    } else {
        match first_open(log.drop_last()) {
            Some(i) => Some(i),
            None => if log.last().end is None {
                Some(log.len() - 1)
            } else {
                None
            },
        }
    }
}

/// The minute of the day, where an absent hour or minute counts as zero.
pub open spec fn minute_of_day(hour: Option<u32>, minute: Option<u32>) -> int {
    (match hour {
        Some(h) => h as int,
        None => 0,
    }) * 60 + (match minute {
        Some(m) => m as int,
        None => 0,
    })
}

/// The minutes from `start` to `end`, both minutes of the day; an end
/// before the start lies on the next day.
pub open spec fn elapsed(start: int, end: int) -> int {
    if end >= start {
        end - start
    } else {
        24 * 60 - start + end
    }
}

/// The minutes that closing `e` at `m` gives.
pub open spec fn closing_minutes(e: ClockEntryView, m: MomentView) -> int {
    elapsed(
        minute_of_day(e.start.hour, e.start.minute),
        minute_of_day(Some(m.hour), Some(m.minute)),
    )
}

/// A duration as `H:MM`.
pub open spec fn duration_string(minutes: nat) -> Seq<char> {
    decimal(minutes / 60) + seq![':'] + zero_padded(minutes % 60, 2)
}

/// The entry `e` closed at `m`: the end, the duration from start to end,
/// and a line made of the start as it was read, the end and the duration.
pub open spec fn closed_entry(e: ClockEntryView, m: MomentView) -> ClockEntryView {
    let duration = duration_string(closing_minutes(e, m) as nat);
    ClockEntryView {
        start: e.start,
        end: Some(stamp(m, clock_stamp_text(m))),
        duration: Some(duration),
        raw: e.start.raw + "--"@ + clock_stamp_text(m) + " =>  "@ + duration,
    }
}

/// The first running entry of `note`, if it has one.
pub open spec fn running_entry(note: NoteView) -> Option<ClockEntryView> {
    match note.logbook {
        Some(l) => match first_open(l.clock_entries) {
            Some(i) => Some(l.clock_entries[i]),
            None => None,
        },
        None => None,
    }
}

/// The clock of `note` can be stopped at `m`: the time from the start of
/// its first running entry to `m` is not negative.
pub open spec fn can_clock_out(note: NoteView, m: MomentView) -> bool {
    is_time_of_day(m) && match running_entry(note) {
        Some(e) => closing_minutes(e, m) >= 0,
        None => true,
    }
}

/// `note` with its first running entry closed at `m`; `note` itself where
/// no entry is running.
pub open spec fn clocked_out(note: NoteView, m: MomentView) -> NoteView {
    match note.logbook {
        Some(l) => match first_open(l.clock_entries) {
            Some(i) => NoteView {
                logbook: Some(
                    LogbookView {
                        clock_entries: l.clock_entries.update(
                            i,
                            closed_entry(l.clock_entries[i], m),
                        ),
                        raw_content: l.raw_content,
                    },
                ),
                ..note
            },
            None => note,
        },
        None => note,
    }
}

/// Planning without a value in any role.
pub open spec fn empty_planning() -> PlanningView {
    PlanningView { scheduled: None, deadline: None, closed: None }
}

/// `planning` with `value` in the given role; an absent planning counts as
/// one without values.
pub open spec fn with_role(planning: Option<PlanningView>, role: PlanningRole, value: TimestampView)
    -> PlanningView {
    let p = match planning {
        Some(p) => p,
        None => empty_planning(),
    };
    match role {
        PlanningRole::Scheduled => PlanningView { scheduled: Some(value), ..p },
        PlanningRole::Deadline => PlanningView { deadline: Some(value), ..p },
        PlanningRole::Closed => PlanningView { closed: Some(value), ..p },
    }
}

/// `note` with the planning timestamp of `role` set to the moment `m`.
pub open spec fn planned_at(note: NoteView, role: PlanningRole, m: MomentView) -> NoteView {
    NoteView {
        planning: Some(with_role(note.planning, role, stamp(m, planning_stamp_text(m)))),
        ..note
    }
}

/// `s` without the colons it begins with.
pub open spec fn without_leading_colons(s: Seq<char>) -> Seq<char>
    decreases s.len(),
{
    if s.len() > 0 && s[0] == ':' {
        without_leading_colons(s.drop_first())
    } else {
        s
    }
}

/// `s` without the colons it ends with.
pub open spec fn without_trailing_colons(s: Seq<char>) -> Seq<char>
    decreases s.len(),
{
    if s.len() > 0 && s.last() == ':' {
        without_trailing_colons(s.drop_last())
    } else {
        s
    }
}

/// The tags that an edited run of tags holds: stripped of the colons
/// around it and split at each colon within; none where nothing is left.
pub open spec fn edited_labels(text: Seq<char>) -> Seq<Seq<char>> {
    let inner = without_trailing_colons(without_leading_colons(text));
    if inner.len() == 0 {
        Seq::empty()
    } else {
        split_on(inner, ':')
    }
}

/// `note` with the planning timestamp of `role` read from `text`; `note`
/// itself where `text` is no timestamp.
pub open spec fn planned_from(note: NoteView, role: PlanningRole, text: Seq<char>) -> NoteView {
    match timestamp(text) {
        Some(t) => NoteView { planning: Some(with_role(note.planning, role, t)), ..note },
        None => note,
    }
}

/// `note` after the edit of one field is committed with `text`.
pub open spec fn edited(note: NoteView, mode: EditMode, text: Seq<char>) -> NoteView {
    match mode {
        EditMode::Idle => note,
        EditMode::Status => NoteView {
            status: if text.len() == 0 {
                None
            } else {
                Some(text)
            },
            ..note
        },
        EditMode::Title => NoteView { title: text, ..note },
        EditMode::Labels => NoteView { labels: edited_labels(text), ..note },
        EditMode::Content => NoteView { content: text, ..note },
        EditMode::Scheduled => planned_from(note, PlanningRole::Scheduled, text),
        EditMode::Deadline => planned_from(note, PlanningRole::Deadline, text),
        EditMode::Closed => planned_from(note, PlanningRole::Closed, text),
    }
}

fn moment_chars(m: &Moment, year_width: usize) -> (out: Vec<char>)
    ensures
        out@ == moment_text(m@, year_width as nat),
{
    let mut out = zero_padded_chars(m.year as u64, year_width);
    out.push('-');
    push_all(&mut out, &zero_padded_chars(m.month as u64, 2));
    out.push('-');
    push_all(&mut out, &zero_padded_chars(m.day as u64, 2));
    out.push(' ');
    push_all(&mut out, &chars_of(m.day_name.as_str()));
    out.push(' ');
    push_all(&mut out, &zero_padded_chars(m.hour as u64, 2));
    out.push(':');
    push_all(&mut out, &zero_padded_chars(m.minute as u64, 2));
    out
}

fn bracketed_moment(m: &Moment, year_width: usize, open: char, close: char) -> (out: Vec<char>)
    ensures
        out@ == seq![open] + moment_text(m@, year_width as nat) + seq![close],
{
    let mut out: Vec<char> = Vec::new();
    out.push(open);
    push_all(&mut out, &moment_chars(m, year_width));
    out.push(close);
    out
}

fn stamp_of(m: &Moment, raw: &Vec<char>) -> (t: OrgTimestamp)
    ensures
        t@ == stamp(m@, raw@),
{
    OrgTimestamp {
        year: m.year,
        month: m.month,
        day: m.day,
        hour: Some(m.hour),
        minute: Some(m.minute),
        day_name: Some(m.day_name.clone()),
        raw: string_of(raw),
    }
}

/// Starts a clock on `note` at the moment `now`.
pub fn clock_in(note: &mut OrgNote, now: &Moment)
    ensures
        final(note)@ == clocked_in(old(note)@, now@),
        is_well_formed(old(note)@) ==> is_well_formed(final(note)@),
{
    proof {
        if is_well_formed(note@) {
            lemma_applied_well_formed(note@, EditView::ClockIn(now@));
        }
    }
    let text = bracketed_moment(now, 4, '[', ']');
    let mut line = chars_of("CLOCK: ");
    push_all(&mut line, &text);
    let entry = OrgClockEntry {
        start: stamp_of(now, &text),
        end: None,
        duration: None,
        raw: string_of(&line),
    };
    let ghost before = *note;
    proof {
        lemma_children_view(before);
    }
    match &mut note.logbook {
        Some(l) => {
            l.clock_entries.push(entry);
        },
        None => {
            let mut log: Vec<OrgClockEntry> = Vec::new();
            log.push(entry);
            note.logbook = Some(OrgLogbook { clock_entries: log, raw_content: Vec::new() });
        },
    }
    proof {
        lemma_children_view(*note);
        match before.logbook {
            Some(l) => {
                assert(note.logbook->0.clock_entries@ == l.clock_entries@.push(entry));
                assert(entries(note.logbook->0.clock_entries@) == entries(l.clock_entries@).push(
                    entry@,
                ));
            },
            None => {
                assert(entries(note.logbook->0.clock_entries@) == seq![entry@]);
                assert(strings(note.logbook->0.raw_content@) == Seq::<Seq<char>>::empty());
            },
        }
    }
}

/// Where every entry before `i` has an end and entry `i` has none, `i` is
/// the first running entry; where all have an end, none is running.
pub proof fn lemma_first_open(log: Seq<ClockEntryView>, i: int)
    requires
        0 <= i <= log.len(),
        forall|j: int| 0 <= j < i ==> (#[trigger] log[j]).end is Some,
        i < log.len() ==> log[i].end is None,
    ensures
        first_open(log) == if i < log.len() {
            Some(i)
        } else {
            None
        },
    decreases log.len(),
{
    if log.len() > 0 {
        if i < log.len() - 1 {
            lemma_first_open(log.drop_last(), i);
        } else {
            lemma_first_open(log.drop_last(), log.len() - 1);
        }
    }
}

fn duration_chars(minutes: u32) -> (out: Vec<char>)
    ensures
        out@ == duration_string(minutes as nat),
{
    let mut out = decimal_chars((minutes / 60) as u64);
    out.push(':');
    push_all(&mut out, &zero_padded_chars((minutes % 60) as u64, 2));
    out
}

fn find_running(log: &Vec<OrgClockEntry>) -> (r: Option<usize>)
    ensures
        match r {
            Some(i) => first_open(entries(log@)) == Some(i as int) && i < log.len(),
            None => first_open(entries(log@)) is None,
        },
{
    let mut i: usize = 0;
    while i < log.len()
        invariant
            i <= log.len(),
            forall|j: int| 0 <= j < i ==> (#[trigger] entries(log@)[j]).end is Some,
        decreases log.len() - i,
    {
        if log[i].end.is_none() {
            proof {
                lemma_first_open(entries(log@), i as int);
            }
            return Some(i);
        }
        i += 1;
    }
    proof {
        lemma_first_open(entries(log@), log.len() as int);
    }
    None
}

/// Whether `note` has a running entry.
pub fn has_running_entry(note: &OrgNote) -> (b: bool)
    ensures
        b == (running_entry(note@) is Some),
{
    match &note.logbook {
        Some(l) => find_running(&l.clock_entries).is_some(),
        None => false,
    }
}

/// Whether the clock of `note` can be stopped at `now`.
pub fn clock_out_allowed(note: &OrgNote, now: &Moment) -> (b: bool)
    ensures
        b == can_clock_out(note@, now@),
{
    if !(now.hour < 24 && now.minute < 60) {
        return false;
    }
    match &note.logbook {
        Some(l) => match find_running(&l.clock_entries) {
            Some(i) => {
                let start = minutes_from_midnight(&l.clock_entries[i].start);
                let end: u64 = now.hour as u64 * 60 + now.minute as u64;
                end >= start || start <= 24 * 60 + end
            },
            None => true,
        },
        None => true,
    }
}

fn minutes_from_midnight(t: &OrgTimestamp) -> (r: u64)
    ensures
        r == minute_of_day(t@.hour, t@.minute),
{
    let h: u64 = match t.hour {
        Some(h) => h as u64,
        None => 0,
    };
    let m: u64 = match t.minute {
        Some(m) => m as u64,
        None => 0,
    };
    h * 60 + m
}

/// Stops the clock of `note` at the moment `now`: closes its first running
/// entry. Tells whether there was one.
pub fn clock_out(note: &mut OrgNote, now: &Moment) -> (stopped: bool)
    requires
        can_clock_out(old(note)@, now@),
    ensures
        final(note)@ == clocked_out(old(note)@, now@),
        stopped == (running_entry(old(note)@) is Some),
        is_well_formed(old(note)@) ==> is_well_formed(final(note)@),
{
    proof {
        if is_well_formed(note@) {
            lemma_applied_well_formed(note@, EditView::ClockOut(now@));
        }
    }
    let ghost before = *note;
    proof {
        lemma_children_view(before);
    }
    let stopped = match &mut note.logbook {
        Some(l) => match find_running(&l.clock_entries) {
            Some(i) => {
                let ghost old_log = entries(l.clock_entries@);
                let start = minutes_from_midnight(&l.clock_entries[i].start);
                let end: u64 = now.hour as u64 * 60 + now.minute as u64;
                let minutes: u64 = if end >= start {
                    end - start
                } else {
                    24 * 60 + end - start
                };
                let text = bracketed_moment(now, 4, '[', ']');
                let duration = duration_chars(minutes as u32);
                let mut line = chars_of(l.clock_entries[i].start.raw.as_str());
                push_all(&mut line, &chars_of("--"));
                push_all(&mut line, &text);
                push_all(&mut line, &chars_of(" =>  "));
                push_all(&mut line, &duration);
                let entry = OrgClockEntry {
                    start: l.clock_entries[i].start.clone(),
                    end: Some(stamp_of(now, &text)),
                    duration: Some(string_of(&duration)),
                    raw: string_of(&line),
                };
                assert(entry@ == closed_entry(old_log[i as int], now@));
                l.clock_entries[i] = entry;
                assert(entries(l.clock_entries@) == old_log.update(i as int, entry@));
                true
            },
            None => false,
        },
        None => false,
    };
    proof {
        lemma_children_view(*note);
    }
    stopped
}

/// Sets the planning timestamp of `role` to the moment `now`.
pub fn set_current_time(note: &mut OrgNote, role: PlanningRole, now: &Moment)
    ensures
        final(note)@ == planned_at(old(note)@, role, now@),
        is_well_formed(old(note)@) ==> is_well_formed(final(note)@),
{
    proof {
        if is_well_formed(note@) {
            lemma_applied_well_formed(note@, EditView::Plan(role, now@));
        }
    }
    let text = bracketed_moment(now, 1, '<', '>');
    let value = stamp_of(now, &text);
    set_role(note, role, value);
}

fn set_role(note: &mut OrgNote, role: PlanningRole, value: OrgTimestamp)
    ensures
        final(note)@ == (NoteView {
            planning: Some(with_role(old(note)@.planning, role, value@)),
            ..old(note)@
        }),
{
    let ghost before = *note;
    proof {
        lemma_children_view(before);
    }
    if note.planning.is_none() {
        note.planning = Some(OrgPlanning { scheduled: None, deadline: None, closed: None });
    }
    match &mut note.planning {
        Some(p) => match role {
            PlanningRole::Scheduled => {
                p.scheduled = Some(value);
            },
            PlanningRole::Deadline => {
                p.deadline = Some(value);
            },
            PlanningRole::Closed => {
                p.closed = Some(value);
            },
        },
        None => {},
    }
    proof {
        lemma_children_view(*note);
    }
}

fn labels_from(text: &Vec<char>) -> (r: Vec<String>)
    ensures
        strings(r@) == edited_labels(text@),
{
    let mut start: usize = 0;
    assert(text@.skip(0) == text@);
    while start < text.len() && text[start] == ':'
        invariant
            start <= text.len(),
            without_leading_colons(text@) == without_leading_colons(text@.skip(start as int)),
        decreases text.len() - start,
    {
        assert(text@.skip(start as int).drop_first() == text@.skip(start + 1));
        start += 1;
    }
    let mut end: usize = text.len();
    assert(text@.skip(start as int) == text@.subrange(start as int, end as int));
    while end > start && text[end - 1] == ':'
        invariant
            start <= end <= text.len(),
            without_trailing_colons(without_leading_colons(text@)) == without_trailing_colons(
                text@.subrange(start as int, end as int),
            ),
        decreases end,
    {
        assert(text@.subrange(start as int, end as int).drop_last() == text@.subrange(
            start as int,
            end - 1,
        ));
        end -= 1;
    }
    let mut r: Vec<String> = Vec::new();
    if end > start {
        let parts = split_chars(&copy_range(text, start, end), ':');
        let mut i: usize = 0;
        while i < parts.len()
            invariant
                i <= parts.len(),
                r.len() == i,
                forall|j: int| 0 <= j < i ==> r@[j]@ == parts@[j]@,
            decreases parts.len() - i,
        {
            r.push(string_of(&parts[i]));
            i += 1;
        }
        assert(strings(r@) == texts(parts@));
    } else {
        assert(strings(r@) == Seq::<Seq<char>>::empty());
    }
    r
}

fn set_role_from(note: &mut OrgNote, role: PlanningRole, text: &Vec<char>)
    ensures
        final(note)@ == planned_from(old(note)@, role, text@),
{
    match timestamp_of(text) {
        Some(t) => {
            set_role(note, role, t);
        },
        None => {},
    }
}

/// Commits the edit of one field of `note` with `text`.
pub fn commit_edit(note: &mut OrgNote, mode: EditMode, text: &str)
    ensures
        final(note)@ == edited(old(note)@, mode, text@),
        is_well_formed(old(note)@) ==> is_well_formed(final(note)@),
{
    proof {
        if is_well_formed(note@) {
            lemma_applied_well_formed(note@, EditView::Commit(mode, text@));
        }
    }
    let ghost before = *note;
    proof {
        lemma_children_view(before);
    }
    let chars = chars_of(text);
    match mode {
        EditMode::Idle => {},
        EditMode::Status => {
            note.status = if chars.len() == 0 {
                None
            } else {
                Some(string_of(&chars))
            };
        },
        EditMode::Title => {
            note.title = string_of(&chars);
        },
        EditMode::Labels => {
            note.labels = labels_from(&chars);
        },
        EditMode::Content => {
            note.content = string_of(&chars);
        },
        EditMode::Scheduled => {
            set_role_from(note, PlanningRole::Scheduled, &chars);
        },
        EditMode::Deadline => {
            set_role_from(note, PlanningRole::Deadline, &chars);
        },
        EditMode::Closed => {
            set_role_from(note, PlanningRole::Closed, &chars);
        },
    }
    proof {
        lemma_children_view(*note);
    }
}

/// Appends a new top-level note to the outline.
pub fn add_note(list: &mut Vec<OrgNote>)
    ensures
        notes(final(list)@) == notes(old(list)@).push(
            NoteView {
                level: 1,
                status: None,
                title: "New Note"@,
                labels: Seq::empty(),
                content: Seq::empty(),
                children: Seq::empty(),
                planning: None,
                logbook: None,
            },
        ),
        all_well_formed(notes(old(list)@)) ==> all_well_formed(notes(final(list)@)),
{
    let note = OrgNote::new(1, string_of(&chars_of("New Note")));
    list.push(note);
    assert(notes(list@) == notes(old(list)@).push(note@));
}

/// One edit of a note.
pub enum Edit<'a> {
    /// Start a clock at the moment.
    ClockIn(&'a Moment),
    /// Stop the running clock at the moment.
    ClockOut(&'a Moment),
    /// Set the planning timestamp of the role to the moment.
    Plan(PlanningRole, &'a Moment),
    /// Commit the text of a field.
    Commit(EditMode, &'a str),
}

/// The value of an edit.
pub enum EditView {
    ClockIn(MomentView),
    ClockOut(MomentView),
    Plan(PlanningRole, MomentView),
    Commit(EditMode, Seq<char>),
}

impl<'a> View for Edit<'a> {
    type V = EditView;

    open spec fn view(&self) -> EditView {
        match *self {
            Edit::ClockIn(m) => EditView::ClockIn(m@),
            Edit::ClockOut(m) => EditView::ClockOut(m@),
            Edit::Plan(role, m) => EditView::Plan(role, m@),
            Edit::Commit(mode, text) => EditView::Commit(mode, text@),
        }
    }
}

/// `note` after `edit`.
pub open spec fn applied(note: NoteView, edit: EditView) -> NoteView {
    match edit {
        EditView::ClockIn(m) => clocked_in(note, m),
        EditView::ClockOut(m) => clocked_out(note, m),
        EditView::Plan(role, m) => planned_at(note, role, m),
        EditView::Commit(mode, text) => edited(note, mode, text),
    }
}

/// `edit` can be made on `note`. Only stopping a clock can fail to be.
pub open spec fn admits(note: NoteView, edit: EditView) -> bool {
    match edit {
        EditView::ClockOut(m) => can_clock_out(note, m),
        _ => true,
    }
}

/// The outline after `edit` is made on the note at position `k`; the
/// outline itself where it has no such position.
pub open spec fn applied_at(list: Seq<NoteView>, k: nat, edit: EditView) -> Seq<NoteView> {
    match note_in_forest(list, k) {
        Some(note) => forest_with(list, k, applied(note, edit)),
        None => list,
    }
}

/// `edit` can be made at position `k` of the outline.
pub open spec fn admits_at(list: Seq<NoteView>, k: nat, edit: EditView) -> bool {
    match note_in_forest(list, k) {
        Some(note) => admits(note, edit),
        None => true,
    }
}

/// Whether `edit` can be made on `note`.
pub fn edit_allowed(note: &OrgNote, edit: &Edit) -> (b: bool)
    ensures
        b == admits(note@, edit@),
{
    match edit {
        Edit::ClockOut(m) => clock_out_allowed(note, m),
        _ => true,
    }
}

/// Whether `edit` can be made at position `target` of the outline.
pub fn edit_allowed_at(list: &Vec<OrgNote>, target: usize, edit: &Edit) -> (b: bool)
    ensures
        b == admits_at(notes(list@), target as nat, edit@),
{
    match find_note_by_flat_index(list, target) {
        Some(note) => edit_allowed(note, edit),
        None => true,
    }
}

/// Makes `edit` on `note`.
pub fn apply(note: &mut OrgNote, edit: &Edit)
    requires
        admits(old(note)@, edit@),
    ensures
        final(note)@ == applied(old(note)@, edit@),
        is_well_formed(old(note)@) ==> is_well_formed(final(note)@),
{
    proof {
        if is_well_formed(note@) {
            lemma_applied_well_formed(note@, edit@);
        }
    }
    match edit {
        Edit::ClockIn(m) => {
            clock_in(note, m);
        },
        Edit::ClockOut(m) => {
            clock_out(note, m);
        },
        Edit::Plan(role, m) => {
            set_current_time(note, *role, m);
        },
        Edit::Commit(mode, text) => {
            commit_edit(note, *mode, text);
        },
    }
}

/// Makes `edit` at position `k` of `list`. `Err` holds what is left of `k`
/// behind the last note of the list, which is then as it was.
fn apply_in(list: &mut Vec<OrgNote>, k: usize, edit: &Edit) -> (r: Result<(), usize>)
    requires
        admits_at(notes(old(list)@), k as nat, edit@),
    ensures
        match r {
            Ok(_) => k < forest_size(notes(old(list)@)) && notes(final(list)@) == applied_at(
                notes(old(list)@),
                k as nat,
                edit@,
            ),
            Err(rest) => k >= forest_size(notes(old(list)@)) && rest == k - forest_size(
                notes(old(list)@),
            ) && notes(final(list)@) == notes(old(list)@),
        },
    decreases forest_size(notes(old(list)@)),
{
    let ghost all = notes(list@);
    let ghost target = note_in_forest(all, k as nat);
    let mut rest: usize = k;
    let mut i: usize = 0;
    assert(all.skip(0) == all);
    while i < list.len()
        invariant
            i <= list.len(),
            all == notes(old(list)@),
            all == notes(list@),
            rest <= k,
            target == note_in_forest(all, k as nat),
            admits_at(all, k as nat, edit@),
            forest_size(all) - forest_size(all.skip(i as int)) == k - rest,
            target == note_in_forest(all.skip(i as int), rest as nat),
            target matches Some(note) ==> forest_with(all, k as nat, applied(note, edit@))
                == all.take(i as int) + forest_with(
                all.skip(i as int),
                rest as nat,
                applied(note, edit@),
            ),
        decreases list.len() - i,
    {
        let ghost tail = all.skip(i as int);
        let ghost before = list[i as int];
        proof {
            assert(tail[0] == before@);
            assert(tail.drop_first() == all.skip(i + 1));
            lemma_children_view(before);
            lemma_note_in_forest(before@.children, (rest - 1) as nat);
            lemma_note_in_forest(all, k as nat);
            assert(tree_size(before@) == 1 + forest_size(before@.children));
            assert(forest_size(tail) == tree_size(before@) + forest_size(all.skip(i + 1)));
            if rest < tree_size(before@) {
                assert(note_in_forest(tail, rest as nat) == note_in_tree(before@, rest as nat));
            }
        }
        if rest == 0 {
            apply(&mut list[i], edit);
            proof {
                let new = applied(before@, edit@);
                assert(list[i as int]@ == new);
                assert(tree_with(before@, 0, new) == new);
                assert(notes(list@) == all.take(i as int) + (seq![new] + all.skip(i + 1)));
            }
            return Ok(());
        }
        match apply_in(&mut list[i].children, rest - 1, edit) {
            Ok(_) => {
                proof {
                    let after = list[i as int];
                    lemma_children_view(after);
                    let new = applied(target->0, edit@);
                    assert(after@ == tree_with(before@, rest as nat, new));
                    assert(notes(list@) == all.take(i as int) + (seq![after@] + all.skip(i + 1)));
                }
                return Ok(());
            },
            Err(left) => {
                proof {
                    let after = list[i as int];
                    lemma_children_view(after);
                    assert(after@ == before@);
                    assert(notes(list@) == all);
                    assert(all.take(i + 1) == all.take(i as int) + seq![before@]);
                    if target is Some {
                        let new = applied(target->0, edit@);
                        assert(forest_with(all, k as nat, new) == all.take(i + 1) + forest_with(
                            all.skip(i + 1),
                            left as nat,
                            new,
                        ));
                    }
                }
                rest = left;
            },
        }
        i += 1;
    }
    proof {
        lemma_note_in_forest(all, k as nat);
    }
    Err(rest)
}

/// Makes `edit` on the note at position `target` of the outline. Tells
/// whether there was such a note.
pub fn apply_at(list: &mut Vec<OrgNote>, target: usize, edit: &Edit) -> (found: bool)
    requires
        admits_at(notes(old(list)@), target as nat, edit@),
    ensures
        found == (target < forest_size(notes(old(list)@))),
        notes(final(list)@) == applied_at(notes(old(list)@), target as nat, edit@),
        all_well_formed(notes(old(list)@)) ==> all_well_formed(notes(final(list)@)),
{
    proof {
        lemma_note_in_forest(notes(list@), target as nat);
        if all_well_formed(notes(list@)) {
            lemma_applied_at_well_formed(notes(list@), target as nat, edit@);
        }
    }
    match apply_in(list, target, edit) {
        Ok(_) => true,
        Err(_) => false,
    }
}

/// An edit leaves a well-formed note well formed, at its level.
pub proof fn lemma_applied_well_formed(note: NoteView, edit: EditView)
    requires
        is_well_formed(note),
    ensures
        is_well_formed(applied(note, edit)),
        applied(note, edit).level == note.level,
{
    let after = applied(note, edit);
    assert(after.children == note.children);
    match edit {
        EditView::ClockIn(m) => {
            let log = after.logbook->0.clock_entries;
            assert forall|i: int| 0 <= i < log.len() implies is_well_formed_entry(
                #[trigger] log[i],
            ) by {
                match note.logbook {
                    Some(l) => {
                        if i < l.clock_entries.len() {
                            assert(log[i] == l.clock_entries[i]);
                        }
                    },
                    None => {},
                }
            }
        },
        EditView::ClockOut(m) => {
            match note.logbook {
                Some(l) => match first_open(l.clock_entries) {
                    Some(k) => {
                        lemma_first_open_bounds(l.clock_entries);
                        let log = after.logbook->0.clock_entries;
                        assert forall|i: int| 0 <= i < log.len() implies is_well_formed_entry(
                            #[trigger] log[i],
                        ) by {
                            if i != k {
                                assert(log[i] == l.clock_entries[i]);
                            } else {
                                assert(is_well_formed_entry(l.clock_entries[k]));
                            }
                        }
                    },
                    None => {},
                },
                None => {},
            }
        },
        EditView::Plan(role, m) => {},
        EditView::Commit(mode, text) => {
            lemma_timestamp_shape(text);
        },
    }
}

/// The first running entry of a log is one of its entries, and has no
/// end.
pub proof fn lemma_first_open_bounds(log: Seq<ClockEntryView>)
    ensures
        first_open(log) matches Some(i) ==> 0 <= i < log.len() && log[i].end is None,
    decreases log.len(),
{
    if log.len() > 0 {
        lemma_first_open_bounds(log.drop_last());
    }
}

/// An edit at a position leaves a well-formed outline well formed.
pub proof fn lemma_applied_at_well_formed(list: Seq<NoteView>, k: nat, edit: EditView)
    requires
        all_well_formed(list),
    ensures
        all_well_formed(applied_at(list, k, edit)),
{
    match note_in_forest(list, k) {
        Some(note) => {
            lemma_note_in_forest_well_formed(list, k);
            lemma_applied_well_formed(note, edit);
            lemma_forest_with_well_formed(list, k, applied(note, edit));
        },
        None => {},
    }
}

/// Every note of a well-formed list is well formed.
pub proof fn lemma_note_in_forest_well_formed(list: Seq<NoteView>, k: nat)
    requires
        all_well_formed(list),
    ensures
        note_in_forest(list, k) matches Some(note) ==> is_well_formed(note),
    decreases list, 1nat,
{
    if list.len() > 0 {
        if k < tree_size(list[0]) {
            assert(is_well_formed(list[0]));
            lemma_note_in_tree_well_formed(list[0], k);
        } else {
            let rest = list.drop_first();
            assert(all_well_formed(rest)) by {
                assert forall|i: int| 0 <= i < rest.len() implies is_well_formed(
                    #[trigger] rest[i],
                ) by {
                    assert(rest[i] == list[i + 1]);
                }
            }
            lemma_note_in_forest_well_formed(rest, (k - tree_size(list[0])) as nat);
        }
    }
}

/// Every note of a well-formed tree is well formed.
pub proof fn lemma_note_in_tree_well_formed(note: NoteView, k: nat)
    requires
        is_well_formed(note),
    ensures
        note_in_tree(note, k) matches Some(found) ==> is_well_formed(found),
    decreases note, 0nat,
{
    if k > 0 {
        assert(all_well_formed(note.children));
        lemma_note_in_forest_well_formed(note.children, (k - 1) as nat);
    }
}

} // verus!
