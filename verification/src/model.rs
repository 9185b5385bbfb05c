//! The outline's data: notes, their planning timestamps and their clock
//! logs, each with the mathematical value that contracts speak of.

use vstd::prelude::*;

verus! {

/// A date with an optional time of day, and the text it was read from.
#[derive(Debug)]
pub struct OrgTimestamp {
    pub year: u32,
    pub month: u32,
    pub day: u32,
    pub hour: Option<u32>,
    pub minute: Option<u32>,
    pub day_name: Option<String>,
    pub raw: String,
}

/// One line of a clock log: an interval that is closed (end and duration)
/// or still running.
#[derive(Debug)]
pub struct OrgClockEntry {
    pub start: OrgTimestamp,
    pub end: Option<OrgTimestamp>,
    pub duration: Option<String>,
    pub raw: String,
}

/// The clock log of a note: its entries in source order, and every line the
/// drawer held.
#[derive(Debug)]
pub struct OrgLogbook {
    pub clock_entries: Vec<OrgClockEntry>,
    pub raw_content: Vec<String>,
}

/// The planning timestamps of a note, by role.
#[derive(Debug)]
pub struct OrgPlanning {
    pub scheduled: Option<OrgTimestamp>,
    pub deadline: Option<OrgTimestamp>,
    pub closed: Option<OrgTimestamp>,
}

/// One heading of the outline with what belongs to it.
#[derive(Debug)]
pub struct OrgNote {
    pub level: usize,
    pub status: Option<String>,
    pub title: String,
    pub labels: Vec<String>,
    pub content: String,
    pub children: Vec<OrgNote>,
    pub planning: Option<OrgPlanning>,
    pub logbook: Option<OrgLogbook>,
}

/// The value of a timestamp.
pub struct TimestampView {
    pub year: u32,
    pub month: u32,
    pub day: u32,
    pub hour: Option<u32>,
    pub minute: Option<u32>,
    pub day_name: Option<Seq<char>>,
    pub raw: Seq<char>,
}

/// The value of a clock entry.
pub struct ClockEntryView {
    pub start: TimestampView,
    pub end: Option<TimestampView>,
    pub duration: Option<Seq<char>>,
    pub raw: Seq<char>,
}

/// The value of a log.
pub struct LogbookView {
    pub clock_entries: Seq<ClockEntryView>,
    pub raw_content: Seq<Seq<char>>,
}

/// The value of planning.
pub struct PlanningView {
    pub scheduled: Option<TimestampView>,
    pub deadline: Option<TimestampView>,
    pub closed: Option<TimestampView>,
}

/// The value of a note, with the values of all below it.
pub struct NoteView {
    pub level: nat,
    pub status: Option<Seq<char>>,
    pub title: Seq<char>,
    pub labels: Seq<Seq<char>>,
    pub content: Seq<char>,
    pub children: Seq<NoteView>,
    pub planning: Option<PlanningView>,
    pub logbook: Option<LogbookView>,
}

/// Hour and minute of a timestamp come together or not at all.
pub open spec fn is_paired(t: TimestampView) -> bool {
    t.hour is Some <==> t.minute is Some
}

/// A clock entry is closed, with an end and a duration, or running, with
/// neither; the times of its timestamps are paired.
pub open spec fn is_well_formed_entry(e: ClockEntryView) -> bool {
    &&& is_paired(e.start)
    &&& e.end matches Some(t) ==> is_paired(t)
    &&& e.end is Some <==> e.duration is Some
}

/// Planning holds a value in one role at least; the times of its
/// timestamps are paired.
pub open spec fn is_well_formed_planning(p: PlanningView) -> bool {
    &&& p.scheduled is Some || p.deadline is Some || p.closed is Some
    &&& p.scheduled matches Some(t) ==> is_paired(t)
    &&& p.deadline matches Some(t) ==> is_paired(t)
    &&& p.closed matches Some(t) ==> is_paired(t)
}

/// Every entry of the log is well formed.
pub open spec fn is_well_formed_logbook(l: LogbookView) -> bool {
    forall|i: int|
        0 <= i < l.clock_entries.len() ==> is_well_formed_entry(#[trigger] l.clock_entries[i])
}

/// A note as the library makes and keeps it, with all below it: the level
/// is positive, planning and log are well formed where there are any, and
/// every child lies deeper than the note and is well formed.
pub open spec fn is_well_formed(note: NoteView) -> bool
    decreases note,
{
    &&& note.level > 0
    &&& note.planning matches Some(p) ==> is_well_formed_planning(p)
    &&& note.logbook matches Some(l) ==> is_well_formed_logbook(l)
    &&& forall|i: int|
        0 <= i < note.children.len() ==> (#[trigger] note.children[i]).level > note.level
            && is_well_formed(note.children[i])
}

/// Every note of the list is well formed.
pub open spec fn all_well_formed(list: Seq<NoteView>) -> bool {
    forall|i: int| 0 <= i < list.len() ==> is_well_formed(#[trigger] list[i])
}

/// The contents of a list of strings.
pub open spec fn strings(v: Seq<String>) -> Seq<Seq<char>> {
    Seq::new(v.len(), |i: int| v[i]@)
}

/// The contents of a string, if there is one.
pub open spec fn opt_string(s: Option<String>) -> Option<Seq<char>> {
    match s {
        Some(s) => Some(s@),
        None => None,
    }
}

/// The value of a timestamp, if there is one.
pub open spec fn opt_timestamp(t: Option<OrgTimestamp>) -> Option<TimestampView> {
    match t {
        Some(t) => Some(t@),
        None => None,
    }
}

/// The value of a clock entry, if there is one.
pub open spec fn opt_clock_entry(e: Option<OrgClockEntry>) -> Option<ClockEntryView> {
    match e {
        Some(e) => Some(e@),
        None => None,
    }
}

/// The values of a list of clock entries.
pub open spec fn entries(v: Seq<OrgClockEntry>) -> Seq<ClockEntryView> {
    Seq::new(v.len(), |i: int| v[i]@)
}

/// The value of planning, if there is any.
pub open spec fn opt_planning(p: Option<OrgPlanning>) -> Option<PlanningView> {
    match p {
        Some(p) => Some(p@),
        None => None,
    }
}

/// The value of a log, if there is one.
pub open spec fn opt_logbook(l: Option<OrgLogbook>) -> Option<LogbookView> {
    match l {
        Some(l) => Some(l@),
        None => None,
    }
}

/// The value of a note, if there is one.
pub open spec fn opt_note(n: Option<OrgNote>) -> Option<NoteView> {
    match n {
        Some(n) => Some(n@),
        None => None,
    }
}

/// The values of a list of notes.
pub open spec fn notes(v: Seq<OrgNote>) -> Seq<NoteView> {
    Seq::new(v.len(), |i: int| v[i]@)
}

impl View for OrgTimestamp {
    type V = TimestampView;

    open spec fn view(&self) -> TimestampView {
        TimestampView {
            year: self.year,
            month: self.month,
            day: self.day,
            hour: self.hour,
            minute: self.minute,
            day_name: opt_string(self.day_name),
            raw: self.raw@,
        }
    }
}

impl View for OrgClockEntry {
    type V = ClockEntryView;

    open spec fn view(&self) -> ClockEntryView {
        ClockEntryView {
            start: self.start@,
            end: opt_timestamp(self.end),
            duration: opt_string(self.duration),
            raw: self.raw@,
        }
    }
}

impl View for OrgLogbook {
    type V = LogbookView;

    open spec fn view(&self) -> LogbookView {
        LogbookView {
            clock_entries: entries(self.clock_entries@),
            raw_content: strings(self.raw_content@),
        }
    }
}

impl View for OrgPlanning {
    type V = PlanningView;

    open spec fn view(&self) -> PlanningView {
        PlanningView {
            scheduled: opt_timestamp(self.scheduled),
            deadline: opt_timestamp(self.deadline),
            closed: opt_timestamp(self.closed),
        }
    }
}

/// The value of a note: its fields, and the values of its children.
pub open spec fn note_view(note: OrgNote) -> NoteView
    decreases note,
{
    NoteView {
        level: note.level as nat,
        status: opt_string(note.status),
        title: note.title@,
        labels: strings(note.labels@),
        content: note.content@,
        children: Seq::new(
            note.children@.len(),
            |i: int|
                if 0 <= i < note.children@.len() {
                    note_view(note.children[i])
                } else {
                    arbitrary()
                },
        ),
        planning: opt_planning(note.planning),
        logbook: opt_logbook(note.logbook),
    }
}

impl View for OrgNote {
    type V = NoteView;

    open spec fn view(&self) -> NoteView {
        note_view(*self)
    }
}

/// A note's children are the values of its child notes.
pub proof fn lemma_children_view(note: OrgNote)
    ensures
        note@.children == notes(note.children@),
{
    assert(note@.children =~= notes(note.children@));
}

/// A copy of the string, if there is one.
pub fn clone_opt_string(s: &Option<String>) -> (r: Option<String>)
    ensures
        opt_string(r) == opt_string(*s),
{
    match s {
        Some(s) => Some(s.clone()),
        None => None,
    }
}

/// A copy of each string.
pub fn clone_strings(v: &Vec<String>) -> (r: Vec<String>)
    ensures
        strings(r@) == strings(v@),
{
    let mut r: Vec<String> = Vec::new();
    let mut i: usize = 0;
    while i < v.len()
        invariant
            i <= v.len(),
            r@.len() == i,
            forall|j: int| 0 <= j < i ==> r@[j]@ == v@[j]@,
        decreases v.len() - i,
    {
        let c = v[i].clone();
        r.push(c);
        i += 1;
    }
    assert(strings(r@) =~= strings(v@));
    r
}

/// A copy of the timestamp, if there is one.
pub fn clone_opt_timestamp(t: &Option<OrgTimestamp>) -> (r: Option<OrgTimestamp>)
    ensures
        opt_timestamp(r) == opt_timestamp(*t),
{
    match t {
        Some(t) => Some(t.clone()),
        None => None,
    }
}

/// A copy of each clock entry.
pub fn clone_entries(v: &Vec<OrgClockEntry>) -> (r: Vec<OrgClockEntry>)
    ensures
        entries(r@) == entries(v@),
{
    let mut r: Vec<OrgClockEntry> = Vec::new();
    let mut i: usize = 0;
    while i < v.len()
        invariant
            i <= v.len(),
            r@.len() == i,
            forall|j: int| 0 <= j < i ==> r@[j]@ == v@[j]@,
        decreases v.len() - i,
    {
        let c = v[i].clone();
        r.push(c);
        i += 1;
    }
    assert(entries(r@) =~= entries(v@));
    r
}

impl Clone for OrgTimestamp {
    fn clone(&self) -> (r: Self)
        ensures
            r@ == self@,
    {
        OrgTimestamp {
            year: self.year,
            month: self.month,
            day: self.day,
            hour: self.hour,
            minute: self.minute,
            day_name: clone_opt_string(&self.day_name),
            raw: self.raw.clone(),
        }
    }
}

impl Clone for OrgClockEntry {
    fn clone(&self) -> (r: Self)
        ensures
            r@ == self@,
    {
        OrgClockEntry {
            start: self.start.clone(),
            end: clone_opt_timestamp(&self.end),
            duration: clone_opt_string(&self.duration),
            raw: self.raw.clone(),
        }
    }
}

impl Clone for OrgLogbook {
    fn clone(&self) -> (r: Self)
        ensures
            r@ == self@,
    {
        OrgLogbook {
            clock_entries: clone_entries(&self.clock_entries),
            raw_content: clone_strings(&self.raw_content),
        }
    }
}

impl Clone for OrgPlanning {
    fn clone(&self) -> (r: Self)
        ensures
            r@ == self@,
    {
        OrgPlanning {
            scheduled: clone_opt_timestamp(&self.scheduled),
            deadline: clone_opt_timestamp(&self.deadline),
            closed: clone_opt_timestamp(&self.closed),
        }
    }
}

impl Clone for OrgNote {
    fn clone(&self) -> (r: Self)
        ensures
            r@ == self@,
        decreases self,
    {
        let mut children: Vec<OrgNote> = Vec::new();
        let mut i: usize = 0;
        while i < self.children.len()
            invariant
                i <= self.children.len(),
                children@.len() == i,
                forall|j: int| 0 <= j < i ==> children@[j]@ == self.children@[j]@,
            decreases self.children.len() - i,
        {
            let c = self.children[i].clone();
            children.push(c);
            i += 1;
        }
        assert(notes(children@) =~= notes(self.children@));
        let r = OrgNote {
            level: self.level,
            status: clone_opt_string(&self.status),
            title: self.title.clone(),
            labels: clone_strings(&self.labels),
            content: self.content.clone(),
            children,
            planning: match &self.planning {
                Some(p) => Some(p.clone()),
                None => None,
            },
            logbook: match &self.logbook {
                Some(l) => Some(l.clone()),
                None => None,
            },
        };
        proof {
            lemma_children_view(r);
            lemma_children_view(*self);
        }
        r
    }
}

impl OrgNote {
    /// A note with a level and a title and nothing else. It is well formed
    /// where the level is positive.
    pub fn new(level: usize, title: String) -> (note: Self)
        ensures
            note@ == (NoteView {
                level: level as nat,
                status: None,
                title: title@,
                labels: Seq::empty(),
                content: Seq::empty(),
                children: Seq::empty(),
                planning: None,
                logbook: None,
            }),
            level > 0 ==> is_well_formed(note@),
    {
        let note = Self {
            level,
            status: None,
            title,
            labels: Vec::new(),
            content: String::new(),
            children: Vec::new(),
            planning: None,
            logbook: None,
        };
        proof {
            lemma_children_view(note);
            assert(strings(note.labels@) =~= Seq::empty());
            assert(notes(note.children@) =~= Seq::empty());
        }
        note
    }
}

} // verus!
