//! The body of a note: its lines are scanned once, in order, for planning
//! lines and for the time-log drawer; what is left is the note's text.

use crate::clock::{clock_entry, clock_entry_of, lemma_clock_entry_shape};
use crate::model::{
    clone_entries, entries, is_paired, is_well_formed_entry, is_well_formed_logbook,
    is_well_formed_planning, opt_logbook, opt_planning, opt_timestamp, strings, ClockEntryView,
    LogbookView, OrgClockEntry, OrgLogbook, OrgPlanning, OrgTimestamp, PlanningView, TimestampView,
};
use crate::text::{
    copy_range, find, find_chars, join, join_chars, lines, same_chars, split_lines, texts, trim,
    trimmed,
};
use crate::timestamp::{lemma_timestamp_shape, timestamp, timestamp_of};
use crate::unicode::{chars_of, string_of};
use vstd::prelude::*;

verus! {

/// What the scan knows after some lines of a body.
pub struct Scan {
    /// The lines kept as the note's text.
    pub kept: Seq<Seq<char>>,
    pub scheduled: Option<TimestampView>,
    pub deadline: Option<TimestampView>,
    pub closed: Option<TimestampView>,
    /// The log of the drawer that was closed last.
    pub logbook: Option<LogbookView>,
    /// A drawer is open.
    pub in_drawer: bool,
    /// The lines of the open drawer.
    pub drawer_lines: Seq<Seq<char>>,
    /// The clock entries read so far, from every drawer.
    pub clock_entries: Seq<ClockEntryView>,
}

/// The scan before the first line.
pub open spec fn scan_start() -> Scan {
    Scan {
        kept: Seq::empty(),
        scheduled: None,
        deadline: None,
        closed: None,
        logbook: None,
        in_drawer: false,
        drawer_lines: Seq::empty(),
        clock_entries: Seq::empty(),
    }
}

/// `line` holds the planning keyword.
pub open spec fn has_keyword(line: Seq<char>, keyword: Seq<char>) -> bool {
    find(line, keyword) is Some
}

/// The timestamp that follows the first occurrence of `keyword` in `line`.
pub open spec fn planning_timestamp(line: Seq<char>, keyword: Seq<char>) -> Option<
    TimestampView,
> {
    match find(line, keyword) {
        Some(i) => timestamp(trim(line.skip(i + keyword.len()))),
        None => None,
    }
}

/// A new value replaces the old one; without a new value the old one stays.
pub open spec fn replaced(old_value: Option<TimestampView>, new_value: Option<TimestampView>)
    -> Option<TimestampView> {
    match new_value {
        Some(t) => Some(t),
        None => old_value,
    }
}

/// The scan after one more line.
///
/// A line that is `:LOGBOOK:` when trimmed opens a drawer. In an open
/// drawer `:END:` closes it and yields a log: the clock entries read so far
/// and the lines of this drawer. Any other line of an open drawer is kept
/// with the drawer and, if it is a clock line, adds an entry.
///
/// Outside a drawer the first of `SCHEDULED:`, `DEADLINE:` and `CLOSED:`
/// that the line holds claims it: the line leaves the text, and the
/// timestamp after the keyword, if one can be read, becomes that role's
/// value. Every other line stays in the text.
pub open spec fn scan_line(st: Scan, line: Seq<char>) -> Scan {
    let t = trim(line);
    if t == ":LOGBOOK:"@ {
        Scan { in_drawer: true, ..st }
    } else if t == ":END:"@ && st.in_drawer {
        Scan {
            in_drawer: false,
            logbook: Some(
                LogbookView { clock_entries: st.clock_entries, raw_content: st.drawer_lines },
            ),
            drawer_lines: Seq::empty(),
            ..st
        }
    } else if st.in_drawer {
        Scan {
            drawer_lines: st.drawer_lines.push(line),
            clock_entries: match clock_entry(line) {
                Some(e) => st.clock_entries.push(e),
                None => st.clock_entries,
            },
            ..st
        }
    } else if has_keyword(line, "SCHEDULED:"@) {
        Scan { scheduled: replaced(st.scheduled, planning_timestamp(line, "SCHEDULED:"@)), ..st }
    } else if has_keyword(line, "DEADLINE:"@) {
        Scan { deadline: replaced(st.deadline, planning_timestamp(line, "DEADLINE:"@)), ..st }
    } else if has_keyword(line, "CLOSED:"@) {
        Scan { closed: replaced(st.closed, planning_timestamp(line, "CLOSED:"@)), ..st }
    } else {
        Scan { kept: st.kept.push(line), ..st }
    }
}

/// The scan after all of `body`, from its first line to its last.
pub open spec fn scan_lines(body: Seq<Seq<char>>) -> Scan
    decreases body.len(),
{
    if body.len() == 0 {
        scan_start()
    } else {
        scan_line(scan_lines(body.drop_last()), body.last())
    }
}

/// What a body yields.
pub struct BodyElements {
    pub content: Seq<char>,
    pub planning: Option<PlanningView>,
    pub logbook: Option<LogbookView>,
}

/// The planning of a note, if any of the three roles has a value.
pub open spec fn planning_of(st: Scan) -> Option<PlanningView> {
    if st.scheduled is Some || st.deadline is Some || st.closed is Some {
        Some(PlanningView { scheduled: st.scheduled, deadline: st.deadline, closed: st.closed })
    } else {
        None
    }
}

/// The text, planning and log of a body given as one text: the kept lines
/// joined by line feeds, the planning if any role was set, and the log of
/// the last drawer that was closed. A drawer left open yields no log, and
/// its lines are in no text.
#[verifier::opaque]
pub open spec fn body_elements(content: Seq<char>) -> BodyElements {
    let st = scan_lines(lines(content));
    BodyElements {
        content: join(st.kept, '\n'),
        planning: planning_of(st),
        logbook: st.logbook,
    }
}

/// The timestamp after the first occurrence of `keyword` in `line`; `None`
/// where the line lacks the keyword or no timestamp can be read there.
pub fn planning_timestamp_of(line: &Vec<char>, keyword: &Vec<char>) -> (r: Option<OrgTimestamp>)
    ensures
        opt_timestamp(r) == planning_timestamp(line@, keyword@),
{
    match find_chars(line, keyword) {
        Some(i) => {
            let after = trimmed(&copy_range(line, i + keyword.len(), line.len()));
            timestamp_of(&after)
        },
        None => None,
    }
}

/// Whether `line` holds `keyword`.
pub fn has_keyword_chars(line: &Vec<char>, keyword: &Vec<char>) -> (r: bool)
    ensures
        r == has_keyword(line@, keyword@),
{
    find_chars(line, keyword).is_some()
}

/// Text, planning and log of a body given as one text.
pub fn body_elements_of(content: &Vec<char>) -> (r: (
    String,
    Option<OrgPlanning>,
    Option<OrgLogbook>,
))
    ensures
        r.0@ == body_elements(content@).content,
        opt_planning(r.1) == body_elements(content@).planning,
        opt_logbook(r.2) == body_elements(content@).logbook,
        r.1 matches Some(p) ==> is_well_formed_planning(p@),
        r.2 matches Some(l) ==> is_well_formed_logbook(l@),
{
    proof {
        lemma_body_elements_well_formed(content@);
    }
    reveal(body_elements);
    let body = split_lines(content);
    let ghost all = texts(body@);
    let drawer_open = chars_of(":LOGBOOK:");
    let drawer_close = chars_of(":END:");
    let scheduled_keyword = chars_of("SCHEDULED:");
    let deadline_keyword = chars_of("DEADLINE:");
    let closed_keyword = chars_of("CLOSED:");
    let mut kept: Vec<Vec<char>> = Vec::new();
    let mut scheduled: Option<OrgTimestamp> = None;
    let mut deadline: Option<OrgTimestamp> = None;
    let mut closed: Option<OrgTimestamp> = None;
    let mut logbook: Option<OrgLogbook> = None;
    let mut in_drawer = false;
    let mut drawer_lines: Vec<String> = Vec::new();
    let mut clock_entries: Vec<OrgClockEntry> = Vec::new();
    let mut i: usize = 0;
    assert(all.take(0) == Seq::<Seq<char>>::empty());
    assert(texts(kept@) == Seq::<Seq<char>>::empty());
    assert(strings(drawer_lines@) == Seq::<Seq<char>>::empty());
    assert(entries(clock_entries@) == Seq::<ClockEntryView>::empty());
    while i < body.len()
        invariant
            i <= body.len(),
            all == texts(body@),
            drawer_open@ == ":LOGBOOK:"@,
            drawer_close@ == ":END:"@,
            scheduled_keyword@ == "SCHEDULED:"@,
            deadline_keyword@ == "DEADLINE:"@,
            closed_keyword@ == "CLOSED:"@,
            scan_lines(all.take(i as int)) == (Scan {
                kept: texts(kept@),
                scheduled: opt_timestamp(scheduled),
                deadline: opt_timestamp(deadline),
                closed: opt_timestamp(closed),
                logbook: opt_logbook(logbook),
                in_drawer,
                drawer_lines: strings(drawer_lines@),
                clock_entries: entries(clock_entries@),
            }),
        decreases body.len() - i,
    {
        let line = &body[i];
        let ghost st = scan_lines(all.take(i as int));
        proof {
            assert(all.take(i + 1).drop_last() == all.take(i as int));
            assert(all.take(i + 1).last() == line@);
        }
        let t = trimmed(line);
        if same_chars(&t, &drawer_open) {
            in_drawer = true;
        } else if in_drawer && same_chars(&t, &drawer_close) {
            in_drawer = false;
            let copied = clone_entries(&clock_entries);
            logbook = Some(OrgLogbook { clock_entries: copied, raw_content: drawer_lines });
            drawer_lines = Vec::new();
            assert(strings(drawer_lines@) == Seq::<Seq<char>>::empty());
        } else if in_drawer {
            drawer_lines.push(string_of(line));
            assert(strings(drawer_lines@) == st.drawer_lines.push(line@));
            match clock_entry_of(line) {
                Some(e) => {
                    clock_entries.push(e);
                    assert(entries(clock_entries@) == st.clock_entries.push(e@));
                },
                None => {},
            }
        } else if has_keyword_chars(line, &scheduled_keyword) {
            match planning_timestamp_of(line, &scheduled_keyword) {
                Some(t) => {
                    scheduled = Some(t);
                },
                None => {},
            }
        } else if has_keyword_chars(line, &deadline_keyword) {
            match planning_timestamp_of(line, &deadline_keyword) {
                Some(t) => {
                    deadline = Some(t);
                },
                None => {},
            }
        } else if has_keyword_chars(line, &closed_keyword) {
            match planning_timestamp_of(line, &closed_keyword) {
                Some(t) => {
                    closed = Some(t);
                },
                None => {},
            }
        } else {
            kept.push(copy_range(line, 0, line.len()));
            assert(line@.subrange(0, line@.len() as int) == line@);
            assert(texts(kept@) == st.kept.push(line@));
        }
        i += 1;
    }
    assert(all.take(body.len() as int) == all);
    let text = join_chars(&kept, '\n');
    let planning = if scheduled.is_some() || deadline.is_some() || closed.is_some() {
        Some(OrgPlanning { scheduled, deadline, closed })
    } else {
        None
    };
    (string_of(&text), planning, logbook)
}

/// The scan holds nothing but well-formed values.
pub open spec fn is_well_formed_scan(st: Scan) -> bool {
    &&& st.scheduled matches Some(t) ==> is_paired(t)
    &&& st.deadline matches Some(t) ==> is_paired(t)
    &&& st.closed matches Some(t) ==> is_paired(t)
    &&& forall|i: int|
        0 <= i < st.clock_entries.len() ==> is_well_formed_entry(#[trigger] st.clock_entries[i])
    &&& st.logbook matches Some(l) ==> is_well_formed_logbook(l)
}

/// One more line leaves the scan with nothing but well-formed values.
pub proof fn lemma_scan_line_well_formed(st: Scan, line: Seq<char>)
    requires
        is_well_formed_scan(st),
    ensures
        is_well_formed_scan(scan_line(st, line)),
{
    let next = scan_line(st, line);
    let t = trim(line);
    if t == ":LOGBOOK:"@ {
    } else if t == ":END:"@ && st.in_drawer {
    } else if st.in_drawer {
        match clock_entry(line) {
            Some(e) => {
                lemma_clock_entry_shape(line);
                assert forall|i: int|
                    0 <= i < next.clock_entries.len() implies is_well_formed_entry(
                    #[trigger] next.clock_entries[i],
                ) by {
                    if i < st.clock_entries.len() {
                        assert(next.clock_entries[i] == st.clock_entries[i]);
                    } else {
                        assert(next.clock_entries[i] == e);
                    }
                }
            },
            None => {},
        }
    } else {
        match find(line, "SCHEDULED:"@) {
            Some(i) => {
                lemma_timestamp_shape(trim(line.skip(i + "SCHEDULED:"@.len())));
            },
            None => {},
        }
        match find(line, "DEADLINE:"@) {
            Some(i) => {
                lemma_timestamp_shape(trim(line.skip(i + "DEADLINE:"@.len())));
            },
            None => {},
        }
        match find(line, "CLOSED:"@) {
            Some(i) => {
                lemma_timestamp_shape(trim(line.skip(i + "CLOSED:"@.len())));
            },
            None => {},
        }
    }
}

/// The scan over any lines holds nothing but well-formed values.
pub proof fn lemma_scan_lines_well_formed(body: Seq<Seq<char>>)
    ensures
        is_well_formed_scan(scan_lines(body)),
    decreases body.len(),
{
    if body.len() > 0 {
        lemma_scan_lines_well_formed(body.drop_last());
        lemma_scan_line_well_formed(scan_lines(body.drop_last()), body.last());
    }
}

/// The planning and the log of any body are well formed.
pub proof fn lemma_body_elements_well_formed(content: Seq<char>)
    ensures
        body_elements(content).planning matches Some(p) ==> is_well_formed_planning(p),
        body_elements(content).logbook matches Some(l) ==> is_well_formed_logbook(l),
{
    reveal(body_elements);
    lemma_scan_lines_well_formed(lines(content));
}

} // verus!
