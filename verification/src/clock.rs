//! Clock lines of a time log, the minutes their durations stand for, and
//! the total of a log.

use crate::model::{
    is_well_formed_entry, opt_clock_entry, ClockEntryView, OrgClockEntry, OrgLogbook, OrgTimestamp,
    TimestampView,
};
use crate::number::{decimal, decimal_chars, zero_padded, zero_padded_chars};
use crate::text::{copy_range, find, find_chars, has_prefix, push_all, starts_with, trim, trimmed};
use crate::timestamp::{time_of_day, time_of_day_of, timestamp, timestamp_of};
use crate::unicode::{chars_of, string_of};
use vstd::prelude::*;

verus! {

/// The entry that a line of a time log writes. Trimmed, the line must begin
/// with `CLOCK:`. Where an arrow follows, a start and an end with two
/// dashes between them stand before it and the duration after it, and both
/// timestamps must be readable. Without an arrow the rest is the start of
/// an entry that is still running. `raw` is the line as it was given.
pub open spec fn clock_entry(line: Seq<char>) -> Option<ClockEntryView> {
    let t = trim(line);
    if !starts_with(t, "CLOCK:"@) {
        None
    } else {
        let rest = trim(t.skip("CLOCK:"@.len() as int));
        match find(rest, "=>"@) {
            Some(arrow) => {
                let range = trim(rest.take(arrow));
                let duration = trim(rest.skip(arrow + "=>"@.len()));
                match find(range, "--"@) {
                    Some(dash) => match (
                        timestamp(trim(range.take(dash))),
                        timestamp(trim(range.skip(dash + "--"@.len()))),
                    ) {
                        (Some(start), Some(end)) => Some(
                            ClockEntryView {
                                start,
                                end: Some(end),
                                duration: Some(duration),
                                raw: line,
                            },
                        ),
                        _ => None,
                    },
                    None => None,
                }
            },
            None => match timestamp(rest) {
                Some(start) => Some(
                    ClockEntryView { start, end: None, duration: None, raw: line },
                ),
                None => None,
            },
        }
    }
}

/// A clock entry that is read is well formed and has the given line as its
/// line.
pub proof fn lemma_clock_entry_shape(line: Seq<char>)
    ensures
        clock_entry(line) matches Some(e) ==> is_well_formed_entry(e) && e.raw == line,
{
}

/// The minutes that a duration `H:MM` stands for: sixty times the hours
/// plus the minutes, where both are numbers and the sum fits 32 bits.
pub open spec fn duration_minutes(duration: Seq<char>) -> Option<u32> {
    match time_of_day(trim(duration)) {
        Some((h, m)) => if h * 60 + m <= u32::MAX {
            Some((h * 60 + m) as u32)
        } else {
            None
        },
        None => None,
    }
}

/// The minutes of an entry: those of its duration, if it has one that can
/// be read.
pub open spec fn entry_minutes(e: ClockEntryView) -> Option<u32> {
    match e.duration {
        Some(d) => duration_minutes(d),
        None => None,
    }
}

/// What an entry adds to the total of its log.
pub open spec fn counted_minutes(e: ClockEntryView) -> nat {
    match entry_minutes(e) {
        Some(m) => m as nat,
        None => 0,
    }
}

/// The sum of the minutes of the entries; one without readable minutes
/// counts as zero.
pub open spec fn total_minutes(entries: Seq<ClockEntryView>) -> nat
    decreases entries.len(),
{
    if entries.len() == 0 {
        0
    } else {
        total_minutes(entries.drop_last()) + counted_minutes(entries.last())
    }
}

/// How an entry's duration is shown.
pub open spec fn duration_text(e: ClockEntryView) -> Seq<char> {
    match e.duration {
        Some(d) => d + " ("@ + (match duration_minutes(d) {
            Some(m) => decimal(m as nat) + " minutes"@,
            None => "duration"@,
        }) + ")"@,
        None => "running"@,
    }
}

/// How a total of minutes is shown: whole hours, then the minutes left.
pub open spec fn total_text(minutes: nat) -> Seq<char> {
    decimal(minutes / 60) + "h "@ + decimal(minutes % 60) + "m"@
}

/// The date as `YYYY-MM-DD`, each field padded with zeros to its width.
pub open spec fn date_text(t: TimestampView) -> Seq<char> {
    zero_padded(t.year as nat, 4) + seq!['-'] + zero_padded(t.month as nat, 2) + seq!['-']
        + zero_padded(t.day as nat, 2)
}

/// The date, and the time of day as `HH:MM` after a space where the
/// timestamp has both hour and minute.
pub open spec fn datetime_text(t: TimestampView) -> Seq<char> {
    match (t.hour, t.minute) {
        (Some(h), Some(m)) => date_text(t) + seq![' '] + zero_padded(h as nat, 2) + seq![':']
            + zero_padded(m as nat, 2),
        _ => date_text(t),
    }
}

/// A prefix of a log has no larger a total than the log.
pub proof fn lemma_total_minutes_prefix(entries: Seq<ClockEntryView>, k: int)
    requires
        0 <= k <= entries.len(),
    ensures
        total_minutes(entries.take(k)) <= total_minutes(entries),
    decreases entries.len() - k,
{
    if k == entries.len() {
        assert(entries.take(k) == entries);
    } else {
        lemma_total_minutes_prefix(entries.drop_last(), k);
        assert(entries.drop_last().take(k) == entries.take(k));
    }
}

/// The entry that a line of a time log writes.
pub fn clock_entry_of(line: &Vec<char>) -> (r: Option<OrgClockEntry>)
    ensures
        opt_clock_entry(r) == clock_entry(line@),
        r matches Some(e) ==> is_well_formed_entry(e@) && e@.raw == line@,
{
    let t = trimmed(line);
    let keyword = chars_of("CLOCK:");
    assert(t@.skip(0) == t@);
    if !has_prefix(&t, 0, &keyword) {
        return None;
    }
    let rest = trimmed(&copy_range(&t, keyword.len(), t.len()));
    let arrow_mark = chars_of("=>");
    match find_chars(&rest, &arrow_mark) {
        Some(arrow) => {
            let range = trimmed(&copy_range(&rest, 0, arrow));
            let duration = trimmed(&copy_range(&rest, arrow + arrow_mark.len(), rest.len()));
            let dash_mark = chars_of("--");
            match find_chars(&range, &dash_mark) {
                Some(dash) => {
                    let start_text = trimmed(&copy_range(&range, 0, dash));
                    let end_text = trimmed(
                        &copy_range(&range, dash + dash_mark.len(), range.len()),
                    );
                    match (timestamp_of(&start_text), timestamp_of(&end_text)) {
                        (Some(start), Some(end)) => Some(
                            OrgClockEntry {
                                start,
                                end: Some(end),
                                duration: Some(string_of(&duration)),
                                raw: string_of(line),
                            },
                        ),
                        _ => None,
                    }
                },
                None => None,
            }
        },
        None => match timestamp_of(&rest) {
            Some(start) => Some(
                OrgClockEntry { start, end: None, duration: None, raw: string_of(line) },
            ),
            None => None,
        },
    }
}

/// The minutes that a duration `H:MM` stands for.
pub fn duration_minutes_of(duration: &Vec<char>) -> (r: Option<u32>)
    ensures
        r == duration_minutes(duration@),
{
    match time_of_day_of(&trimmed(duration)) {
        Some((h, m)) => {
            let total: u64 = h as u64 * 60 + m as u64;
            if total <= u32::MAX as u64 {
                Some(total as u32)
            } else {
                None
            }
        },
        None => None,
    }
}

impl OrgTimestamp {
    /// The date as `YYYY-MM-DD`.
    pub fn to_date_string(&self) -> (r: String)
        ensures
            r@ == date_text(self@),
    {
        let mut out = zero_padded_chars(self.year as u64, 4);
        out.push('-');
        push_all(&mut out, &zero_padded_chars(self.month as u64, 2));
        out.push('-');
        push_all(&mut out, &zero_padded_chars(self.day as u64, 2));
        string_of(&out)
    }

    /// The date, and the time of day where the timestamp has one.
    pub fn to_datetime_string(&self) -> (r: String)
        ensures
            r@ == datetime_text(self@),
    {
        match (self.hour, self.minute) {
            (Some(h), Some(m)) => {
                let mut out = chars_of(self.to_date_string().as_str());
                out.push(' ');
                push_all(&mut out, &zero_padded_chars(h as u64, 2));
                out.push(':');
                push_all(&mut out, &zero_padded_chars(m as u64, 2));
                string_of(&out)
            },
            _ => self.to_date_string(),
        }
    }
}

impl OrgClockEntry {
    /// The minutes of this entry's duration; `None` where the entry has no
    /// duration or it cannot be read.
    pub fn parse_duration_minutes(&self) -> (r: Option<u32>)
        ensures
            r == entry_minutes(self@),
    {
        match &self.duration {
            Some(d) => duration_minutes_of(&chars_of(d.as_str())),
            None => None,
        }
    }

    /// The duration with its minutes; `running` for an entry without one.
    pub fn format_duration(&self) -> (r: String)
        ensures
            r@ == duration_text(self@),
    {
        match &self.duration {
            Some(d) => {
                let mut out = chars_of(d.as_str());
                push_all(&mut out, &chars_of(" ("));
                match self.parse_duration_minutes() {
                    Some(m) => {
                        push_all(&mut out, &decimal_chars(m as u64));
                        push_all(&mut out, &chars_of(" minutes"));
                    },
                    None => {
                        push_all(&mut out, &chars_of("duration"));
                    },
                }
                push_all(&mut out, &chars_of(")"));
                string_of(&out)
            },
            None => string_of(&chars_of("running")),
        }
    }
}

impl OrgLogbook {
    /// The total of the log in minutes.
    pub fn total_minutes(&self) -> (r: u32)
        requires
            total_minutes(self@.clock_entries) <= u32::MAX,
        ensures
            r == total_minutes(self@.clock_entries),
    {
        let ghost all = self@.clock_entries;
        let mut total: u32 = 0;
        let mut i: usize = 0;
        assert(all.take(0) == Seq::<ClockEntryView>::empty());
        while i < self.clock_entries.len()
            invariant
                i <= self.clock_entries.len(),
                all == self@.clock_entries,
                all.len() == self.clock_entries.len(),
                total_minutes(all) <= u32::MAX,
                total == total_minutes(all.take(i as int)),
            decreases self.clock_entries.len() - i,
        {
            proof {
                lemma_total_minutes_prefix(all, i + 1);
                assert(all.take(i + 1).drop_last() == all.take(i as int));
                assert(all.take(i + 1).last() == self.clock_entries[i as int]@);
            }
            match self.clock_entries[i].parse_duration_minutes() {
                Some(m) => {
                    total = total + m;
                },
                None => {},
            }
            i += 1;
        }
        assert(all.take(all.len() as int) == all);
        total
    }

    /// The total of the log as hours and minutes.
    pub fn format_total_time(&self) -> (r: String)
        requires
            total_minutes(self@.clock_entries) <= u32::MAX,
        ensures
            r@ == total_text(total_minutes(self@.clock_entries)),
    {
        let total = self.total_minutes();
        let mut out = decimal_chars((total / 60) as u64);
        push_all(&mut out, &chars_of("h "));
        push_all(&mut out, &decimal_chars((total % 60) as u64));
        push_all(&mut out, &chars_of("m"));
        string_of(&out)
    }
}

impl OrgLogbook {
    /// The total of the log in minutes, where it fits 32 bits.
    pub fn checked_total_minutes(&self) -> (r: Option<u32>)
        ensures
            match r {
                Some(total) => total == total_minutes(self@.clock_entries),
                None => total_minutes(self@.clock_entries) > u32::MAX,
            },
    {
        let ghost all = self@.clock_entries;
        let mut total: u32 = 0;
        let mut i: usize = 0;
        assert(all.take(0) == Seq::<ClockEntryView>::empty());
        while i < self.clock_entries.len()
            invariant
                i <= self.clock_entries.len(),
                all == self@.clock_entries,
                all.len() == self.clock_entries.len(),
                total == total_minutes(all.take(i as int)),
            decreases self.clock_entries.len() - i,
        {
            proof {
                lemma_total_minutes_prefix(all, i + 1);
                assert(all.take(i + 1).drop_last() == all.take(i as int));
                assert(all.take(i + 1).last() == self.clock_entries[i as int]@);
            }
            match self.clock_entries[i].parse_duration_minutes() {
                Some(m) => match total.checked_add(m) {
                    Some(sum) => {
                        total = sum;
                    },
                    None => {
                        return None;
                    },
                },
                None => {},
            }
            i += 1;
        }
        assert(all.take(all.len() as int) == all);
        Some(total)
    }
}

} // verus!
