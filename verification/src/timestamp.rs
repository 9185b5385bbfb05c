//! Timestamps: a date, a weekday token and an optional time of day, read
//! from text that may stand in square or angle brackets.

use crate::model::{is_paired, opt_timestamp, OrgTimestamp, TimestampView};
use crate::number::{parse_number, parse_u32};
use crate::text::{copy_range, split_chars, split_on, split_words, texts, words};
use crate::unicode::string_of;
use vstd::prelude::*;

verus! {

/// `text` stands in a pair of square brackets or in a pair of angle
/// brackets.
pub open spec fn is_bracketed(text: Seq<char>) -> bool {
    text.len() > 0 && ((text[0] == '[' && text.last() == ']') || (text[0] == '<' && text.last()
        == '>'))
}

/// `text` without the one pair of brackets it stands in, if it stands in
/// one. Both kinds of bracket are treated alike.
pub open spec fn unbracketed(text: Seq<char>) -> Seq<char> {
    if is_bracketed(text) {
        text.subrange(1, text.len() - 1)
    } else {
        text
    }
}

/// Hour and minute that `part` writes: exactly two numbers with a colon
/// between them.
pub open spec fn time_of_day(part: Seq<char>) -> Option<(u32, u32)> {
    let fields = split_on(part, ':');
    if fields.len() == 2 {
        match (parse_u32(fields[0]), parse_u32(fields[1])) {
            (Some(h), Some(m)) => Some((h, m)),
            _ => None,
        }
    } else {
        None
    }
}

/// Year, month and day that `part` writes: exactly three numbers with
/// dashes between them. No calendar is consulted.
pub open spec fn date_of(part: Seq<char>) -> Option<(u32, u32, u32)> {
    let fields = split_on(part, '-');
    if fields.len() == 3 {
        match (parse_u32(fields[0]), parse_u32(fields[1]), parse_u32(fields[2])) {
            (Some(y), Some(m), Some(d)) => Some((y, m, d)),
            _ => None,
        }
    } else {
        None
    }
}

/// The timestamp that `text` writes. Without its brackets the text must
/// hold two words or more: the first is the date, the second is kept as
/// the weekday token whatever it is, and the third, if it is a time of
/// day, gives hour and minute. `raw` is `text` as it was given.
pub open spec fn timestamp(text: Seq<char>) -> Option<TimestampView> {
    let parts = words(unbracketed(text));
    if parts.len() < 2 {
        None
    } else {
        match date_of(parts[0]) {
            Some((year, month, day)) => {
                let time = if parts.len() > 2 {
                    time_of_day(parts[2])
                } else {
                    None
                };
                Some(
                    TimestampView {
                        year,
                        month,
                        day,
                        hour: match time {
                            Some((h, _)) => Some(h),
                            None => None,
                        },
                        minute: match time {
                            Some((_, m)) => Some(m),
                            None => None,
                        },
                        day_name: Some(parts[1]),
                        raw: text,
                    },
                )
            },
            None => None,
        }
    }
}

/// A timestamp that is read has hour and minute together or neither, the
/// given text as its text, and a weekday token.
pub proof fn lemma_timestamp_shape(text: Seq<char>)
    ensures
        timestamp(text) matches Some(t) ==> is_paired(t) && t.raw == text && t.day_name is Some,
{
}

/// Hour and minute that `part` writes.
pub fn time_of_day_of(part: &Vec<char>) -> (r: Option<(u32, u32)>)
    ensures
        r == time_of_day(part@),
{
    let fields = split_chars(part, ':');
    if fields.len() != 2 {
        return None;
    }
    match (parse_number(&fields[0]), parse_number(&fields[1])) {
        (Some(h), Some(m)) => Some((h, m)),
        _ => None,
    }
}

/// Year, month and day that `part` writes.
pub fn date_of_chars(part: &Vec<char>) -> (r: Option<(u32, u32, u32)>)
    ensures
        r == date_of(part@),
{
    let fields = split_chars(part, '-');
    if fields.len() != 3 {
        return None;
    }
    match (parse_number(&fields[0]), parse_number(&fields[1]), parse_number(&fields[2])) {
        (Some(y), Some(m), Some(d)) => Some((y, m, d)),
        _ => None,
    }
}

/// The timestamp that `text` writes.
pub fn timestamp_of(text: &Vec<char>) -> (r: Option<OrgTimestamp>)
    ensures
        opt_timestamp(r) == timestamp(text@),
        r matches Some(t) ==> is_paired(t@) && t@.raw == text@,
{
    let n = text.len();
    let bracketed = n > 0 && ((text[0] == '[' && text[n - 1] == ']') || (text[0] == '<' && text[n
        - 1] == '>'));
    let inner = if bracketed {
        copy_range(text, 1, n - 1)
    } else {
        copy_range(text, 0, n)
    };
    assert(text@.subrange(0, n as int) == text@);
    assert(inner@ == unbracketed(text@));
    let parts = split_words(&inner);
    if parts.len() < 2 {
        return None;
    }
    assert(texts(parts@)[0] == parts[0]@);
    assert(texts(parts@)[1] == parts[1]@);
    match date_of_chars(&parts[0]) {
        Some((year, month, day)) => {
            let time = if parts.len() > 2 {
                assert(texts(parts@)[2] == parts[2]@);
                time_of_day_of(&parts[2])
            } else {
                None
            };
            Some(
                OrgTimestamp {
                    year,
                    month,
                    day,
                    hour: match time {
                        Some((h, _)) => Some(h),
                        None => None,
                    },
                    minute: match time {
                        Some((_, m)) => Some(m),
                        None => None,
                    },
                    day_name: Some(string_of(&parts[1])),
                    raw: string_of(text),
                },
            )
        },
        None => None,
    }
}

} // verus!
