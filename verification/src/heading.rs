//! Heading lines: the nesting level that the leading markers give, and the
//! status keyword, title and tags that follow them.

use crate::model::{opt_string, strings};
use crate::text::{
    copy_range, join, join_chars, last_space, last_space_index, split_chars, split_on, split_words,
    texts, trim, trim_start, trim_start_index, trimmed, words,
};
use crate::unicode::{string_of, unicode_alphabetic, unicode_uppercase};
use vstd::prelude::*;

verus! {

/// The number of marker characters that `s` begins with.
pub open spec fn leading_stars(s: Seq<char>) -> nat
    decreases s.len(),
{
    if s.len() > 0 && s[0] == '*' {
        1 + leading_stars(s.drop_first())
    } else {
        0
    }
}

/// The level of the heading that `line` is, if it is one: after leading
/// whitespace, one or more markers and then a space. The level is the
/// number of markers.
pub open spec fn heading_level(line: Seq<char>) -> Option<nat> {
    let t = trim_start(line);
    let n = leading_stars(t);
    if 0 < n < t.len() && t[n as int] == ' ' {
        Some(n)
    } else {
        None
    }
}

/// `line` is a heading of some level.
pub open spec fn is_heading(line: Seq<char>) -> bool {
    heading_level(line) is Some
}

/// What follows the markers and the space of a heading of `level`.
pub open spec fn header_text(line: Seq<char>, level: nat) -> Seq<char> {
    let t = trim_start(line);
    if level + 1 <= t.len() {
        t.skip(level as int + 1)
    } else {
        Seq::empty()
    }
}

/// A character that may stand in a status keyword: an uppercase letter, or
/// no letter at all.
pub open spec fn is_status_char(c: char) -> bool {
    unicode_uppercase(c) || !unicode_alphabetic(c)
}

/// A word that is read as a status keyword.
pub open spec fn is_status_word(w: Seq<char>) -> bool {
    w.len() > 0 && forall|i: int| 0 <= i < w.len() ==> is_status_char(#[trigger] w[i])
}

/// A run of tags: more than two characters, the first and the last a colon.
pub open spec fn is_tag_run(run: Seq<char>) -> bool {
    run.len() > 2 && run[0] == ':' && run.last() == ':'
}

/// Those of `parts` that are not empty, in order.
pub open spec fn non_empty(parts: Seq<Seq<char>>) -> Seq<Seq<char>>
    decreases parts.len(),
{
    if parts.len() == 0 {
        Seq::empty()
    } else if parts.last().len() > 0 {
        non_empty(parts.drop_last()).push(parts.last())
    } else {
        non_empty(parts.drop_last())
    }
}

/// The tags that a run of tags holds: what stands between its colons.
pub open spec fn tags_of(run: Seq<char>) -> Seq<Seq<char>> {
    non_empty(split_on(run.subrange(1, run.len() - 1), ':'))
}

/// The index of the whitespace before the run of tags that ends the
/// trimmed header `t`. What follows the last whitespace holds none, so the
/// tags need no trimming.
pub open spec fn tag_split(t: Seq<char>) -> Option<int> {
    match last_space(t) {
        Some(i) => if is_tag_run(t.skip(i + 1)) {
            Some(i)
        } else {
            None
        },
        None => None,
    }
}

/// The tags of the trimmed header `t`: those of the run of tags that ends it.
pub open spec fn header_labels(t: Seq<char>) -> Seq<Seq<char>> {
    match tag_split(t) {
        Some(i) => tags_of(t.skip(i + 1)),
        None => Seq::empty(),
    }
}

/// The words of the trimmed header `t` before its run of tags.
pub open spec fn header_words(t: Seq<char>) -> Seq<Seq<char>> {
    match tag_split(t) {
        Some(i) => words(t.take(i)),
        None => words(t),
    }
}

/// What a header holds.
pub struct HeaderFields {
    pub status: Option<Seq<char>>,
    pub title: Seq<char>,
    pub labels: Seq<Seq<char>>,
}

/// Status keyword, title and tags of a header. The first word is the
/// status keyword if it is a status word; the title is the other words
/// with one space between them.
#[verifier::opaque]
pub open spec fn header_fields(header: Seq<char>) -> HeaderFields {
    let t = trim(header);
    let ws = header_words(t);
    if ws.len() > 0 && is_status_word(ws[0]) {
        HeaderFields { status: Some(ws[0]), title: join(ws.skip(1), ' '), labels: header_labels(t) }
    } else {
        HeaderFields { status: None, title: join(ws, ' '), labels: header_labels(t) }
    }
}

/// The level of the heading that `line` is, if it is one.
pub fn heading_level_of(line: &Vec<char>) -> (r: Option<usize>)
    ensures
        match r {
            Some(n) => heading_level(line@) == Some(n as nat),
            None => heading_level(line@) is None,
        },
{
    let start = trim_start_index(line);
    let ghost t = trim_start(line@);
    let mut end: usize = start;
    assert(t.skip(0) == t);
    while end < line.len() && line[end] == '*'
        invariant
            start <= end <= line.len(),
            t == line@.skip(start as int),
            leading_stars(t) == (end - start) + leading_stars(t.skip(end - start)),
        decreases line.len() - end,
    {
        assert(t.skip(end - start).drop_first() == t.skip(end - start + 1));
        end += 1;
    }
    assert(leading_stars(t) == end - start);
    if end > start && end < line.len() && line[end] == ' ' {
        Some(end - start)
    } else {
        None
    }
}

/// What follows the markers and the space of a heading of `level`.
pub fn header_text_of(line: &Vec<char>, level: usize) -> (r: Vec<char>)
    ensures
        r@ == header_text(line@, level as nat),
{
    let start = trim_start_index(line);
    if level < line.len() - start {
        copy_range(line, start + level + 1, line.len())
    } else {
        Vec::new()
    }
}

/// Whether `w` is read as a status keyword.
pub fn is_status_word_chars(w: &Vec<char>) -> (r: bool)
    ensures
        r == is_status_word(w@),
{
    if w.len() == 0 {
        return false;
    }
    let mut i: usize = 0;
    while i < w.len()
        invariant
            i <= w.len(),
            forall|j: int| 0 <= j < i ==> is_status_char(#[trigger] w@[j]),
        decreases w.len() - i,
    {
        let c = w[i];
        if !(c.is_uppercase() || !c.is_alphabetic()) {
            assert(!is_status_char(w@[i as int]));
            return false;
        }
        i += 1;
    }
    true
}

/// The tags that a run of tags holds.
pub fn tags_of_run(run: &Vec<char>) -> (r: Vec<String>)
    requires
        run.len() >= 2,
    ensures
        strings(r@) == tags_of(run@),
{
    let inner = copy_range(run, 1, run.len() - 1);
    let parts = split_chars(&inner, ':');
    let ghost all = texts(parts@);
    let mut r: Vec<String> = Vec::new();
    let mut i: usize = 0;
    assert(all.take(0) == Seq::<Seq<char>>::empty());
    while i < parts.len()
        invariant
            i <= parts.len(),
            all == texts(parts@),
            strings(r@) == non_empty(all.take(i as int)),
        decreases parts.len() - i,
    {
        assert(all.take(i + 1).drop_last() == all.take(i as int));
        if parts[i].len() > 0 {
            let ghost before = strings(r@);
            r.push(string_of(&parts[i]));
            assert(strings(r@) == before.push(parts[i as int]@));
        }
        i += 1;
    }
    assert(all.take(parts.len() as int) == all);
    r
}

/// Status keyword, title and tags of a header.
pub fn header_fields_of(header: &Vec<char>) -> (r: (Option<String>, String, Vec<String>))
    ensures
        opt_string(r.0) == header_fields(header@).status,
        r.1@ == header_fields(header@).title,
        strings(r.2@) == header_fields(header@).labels,
{
    reveal(header_fields);
    let t = trimmed(header);
    let mut labels: Vec<String> = Vec::new();
    let mut content_end: usize = t.len();
    assert(strings(labels@) == Seq::<Seq<char>>::empty());
    match last_space_index(&t) {
        Some(i) => {
            let run = copy_range(&t, i + 1, t.len());
            assert(run@ == t@.skip(i + 1));
            if run.len() > 2 && run[0] == ':' && run[run.len() - 1] == ':' {
                labels = tags_of_run(&run);
                content_end = i;
            }
        },
        None => {},
    }
    assert(strings(labels@) == header_labels(t@));
    let content = copy_range(&t, 0, content_end);
    assert(t@.take(t.len() as int) == t@);
    let ws = split_words(&content);
    assert(texts(ws@) == header_words(t@));
    if ws.len() > 0 && is_status_word_chars(&ws[0]) {
        let status = string_of(&ws[0]);
        let mut rest: Vec<Vec<char>> = Vec::new();
        let mut k: usize = 1;
        while k < ws.len()
            invariant
                1 <= k <= ws.len(),
                texts(rest@) == texts(ws@).subrange(1, k as int),
            decreases ws.len() - k,
        {
            let ghost before = texts(rest@);
            rest.push(copy_range(&ws[k], 0, ws[k].len()));
            assert(ws[k as int]@.subrange(0, ws[k as int]@.len() as int) == ws[k as int]@);
            assert(texts(rest@) == before.push(ws[k as int]@));
            k += 1;
        }
        assert(texts(ws@).subrange(1, ws.len() as int) == texts(ws@).skip(1));
        let title = join_chars(&rest, ' ');
        (Some(status), string_of(&title), labels)
    } else {
        let title = join_chars(&ws, ' ');
        (None, string_of(&title), labels)
    }
}

} // verus!
