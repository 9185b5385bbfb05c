//! Laws of heading lines: what makes a heading, what reading a header
//! guarantees, and that a written heading line reads back as what it was
//! written from.

use crate::heading::{
    header_fields, header_labels, header_text, header_words, heading_level, is_heading,
    is_status_word, is_tag_run, leading_stars, non_empty, tag_split, HeaderFields,
};
use crate::serializer::{heading_line, labels_part, status_part};
use crate::text::{
    all_words, is_space, is_word, join, lacks, lemma_last_space, no_space, repeat, split_on,
    strip_cr, trim, trim_end, trim_start, words,
};
use crate::text_laws::{
    lemma_join_no_space, lemma_join_not_empty, lemma_join_words_ends, lemma_last_space_before,
    lemma_split_of_join, lemma_split_pieces_lack, lemma_split_pieces_no_space, lemma_trim_clean,
    lemma_trim_is_trimmed, lemma_trim_start_append, lemma_words_after_space, lemma_words_are_words,
    lemma_words_not_empty, lemma_words_of_join, lemma_words_of_word,
};
use vstd::prelude::*;

verus! {

/// A tag: a word without a colon.
pub open spec fn is_tag(t: Seq<char>) -> bool {
    is_word(t) && lacks(t, ':')
}

/// Every label is a tag.
pub open spec fn all_tags(labels: Seq<Seq<char>>) -> bool {
    forall|i: int| 0 <= i < labels.len() ==> is_tag(#[trigger] labels[i])
}

/// Status keyword and title words as they stand in a heading line.
pub open spec fn header_words_text(status: Option<Seq<char>>, title_words: Seq<Seq<char>>) -> Seq<
    char,
> {
    (match status {
        Some(s) => s + seq![' '],
        None => Seq::empty(),
    }) + join(title_words, ' ')
}

/// The parts of a heading line can be read back from it.
///
/// The status keyword, if there is one, is a word that reads as a status
/// keyword; without one, the first word of the title does not. The title
/// is made of words and each tag is a tag. Tags need something before
/// them, and without tags the words must not end in what reads as a run of
/// tags.
pub open spec fn is_well_formed_heading(
    status: Option<Seq<char>>,
    title_words: Seq<Seq<char>>,
    labels: Seq<Seq<char>>,
) -> bool {
    &&& status matches Some(s) ==> is_word(s) && is_status_word(s)
    &&& all_words(title_words)
    &&& status is None && title_words.len() > 0 ==> !is_status_word(title_words[0])
    &&& all_tags(labels)
    &&& labels.len() > 0 ==> status is Some || title_words.len() > 0
    &&& labels.len() == 0 ==> tag_split(trim(header_words_text(status, title_words))) is None
}

/// What reading a header guarantees of its fields: a status keyword is a
/// word that reads as one; the title is made of words with single spaces
/// between them and, without a status keyword, does not begin with a word
/// that reads as one; each tag is a tag; and tags come with a status
/// keyword or a title.
pub open spec fn is_read_heading(fields: HeaderFields) -> bool {
    &&& fields.status matches Some(s) ==> is_word(s) && is_status_word(s)
    &&& join(words(fields.title), ' ') == fields.title
    &&& all_words(words(fields.title))
    &&& fields.status is None && words(fields.title).len() > 0 ==> !is_status_word(
        words(fields.title)[0],
    )
    &&& all_tags(fields.labels)
    &&& fields.labels.len() > 0 ==> fields.status is Some || words(fields.title).len() > 0
}

/// Markers before a character that is none are counted exactly.
pub proof fn lemma_leading_stars(n: nat, rest: Seq<char>)
    requires
        rest.len() > 0 ==> rest[0] != '*',
    ensures
        leading_stars(repeat('*', n) + rest) == n,
    decreases n,
{
    let whole = repeat('*', n) + rest;
    if n == 0 {
        assert(whole == rest);
    } else {
        assert(whole[0] == '*');
        assert(whole.drop_first() == repeat('*', (n - 1) as nat) + rest);
        lemma_leading_stars((n - 1) as nat, rest);
    }
}

/// Markers that end within a text are counted alike with more text
/// appended.
pub proof fn lemma_leading_stars_append(t: Seq<char>, b: Seq<char>)
    requires
        leading_stars(t) < t.len(),
    ensures
        leading_stars(t + b) == leading_stars(t),
    decreases t.len(),
{
    assert((t + b)[0] == t[0]);
    if t[0] == '*' {
        assert((t + b).drop_first() == t.drop_first() + b);
        lemma_leading_stars_append(t.drop_first(), b);
    }
}

/// Leading whitespace does not change the level of a heading, nor whether
/// a line is one.
pub proof fn lemma_heading_level_ignores_indent(indent: Seq<char>, line: Seq<char>)
    requires
        forall|i: int| 0 <= i < indent.len() ==> is_space(#[trigger] indent[i]),
    ensures
        heading_level(indent + line) == heading_level(line),
    decreases indent.len(),
{
    if indent.len() == 0 {
        assert(indent + line == line);
    } else {
        assert((indent + line)[0] == indent[0]);
        assert((indent + line).drop_first() == indent.drop_first() + line);
        assert forall|i: int| 0 <= i < indent.drop_first().len() implies is_space(
            #[trigger] indent.drop_first()[i],
        ) by {
            assert(indent.drop_first()[i] == indent[i + 1]);
        }
        lemma_heading_level_ignores_indent(indent.drop_first(), line);
    }
}

/// One or more markers that no space follows make no heading, however
/// many they are and whatever the indentation.
pub proof fn lemma_markers_without_space(indent: Seq<char>, n: nat, rest: Seq<char>)
    requires
        forall|i: int| 0 <= i < indent.len() ==> is_space(#[trigger] indent[i]),
        n > 0,
        rest.len() > 0 ==> rest[0] != ' ' && rest[0] != '*',
    ensures
        !is_heading(indent + (repeat('*', n) + rest)),
{
    let line = repeat('*', n) + rest;
    lemma_heading_level_ignores_indent(indent, line);
    lemma_leading_stars(n, rest);
    assert(line[0] == '*');
    assert(trim_start(line) == line);
    if n < line.len() {
        assert(line[n as int] == rest[0]);
    }
}

/// A heading stays a heading of its level with more text appended.
pub proof fn lemma_heading_extends(a: Seq<char>, b: Seq<char>)
    requires
        is_heading(a),
    ensures
        heading_level(a + b) == heading_level(a),
{
    let t = trim_start(a);
    lemma_trim_start_append(a, b);
    lemma_leading_stars_append(t, b);
    assert((t + b)[leading_stars(t) as int] == t[leading_stars(t) as int]);
}

/// A line that is no heading is none without its last carriage return.
pub proof fn lemma_strip_cr_plain(l: Seq<char>)
    requires
        !is_heading(l),
    ensures
        !is_heading(strip_cr(l)),
{
    if l.len() > 0 && l.last() == '\r' {
        if is_heading(l.drop_last()) {
            lemma_heading_extends(l.drop_last(), seq![l.last()]);
            assert(l.drop_last() + seq![l.last()] == l);
        }
    }
}

/// Where no piece is empty, all are kept.
pub proof fn lemma_non_empty_all(parts: Seq<Seq<char>>)
    requires
        forall|i: int| 0 <= i < parts.len() ==> (#[trigger] parts[i]).len() > 0,
    ensures
        non_empty(parts) == parts,
    decreases parts.len(),
{
    if parts.len() > 0 {
        let init = parts.drop_last();
        assert forall|i: int| 0 <= i < init.len() implies (#[trigger] init[i]).len() > 0 by {
            assert(init[i] == parts[i]);
        }
        lemma_non_empty_all(init);
        assert(init.push(parts.last()) == parts);
    }
}

/// The pieces that are kept as not empty are tags where all pieces hold
/// neither whitespace nor a colon.
pub proof fn lemma_non_empty_tags(parts: Seq<Seq<char>>)
    requires
        forall|i: int|
            0 <= i < parts.len() ==> no_space(#[trigger] parts[i]) && lacks(parts[i], ':'),
    ensures
        all_tags(non_empty(parts)),
    decreases parts.len(),
{
    if parts.len() > 0 {
        let init = parts.drop_last();
        assert forall|i: int| 0 <= i < init.len() implies no_space(#[trigger] init[i]) && lacks(
            init[i],
            ':',
        ) by {
            assert(init[i] == parts[i]);
        }
        lemma_non_empty_tags(init);
        assert(no_space(parts.last()) && lacks(parts.last(), ':'));
    }
}

/// The tags of a header are tags.
pub proof fn lemma_header_labels_are_tags(t: Seq<char>)
    ensures
        all_tags(header_labels(t)),
{
    match tag_split(t) {
        Some(i) => {
            lemma_last_space(t);
            let run = t.skip(i + 1);
            let inner = run.subrange(1, run.len() - 1);
            assert(no_space(inner)) by {
                assert forall|k: int| 0 <= k < inner.len() implies !is_space(
                    #[trigger] inner[k],
                ) by {
                    assert(inner[k] == run[k + 1]);
                }
            }
            lemma_split_pieces_lack(inner, ':', Seq::empty(), ':');
            lemma_split_pieces_no_space(inner, ':', Seq::empty());
            lemma_non_empty_tags(split_on(inner, ':'));
        },
        None => {},
    }
}

/// The words of a header before its tags are words, and there is one
/// where there are tags.
pub proof fn lemma_header_words_are_words(h: Seq<char>)
    ensures
        all_words(header_words(trim(h))),
        tag_split(trim(h)) is Some ==> header_words(trim(h)).len() > 0,
{
    let t = trim(h);
    match tag_split(t) {
        Some(i) => {
            lemma_last_space(t);
            lemma_trim_is_trimmed(h);
            lemma_words_are_words(t.take(i), Seq::empty());
            assert(i >= 1);
            assert(t.take(i)[0] == t[0]);
            lemma_words_not_empty(t.take(i), Seq::empty());
        },
        None => {
            lemma_words_are_words(t, Seq::empty());
        },
    }
}

/// The fields read from any header are those of a read heading.
pub proof fn lemma_header_fields_shape(h: Seq<char>)
    ensures
        is_read_heading(header_fields(h)),
{
    reveal(header_fields);
    let t = trim(h);
    let ws = header_words(t);
    let fields = header_fields(h);
    lemma_header_words_are_words(h);
    lemma_header_labels_are_tags(t);
    if ws.len() > 0 && is_status_word(ws[0]) {
        let rest = ws.skip(1);
        assert(all_words(rest)) by {
            assert forall|i: int| 0 <= i < rest.len() implies is_word(#[trigger] rest[i]) by {
                assert(rest[i] == ws[i + 1]);
            }
        }
        lemma_words_of_join(rest);
        assert(is_word(ws[0]));
    } else {
        lemma_words_of_join(ws);
    }
}

/// The words of status keyword and title, as a heading line holds them,
/// are the status keyword and the words of the title.
pub proof fn lemma_header_words_text(status: Option<Seq<char>>, title_words: Seq<Seq<char>>)
    requires
        status matches Some(s) ==> is_word(s),
        all_words(title_words),
    ensures
        words(header_words_text(status, title_words)) == (match status {
            Some(s) => seq![s],
            None => Seq::empty(),
        }) + title_words,
{
    let title = join(title_words, ' ');
    lemma_words_of_join(title_words);
    match status {
        Some(s) => {
            lemma_words_after_space(s, ' ', title, Seq::empty());
            lemma_words_of_word(s, Seq::empty());
            assert(Seq::<char>::empty() + s == s);
        },
        None => {
            assert(Seq::<char>::empty() + title == title);
            assert(Seq::<Seq<char>>::empty() + title_words == title_words);
        },
    }
}

/// Reading the header that is written from a status keyword, the words of
/// a title and tags gives them back.
pub proof fn lemma_header_fields_of_written(
    status: Option<Seq<char>>,
    title_words: Seq<Seq<char>>,
    labels: Seq<Seq<char>>,
)
    requires
        is_well_formed_heading(status, title_words, labels),
    ensures
        header_fields(header_words_text(status, title_words) + labels_part(labels)) == (
        HeaderFields { status, title: join(title_words, ' '), labels }),
{
    reveal(header_fields);
    let title = join(title_words, ' ');
    let pre = header_words_text(status, title_words);
    let header = pre + labels_part(labels);
    let status_words: Seq<Seq<char>> = match status {
        Some(s) => seq![s],
        None => Seq::empty(),
    };
    let all = status_words + title_words;
    lemma_header_words_text(status, title_words);
    if title_words.len() > 0 {
        lemma_join_words_ends(title_words);
    }
    // The header begins with a character of a word, if it has any.
    assert(pre.len() > 0 ==> !is_space(pre[0])) by {
        match status {
            Some(s) => {
                assert(pre[0] == s[0]);
            },
            None => {
                assert(pre == title);
                if title_words.len() > 0 {
                    assert(is_word(title_words[0]));
                }
            },
        }
    }
    if labels.len() > 0 {
        let inner = join(labels, ':');
        let run = seq![':'] + inner + seq![':'];
        assert(header == pre + seq![' '] + run);
        assert forall|i: int| 0 <= i < labels.len() implies no_space(#[trigger] labels[i]) by {
            assert(is_tag(labels[i]));
        }
        lemma_join_no_space(labels, ':');
        assert(no_space(run));
        assert(is_tag(labels.last()));
        lemma_join_not_empty(labels, ':');
        assert(pre.len() > 0) by {
            match status {
                Some(s) => {},
                None => {},
            }
        }
        assert(header[0] == pre[0]);
        assert(header.last() == ':');
        lemma_trim_clean(header);
        lemma_last_space_before(pre, ' ', run);
        assert(header.skip(pre.len() as int + 1) == run);
        assert(is_tag_run(run));
        assert(run.subrange(1, run.len() - 1) == inner);
        assert forall|i: int| 0 <= i < labels.len() implies lacks(#[trigger] labels[i], ':') by {
            assert(is_tag(labels[i]));
        }
        lemma_split_of_join(labels, ':');
        assert forall|i: int| 0 <= i < labels.len() implies (#[trigger] labels[i]).len() > 0 by {
            assert(is_tag(labels[i]));
        }
        lemma_non_empty_all(labels);
        assert(header.take(pre.len() as int) == pre);
        assert(tag_split(header) == Some(pre.len() as int));
        assert(header_labels(header) == labels);
        assert(header_words(header) == all);
    } else {
        assert(header == pre);
        let t = trim(pre);
        assert(words(t) == all) by {
            if title_words.len() > 0 {
                assert(is_word(title_words.last()));
                lemma_trim_clean(pre);
            } else {
                match status {
                    Some(s) => {
                        assert(pre == s + seq![' ']);
                        assert(trim_start(pre) == pre);
                        assert(pre.drop_last() == s);
                        assert(trim_end(pre) == trim_end(s));
                        assert(trim_end(s) == s);
                        lemma_words_of_word(s, Seq::empty());
                        assert(Seq::<char>::empty() + s == s);
                    },
                    None => {
                        assert(pre == Seq::<char>::empty());
                    },
                }
            }
        }
        assert(header_labels(t) == labels);
        assert(header_words(t) == all);
    }
    match status {
        Some(s) => {
            assert(all[0] == s);
            assert(all.skip(1) == title_words);
        },
        None => {
            assert(all == title_words);
        },
    }
}

/// A heading line written from a level, a status keyword, the words of a
/// title and tags is a heading of that level, and reading it gives back the
/// status keyword, the title words joined by single spaces, and the tags in
/// their order.
pub proof fn lemma_heading_round_trip(
    level: nat,
    status: Option<Seq<char>>,
    title_words: Seq<Seq<char>>,
    labels: Seq<Seq<char>>,
)
    requires
        level > 0,
        is_well_formed_heading(status, title_words, labels),
    ensures
        heading_level(heading_line(level, status, join(title_words, ' '), labels)) == Some(level),
        header_fields(
            header_text(heading_line(level, status, join(title_words, ' '), labels), level),
        ) == (HeaderFields { status, title: join(title_words, ' '), labels }),
{
    let title = join(title_words, ' ');
    let line = heading_line(level, status, title, labels);
    let after_stars = status_part(status) + seq![' '] + title + labels_part(labels);
    let header = header_words_text(status, title_words) + labels_part(labels);
    assert(line == repeat('*', level) + after_stars);
    assert(after_stars[0] == ' ');
    lemma_leading_stars(level, after_stars);
    assert(line[0] == '*');
    assert(trim_start(line) == line);
    assert(line[level as int] == ' ');
    assert(heading_level(line) == Some(level));
    assert(header_text(line, level) == header) by {
        assert(line.skip(level as int + 1) == after_stars.skip(1));
        match status {
            Some(s) => {
                assert(after_stars.skip(1) == header);
            },
            None => {
                assert(after_stars.skip(1) == header);
            },
        }
    }
    lemma_header_fields_of_written(status, title_words, labels);
}

} // verus!
