//! Lemmas on trimming, words, splitting, joining and searching.

use crate::text::{
    all_words, find, flush, is_space, is_word, join, lacks, last_space, lemma_find, no_space,
    split_after, split_on, starts_with, trim, trim_end, trim_start, words, words_after,
};
use vstd::prelude::*;

verus! {

/// Trimmed text is no longer than the text.
pub proof fn lemma_trim_lengths(s: Seq<char>)
    ensures
        trim_start(s).len() <= s.len(),
        trim_end(s).len() <= s.len(),
        s.len() > 0 && is_space(s[0]) ==> trim_start(s).len() < s.len(),
        s.len() > 0 && is_space(s.last()) ==> trim_end(s).len() < s.len(),
    decreases s.len(),
{
    if s.len() > 0 {
        lemma_trim_lengths(s.drop_first());
        lemma_trim_lengths(s.drop_last());
    }
}

/// Text that neither begins nor ends with whitespace is its own trimming.
pub proof fn lemma_trim_clean(s: Seq<char>)
    requires
        s.len() > 0 ==> !is_space(s[0]) && !is_space(s.last()),
    ensures
        trim(s) == s,
{
}

/// Text that is its own trimming neither begins nor ends with whitespace.
pub proof fn lemma_trimmed_ends(s: Seq<char>)
    requires
        trim(s) == s,
        s.len() > 0,
    ensures
        !is_space(s[0]),
        !is_space(s.last()),
{
    lemma_trim_lengths(s);
    lemma_trim_lengths(trim_start(s));
}

/// Trailing whitespace is not the first character of a text that begins
/// with none.
pub proof fn lemma_trim_end_first(s: Seq<char>)
    requires
        s.len() > 0,
        !is_space(s[0]),
    ensures
        trim_end(s).len() > 0,
        trim_end(s)[0] == s[0],
    decreases s.len(),
{
    if is_space(s.last()) {
        assert(s.len() > 1);
        assert(s.drop_last()[0] == s[0]);
        lemma_trim_end_first(s.drop_last());
    }
}

/// Text that begins with a character that is no whitespace keeps it as the
/// first of its trimming.
pub proof fn lemma_trim_first(s: Seq<char>)
    requires
        s.len() > 0,
        !is_space(s[0]),
    ensures
        trim(s).len() > 0,
        trim(s)[0] == s[0],
{
    assert(trim_start(s) == s);
    lemma_trim_end_first(s);
}

/// What is left of a text after its leading whitespace begins with none.
pub proof fn lemma_trim_start_first(s: Seq<char>)
    ensures
        trim_start(s).len() > 0 ==> !is_space(trim_start(s)[0]),
    decreases s.len(),
{
    if s.len() > 0 && is_space(s[0]) {
        lemma_trim_start_first(s.drop_first());
    }
}

/// The trimming of a text begins as the text does behind its leading
/// whitespace.
pub proof fn lemma_trim_begins(s: Seq<char>)
    requires
        trim(s).len() > 0,
    ensures
        trim_start(s).len() > 0,
        trim_start(s)[0] == trim(s)[0],
        !is_space(trim(s)[0]),
{
    let x = trim_start(s);
    lemma_trim_lengths(x);
    lemma_trim_start_first(s);
    lemma_trim_end_first(x);
}

/// What is left of a text after its trailing whitespace ends with none.
pub proof fn lemma_trim_end_last(s: Seq<char>)
    ensures
        trim_end(s).len() > 0 ==> !is_space(trim_end(s).last()),
    decreases s.len(),
{
    if s.len() > 0 && is_space(s.last()) {
        lemma_trim_end_last(s.drop_last());
    }
}

/// A trimmed text neither begins nor ends with whitespace, and is its own
/// trimming.
pub proof fn lemma_trim_is_trimmed(s: Seq<char>)
    ensures
        trim(s).len() > 0 ==> !is_space(trim(s)[0]) && !is_space(trim(s).last()),
        trim(trim(s)) == trim(s),
{
    let x = trim_start(s);
    lemma_trim_start_first(s);
    lemma_trim_end_last(x);
    lemma_trim_lengths(x);
    if trim(s).len() > 0 {
        lemma_trim_end_first(x);
    }
    lemma_trim_clean(trim(s));
}

/// What is left after leading whitespace is the end of the text.
pub proof fn lemma_trim_start_is_skip(s: Seq<char>)
    ensures
        trim_start(s).len() <= s.len(),
        trim_start(s) == s.skip(s.len() - trim_start(s).len()),
    decreases s.len(),
{
    if s.len() > 0 && is_space(s[0]) {
        lemma_trim_start_is_skip(s.drop_first());
        let k = s.drop_first().len() - trim_start(s.drop_first()).len();
        assert(s.drop_first().skip(k) == s.skip(k + 1));
    } else {
        assert(s.skip(0) == s);
    }
}

/// What is left after trailing whitespace is the beginning of the text.
pub proof fn lemma_trim_end_is_take(s: Seq<char>)
    ensures
        trim_end(s).len() <= s.len(),
        trim_end(s) == s.take(trim_end(s).len() as int),
    decreases s.len(),
{
    if s.len() > 0 && is_space(s.last()) {
        lemma_trim_end_is_take(s.drop_last());
        let k = trim_end(s.drop_last()).len() as int;
        assert(s.drop_last().take(k) == s.take(k));
    } else {
        assert(s.take(s.len() as int) == s);
    }
}

/// Behind leading whitespace and something more, what is appended stays
/// appended.
pub proof fn lemma_trim_start_append(a: Seq<char>, b: Seq<char>)
    requires
        trim_start(a).len() > 0,
    ensures
        trim_start(a + b) == trim_start(a) + b,
    decreases a.len(),
{
    if a.len() > 0 && is_space(a[0]) {
        assert((a + b)[0] == a[0]);
        assert((a + b).drop_first() == a.drop_first() + b);
        lemma_trim_start_append(a.drop_first(), b);
    } else {
        assert((a + b)[0] == a[0]);
    }
}

/// Whitespace between two texts separates their words.
pub proof fn lemma_words_after_space(x: Seq<char>, sp: char, y: Seq<char>, cur: Seq<char>)
    requires
        is_space(sp),
    ensures
        words_after(x + seq![sp] + y, cur) == words_after(x, cur) + words(y),
    decreases x.len(),
{
    let whole = x + seq![sp] + y;
    if x.len() == 0 {
        assert(whole.drop_first() == y);
        assert(flush(cur) + words(y) == words_after(whole, cur));
    } else {
        assert(whole.drop_first() == x.drop_first() + seq![sp] + y);
        assert(whole[0] == x[0]);
        if is_space(x[0]) {
            lemma_words_after_space(x.drop_first(), sp, y, Seq::empty());
            assert(flush(cur) + (words_after(x.drop_first(), Seq::empty()) + words(y)) == (
            flush(cur) + words_after(x.drop_first(), Seq::empty())) + words(y));
        } else {
            lemma_words_after_space(x.drop_first(), sp, y, cur.push(x[0]));
        }
    }
}

/// Text without whitespace adds to the word in progress and ends it.
pub proof fn lemma_words_of_word(w: Seq<char>, cur: Seq<char>)
    requires
        no_space(w),
    ensures
        words_after(w, cur) == flush(cur + w),
    decreases w.len(),
{
    if w.len() == 0 {
        assert(cur + w == cur);
    } else {
        assert forall|i: int| 0 <= i < w.drop_first().len() implies !is_space(
            #[trigger] w.drop_first()[i],
        ) by {
            assert(w.drop_first()[i] == w[i + 1]);
        }
        lemma_words_of_word(w.drop_first(), cur.push(w[0]));
        assert(cur.push(w[0]) + w.drop_first() == cur + w);
    }
}

/// Words joined by single spaces are the words of the joined text.
pub proof fn lemma_words_of_join(ws: Seq<Seq<char>>)
    requires
        all_words(ws),
    ensures
        words(join(ws, ' ')) == ws,
    decreases ws.len(),
{
    if ws.len() == 0 {
    } else if ws.len() == 1 {
        lemma_words_of_word(ws[0], Seq::empty());
        assert(Seq::<char>::empty() + ws[0] == ws[0]);
        assert(flush(ws[0]) == ws);
    } else {
        let init = ws.drop_last();
        assert(all_words(init)) by {
            assert forall|i: int| 0 <= i < init.len() implies is_word(#[trigger] init[i]) by {
                assert(init[i] == ws[i]);
            }
        }
        lemma_words_of_join(init);
        lemma_words_after_space(join(init, ' '), ' ', ws.last(), Seq::empty());
        lemma_words_of_word(ws.last(), Seq::empty());
        assert(Seq::<char>::empty() + ws.last() == ws.last());
        assert(init + seq![ws.last()] == ws);
    }
}

/// Every word of a text is a word.
pub proof fn lemma_words_are_words(s: Seq<char>, cur: Seq<char>)
    requires
        no_space(cur),
    ensures
        all_words(words_after(s, cur)),
    decreases s.len(),
{
    if s.len() > 0 {
        if is_space(s[0]) {
            lemma_words_are_words(s.drop_first(), Seq::empty());
            let rest = words_after(s.drop_first(), Seq::empty());
            let all = flush(cur) + rest;
            assert forall|i: int| 0 <= i < all.len() implies is_word(#[trigger] all[i]) by {
                if i < flush(cur).len() {
                    assert(all[i] == cur);
                } else {
                    assert(all[i] == rest[i - flush(cur).len()]);
                }
            }
        } else {
            assert(no_space(cur.push(s[0])));
            lemma_words_are_words(s.drop_first(), cur.push(s[0]));
        }
    }
}

/// A text that begins with a character that is no whitespace has a word.
pub proof fn lemma_words_not_empty(s: Seq<char>, cur: Seq<char>)
    requires
        cur.len() > 0 || (s.len() > 0 && !is_space(s[0])),
    ensures
        words_after(s, cur).len() > 0,
    decreases s.len(),
{
    if s.len() > 0 && !is_space(s[0]) {
        lemma_words_not_empty(s.drop_first(), cur.push(s[0]));
    }
}

/// Words joined by single spaces hold no whitespace but those spaces, and
/// begin and end with a character of a word.
pub proof fn lemma_join_words_ends(ws: Seq<Seq<char>>)
    requires
        all_words(ws),
        ws.len() > 0,
    ensures
        join(ws, ' ').len() > 0,
        join(ws, ' ')[0] == ws[0][0],
        join(ws, ' ').last() == ws.last().last(),
    decreases ws.len(),
{
    if ws.len() > 1 {
        let init = ws.drop_last();
        assert forall|i: int| 0 <= i < init.len() implies is_word(#[trigger] init[i]) by {
            assert(init[i] == ws[i]);
        }
        lemma_join_words_ends(init);
        assert(init[0] == ws[0]);
    }
}

/// Text without the separator adds to the piece in progress and ends it.
pub proof fn lemma_split_of_piece(b: Seq<char>, sep: char, cur: Seq<char>)
    requires
        lacks(b, sep),
    ensures
        split_after(b, sep, cur) == seq![cur + b],
    decreases b.len(),
{
    if b.len() == 0 {
        assert(cur + b == cur);
    } else {
        assert forall|i: int| 0 <= i < b.drop_first().len() implies #[trigger] b.drop_first()[i]
            != sep by {
            assert(b.drop_first()[i] == b[i + 1]);
        }
        lemma_split_of_piece(b.drop_first(), sep, cur.push(b[0]));
        assert(cur.push(b[0]) + b.drop_first() == cur + b);
    }
}

/// A separator and a piece without one add that piece to the pieces.
pub proof fn lemma_split_after_piece(a: Seq<char>, sep: char, b: Seq<char>, cur: Seq<char>)
    requires
        lacks(b, sep),
    ensures
        split_after(a + seq![sep] + b, sep, cur) == split_after(a, sep, cur) + seq![b],
    decreases a.len(),
{
    let whole = a + seq![sep] + b;
    if a.len() == 0 {
        assert(whole.drop_first() == b);
        lemma_split_of_piece(b, sep, Seq::empty());
        assert(Seq::<char>::empty() + b == b);
    } else {
        assert(whole.drop_first() == a.drop_first() + seq![sep] + b);
        assert(whole[0] == a[0]);
        if a[0] == sep {
            lemma_split_after_piece(a.drop_first(), sep, b, Seq::empty());
            assert(seq![cur] + (split_after(a.drop_first(), sep, Seq::empty()) + seq![b]) == (
            seq![cur] + split_after(a.drop_first(), sep, Seq::empty())) + seq![b]);
        } else {
            lemma_split_after_piece(a.drop_first(), sep, b, cur.push(a[0]));
        }
    }
}

/// Pieces without the separator, joined by it, split into themselves.
pub proof fn lemma_split_of_join(parts: Seq<Seq<char>>, sep: char)
    requires
        parts.len() > 0,
        forall|i: int| 0 <= i < parts.len() ==> lacks(#[trigger] parts[i], sep),
    ensures
        split_on(join(parts, sep), sep) == parts,
    decreases parts.len(),
{
    if parts.len() == 1 {
        lemma_split_of_piece(parts[0], sep, Seq::empty());
        assert(Seq::<char>::empty() + parts[0] == parts[0]);
        assert(seq![parts[0]] == parts);
    } else {
        let init = parts.drop_last();
        assert forall|i: int| 0 <= i < init.len() implies lacks(#[trigger] init[i], sep) by {
            assert(init[i] == parts[i]);
        }
        lemma_split_of_join(init, sep);
        lemma_split_after_piece(join(init, sep), sep, parts.last(), Seq::empty());
        assert(init + seq![parts.last()] == parts);
    }
}

/// The pieces of a text split at a separator hold no separator, and no
/// character that the text does not hold.
pub proof fn lemma_split_pieces_lack(s: Seq<char>, sep: char, cur: Seq<char>, c: char)
    requires
        lacks(cur, c),
        c == sep || lacks(s, c),
    ensures
        forall|i: int|
            0 <= i < split_after(s, sep, cur).len() ==> lacks(
                #[trigger] split_after(s, sep, cur)[i],
                c,
            ),
    decreases s.len(),
{
    if s.len() > 0 {
        assert(c == sep || lacks(s.drop_first(), c)) by {
            if c != sep {
                let rest = s.drop_first();
                assert forall|i: int| 0 <= i < rest.len() implies #[trigger] rest[i] != c by {
                    assert(rest[i] == s[i + 1]);
                }
            }
        }
        if s[0] == sep {
            lemma_split_pieces_lack(s.drop_first(), sep, Seq::empty(), c);
            let rest = split_after(s.drop_first(), sep, Seq::empty());
            let all = seq![cur] + rest;
            assert forall|i: int| 0 <= i < all.len() implies lacks(#[trigger] all[i], c) by {
                if i > 0 {
                    assert(all[i] == rest[i - 1]);
                } else {
                    assert(all[i] == cur);
                }
            }
            assert(split_after(s, sep, cur) == all);
        } else {
            assert(s[0] != c) by {
                if c != sep {
                    assert(lacks(s, c));
                }
            }
            assert(lacks(cur.push(s[0]), c));
            lemma_split_pieces_lack(s.drop_first(), sep, cur.push(s[0]), c);
            assert(split_after(s, sep, cur) == split_after(s.drop_first(), sep, cur.push(s[0])));
        }
    } else {
        assert(split_after(s, sep, cur) == seq![cur]);
        assert(seq![cur][0] == cur);
    }
}

/// The pieces of a text without whitespace hold no whitespace.
pub proof fn lemma_split_pieces_no_space(s: Seq<char>, sep: char, cur: Seq<char>)
    requires
        no_space(cur),
        no_space(s),
    ensures
        forall|i: int|
            0 <= i < split_after(s, sep, cur).len() ==> no_space(
                #[trigger] split_after(s, sep, cur)[i],
            ),
    decreases s.len(),
{
    if s.len() > 0 {
        assert(no_space(s.drop_first())) by {
            assert forall|i: int| 0 <= i < s.drop_first().len() implies !is_space(
                #[trigger] s.drop_first()[i],
            ) by {
                assert(s.drop_first()[i] == s[i + 1]);
            }
        }
        if s[0] == sep {
            lemma_split_pieces_no_space(s.drop_first(), sep, Seq::empty());
            let rest = split_after(s.drop_first(), sep, Seq::empty());
            let all = seq![cur] + rest;
            assert forall|i: int| 0 <= i < all.len() implies no_space(#[trigger] all[i]) by {
                if i > 0 {
                    assert(all[i] == rest[i - 1]);
                } else {
                    assert(all[i] == cur);
                }
            }
            assert(split_after(s, sep, cur) == all);
        } else {
            assert(!is_space(s[0]));
            assert(no_space(cur.push(s[0])));
            lemma_split_pieces_no_space(s.drop_first(), sep, cur.push(s[0]));
            assert(split_after(s, sep, cur) == split_after(s.drop_first(), sep, cur.push(s[0])));
        }
    } else {
        assert(split_after(s, sep, cur) == seq![cur]);
        assert(seq![cur][0] == cur);
    }
}

/// Pieces without whitespace, joined by a character that is none, hold no
/// whitespace.
pub proof fn lemma_join_no_space(parts: Seq<Seq<char>>, sep: char)
    requires
        !is_space(sep),
        forall|i: int| 0 <= i < parts.len() ==> no_space(#[trigger] parts[i]),
    ensures
        no_space(join(parts, sep)),
    decreases parts.len(),
{
    if parts.len() > 1 {
        let init = parts.drop_last();
        assert forall|i: int| 0 <= i < init.len() implies no_space(#[trigger] init[i]) by {
            assert(init[i] == parts[i]);
        }
        lemma_join_no_space(init, sep);
        assert(no_space(parts.last()));
    } else if parts.len() == 1 {
        assert(no_space(parts[0]));
    }
}

/// Pieces of which the last is not empty join to a text that is not empty.
pub proof fn lemma_join_not_empty(parts: Seq<Seq<char>>, sep: char)
    requires
        parts.len() > 0,
        parts.last().len() > 0,
    ensures
        join(parts, sep).len() > 0,
{
}

/// Parts without a character, joined by another, are without it.
pub proof fn lemma_join_lacks(parts: Seq<Seq<char>>, sep: char, c: char)
    requires
        sep != c,
        forall|i: int| 0 <= i < parts.len() ==> lacks(#[trigger] parts[i], c),
    ensures
        lacks(join(parts, sep), c),
    decreases parts.len(),
{
    if parts.len() > 1 {
        let init = parts.drop_last();
        assert forall|i: int| 0 <= i < init.len() implies lacks(#[trigger] init[i], c) by {
            assert(init[i] == parts[i]);
        }
        lemma_join_lacks(init, sep, c);
        assert(lacks(parts.last(), c));
    } else if parts.len() == 1 {
        assert(lacks(parts[0], c));
    }
}

/// The first of several parts stands before a separator and the others.
pub proof fn lemma_join_first(parts: Seq<Seq<char>>, sep: char)
    requires
        parts.len() > 1,
    ensures
        join(parts, sep) == parts[0] + seq![sep] + join(parts.drop_first(), sep),
    decreases parts.len(),
{
    if parts.len() == 2 {
        assert(parts.drop_last() == seq![parts[0]]);
        assert(parts.drop_first() == seq![parts[1]]);
        assert(join(parts.drop_last(), sep) == parts[0]);
    } else {
        let init = parts.drop_last();
        lemma_join_first(init, sep);
        assert(init.drop_first() == parts.drop_first().drop_last());
        assert(init[0] == parts[0]);
        assert(parts.drop_first().last() == parts.last());
        assert(join(parts, sep) == (parts[0] + seq![sep] + join(init.drop_first(), sep))
            + seq![sep] + parts.last());
        assert(join(parts.drop_first(), sep) == join(init.drop_first(), sep) + seq![sep]
            + parts.last());
        assert((parts[0] + seq![sep] + join(init.drop_first(), sep)) + seq![sep] + parts.last()
            == parts[0] + seq![sep] + (join(init.drop_first(), sep) + seq![sep] + parts.last()));
    }
}

/// The last whitespace of a text stands before its last run of other
/// characters.
pub proof fn lemma_last_space_before(a: Seq<char>, sp: char, b: Seq<char>)
    requires
        is_space(sp),
        no_space(b),
    ensures
        last_space(a + seq![sp] + b) == Some(a.len() as int),
    decreases b.len(),
{
    let whole = a + seq![sp] + b;
    if b.len() == 0 {
        assert(whole.last() == sp);
    } else {
        assert(whole.last() == b.last());
        assert(whole.drop_last() == a + seq![sp] + b.drop_last());
        assert forall|i: int| 0 <= i < b.drop_last().len() implies !is_space(
            #[trigger] b.drop_last()[i],
        ) by {
            assert(b.drop_last()[i] == b[i]);
        }
        lemma_last_space_before(a, sp, b.drop_last());
    }
}

/// `pat` stands in `s` at index `i`.
pub open spec fn occurs_at(s: Seq<char>, pat: Seq<char>, i: int) -> bool {
    0 <= i && i + pat.len() <= s.len() && s.subrange(i, i + pat.len()) == pat
}

/// What stands in a text is found in it.
pub proof fn lemma_occurs_found(s: Seq<char>, pat: Seq<char>, i: int)
    requires
        occurs_at(s, pat, i),
    ensures
        find(s, pat) is Some,
    decreases i,
{
    if i == 0 {
        assert(s.take(pat.len() as int) == s.subrange(0, pat.len() as int));
    } else if !starts_with(s, pat) {
        assert(s.drop_first().subrange(i - 1, i - 1 + pat.len()) == s.subrange(
            i,
            i + pat.len(),
        ));
        lemma_occurs_found(s.drop_first(), pat, i - 1);
    }
}

/// What is found in a part of a text is found in the text.
pub proof fn lemma_find_in_part(whole: Seq<char>, a: int, b: int, pat: Seq<char>)
    requires
        0 <= a <= b <= whole.len(),
        find(whole.subrange(a, b), pat) is Some,
    ensures
        find(whole, pat) is Some,
{
    let part = whole.subrange(a, b);
    lemma_find(part, pat);
    let i = find(part, pat)->0;
    assert(part.subrange(i, i + pat.len()) == whole.subrange(a + i, a + i + pat.len()));
    lemma_occurs_found(whole, pat, a + i);
}

/// What is found behind the beginning of a text is found in the text.
pub proof fn lemma_find_in_skip(s: Seq<char>, k: int, pat: Seq<char>)
    requires
        0 <= k <= s.len(),
        find(s.skip(k), pat) is Some,
    ensures
        find(s, pat) is Some,
{
    assert(s.skip(k) == s.subrange(k, s.len() as int));
    lemma_find_in_part(s, k, s.len() as int, pat);
}

/// A trimmed text is a part of the text: what the text lacks it lacks,
/// and what is found in it is found in the text.
pub proof fn lemma_trim_is_part(s: Seq<char>, pat: Seq<char>, c: char)
    ensures
        lacks(s, c) ==> lacks(trim(s), c),
        find(trim(s), pat) is Some ==> find(s, pat) is Some,
{
    let x = trim_start(s);
    lemma_trim_start_is_skip(s);
    lemma_trim_end_is_take(x);
    let a = s.len() - x.len();
    let b = a + trim(s).len();
    assert(trim(s) == s.subrange(a, b)) by {
        assert(x.take(trim(s).len() as int) == s.subrange(a, b));
    }
    if find(trim(s), pat) is Some {
        lemma_find_in_part(s, a, b, pat);
    }
    if lacks(s, c) {
        assert forall|i: int| 0 <= i < trim(s).len() implies #[trigger] trim(s)[i] != c by {
            assert(trim(s)[i] == s[a + i]);
        }
    }
}

/// A text does not hold a pattern behind a prefix in which the pattern
/// cannot begin, unless it holds it behind the prefix.
pub proof fn lemma_find_behind_prefix(prefix: Seq<char>, rest: Seq<char>, pat: Seq<char>)
    requires
        pat.len() >= 2,
        find(rest, pat) is None,
        forall|k: int|
            0 <= k < prefix.len() ==> #[trigger] prefix[k] != pat[0] || (k + 1 < prefix.len()
                && prefix[k + 1] != pat[1]),
    ensures
        find(prefix + rest, pat) is None,
    decreases prefix.len(),
{
    let whole = prefix + rest;
    if prefix.len() == 0 {
        assert(whole == rest);
    } else {
        assert(whole[0] == prefix[0]);
        if starts_with(whole, pat) {
            assert(whole.take(pat.len() as int)[0] == pat[0]);
            assert(whole.take(pat.len() as int)[1] == pat[1]);
            assert(prefix[0] != pat[0] || (1 < prefix.len() && prefix[1] != pat[1]));
            if 1 < prefix.len() {
                assert(whole[1] == prefix[1]);
            }
            assert(false);
        }
        assert(whole.drop_first() == prefix.drop_first() + rest);
        let tail = prefix.drop_first();
        assert forall|k: int| 0 <= k < tail.len() implies #[trigger] tail[k] != pat[0] || (k + 1
            < tail.len() && tail[k + 1] != pat[1]) by {
            assert(tail[k] == prefix[k + 1]);
            if k + 1 < tail.len() {
                assert(tail[k + 1] == prefix[k + 2]);
            }
        }
        lemma_find_behind_prefix(prefix.drop_first(), rest, pat);
    }
}

} // verus!
