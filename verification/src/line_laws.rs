//! Lemmas on the lines of a text, and on runs of lines in a document.

use crate::text::{flush, join, lacks, lines, lines_after, strip_cr};
use crate::text_laws::lemma_join_first;
use vstd::prelude::*;

verus! {

/// A line as `lines` gives it back: without a line feed, and not ending in
/// a carriage return.
pub open spec fn is_line(l: Seq<char>) -> bool {
    lacks(l, '\n') && (l.len() > 0 ==> l.last() != '\r')
}

/// Every element is a line.
pub open spec fn all_lines(list: Seq<Seq<char>>) -> bool {
    forall|i: int| 0 <= i < list.len() ==> is_line(#[trigger] list[i])
}

/// Empty, or ending with a line feed.
pub open spec fn is_terminated(s: Seq<char>) -> bool {
    s.len() > 0 ==> s.last() == '\n'
}

/// The line in progress and a line with its line feed make one line.
pub proof fn lemma_lines_of_line(l: Seq<char>, cur: Seq<char>)
    requires
        lacks(l, '\n'),
    ensures
        lines_after(l + seq!['\n'], cur) == seq![strip_cr(cur + l)],
    decreases l.len(),
{
    let whole = l + seq!['\n'];
    if l.len() == 0 {
        assert(whole[0] == '\n');
        assert(whole.drop_first() == Seq::<char>::empty());
        assert(lines_after(Seq::<char>::empty(), Seq::empty()) == Seq::<Seq<char>>::empty());
        assert(cur + l == cur);
        assert(seq![strip_cr(cur)] + Seq::<Seq<char>>::empty() == seq![strip_cr(cur)]);
    } else {
        assert(whole[0] == l[0]);
        assert(whole.drop_first() == l.drop_first() + seq!['\n']);
        assert forall|i: int| 0 <= i < l.drop_first().len() implies #[trigger] l.drop_first()[i]
            != '\n' by {
            assert(l.drop_first()[i] == l[i + 1]);
        }
        lemma_lines_of_line(l.drop_first(), cur.push(l[0]));
        assert(cur.push(l[0]) + l.drop_first() == cur + l);
    }
}

/// Behind a text that ends with a line feed, lines begin anew.
pub proof fn lemma_lines_after_terminated(a: Seq<char>, b: Seq<char>, cur: Seq<char>)
    requires
        a.len() > 0,
        a.last() == '\n',
    ensures
        lines_after(a + b, cur) == lines_after(a, cur) + lines(b),
    decreases a.len(),
{
    let whole = a + b;
    assert(whole[0] == a[0]);
    assert(whole.drop_first() == a.drop_first() + b);
    if a.len() == 1 {
        assert(a.drop_first() == Seq::<char>::empty());
        assert(whole.drop_first() == b);
        assert(lines_after(a, cur) == seq![strip_cr(cur)] + flush(Seq::<char>::empty()));
        assert(lines_after(a, cur) == seq![strip_cr(cur)]);
    } else {
        assert(a.drop_first().last() == a.last());
        if a[0] == '\n' {
            lemma_lines_after_terminated(a.drop_first(), b, Seq::empty());
            assert(seq![strip_cr(cur)] + (lines_after(a.drop_first(), Seq::empty()) + lines(b))
                == (seq![strip_cr(cur)] + lines_after(a.drop_first(), Seq::empty())) + lines(b));
        } else {
            lemma_lines_after_terminated(a.drop_first(), b, cur.push(a[0]));
        }
    }
}

/// Behind a text that is empty or ends with a line feed, lines begin anew.
pub proof fn lemma_lines_concat(a: Seq<char>, b: Seq<char>)
    requires
        a.len() > 0 ==> a.last() == '\n',
    ensures
        lines(a + b) == lines(a) + lines(b),
{
    if a.len() == 0 {
        assert(a + b == b);
        assert(lines(a) + lines(b) == lines(b));
    } else {
        lemma_lines_after_terminated(a, b, Seq::empty());
    }
}

/// Two texts, each empty or ending with a line feed, read as the lines of
/// the one and then the lines of the other.
pub proof fn lemma_lines_append(
    a: Seq<char>,
    a_lines: Seq<Seq<char>>,
    b: Seq<char>,
    b_lines: Seq<Seq<char>>,
)
    requires
        lines(a) == a_lines,
        is_terminated(a),
        lines(b) == b_lines,
        is_terminated(b),
    ensures
        lines(a + b) == a_lines + b_lines,
        is_terminated(a + b),
{
    lemma_lines_concat(a, b);
    if b.len() > 0 {
        assert((a + b).last() == b.last());
    } else {
        assert(a + b == a);
    }
}

/// Six texts, each empty or ending with a line feed, read as the lines of
/// each in turn.
pub proof fn lemma_lines_append_six(
    texts: Seq<Seq<char>>,
    read: Seq<Seq<Seq<char>>>,
)
    requires
        texts.len() == 6,
        read.len() == 6,
        forall|i: int| 0 <= i < 6 ==> lines(#[trigger] texts[i]) == read[i] && is_terminated(
            texts[i],
        ),
    ensures
        lines(texts[0] + texts[1] + texts[2] + texts[3] + texts[4] + texts[5]) == read[0]
            + read[1] + read[2] + read[3] + read[4] + read[5],
        is_terminated(texts[0] + texts[1] + texts[2] + texts[3] + texts[4] + texts[5]),
{
    let t1 = texts[0] + texts[1];
    let r1 = read[0] + read[1];
    assert(lines(texts[0]) == read[0] && is_terminated(texts[0]));
    assert(lines(texts[1]) == read[1] && is_terminated(texts[1]));
    assert(lines(texts[2]) == read[2] && is_terminated(texts[2]));
    assert(lines(texts[3]) == read[3] && is_terminated(texts[3]));
    assert(lines(texts[4]) == read[4] && is_terminated(texts[4]));
    assert(lines(texts[5]) == read[5] && is_terminated(texts[5]));
    lemma_lines_append(texts[0], read[0], texts[1], read[1]);
    lemma_lines_append(t1, r1, texts[2], read[2]);
    let t2 = t1 + texts[2];
    let r2 = r1 + read[2];
    lemma_lines_append(t2, r2, texts[3], read[3]);
    let t3 = t2 + texts[3];
    let r3 = r2 + read[3];
    lemma_lines_append(t3, r3, texts[4], read[4]);
    let t4 = t3 + texts[4];
    let r4 = r3 + read[4];
    lemma_lines_append(t4, r4, texts[5], read[5]);
}

/// A line with its line feed is that line.
pub proof fn lemma_lines_of_one(l: Seq<char>)
    requires
        is_line(l),
    ensures
        lines(l + seq!['\n']) == seq![l],
{
    lemma_lines_of_line(l, Seq::empty());
    assert(Seq::<char>::empty() + l == l);
}

/// Lines joined by line feeds, with a line feed at the end, are those
/// lines.
pub proof fn lemma_lines_of_joined(list: Seq<Seq<char>>)
    requires
        list.len() > 0,
        all_lines(list),
    ensures
        lines(join(list, '\n') + seq!['\n']) == list,
    decreases list.len(),
{
    if list.len() == 1 {
        assert(is_line(list[0]));
        lemma_lines_of_one(list[0]);
        assert(seq![list[0]] == list);
    } else {
        let init = list.drop_last();
        assert(all_lines(init)) by {
            assert forall|i: int| 0 <= i < init.len() implies is_line(#[trigger] init[i]) by {
                assert(init[i] == list[i]);
            }
        }
        lemma_lines_of_joined(init);
        assert(is_line(list.last()));
        lemma_lines_of_one(list.last());
        let head = join(init, '\n') + seq!['\n'];
        assert(join(list, '\n') + seq!['\n'] == head + (list.last() + seq!['\n']));
        lemma_lines_concat(head, list.last() + seq!['\n']);
        assert(init + seq![list.last()] == list);
    }
}

/// Lines and an empty last line, joined by line feeds, are those lines:
/// the empty line only ends the one before it.
pub proof fn lemma_lines_of_joined_body(list: Seq<Seq<char>>)
    requires
        all_lines(list),
    ensures
        lines(join(list.push(Seq::empty()), '\n')) == list,
{
    let body = list.push(Seq::<char>::empty());
    if list.len() == 0 {
        assert(join(body, '\n') == Seq::<char>::empty());
    } else {
        assert(body.drop_last() == list);
        assert(join(body, '\n') == join(list, '\n') + seq!['\n'] + Seq::<char>::empty());
        assert(join(body, '\n') == join(list, '\n') + seq!['\n']);
        lemma_lines_of_joined(list);
    }
}

/// No line of `s` ends in a carriage return: none stands before a line
/// feed, and none at the end.
pub open spec fn ends_clean(s: Seq<char>) -> bool {
    forall|i: int|
        0 <= i < s.len() && #[trigger] s[i] == '\r' ==> i + 1 < s.len() && s[i + 1] != '\n'
}

/// A text whose lines end clean has lines that end clean with a line feed
/// at its end.
pub proof fn lemma_ends_clean_with_feed(s: Seq<char>)
    requires
        ends_clean(s),
    ensures
        ends_clean(s + seq!['\n']),
{
    let whole = s + seq!['\n'];
    assert forall|i: int| 0 <= i < whole.len() && #[trigger] whole[i] == '\r' implies i + 1
        < whole.len() && whole[i + 1] != '\n' by {
        assert(whole[i] == s[i]);
        assert(whole[i + 1] == s[i + 1]);
    }
}

/// The lines of a text whose lines end clean, joined by line feeds, are the
/// text again; the line in progress counts as its beginning.
pub proof fn lemma_join_of_lines(s: Seq<char>, cur: Seq<char>)
    requires
        ends_clean(cur + s),
    ensures
        lines_after(s + seq!['\n'], cur).len() > 0,
        join(lines_after(s + seq!['\n'], cur), '\n') == cur + s,
    decreases s.len(),
{
    let whole = s + seq!['\n'];
    if s.len() == 0 {
        assert(whole[0] == '\n');
        assert(whole.drop_first() == Seq::<char>::empty());
        assert(lines_after(Seq::<char>::empty(), Seq::empty()) == Seq::<Seq<char>>::empty());
        assert(seq![strip_cr(cur)] + Seq::<Seq<char>>::empty() == seq![strip_cr(cur)]);
        assert(cur + s == cur);
        assert(strip_cr(cur) == cur) by {
            if cur.len() > 0 {
                assert(cur[cur.len() - 1] == cur.last());
            }
        }
        assert(lines_after(whole, cur) == seq![cur]);
    } else {
        assert(whole[0] == s[0]);
        assert(whole.drop_first() == s.drop_first() + seq!['\n']);
        if s[0] == '\n' {
            assert(strip_cr(cur) == cur) by {
                if cur.len() > 0 {
                    assert((cur + s)[cur.len() - 1] == cur.last());
                    assert((cur + s)[cur.len() as int] == s[0]);
                }
            }
            assert(ends_clean(s.drop_first())) by {
                let rest = s.drop_first();
                assert forall|i: int| 0 <= i < rest.len() && #[trigger] rest[i]
                    == '\r' implies i + 1 < rest.len() && rest[i + 1] != '\n' by {
                    assert((cur + s)[cur.len() + 1 + i] == rest[i]);
                    if i + 1 < rest.len() {
                        assert((cur + s)[cur.len() + 2 + i] == rest[i + 1]);
                    }
                }
            }
            assert(Seq::<char>::empty() + s.drop_first() == s.drop_first());
            lemma_join_of_lines(s.drop_first(), Seq::empty());
            let rest = lines_after(s.drop_first() + seq!['\n'], Seq::empty());
            let all = seq![cur] + rest;
            assert(lines_after(whole, cur) == all);
            lemma_join_first(all, '\n');
            assert(all.drop_first() == rest);
            assert(cur + seq!['\n'] + s.drop_first() == cur + s);
        } else {
            assert(cur.push(s[0]) + s.drop_first() == cur + s);
            lemma_join_of_lines(s.drop_first(), cur.push(s[0]));
        }
    }
}

/// The lines of a text whose lines end clean are lines.
pub proof fn lemma_lines_are_lines(s: Seq<char>, cur: Seq<char>)
    requires
        ends_clean(cur + s),
        lacks(cur, '\n'),
    ensures
        all_lines(lines_after(s, cur)),
    decreases s.len(),
{
    if s.len() == 0 {
        assert(cur + s == cur);
        if cur.len() > 0 {
            assert(cur[cur.len() - 1] == cur.last());
            assert(is_line(cur));
            assert(flush(cur)[0] == cur);
        }
    } else {
        if s[0] == '\n' {
            assert(strip_cr(cur) == cur) by {
                if cur.len() > 0 {
                    assert((cur + s)[cur.len() - 1] == cur.last());
                    assert((cur + s)[cur.len() as int] == s[0]);
                }
            }
            assert(is_line(cur));
            assert(ends_clean(s.drop_first())) by {
                let rest = s.drop_first();
                assert forall|i: int| 0 <= i < rest.len() && #[trigger] rest[i]
                    == '\r' implies i + 1 < rest.len() && rest[i + 1] != '\n' by {
                    assert((cur + s)[cur.len() + 1 + i] == rest[i]);
                    if i + 1 < rest.len() {
                        assert((cur + s)[cur.len() + 2 + i] == rest[i + 1]);
                    }
                }
            }
            assert(Seq::<char>::empty() + s.drop_first() == s.drop_first());
            lemma_lines_are_lines(s.drop_first(), Seq::empty());
            let rest = lines_after(s.drop_first(), Seq::empty());
            let all = seq![strip_cr(cur)] + rest;
            assert(lines_after(s, cur) == all);
            assert forall|i: int| 0 <= i < all.len() implies is_line(#[trigger] all[i]) by {
                if i > 0 {
                    assert(all[i] == rest[i - 1]);
                }
            }
        } else {
            assert(cur.push(s[0]) + s.drop_first() == cur + s);
            assert(lacks(cur.push(s[0]), '\n'));
            lemma_lines_are_lines(s.drop_first(), cur.push(s[0]));
        }
    }
}

/// The parts of a text whose lines end clean, where line feeds join them,
/// do not end in a carriage return.
pub proof fn lemma_join_parts_end_clean(parts: Seq<Seq<char>>)
    requires
        ends_clean(join(parts, '\n')),
    ensures
        forall|i: int|
            0 <= i < parts.len() && (#[trigger] parts[i]).len() > 0 ==> parts[i].last() != '\r',
    decreases parts.len(),
{
    if parts.len() == 1 {
        let only = parts[0];
        if only.len() > 0 {
            assert(only[only.len() - 1] == only.last());
        }
    } else if parts.len() > 1 {
        let init = parts.drop_last();
        let head = join(init, '\n');
        let last = parts.last();
        let whole = join(parts, '\n');
        assert(whole == head + seq!['\n'] + last);
        assert(ends_clean(head)) by {
            assert forall|i: int| 0 <= i < head.len() && #[trigger] head[i] == '\r' implies i + 1
                < head.len() && head[i + 1] != '\n' by {
                assert(whole[i] == head[i]);
                if i + 1 < head.len() {
                    assert(whole[i + 1] == head[i + 1]);
                } else {
                    assert(whole[i + 1] == '\n');
                }
            }
        }
        lemma_join_parts_end_clean(init);
        if last.len() > 0 {
            assert(whole[whole.len() - 1] == last.last());
        }
        assert forall|i: int| 0 <= i < parts.len() && (#[trigger] parts[i]).len()
            > 0 implies parts[i].last() != '\r' by {
            if i < init.len() {
                assert(parts[i] == init[i]);
            }
        }
    }
}

/// The lines of a text hold no line feed.
pub proof fn lemma_lines_lack_line_feed(s: Seq<char>, cur: Seq<char>)
    requires
        lacks(cur, '\n'),
    ensures
        forall|i: int|
            0 <= i < lines_after(s, cur).len() ==> lacks(#[trigger] lines_after(s, cur)[i], '\n'),
    decreases s.len(),
{
    if s.len() > 0 {
        if s[0] == '\n' {
            lemma_lines_lack_line_feed(s.drop_first(), Seq::empty());
            let rest = lines_after(s.drop_first(), Seq::empty());
            let all = seq![strip_cr(cur)] + rest;
            assert forall|i: int| 0 <= i < all.len() implies lacks(#[trigger] all[i], '\n') by {
                if i > 0 {
                    assert(all[i] == rest[i - 1]);
                } else {
                    assert(all[i] == strip_cr(cur));
                }
            }
            assert(lines_after(s, cur) == all);
        } else {
            assert(lacks(cur.push(s[0]), '\n'));
            lemma_lines_lack_line_feed(s.drop_first(), cur.push(s[0]));
            assert(lines_after(s, cur) == lines_after(s.drop_first(), cur.push(s[0])));
        }
    } else {
        assert(lines_after(s, cur) == flush(cur));
        if cur.len() > 0 {
            assert(flush(cur)[0] == cur);
        }
    }
}

/// A text without a line feed is one line, if it is not empty.
pub proof fn lemma_lines_of_text_without_feed(l: Seq<char>, cur: Seq<char>)
    requires
        lacks(l, '\n'),
    ensures
        lines_after(l, cur) == flush(cur + l),
    decreases l.len(),
{
    if l.len() == 0 {
        assert(cur + l == cur);
    } else {
        assert forall|i: int| 0 <= i < l.drop_first().len() implies #[trigger] l.drop_first()[i]
            != '\n' by {
            assert(l.drop_first()[i] == l[i + 1]);
        }
        lemma_lines_of_text_without_feed(l.drop_first(), cur.push(l[0]));
        assert(cur.push(l[0]) + l.drop_first() == cur + l);
    }
}

/// Each line without its last carriage return.
pub open spec fn stripped(list: Seq<Seq<char>>) -> Seq<Seq<char>> {
    Seq::new(list.len(), |i: int| strip_cr(list[i]))
}

/// Lines without line feeds, joined by line feeds and ended by one, read
/// as those lines, each without its last carriage return.
pub proof fn lemma_lines_of_joined_stripped(list: Seq<Seq<char>>)
    requires
        list.len() > 0,
        forall|i: int| 0 <= i < list.len() ==> lacks(#[trigger] list[i], '\n'),
    ensures
        lines(join(list, '\n') + seq!['\n']) == stripped(list),
    decreases list.len(),
{
    if list.len() == 1 {
        assert(lacks(list[0], '\n'));
        lemma_lines_of_line(list[0], Seq::empty());
        assert(Seq::<char>::empty() + list[0] == list[0]);
        assert(seq![strip_cr(list[0])] == stripped(list));
    } else {
        let init = list.drop_last();
        assert forall|i: int| 0 <= i < init.len() implies lacks(#[trigger] init[i], '\n') by {
            assert(init[i] == list[i]);
        }
        lemma_lines_of_joined_stripped(init);
        assert(lacks(list.last(), '\n'));
        lemma_lines_of_line(list.last(), Seq::empty());
        assert(Seq::<char>::empty() + list.last() == list.last());
        let head = join(init, '\n') + seq!['\n'];
        assert(join(list, '\n') + seq!['\n'] == head + (list.last() + seq!['\n']));
        lemma_lines_concat(head, list.last() + seq!['\n']);
        assert(stripped(init) + seq![strip_cr(list.last())] == stripped(list));
    }
}

/// Where two runs of lines stand in a document one after the other, each
/// stands there.
pub proof fn lemma_subrange_split(
    source: Seq<Seq<char>>,
    pos: int,
    first: Seq<Seq<char>>,
    second: Seq<Seq<char>>,
)
    requires
        0 <= pos,
        pos + first.len() + second.len() <= source.len(),
        source.subrange(pos, pos + first.len() + second.len()) == first + second,
    ensures
        source.subrange(pos, pos + first.len()) == first,
        source.subrange(pos + first.len(), pos + first.len() + second.len()) == second,
        first.len() > 0 ==> source[pos] == first[0],
        second.len() > 0 ==> source[pos + first.len()] == second[0],
{
    let whole = first + second;
    let e = pos + first.len() + second.len();
    assert forall|j: int| pos <= j < e implies #[trigger] source[j] == whole[j - pos] by {
        assert(source.subrange(pos, e)[j - pos] == source[j]);
    }
    let got1 = source.subrange(pos, pos + first.len());
    assert forall|i: int| 0 <= i < got1.len() implies got1[i] == first[i] by {
        assert(got1[i] == source[pos + i]);
        assert(whole[i] == first[i]);
    }
    assert(got1 == first);
    let got2 = source.subrange(pos + first.len(), e);
    assert forall|i: int| 0 <= i < got2.len() implies got2[i] == second[i] by {
        assert(got2[i] == source[pos + first.len() + i]);
        assert(whole[first.len() + i] == second[i]);
    }
    assert(got2 == second);
    if first.len() > 0 {
        assert(whole[0] == first[0]);
    }
    if second.len() > 0 {
        assert(whole[first.len() as int] == second[0]);
    }
}

/// A line of a run that stands in a document is the line of the document
/// at its place.
pub proof fn lemma_subrange_index(source: Seq<Seq<char>>, pos: int, part: Seq<Seq<char>>, j: int)
    requires
        0 <= pos,
        pos + part.len() <= source.len(),
        source.subrange(pos, pos + part.len()) == part,
        pos <= j < pos + part.len(),
    ensures
        source[j] == part[j - pos],
{
    assert(source.subrange(pos, pos + part.len())[j - pos] == source[j]);
}

} // verus!
