//! Character-level text primitives: whitespace, trimming, splitting, joining
//! and searching, each as a mathematical function on `Seq<char>` with an
//! executable counterpart on `Vec<char>`.

use vstd::prelude::*;

verus! {

/// Whether `c` carries the Unicode `White_Space` property.
pub open spec fn is_space(c: char) -> bool {
    let n = c as u32;
    (0x09 <= n <= 0x0D) || n == 0x20 || n == 0x85 || n == 0xA0 || n == 0x1680 || (0x2000 <= n
        <= 0x200A) || n == 0x2028 || n == 0x2029 || n == 0x202F || n == 0x205F || n == 0x3000
}

/// No character of `s` is whitespace.
pub open spec fn no_space(s: Seq<char>) -> bool {
    forall|i: int| 0 <= i < s.len() ==> !is_space(#[trigger] s[i])
}

/// `s` without its leading whitespace.
pub open spec fn trim_start(s: Seq<char>) -> Seq<char>
    decreases s.len(),
{
    if s.len() > 0 && is_space(s[0]) {
        trim_start(s.drop_first())
    } else {
        s
    }
}

/// `s` without its trailing whitespace.
pub open spec fn trim_end(s: Seq<char>) -> Seq<char>
    decreases s.len(),
{
    if s.len() > 0 && is_space(s.last()) {
        trim_end(s.drop_last())
    } else {
        s
    }
}

/// `s` without leading and trailing whitespace.
pub open spec fn trim(s: Seq<char>) -> Seq<char> {
    trim_end(trim_start(s))
}

/// The word in progress, as a list of zero or one words.
pub open spec fn flush(cur: Seq<char>) -> Seq<Seq<char>> {
    if cur.len() > 0 {
        seq![cur]
    } else {
        Seq::empty()
    }
}

/// The whitespace-separated words of `cur + s`, where `cur` is a word
/// already begun.
pub open spec fn words_after(s: Seq<char>, cur: Seq<char>) -> Seq<Seq<char>>
    decreases s.len(),
{
    if s.len() == 0 {
        flush(cur)
    } else if is_space(s[0]) {
        flush(cur) + words_after(s.drop_first(), Seq::empty())
    } else {
        words_after(s.drop_first(), cur.push(s[0]))
    }
}

/// The maximal runs of non-whitespace characters of `s`, in order.
pub open spec fn words(s: Seq<char>) -> Seq<Seq<char>> {
    words_after(s, Seq::empty())
}

/// The pieces of `cur + s` between occurrences of `sep` in `s`.
pub open spec fn split_after(s: Seq<char>, sep: char, cur: Seq<char>) -> Seq<Seq<char>>
    decreases s.len(),
{
    if s.len() == 0 {
        seq![cur]
    } else if s[0] == sep {
        seq![cur] + split_after(s.drop_first(), sep, Seq::empty())
    } else {
        split_after(s.drop_first(), sep, cur.push(s[0]))
    }
}

/// The pieces of `s` between occurrences of `sep`: one more piece than
/// there are separators.
pub open spec fn split_on(s: Seq<char>, sep: char) -> Seq<Seq<char>> {
    split_after(s, sep, Seq::empty())
}

/// A finished line: a carriage return directly before the line feed does
/// not belong to it.
pub open spec fn strip_cr(line: Seq<char>) -> Seq<char> {
    if line.len() > 0 && line.last() == '\r' {
        line.drop_last()
    } else {
        line
    }
}

/// The lines of `cur + s`, where `cur` is a line already begun.
pub open spec fn lines_after(s: Seq<char>, cur: Seq<char>) -> Seq<Seq<char>>
    decreases s.len(),
{
    if s.len() == 0 {
        flush(cur)
    } else if s[0] == '\n' {
        seq![strip_cr(cur)] + lines_after(s.drop_first(), Seq::empty())
    } else {
        lines_after(s.drop_first(), cur.push(s[0]))
    }
}

/// The lines of `s`. A line ends at a line feed, or at a carriage return
/// and line feed; the terminator is not part of the line, and the last
/// line may lack one.
pub open spec fn lines(s: Seq<char>) -> Seq<Seq<char>> {
    lines_after(s, Seq::empty())
}

/// The `parts` with `sep` between each two neighbours.
pub open spec fn join(parts: Seq<Seq<char>>, sep: char) -> Seq<char>
    decreases parts.len(),
{
    if parts.len() == 0 {
        Seq::empty()
    } else if parts.len() == 1 {
        parts[0]
    } else {
        join(parts.drop_last(), sep) + seq![sep] + parts.last()
    }
}

/// `s` begins with `pat`.
pub open spec fn starts_with(s: Seq<char>, pat: Seq<char>) -> bool {
    pat.len() <= s.len() && s.take(pat.len() as int) == pat
}

/// The index at which `pat` first occurs in `s`.
pub open spec fn find(s: Seq<char>, pat: Seq<char>) -> Option<int>
    decreases s.len(),
{
    if starts_with(s, pat) {
        Some(0)
    } else if s.len() == 0 {
        None
    } else {
        match find(s.drop_first(), pat) {
            Some(i) => Some(i + 1),
            None => None,
        }
    }
}

/// The index of the last whitespace character of `s`.
pub open spec fn last_space(s: Seq<char>) -> Option<int>
    decreases s.len(),
{
    if s.len() == 0 {
        None
    } else if is_space(s.last()) {
        Some(s.len() - 1)
    } else {
        last_space(s.drop_last())
    }
}

/// The contents of a list of character vectors.
pub open spec fn texts(v: Seq<Vec<char>>) -> Seq<Seq<char>> {
    Seq::new(v.len(), |i: int| v[i]@)
}

/// `n` copies of `c`.
pub open spec fn repeat(c: char, n: nat) -> Seq<char> {
    Seq::new(n, |i: int| c)
}

/// A word: one character or more, none of them whitespace.
pub open spec fn is_word(w: Seq<char>) -> bool {
    w.len() > 0 && no_space(w)
}

/// Every element is a word.
pub open spec fn all_words(ws: Seq<Seq<char>>) -> bool {
    forall|i: int| 0 <= i < ws.len() ==> is_word(#[trigger] ws[i])
}

/// `c` does not occur in `s`.
pub open spec fn lacks(s: Seq<char>, c: char) -> bool {
    forall|i: int| 0 <= i < s.len() ==> #[trigger] s[i] != c
}

/// Where the last whitespace of `s` stands, nothing after it is whitespace.
pub proof fn lemma_last_space(s: Seq<char>)
    ensures
        match last_space(s) {
            Some(i) => 0 <= i < s.len() && is_space(s[i]) && no_space(s.skip(i + 1)),
            None => no_space(s),
        },
    decreases s.len(),
{
    if s.len() > 0 && !is_space(s.last()) {
        lemma_last_space(s.drop_last());
        match last_space(s) {
            Some(i) => {
                assert forall|j: int| 0 <= j < s.skip(i + 1).len() implies !is_space(
                    #[trigger] s.skip(i + 1)[j],
                ) by {
                    if i + 1 + j < s.len() - 1 {
                        assert(s.skip(i + 1)[j] == s.drop_last().skip(i + 1)[j]);
                    }
                }
            },
            None => {
                assert forall|j: int| 0 <= j < s.len() implies !is_space(#[trigger] s[j]) by {
                    if j < s.len() - 1 {
                        assert(s[j] == s.drop_last()[j]);
                    }
                }
            },
        }
    }
}

/// Where `pat` is found in `s`, it stands.
pub proof fn lemma_find(s: Seq<char>, pat: Seq<char>)
    ensures
        match find(s, pat) {
            Some(i) => 0 <= i && i + pat.len() <= s.len() && s.subrange(i, i + pat.len()) == pat,
            None => true,
        },
    decreases s.len(),
{
    if starts_with(s, pat) {
    } else if s.len() == 0 {
    } else {
        lemma_find(s.drop_first(), pat);
        match find(s.drop_first(), pat) {
            Some(i) => {
                assert(s.drop_first().subrange(i, i + pat.len()) == s.subrange(
                    i + 1,
                    i + 1 + pat.len(),
                ));
            },
            None => {},
        }
    }
}

/// Whether `c` is whitespace.
pub fn is_space_char(c: char) -> (b: bool)
    ensures
        b == is_space(c),
{
    let n: u32 = c as u32;
    (0x09 <= n && n <= 0x0D) || n == 0x20 || n == 0x85 || n == 0xA0 || n == 0x1680 || (0x2000 <= n
        && n <= 0x200A) || n == 0x2028 || n == 0x2029 || n == 0x202F || n == 0x205F || n == 0x3000
}

/// The characters of `v` from `from` up to `to`.
pub fn copy_range(v: &Vec<char>, from: usize, to: usize) -> (r: Vec<char>)
    requires
        from <= to <= v.len(),
    ensures
        r@ == v@.subrange(from as int, to as int),
{
    let mut r: Vec<char> = Vec::new();
    let mut i: usize = from;
    while i < to
        invariant
            from <= i <= to <= v.len(),
            r@ == v@.subrange(from as int, i as int),
        decreases to - i,
    {
        r.push(v[i]);
        i += 1;
    }
    r
}

/// Appends the characters of `tail` to `out`.
pub fn push_all(out: &mut Vec<char>, tail: &Vec<char>)
    ensures
        final(out)@ == old(out)@ + tail@,
{
    let mut i: usize = 0;
    while i < tail.len()
        invariant
            i <= tail.len(),
            out@ == old(out)@ + tail@.take(i as int),
        decreases tail.len() - i,
    {
        out.push(tail[i]);
        i += 1;
    }
    assert(tail@.take(tail.len() as int) == tail@);
}

/// Whether `a` and `b` hold the same characters.
pub fn same_chars(a: &Vec<char>, b: &Vec<char>) -> (r: bool)
    ensures
        r == (a@ == b@),
{
    if a.len() != b.len() {
        return false;
    }
    let mut i: usize = 0;
    while i < a.len()
        invariant
            i <= a.len(),
            a.len() == b.len(),
            forall|j: int| 0 <= j < i ==> a@[j] == b@[j],
        decreases a.len() - i,
    {
        if a[i] != b[i] {
            return false;
        }
        i += 1;
    }
    assert(a@ =~= b@);
    true
}

/// The index at which the leading whitespace of `v` ends.
pub fn trim_start_index(v: &Vec<char>) -> (start: usize)
    ensures
        start <= v.len(),
        trim_start(v@) == v@.skip(start as int),
{
    let mut start: usize = 0;
    assert(v@.skip(0) == v@);
    while start < v.len() && is_space_char(v[start])
        invariant
            start <= v.len(),
            trim_start(v@) == trim_start(v@.skip(start as int)),
        decreases v.len() - start,
    {
        assert(v@.skip(start as int).drop_first() == v@.skip(start + 1));
        start += 1;
    }
    start
}

/// `v` without leading and trailing whitespace.
pub fn trimmed(v: &Vec<char>) -> (r: Vec<char>)
    ensures
        r@ == trim(v@),
{
    let start = trim_start_index(v);
    let mut end: usize = v.len();
    assert(v@.skip(start as int) == v@.subrange(start as int, end as int));
    while end > start && is_space_char(v[end - 1])
        invariant
            start <= end <= v.len(),
            trim(v@) == trim_end(v@.subrange(start as int, end as int)),
        decreases end,
    {
        assert(v@.subrange(start as int, end as int).drop_last() == v@.subrange(
            start as int,
            end - 1,
        ));
        end -= 1;
    }
    copy_range(v, start, end)
}

/// The whitespace-separated words of `v`.
pub fn split_words(v: &Vec<char>) -> (out: Vec<Vec<char>>)
    ensures
        texts(out@) == words(v@),
{
    let mut out: Vec<Vec<char>> = Vec::new();
    let mut cur: Vec<char> = Vec::new();
    let mut i: usize = 0;
    assert(v@.skip(0) == v@);
    while i < v.len()
        invariant
            i <= v.len(),
            texts(out@) + words_after(v@.skip(i as int), cur@) == words(v@),
        decreases v.len() - i,
    {
        let c = v[i];
        let ghost before = texts(out@);
        let ghost word = cur@;
        let ghost rest = v@.skip(i + 1);
        assert(v@.skip(i as int).drop_first() == rest);
        if is_space_char(c) {
            if cur.len() > 0 {
                out.push(cur);
                cur = Vec::new();
            }
            assert(texts(out@) == before + flush(word));
            assert(cur@ == Seq::<char>::empty());
            assert(texts(out@) + words_after(rest, cur@) == before + (flush(word) + words_after(
                rest,
                Seq::empty(),
            )));
        } else {
            cur.push(c);
        }
        i += 1;
    }
    if cur.len() > 0 {
        let ghost before = texts(out@);
        out.push(cur);
        assert(texts(out@) == before + flush(cur@));
    }
    out
}

/// The pieces of `v` between occurrences of `sep`.
pub fn split_chars(v: &Vec<char>, sep: char) -> (out: Vec<Vec<char>>)
    ensures
        texts(out@) == split_on(v@, sep),
{
    let mut out: Vec<Vec<char>> = Vec::new();
    let mut cur: Vec<char> = Vec::new();
    let mut i: usize = 0;
    assert(v@.skip(0) == v@);
    while i < v.len()
        invariant
            i <= v.len(),
            texts(out@) + split_after(v@.skip(i as int), sep, cur@) == split_on(v@, sep),
        decreases v.len() - i,
    {
        let c = v[i];
        assert(v@.skip(i as int).drop_first() == v@.skip(i + 1));
        if c == sep {
            let ghost before = texts(out@);
            out.push(cur);
            assert(texts(out@) == before + seq![cur@]);
            cur = Vec::new();
        } else {
            cur.push(c);
        }
        i += 1;
    }
    let ghost before = texts(out@);
    out.push(cur);
    assert(texts(out@) == before + seq![cur@]);
    out
}

/// The lines of `v`.
pub fn split_lines(v: &Vec<char>) -> (out: Vec<Vec<char>>)
    ensures
        texts(out@) == lines(v@),
{
    let mut out: Vec<Vec<char>> = Vec::new();
    let mut cur: Vec<char> = Vec::new();
    let mut i: usize = 0;
    assert(v@.skip(0) == v@);
    while i < v.len()
        invariant
            i <= v.len(),
            texts(out@) + lines_after(v@.skip(i as int), cur@) == lines(v@),
        decreases v.len() - i,
    {
        let c = v[i];
        assert(v@.skip(i as int).drop_first() == v@.skip(i + 1));
        if c == '\n' {
            let ghost line = cur@;
            if cur.len() > 0 && cur[cur.len() - 1] == '\r' {
                cur.pop();
            }
            let ghost before = texts(out@);
            out.push(cur);
            assert(texts(out@) == before + seq![strip_cr(line)]);
            cur = Vec::new();
        } else {
            cur.push(c);
        }
        i += 1;
    }
    if cur.len() > 0 {
        let ghost before = texts(out@);
        out.push(cur);
        assert(texts(out@) == before + flush(cur@));
    }
    out
}

/// The `parts` with `sep` between each two neighbours.
pub fn join_chars(parts: &Vec<Vec<char>>, sep: char) -> (out: Vec<char>)
    ensures
        out@ == join(texts(parts@), sep),
{
    let mut out: Vec<char> = Vec::new();
    let mut i: usize = 0;
    while i < parts.len()
        invariant
            i <= parts.len(),
            out@ == join(texts(parts@).take(i as int), sep),
        decreases parts.len() - i,
    {
        let ghost done = texts(parts@).take(i as int);
        let ghost next = texts(parts@).take(i + 1);
        assert(next.drop_last() == done);
        assert(next.last() == parts[i as int]@);
        if i > 0 {
            out.push(sep);
        }
        push_all(&mut out, &parts[i]);
        i += 1;
    }
    assert(texts(parts@).take(parts.len() as int) == texts(parts@));
    out
}

/// Whether `v` holds `pat` at index `from`.
pub fn has_prefix(v: &Vec<char>, from: usize, pat: &Vec<char>) -> (r: bool)
    requires
        from <= v.len(),
    ensures
        r == starts_with(v@.skip(from as int), pat@),
{
    if pat.len() > v.len() - from {
        return false;
    }
    let mut j: usize = 0;
    while j < pat.len()
        invariant
            j <= pat.len(),
            from + pat.len() <= v.len(),
            forall|k: int| 0 <= k < j ==> v@[from + k] == pat@[k],
        decreases pat.len() - j,
    {
        if v[from + j] != pat[j] {
            assert(v@.skip(from as int).take(pat.len() as int)[j as int] != pat@[j as int]);
            return false;
        }
        j += 1;
    }
    assert(v@.skip(from as int).take(pat.len() as int) =~= pat@);
    true
}

/// The index at which `pat` first occurs in `v`.
pub fn find_chars(v: &Vec<char>, pat: &Vec<char>) -> (r: Option<usize>)
    ensures
        match r {
            Some(i) => find(v@, pat@) == Some(i as int) && i + pat.len() <= v.len(),
            None => find(v@, pat@) is None,
        },
{
    proof {
        lemma_find(v@, pat@);
    }
    let mut i: usize = 0;
    assert(v@.skip(0) == v@);
    while i < v.len()
        invariant
            i <= v.len(),
            find(v@, pat@) == match find(v@.skip(i as int), pat@) {
                Some(k) => Some(k + i),
                None => None,
            },
        decreases v.len() - i,
    {
        if has_prefix(v, i, pat) {
            return Some(i);
        }
        assert(v@.skip(i as int).drop_first() == v@.skip(i + 1));
        i += 1;
    }
    if has_prefix(v, i, pat) {
        Some(i)
    } else {
        None
    }
}

/// The index of the last whitespace character of `v`.
pub fn last_space_index(v: &Vec<char>) -> (r: Option<usize>)
    ensures
        match r {
            Some(i) => last_space(v@) == Some(i as int) && i < v.len(),
            None => last_space(v@) is None,
        },
{
    let mut end: usize = v.len();
    assert(v@.take(end as int) == v@);
    while end > 0
        invariant
            end <= v.len(),
            last_space(v@) == last_space(v@.take(end as int)),
        decreases end,
    {
        if is_space_char(v[end - 1]) {
            return Some(end - 1);
        }
        assert(v@.take(end as int).drop_last() == v@.take(end - 1));
        end -= 1;
    }
    None
}

} // verus!
