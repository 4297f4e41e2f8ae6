//! Lines of a text, as `str::lines` yields them (split at '\n', a '\r'
//! just before the '\n' dropped, no final empty line), and trimming of
//! white space as `str::trim` does it.
use vstd::prelude::*;

verus! {

/// The index of the first '\n' of `s` at or after `i`, or the length of `s`.
pub open spec fn next_newline(s: Seq<char>, i: int) -> int
    decreases s.len() - i,
{
    if i >= s.len() {
        s.len() as int
    } else if s[i] == '\n' {
        i
    } else {
        next_newline(s, i + 1)
    }
}

/// Where the line that starts at `start` ends: before its '\n', and before
/// a '\r' that precedes that '\n'.
pub open spec fn line_end(s: Seq<char>, start: int) -> int {
    let e = next_newline(s, start);
    if e < s.len() && e > start && s[e - 1] == '\r' {
        e - 1
    } else {
        e
    }
}

/// The line of `s` that starts at `start`.
pub open spec fn line_at(s: Seq<char>, start: int) -> Seq<char> {
    s.subrange(start, line_end(s, start))
}

/// `p` is a prefix of `s`.
pub open spec fn starts_with(s: Seq<char>, p: Seq<char>) -> bool {
    p.len() <= s.len() && s.take(p.len() as int) == p
}

/// The newline search stays within the text.
pub proof fn lemma_next_newline(s: Seq<char>, i: int)
    ensures
        i <= s.len() ==> i <= next_newline(s, i) <= s.len(),
        i > s.len() ==> next_newline(s, i) == s.len(),
        next_newline(s, i) < s.len() ==> s[next_newline(s, i)] == '\n',
    decreases s.len() - i,
{
    if i < s.len() && s[i] != '\n' {
        lemma_next_newline(s, i + 1);
    }
}

/// No '\n' stands between `i` and the newline that `next_newline` finds.
pub proof fn lemma_before_newline(s: Seq<char>, i: int)
    requires
        0 <= i,
    ensures
        forall|k: int| i <= k < next_newline(s, i) ==> s[k] != '\n',
    decreases s.len() - i,
{
    if i < s.len() && s[i] != '\n' {
        lemma_before_newline(s, i + 1);
    }
}

/// The first newline of `s` at or after `i` is at `n` when none comes
/// before it and `n` is a newline or the end.
pub proof fn lemma_newline_at(s: Seq<char>, i: int, n: int)
    requires
        0 <= i <= n <= s.len(),
        forall|k: int| i <= k < n ==> s[k] != '\n',
        n < s.len() ==> s[n] == '\n',
    ensures
        next_newline(s, i) == n,
    decreases n - i,
{
    if i < n {
        lemma_newline_at(s, i + 1, n);
    }
}

/// Newlines are found the same way in a text with more in front of it.
pub proof fn lemma_next_newline_shift(p: Seq<char>, q: Seq<char>, j: int)
    requires
        0 <= j,
    ensures
        next_newline(p + q, p.len() + j) == p.len() + next_newline(q, j),
    decreases q.len() - j,
{
    if j < q.len() {
        assert((p + q)[p.len() + j] == q[j]);
        lemma_next_newline_shift(p, q, j + 1);
    }
}

/// Lines are the same in a text with more lines in front of it.
pub proof fn lemma_line_at_shift(p: Seq<char>, q: Seq<char>, j: int)
    requires
        0 <= j <= q.len(),
    ensures
        line_at(p + q, p.len() + j) == line_at(q, j),
{
    lemma_next_newline_shift(p, q, j);
    lemma_next_newline(q, j);
    let e = next_newline(q, j);
    if e < q.len() && e > j {
        assert((p + q)[p.len() + e - 1] == q[e - 1]);
    }
    assert(line_at(p + q, p.len() + j) =~= line_at(q, j));
}

/// Leading white space: `s` is `k` white-space characters followed by
/// `trim_start(s)`, which does not begin with white space.
pub proof fn lemma_trim_start_split(s: Seq<char>) -> (k: int)
    ensures
        0 <= k <= s.len(),
        trim_start(s) == s.skip(k),
        forall|i: int| 0 <= i < k ==> is_white_space(s[i]),
        k < s.len() ==> !is_white_space(s[k]),
    decreases s.len(),
{
    if s.len() > 0 && is_white_space(s[0]) {
        let k1 = lemma_trim_start_split(s.drop_first());
        assert(s.drop_first().skip(k1) =~= s.skip(k1 + 1));
        assert forall|i: int| 0 <= i < k1 + 1 implies is_white_space(s[i]) by {
            if i > 0 {
                assert(s[i] == s.drop_first()[i - 1]);
            }
        }
        k1 + 1
    } else {
        assert(s.skip(0) =~= s);
        0
    }
}

/// White space in front does not change what `trim_start` leaves.
pub proof fn lemma_trim_start_skips(w: Seq<char>, x: Seq<char>)
    requires
        forall|i: int| 0 <= i < w.len() ==> is_white_space(w[i]),
    ensures
        trim_start(w + x) == trim_start(x),
    decreases w.len(),
{
    if w.len() > 0 {
        assert((w + x).drop_first() =~= w.drop_first() + x);
        assert(is_white_space(w[0]));
        lemma_trim_start_skips(w.drop_first(), x);
    } else {
        assert(w + x =~= x);
    }
}

/// `trim_end(s)` is a prefix of `s`, and keeps every prefix `q` of `s` that
/// ends in a character that is not white space.
pub proof fn lemma_trim_end_prefix(s: Seq<char>, q: Seq<char>)
    ensures
        trim_end(s).len() <= s.len(),
        s.take(trim_end(s).len() as int) == trim_end(s),
        starts_with(s, q) && q.len() > 0 && !is_white_space(q.last()) ==> starts_with(
            trim_end(s),
            q,
        ),
        starts_with(trim_end(s), q) ==> starts_with(s, q),
    decreases s.len(),
{
    if s.len() > 0 && is_white_space(s.last()) {
        let y = s.drop_last();
        lemma_trim_end_prefix(y, q);
        assert(s.take(trim_end(s).len() as int) =~= y.take(trim_end(s).len() as int));
        if starts_with(s, q) && q.len() > 0 && !is_white_space(q.last()) {
            if q.len() == s.len() {
                assert(s.take(q.len() as int) =~= s);
            }
            assert(y.take(q.len() as int) =~= s.take(q.len() as int));
        }
        if starts_with(trim_end(s), q) {
            assert(y.take(q.len() as int) =~= s.take(q.len() as int));
        }
    } else {
        assert(s.take(s.len() as int) =~= s);
    }
}

/// `trim(s)` is a stretch of `s`.
pub proof fn lemma_trim_slice(s: Seq<char>) -> (r: (int, int))
    ensures
        0 <= r.0 <= r.1 <= s.len(),
        trim(s) == s.subrange(r.0, r.1),
{
    let k = lemma_trim_start_split(s);
    let t = s.skip(k);
    lemma_trim_end_prefix(t, seq![]);
    let m = trim_end(t).len() as int;
    assert(t.take(m) =~= s.subrange(k, k + m));
    (k, k + m)
}

/// A '\r' at the end is trimmed away.
pub proof fn lemma_trim_cr(s: Seq<char>)
    ensures
        trim(s.push('\r')) == trim(s),
{
    let k = lemma_trim_start_split(s);
    let w = s.take(k);
    let t0 = s.skip(k);
    assert(s.push('\r') =~= w + t0.push('\r'));
    lemma_trim_start_skips(w, t0.push('\r'));
    assert(is_white_space('\r'));
    if t0.len() > 0 {
        assert(t0.push('\r')[0] == s[k]);
        assert(trim_start(t0.push('\r')) == t0.push('\r'));
        assert(t0.push('\r').drop_last() =~= t0);
        assert(trim_end(t0.push('\r')) == trim_end(t0));
    } else {
        assert(t0.push('\r') =~= seq!['\r']);
        assert(seq!['\r'].drop_first() =~= t0);
        assert(trim_start(seq!['\r']) == trim_start(t0));
        assert(trim_start(t0) == t0);
    }
}

/// Trimmed, the line at `start` is the text up to its newline, trimmed.
pub proof fn lemma_line_trim(s: Seq<char>, start: int)
    requires
        0 <= start <= s.len(),
    ensures
        trim(line_at(s, start)) == trim(s.subrange(start, next_newline(s, start))),
{
    lemma_next_newline(s, start);
    let e = next_newline(s, start);
    if e < s.len() && e > start && s[e - 1] == '\r' {
        assert(s.subrange(start, e) =~= s.subrange(start, e - 1).push('\r'));
        lemma_trim_cr(s.subrange(start, e - 1));
    }
}

/// The index of the first '\n' at or after `i`, or the length of `s`.
pub fn find_newline(s: &[char], i: usize) -> (e: usize)
    requires
        i <= s@.len(),
    ensures
        e == next_newline(s@, i as int),
        i <= e <= s@.len(),
{
    let mut j = i;
    while j < s.len()
        invariant
            i <= j <= s@.len(),
            next_newline(s@, j as int) == next_newline(s@, i as int),
        decreases s@.len() - j,
    {
        if s[j] == '\n' {
            return j;
        }
        j += 1;
    }
    j
}

/// Where the line that starts at `start` ends (see `line_end`), and where its
/// '\n' is (the length of `s` for the last line).
pub fn find_line_end(s: &[char], start: usize) -> (r: (usize, usize))
    requires
        start <= s@.len(),
    ensures
        r.0 == line_end(s@, start as int),
        r.1 == next_newline(s@, start as int),
        start <= r.0 <= r.1 <= s@.len(),
{
    let e = find_newline(s, start);
    if e < s.len() && e > start && s[e - 1] == '\r' {
        (e - 1, e)
    } else {
        (e, e)
    }
}

/// Whether `s[start..end]` begins with `p`.
pub fn has_prefix_at(s: &[char], start: usize, end: usize, p: &[char]) -> (r: bool)
    requires
        start <= end <= s@.len(),
    ensures
        r == starts_with(s@.subrange(start as int, end as int), p@),
{
    if end - start < p.len() {
        return false;
    }
    let mut k: usize = 0;
    while k < p.len()
        invariant
            k <= p@.len(),
            p@.len() <= end - start,
            start <= end <= s@.len(),
            forall|j: int| 0 <= j < k ==> s@[start + j] == p@[j],
        decreases p@.len() - k,
    {
        if s[start + k] != p[k] {
            assert(s@.subrange(start as int, end as int).take(p@.len() as int)[k as int] != p@[k as int]);
            return false;
        }
        k += 1;
    }
    assert(s@.subrange(start as int, end as int).take(p@.len() as int) =~= p@);
    true
}

/// White space as `char::is_whitespace` has it: the Unicode property White_Space.
pub open spec fn is_white_space(c: char) -> bool {
    ||| '\u{9}' <= c <= '\u{d}'
    ||| c == ' ' || c == '\u{85}' || c == '\u{a0}' || c == '\u{1680}'
    ||| '\u{2000}' <= c <= '\u{200a}'
    ||| c == '\u{2028}' || c == '\u{2029}' || c == '\u{202f}' || c == '\u{205f}' || c == '\u{3000}'
}

/// `s` without the white space at its start.
pub open spec fn trim_start(s: Seq<char>) -> Seq<char>
    decreases s.len(),
{
    if s.len() > 0 && is_white_space(s[0]) {
        trim_start(s.drop_first())
    } else {
        s
    }
}

/// `s` without the white space at its end.
pub open spec fn trim_end(s: Seq<char>) -> Seq<char>
    decreases s.len(),
{
    if s.len() > 0 && is_white_space(s.last()) {
        trim_end(s.drop_last())
    } else {
        s
    }
}

/// `s` without white space at either end, as `str::trim` gives it.
pub open spec fn trim(s: Seq<char>) -> Seq<char> {
    trim_end(trim_start(s))
}

/// Where trimming `s[start..end]` leaves it: the bounds of its trimmed part.
pub fn trim_bounds(s: &[char], start: usize, end: usize) -> (r: (usize, usize))
    requires
        start <= end <= s@.len(),
    ensures
        start <= r.0 <= r.1 <= end,
        s@.subrange(r.0 as int, r.1 as int) == trim(s@.subrange(start as int, end as int)),
{
    let mut a = start;
    while a < end && is_ws(s[a])
        invariant
            start <= a <= end <= s@.len(),
            trim_start(s@.subrange(start as int, end as int)) == trim_start(
                s@.subrange(a as int, end as int),
            ),
        decreases end - a,
    {
        assert(s@.subrange(a as int, end as int).drop_first() =~= s@.subrange(a + 1, end as int));
        a += 1;
    }
    let ghost lead = s@.subrange(a as int, end as int);
    let mut b = end;
    while b > a && is_ws(s[b - 1])
        invariant
            a <= b <= end <= s@.len(),
            trim_end(lead) == trim_end(s@.subrange(a as int, b as int)),
        decreases b - a,
    {
        assert(s@.subrange(a as int, b as int).drop_last() =~= s@.subrange(a as int, b - 1));
        b -= 1;
    }
    (a, b)
}

/// Whether `c` is white space.
pub fn is_ws(c: char) -> (r: bool)
    ensures
        r == is_white_space(c),
{
    ('\u{9}' <= c && c <= '\u{d}') || c == ' ' || c == '\u{85}' || c == '\u{a0}' || c == '\u{1680}'
        || ('\u{2000}' <= c && c <= '\u{200a}') || c == '\u{2028}' || c == '\u{2029}' || c
        == '\u{202f}' || c == '\u{205f}' || c == '\u{3000}'
}

} // verus!
