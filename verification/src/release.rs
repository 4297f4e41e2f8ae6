//! The text work of a release: reading and bumping the version in a
//! `Cargo.toml`, and writing the version file of the web demo.
use vstd::prelude::*;

use crate::lines::{
    find_line_end, has_prefix_at, lemma_before_newline, lemma_line_at_shift, lemma_line_trim,
    lemma_newline_at, lemma_next_newline, lemma_next_newline_shift, lemma_trim_end_prefix,
    lemma_trim_slice, lemma_trim_start_skips, lemma_trim_start_split, line_at, next_newline,
    starts_with, trim, trim_bounds, trim_end, trim_start,
};
use crate::text::{chars_to_string, push_char};

verus! {

/// Why no version could be read.
#[derive(Debug, Clone, Copy, PartialEq, Eq, Structural)]
pub enum VersionError {
    /// A `version = "` line whose value has no closing quote.
    NoClosingQuote,
    /// No line begins with `version = "`.
    NoVersionLine,
}

/// The start of a version line: `version = "`.
pub open spec fn version_key() -> Seq<char> {
    seq!['v', 'e', 'r', 's', 'i', 'o', 'n', ' ', '=', ' ', '"']
}

/// The index of the first `c` of `s` at or after `i`, or the length of `s`.
pub open spec fn next_index_of(s: Seq<char>, i: int, c: char) -> int
    decreases s.len() - i,
{
    if i >= s.len() {
        s.len() as int
    } else if s[i] == c {
        i
    } else {
        next_index_of(s, i + 1, c)
    }
}

/// The version that a trimmed version line gives: what stands between its
/// opening quote and the next quote.
pub open spec fn version_value(line: Seq<char>) -> Result<Seq<char>, VersionError> {
    let rest = line.skip(version_key().len() as int);
    let end = next_index_of(rest, 0, '"');
    if end < rest.len() {
        Ok(rest.take(end))
    } else {
        Err(VersionError::NoClosingQuote)
    }
}

/// The version given by the first line at or after `start` that, trimmed,
/// begins with `version = "`.
pub open spec fn version_from(s: Seq<char>, start: int) -> Result<Seq<char>, VersionError>
    decreases s.len() + 1 - start,
{
    if start >= s.len() {
        Err(VersionError::NoVersionLine)
    } else {
        let line = trim(line_at(s, start));
        if starts_with(line, version_key()) {
            version_value(line)
        } else {
            proof {
                lemma_next_newline(s, start);
            }
            version_from(s, next_newline(s, start) + 1)
        }
    }
}

/// The version that the manifest `contents` declares.
pub open spec fn spec_read_version(contents: Seq<char>) -> Result<Seq<char>, VersionError> {
    version_from(contents, 0)
}

/// `p` occurs in `s` at index `i`.
pub open spec fn occurs_at(s: Seq<char>, p: Seq<char>, i: int) -> bool {
    0 <= i && i + p.len() <= s.len() && s.subrange(i, i + p.len()) == p
}

/// `s` with every occurrence of the non-empty `p` replaced by `r`, the
/// occurrences taken from left to right without overlap, as `str::replace`
/// does.
pub open spec fn replace_all(s: Seq<char>, p: Seq<char>, r: Seq<char>) -> Seq<char>
    decreases s.len(),
{
    if s.len() == 0 {
        seq![]
    } else if p.len() > 0 && occurs_at(s, p, 0) {
        r + replace_all(s.skip(p.len() as int), p, r)
    } else {
        seq![s[0]] + replace_all(s.drop_first(), p, r)
    }
}

/// The version line of version `v`: `version = "v"`.
pub open spec fn version_line(v: Seq<char>) -> Seq<char> {
    version_key() + v + seq!['"']
}

/// The manifest with version `current` bumped to `new_version` wherever its
/// version line stands; nothing when the manifest has no such line.
pub open spec fn spec_bump_version(contents: Seq<char>, current: Seq<char>, new_version: Seq<char>) -> Option<Seq<char>> {
    if exists|i: int| occurs_at(contents, version_line(current), i) {
        Some(replace_all(contents, version_line(current), version_line(new_version)))
    } else {
        None
    }
}

/// Reads the version that a `Cargo.toml` declares: the value of the first
/// line that, trimmed, begins with `version = "`.
pub fn read_version(contents: &[char]) -> (r: Result<String, VersionError>)
    ensures
        match r {
            Ok(v) => spec_read_version(contents@) == Ok::<Seq<char>, VersionError>(v@),
            Err(e) => spec_read_version(contents@) == Err::<Seq<char>, VersionError>(e),
        },
{
    let key: [char; 11] = ['v', 'e', 'r', 's', 'i', 'o', 'n', ' ', '=', ' ', '"'];
    assert(key@ =~= version_key());
    let mut start: usize = 0;
    while start < contents.len()
        invariant
            start <= contents@.len(),
            key@ == version_key(),
            version_from(contents@, start as int) == version_from(contents@, 0),
        decreases contents@.len() - start,
    {
        let (end, newline) = find_line_end(contents, start);
        let (a, b) = trim_bounds(contents, start, end);
        if has_prefix_at(contents, a, b, key.as_slice()) {
            let ghost line = trim(line_at(contents@, start as int));
            let ghost rest = line.skip(11);
            assert(rest =~= contents@.subrange(a + 11, b as int));
            let mut e = a + 11;
            while e < b && contents[e] != '"'
                invariant
                    a + 11 <= e <= b <= contents@.len(),
                    next_index_of(rest, 0, '"') == next_index_of(rest, e - (a + 11), '"'),
                    rest == contents@.subrange(a + 11, b as int),
                decreases b - e,
            {
                e += 1;
            }
            if e < b {
                assert(rest.take(e - (a + 11)) =~= contents@.subrange(a + 11, e as int));
                return Ok(chars_to_string(&contents[a + 11..e]));
            } else {
                return Err(VersionError::NoClosingQuote);
            }
        }
        if newline >= contents.len() {
            assert(version_from(contents@, newline + 1) is Err);
            return Err(VersionError::NoVersionLine);
        }
        start = newline + 1;
    }
    Err(VersionError::NoVersionLine)
}

/// Whether `p` occurs in `s` at index `i`.
fn occurs_at_exec(s: &[char], p: &[char], i: usize) -> (r: bool)
    requires
        i <= s@.len(),
    ensures
        r == occurs_at(s@, p@, i as int),
{
    let r = has_prefix_at(s, i, s.len(), p);
    proof {
        let tail = s@.subrange(i as int, s@.len() as int);
        if p@.len() <= tail.len() {
            assert(tail.take(p@.len() as int) =~= s@.subrange(i as int, i + p@.len()));
        }
    }
    r
}

/// The version line of version `v`.
fn make_version_line(v: &[char]) -> (r: Vec<char>)
    ensures
        r@ == version_line(v@),
{
    let mut r: Vec<char> = Vec::new();
    r.push('v');
    r.push('e');
    r.push('r');
    r.push('s');
    r.push('i');
    r.push('o');
    r.push('n');
    r.push(' ');
    r.push('=');
    r.push(' ');
    r.push('"');
    let mut i: usize = 0;
    while i < v.len()
        invariant
            i <= v@.len(),
            r@ == version_key() + v@.take(i as int),
        decreases v@.len() - i,
    {
        r.push(v[i]);
        assert(v@.take(i + 1) =~= v@.take(i as int).push(v@[i as int]));
        i += 1;
    }
    r.push('"');
    assert(v@.take(v@.len() as int) =~= v@);
    assert(r@ =~= version_line(v@));
    r
}

proof fn lemma_replace_all_step(s: Seq<char>, p: Seq<char>, r: Seq<char>, i: int)
    requires
        0 <= i < s.len(),
        p.len() > 0,
    ensures
        occurs_at(s, p, i) ==> replace_all(s.skip(i), p, r) == r + replace_all(
            s.skip(i + p.len()),
            p,
            r,
        ),
        !occurs_at(s, p, i) ==> replace_all(s.skip(i), p, r) == seq![s[i]] + replace_all(
            s.skip(i + 1),
            p,
            r,
        ),
{
    let t = s.skip(i);
    assert(occurs_at(s, p, i) == occurs_at(t, p, 0)) by {
        if i + p.len() <= s.len() {
            assert(t.subrange(0, p.len() as int) =~= s.subrange(i, i + p.len()));
        }
    }
    if i + p.len() <= s.len() {
        assert(t.skip(p.len() as int) =~= s.skip(i + p.len()));
    }
    assert(t.drop_first() =~= s.skip(i + 1));
}

/// Bumps the version of a `Cargo.toml` from `current` to `new_version`:
/// every `version = "current"` becomes `version = "new_version"`. Nothing
/// when the manifest has no such line.
pub fn bump_version(contents: &[char], current: &[char], new_version: &[char]) -> (r: Option<
    String,
>)
    ensures
        match r {
            Some(s) => spec_bump_version(contents@, current@, new_version@) == Some(s@),
            None => spec_bump_version(contents@, current@, new_version@) is None,
        },
{
    let needle = make_version_line(current);
    let replacement = make_version_line(new_version);
    let ghost p = needle@;
    let ghost rp = replacement@;
    // Is the version line there?
    let mut found = false;
    let mut i: usize = 0;
    while i < contents.len() && !found
        invariant
            i <= contents@.len(),
            needle@ == p,
            found ==> exists|j: int| occurs_at(contents@, p, j),
            !found ==> forall|j: int| 0 <= j < i ==> !occurs_at(contents@, p, j),
        decreases contents@.len() - i + if found {
            0int
        } else {
            1int
        },
    {
        if occurs_at_exec(contents, needle.as_slice(), i) {
            assert(occurs_at(contents@, p, i as int));
            found = true;
        } else {
            i += 1;
        }
    }
    if !found {
        assert forall|j: int| !occurs_at(contents@, p, j) by {
            if 0 <= j < contents@.len() {
            }
        }
        return None;
    }
    // Replace every occurrence, from left to right.
    let mut out: Vec<char> = Vec::new();
    let mut i: usize = 0;
    assert(contents@.skip(0) =~= contents@);
    while i < contents.len()
        invariant
            i <= contents@.len(),
            p.len() > 0,
            needle@ == p,
            replacement@ == rp,
            replace_all(contents@, p, rp) == out@ + replace_all(contents@.skip(i as int), p, rp),
        decreases contents@.len() - i,
    {
        proof {
            lemma_replace_all_step(contents@, p, rp, i as int);
        }
        if occurs_at_exec(contents, needle.as_slice(), i) {
            let ghost before = out@;
            let mut k: usize = 0;
            while k < replacement.len()
                invariant
                    k <= rp.len(),
                    replacement@ == rp,
                    out@ == before + rp.take(k as int),
                decreases rp.len() - k,
            {
                out.push(replacement[k]);
                assert(rp.take(k + 1) =~= rp.take(k as int).push(rp[k as int]));
                k += 1;
            }
            assert(rp.take(rp.len() as int) =~= rp);
            assert(out@ + replace_all(contents@.skip(i + p.len()), p, rp) =~= before + (rp
                + replace_all(contents@.skip(i + p.len()), p, rp)));
            i += needle.len();
        } else {
            let ghost before = out@;
            out.push(contents[i]);
            assert(out@ + replace_all(contents@.skip(i + 1), p, rp) =~= before + (seq![
                contents@[i as int],
            ] + replace_all(contents@.skip(i + 1), p, rp)));
            i += 1;
        }
    }
    assert(contents@.skip(contents@.len() as int) =~= seq![]);
    assert(out@ + seq![] =~= out@);
    Some(chars_to_string(out.as_slice()))
}

/// The version file of the web demo, for git commit `commit` of date `date`.
pub open spec fn spec_version_js(commit: Seq<char>, date: Seq<char>) -> Seq<char> {
    "window.GOCHU_VERSION = { commit: \""@ + commit + "\", date: \""@ + date + "\" };\n"@
}

/// Appends the characters of `chars` to `s`.
fn push_chars(s: &mut String, chars: &[char])
    ensures
        final(s)@ == old(s)@ + chars@,
{
    let mut i: usize = 0;
    while i < chars.len()
        invariant
            i <= chars@.len(),
            s@ == old(s)@ + chars@.take(i as int),
        decreases chars@.len() - i,
    {
        push_char(s, chars[i]);
        assert(chars@.take(i + 1) =~= chars@.take(i as int).push(chars@[i as int]));
        i += 1;
    }
    assert(chars@.take(chars@.len() as int) =~= chars@);
}

/// The contents of the web demo's `version.js`, which records the git
/// commit and date of the build.
pub fn version_js(commit: &[char], date: &[char]) -> (s: String)
    ensures
        s@ == spec_version_js(commit@, date@),
{
    let mut s = String::from_str("window.GOCHU_VERSION = { commit: \"");
    push_chars(&mut s, commit);
    s.append("\", date: \"");
    push_chars(&mut s, date);
    s.append("\" };\n");
    s
}

/// The word `release`.
pub open spec fn release_word() -> Seq<char> {
    seq!['r', 'e', 'l', 'e', 'a', 's', 'e']
}

/// Which command-line argument names the version to release: after
/// `release`, the next argument (or `release` itself when none follows),
/// provided it is not empty; else a first argument that begins with a digit.
/// Nothing otherwise.
pub open spec fn spec_release_arg(args: Seq<Seq<char>>) -> Option<int> {
    if args.len() < 2 {
        None
    } else {
        let v = if args.len() > 2 {
            2int
        } else {
            1int
        };
        if args[1] == release_word() && args[v].len() > 0 {
            Some(v)
        } else if args[1].len() > 0 && '0' <= args[1][0] <= '9' {
            Some(1)
        } else {
            None
        }
    }
}

/// The views of a list of argument strings.
pub open spec fn arg_views(args: Seq<Vec<char>>) -> Seq<Seq<char>> {
    args.map_values(|a: Vec<char>| a@)
}

/// Which of the command-line arguments `args` (the program's name first)
/// names the version to release, if any.
pub fn release_arg(args: &[Vec<char>]) -> (r: Option<usize>)
    ensures
        opt_index(r) == spec_release_arg(arg_views(args@)),
{
    let ghost a = arg_views(args@);
    if args.len() < 2 {
        return None;
    }
    let v: usize = if args.len() > 2 {
        2
    } else {
        1
    };
    let cmd = &args[1];
    assert(cmd@ == a[1]);
    assert(args@[v as int]@ == a[v as int]);
    let word: [char; 7] = ['r', 'e', 'l', 'e', 'a', 's', 'e'];
    assert(word@ =~= release_word());
    let is_release = cmd.len() == 7 && has_prefix_at(cmd.as_slice(), 0, 7, word.as_slice());
    proof {
        if cmd@.len() == 7 {
            assert(cmd@.subrange(0, 7) =~= cmd@);
            assert(cmd@.take(7) =~= cmd@);
        }
        if is_release {
            assert(cmd@.subrange(0, 7).take(7) =~= cmd@);
        }
    }
    if is_release && args[v].len() > 0 {
        return Some(v);
    }
    if cmd.len() > 0 && '0' <= cmd[0] && cmd[0] <= '9' {
        return Some(1);
    }
    None
}

/// An optional index, as an optional integer.
pub open spec fn opt_index(o: Option<usize>) -> Option<int> {
    match o {
        Some(i) => Some(i as int),
        None => None,
    }
}

/// `c` does not occur in `s`.
pub open spec fn lacks(s: Seq<char>, c: char) -> bool {
    forall|i: int| 0 <= i < s.len() ==> s[i] != c
}

/// Replacement works line by line: a character that the pattern does not
/// hold separates the replacements on either side of it.
proof fn lemma_replace_split(a: Seq<char>, c: char, b: Seq<char>, p: Seq<char>, r: Seq<char>)
    requires
        p.len() > 0,
        lacks(p, c),
    ensures
        replace_all(a + seq![c] + b, p, r) == replace_all(a, p, r) + seq![c] + replace_all(b, p, r),
    decreases a.len(),
{
    let z = a + seq![c] + b;
    if a.len() == 0 {
        assert(z =~= seq![c] + b);
        if occurs_at(z, p, 0) {
            assert(z.subrange(0, p.len() as int)[0] == p[0]);
        }
        assert(z.drop_first() =~= b);
        assert(a =~= seq![]);
        assert(seq![c] + replace_all(b, p, r) =~= seq![] + seq![c] + replace_all(b, p, r));
    } else if occurs_at(z, p, 0) {
        if p.len() > a.len() {
            assert(z.subrange(0, p.len() as int)[a.len() as int] == p[a.len() as int]);
        }
        assert(a.subrange(0, p.len() as int) =~= z.subrange(0, p.len() as int));
        assert(z.skip(p.len() as int) =~= a.skip(p.len() as int) + seq![c] + b);
        lemma_replace_split(a.skip(p.len() as int), c, b, p, r);
        assert(replace_all(z, p, r) =~= replace_all(a, p, r) + seq![c] + replace_all(b, p, r));
    } else {
        if occurs_at(a, p, 0) {
            assert(a.subrange(0, p.len() as int) =~= z.subrange(0, p.len() as int));
        }
        assert(z.drop_first() =~= a.drop_first() + seq![c] + b);
        lemma_replace_split(a.drop_first(), c, b, p, r);
        assert(replace_all(z, p, r) =~= replace_all(a, p, r) + seq![c] + replace_all(b, p, r));
    }
}

/// Replacing keeps a character out of a text when neither the text nor the
/// replacement holds it.
proof fn lemma_replace_lacks(x: Seq<char>, c: char, p: Seq<char>, r: Seq<char>)
    requires
        lacks(x, c),
        lacks(r, c),
    ensures
        lacks(replace_all(x, p, r), c),
    decreases x.len(),
{
    if x.len() > 0 {
        if p.len() > 0 && occurs_at(x, p, 0) {
            lemma_replace_lacks(x.skip(p.len() as int), c, p, r);
        } else {
            lemma_replace_lacks(x.drop_first(), c, p, r);
        }
    }
}

/// A text that begins with characters the pattern cannot begin with keeps
/// them in front when replaced.
proof fn lemma_replace_keeps_front(w: Seq<char>, y: Seq<char>, p: Seq<char>, r: Seq<char>)
    requires
        p.len() > 0,
        lacks(w, p[0]),
    ensures
        replace_all(w + y, p, r) == w + replace_all(y, p, r),
    decreases w.len(),
{
    if w.len() > 0 {
        let z = w + y;
        if occurs_at(z, p, 0) {
            assert(z.subrange(0, p.len() as int)[0] == p[0]);
        }
        assert(z.drop_first() =~= w.drop_first() + y);
        lemma_replace_keeps_front(w.drop_first(), y, p, r);
        assert(replace_all(z, p, r) =~= w + replace_all(y, p, r));
    } else {
        assert(w + y =~= y);
    }
}

/// If the replaced text begins with `q`, a text in which the replacement's
/// first character does not occur, then so did the text.
proof fn lemma_replace_front_from_text(z: Seq<char>, q: Seq<char>, p: Seq<char>, r: Seq<char>)
    requires
        p.len() > 0,
        r.len() > 0,
        lacks(q, r[0]),
        starts_with(replace_all(z, p, r), q),
    ensures
        starts_with(z, q),
    decreases q.len(),
{
    if q.len() > 0 {
        let rz = replace_all(z, p, r);
        assert(rz.take(q.len() as int) == q);
        assert(rz[0] == q[0]);
        if z.len() == 0 {
        } else if occurs_at(z, p, 0) {
            assert(rz =~= r + replace_all(z.skip(p.len() as int), p, r));
            assert(rz[0] == r[0]);
        } else {
            let rest = replace_all(z.drop_first(), p, r);
            assert(rz =~= seq![z[0]] + rest);
            let q1 = q.drop_first();
            assert(rest.take(q1.len() as int) =~= q.drop_first());
            assert(lacks(q1, r[0])) by {
                assert forall|i: int| 0 <= i < q1.len() implies q1[i] != r[0] by {
                    assert(q1[i] == q[i + 1]);
                }
            }
            lemma_replace_front_from_text(z.drop_first(), q1, p, r);
            assert(z.take(q.len() as int) =~= seq![z[0]] + z.drop_first().take(q1.len() as int));
            assert(q =~= seq![q[0]] + q1);
        }
    } else {
        assert(z.take(0) =~= q);
    }
}


/// Where `next_index_of` stops.
proof fn lemma_next_index_of(s: Seq<char>, i: int, c: char)
    requires
        0 <= i <= s.len(),
    ensures
        i <= next_index_of(s, i, c) <= s.len(),
        next_index_of(s, i, c) < s.len() ==> s[next_index_of(s, i, c)] == c,
        forall|k: int| i <= k < next_index_of(s, i, c) ==> s[k] != c,
    decreases s.len() - i,
{
    if i < s.len() && s[i] != c {
        lemma_next_index_of(s, i + 1, c);
    }
}

/// The first `c` at or after `i` is at `n` when none comes before it.
proof fn lemma_next_index_at(s: Seq<char>, i: int, n: int, c: char)
    requires
        0 <= i <= n < s.len(),
        s[n] == c,
        forall|k: int| i <= k < n ==> s[k] != c,
    ensures
        next_index_of(s, i, c) == n,
    decreases n - i,
{
    if i < n {
        lemma_next_index_at(s, i + 1, n, c);
    }
}

/// The version is read the same way in a text with more lines in front.
proof fn lemma_version_from_shift(p: Seq<char>, q: Seq<char>, j: int)
    requires
        0 <= j,
    ensures
        version_from(p + q, p.len() + j) == version_from(q, j),
    decreases q.len() - j,
{
    if j < q.len() {
        lemma_line_at_shift(p, q, j);
        lemma_next_newline_shift(p, q, j);
        lemma_next_newline(q, j);
        if next_newline(q, j) < q.len() {
            lemma_version_from_shift(p, q, next_newline(q, j) + 1);
        }
    }
}

/// Replacing a pattern without a line break works on the first line of a
/// text apart from the rest.
proof fn lemma_replace_first_line(t: Seq<char>, p: Seq<char>, r: Seq<char>)
    requires
        p.len() > 0,
        lacks(p, '\n'),
        lacks(r, '\n'),
    ensures
        ({
            let e = next_newline(t, 0);
            let a = t.subrange(0, e);
            let rt = replace_all(t, p, r);
            &&& 0 <= e <= t.len()
            &&& lacks(a, '\n')
            &&& lacks(replace_all(a, p, r), '\n')
            &&& next_newline(rt, 0) == replace_all(a, p, r).len()
            &&& rt.subrange(0, next_newline(rt, 0)) == replace_all(a, p, r)
            &&& e < t.len() ==> t[e] == '\n' && t == a + seq!['\n'] + t.skip(e + 1) && rt
                == replace_all(a, p, r) + seq!['\n'] + replace_all(t.skip(e + 1), p, r)
            &&& e == t.len() ==> t == a && rt == replace_all(a, p, r)
        }),
{
    let e = next_newline(t, 0);
    let a = t.subrange(0, e);
    lemma_next_newline(t, 0);
    lemma_before_newline(t, 0);
    assert(lacks(a, '\n'));
    lemma_replace_lacks(a, '\n', p, r);
    let ra = replace_all(a, p, r);
    let rt = replace_all(t, p, r);
    if e < t.len() {
        let b = t.skip(e + 1);
        assert(t =~= a + seq!['\n'] + b);
        lemma_replace_split(a, '\n', b, p, r);
        lemma_newline_at(rt, 0, ra.len() as int);
        assert(rt.subrange(0, ra.len() as int) =~= ra);
    } else {
        assert(t =~= a);
        lemma_newline_at(rt, 0, ra.len() as int);
        assert(rt.subrange(0, ra.len() as int) =~= ra);
    }
}

/// The characters of `version = "` after its first one: no `v` among them.
proof fn lemma_key_tail()
    ensures
        lacks(version_key().drop_first(), 'v'),
{
    let q = version_key().drop_first();
    assert forall|i: int| 0 <= i < q.len() implies q[i] != 'v' by {
        assert(q[i] == version_key()[i + 1]);
        if i == 0 {
        } else if i == 1 {
        } else if i == 2 {
        } else if i == 3 {
        } else if i == 4 {
        } else if i == 5 {
        } else if i == 6 {
        } else if i == 7 {
        } else if i == 8 {
        } else {
        }
    }
}

/// A version line of `version_line(v)` form begins with `version = "`.
proof fn lemma_version_line_key(v: Seq<char>)
    ensures
        starts_with(version_line(v), version_key()),
        version_line(v).len() == v.len() + 12,
        version_line(v)[0] == 'v',
        version_line(v).last() == '"',
{
    assert(version_line(v).take(11) =~= version_key());
}

/// Replacing the version line cannot make a line that was no version line
/// into one.
proof fn lemma_replace_not_key(a: Seq<char>, cur: Seq<char>, new_version: Seq<char>)
    requires
        starts_with(trim(replace_all(a, version_line(cur), version_line(new_version))), version_key()),
    ensures
        starts_with(trim(a), version_key()),
{
    let p = version_line(cur);
    let r = version_line(new_version);
    let key = version_key();
    lemma_version_line_key(cur);
    lemma_version_line_key(new_version);
    let k = lemma_trim_start_split(a);
    let w = a.take(k);
    let t0 = a.skip(k);
    assert(a =~= w + t0);
    assert(lacks(w, p[0]));
    lemma_replace_keeps_front(w, t0, p, r);
    let rt0 = replace_all(t0, p, r);
    lemma_trim_start_skips(w, rt0);
    if t0.len() == 0 {
        assert(rt0 =~= seq![]);
    } else if occurs_at(t0, p, 0) {
        assert(t0.take(p.len() as int) =~= p);
        assert(t0.take(11) =~= p.take(11));
    } else {
        assert(rt0 =~= seq![t0[0]] + replace_all(t0.drop_first(), p, r));
        assert(trim_start(rt0) == rt0);
        lemma_trim_end_prefix(rt0, key);
        assert(rt0.take(11)[0] == key[0]);
        let q1 = key.drop_first();
        assert(replace_all(t0.drop_first(), p, r).take(10) =~= rt0.take(11).drop_first());
        lemma_key_tail();
        lemma_replace_front_from_text(t0.drop_first(), q1, p, r);
        assert(t0.take(11) =~= seq![t0[0]] + t0.drop_first().take(10));
        assert(key =~= seq![key[0]] + q1);
    }
    lemma_trim_end_prefix(t0, key);
}

/// On the version line itself, replacing gives the line of the new version.
proof fn lemma_replace_version_line(a: Seq<char>, cur: Seq<char>, new_version: Seq<char>)
    requires
        starts_with(trim(a), version_key()),
        version_value(trim(a)) == Ok::<Seq<char>, VersionError>(cur),
        lacks(new_version, '"'),
    ensures
        starts_with(trim(replace_all(a, version_line(cur), version_line(new_version))), version_key()),
        version_value(trim(replace_all(a, version_line(cur), version_line(new_version))))
            == Ok::<Seq<char>, VersionError>(new_version),
        exists|i: int| occurs_at(a, version_line(cur), i),
        lacks(a, '\n') ==> lacks(cur, '\n'),
{
    let p = version_line(cur);
    let r = version_line(new_version);
    let key = version_key();
    lemma_version_line_key(cur);
    lemma_version_line_key(new_version);
    let k = lemma_trim_start_split(a);
    let w = a.take(k);
    let t0 = a.skip(k);
    assert(a =~= w + t0);
    let u = trim(a);
    lemma_trim_end_prefix(t0, p);
    // The trimmed line holds the version line of `cur` at its start.
    let rest = u.skip(11);
    lemma_next_index_of(rest, 0, '"');
    let end = next_index_of(rest, 0, '"');
    assert(cur == rest.take(end));
    assert(u.take(p.len() as int) =~= p) by {
        assert(u.take(11) == key);
        assert forall|i: int| 0 <= i < p.len() implies u.take(p.len() as int)[i] == p[i] by {
            if i < 11 {
                assert(u.take(11)[i] == key[i]);
            } else if i < 11 + end {
                assert(rest[i - 11] == cur[i - 11]);
            } else {
                assert(rest[end] == '"');
            }
        }
    }
    assert(starts_with(t0, p));
    assert(occurs_at(a, p, k)) by {
        assert(a.subrange(k, k + p.len()) =~= t0.take(p.len() as int));
    }
    if lacks(a, '\n') {
        assert forall|i: int| 0 <= i < cur.len() implies cur[i] != '\n' by {
            assert(t0.take(p.len() as int)[11 + i] == p[11 + i]);
            assert(a[k + 11 + i] == cur[i]);
        }
    }
    // Replaced, the line begins with the version line of the new version.
    let y = t0.skip(p.len() as int);
    assert(t0 =~= p + y);
    assert(lacks(w, p[0]));
    lemma_replace_keeps_front(w, t0, p, r);
    assert(occurs_at(t0, p, 0)) by {
        assert(t0.subrange(0, p.len() as int) =~= t0.take(p.len() as int));
    }
    let rt0 = replace_all(t0, p, r);
    assert(rt0 == r + replace_all(y, p, r));
    lemma_trim_start_skips(w, rt0);
    assert(rt0[0] == 'v');
    assert(trim_start(rt0) == rt0);
    assert(starts_with(rt0, r)) by {
        assert(rt0.take(r.len() as int) =~= r);
    }
    lemma_trim_end_prefix(rt0, r);
    let v = trim_end(rt0);
    assert(trim(replace_all(a, p, r)) == v);
    assert(v.take(11) =~= key) by {
        assert(v.take(11) =~= r.take(11));
    }
    let vrest = v.skip(11);
    assert forall|i: int| 0 <= i < new_version.len() implies vrest[i] != '"' by {
        assert(vrest[i] == r[11 + i]);
        assert(r[11 + i] == new_version[i]);
    }
    assert(vrest[new_version.len() as int] == r[11 + new_version.len() as int]);
    lemma_next_index_at(vrest, 0, new_version.len() as int, '"');
    assert(vrest.take(new_version.len() as int) =~= new_version) by {
        assert forall|i: int| 0 <= i < new_version.len() implies vrest[i] == new_version[i] by {
            assert(vrest[i] == r[11 + i]);
        }
    }
}

/// Reading the version of the bumped text, from its first line on.
proof fn lemma_bump_read_from(t: Seq<char>, cur: Seq<char>, new_version: Seq<char>)
    requires
        version_from(t, 0) == Ok::<Seq<char>, VersionError>(cur),
        lacks(new_version, '"'),
        lacks(new_version, '\n'),
    ensures
        lacks(cur, '\n'),
        exists|i: int| occurs_at(t, version_line(cur), i),
        version_from(replace_all(t, version_line(cur), version_line(new_version)), 0) == Ok::<
            Seq<char>,
            VersionError,
        >(new_version),
    decreases t.len(),
{
    let p = version_line(cur);
    let r = version_line(new_version);
    let key = version_key();
    lemma_version_line_key(cur);
    lemma_version_line_key(new_version);
    lemma_next_newline(t, 0);
    lemma_before_newline(t, 0);
    let e = next_newline(t, 0);
    let a = t.subrange(0, e);
    lemma_line_trim(t, 0);
    assert(lacks(r, '\n')) by {
        assert forall|i: int| 0 <= i < r.len() implies r[i] != '\n' by {
            if 11 <= i < 11 + new_version.len() {
                assert(r[i] == new_version[i - 11]);
            }
        }
    }
    if starts_with(trim(a), key) {
        lemma_replace_version_line(a, cur, new_version);
        assert(lacks(a, '\n'));
        assert(lacks(p, '\n')) by {
            assert forall|i: int| 0 <= i < p.len() implies p[i] != '\n' by {
                if 11 <= i < 11 + cur.len() {
                    assert(p[i] == cur[i - 11]);
                }
            }
        }
        lemma_replace_first_line(t, p, r);
        let i = choose|i: int| occurs_at(a, p, i);
        assert(occurs_at(t, p, i)) by {
            assert(t.subrange(i, i + p.len()) =~= a.subrange(i, i + p.len()));
        }
        let rt = replace_all(t, p, r);
        let ra = replace_all(a, p, r);
        lemma_line_trim(rt, 0);
        lemma_trim_slice(ra);
        assert(rt.len() > 0);
    } else {
        assert(t.len() > 0);
        assert(version_from(t, 0) == version_from(t, e + 1));
        if e == t.len() {
            assert(version_from(t, e + 1) is Err);
        }
        let b = t.skip(e + 1);
        assert(t =~= (a + seq!['\n']) + b);
        lemma_version_from_shift(a + seq!['\n'], b, 0);
        lemma_bump_read_from(b, cur, new_version);
        assert(lacks(p, '\n')) by {
            assert forall|i: int| 0 <= i < p.len() implies p[i] != '\n' by {
                if 11 <= i < 11 + cur.len() {
                    assert(p[i] == cur[i - 11]);
                }
            }
        }
        lemma_replace_first_line(t, p, r);
        let i = choose|i: int| occurs_at(b, p, i);
        assert(occurs_at(t, p, e + 1 + i)) by {
            assert(t.subrange(e + 1 + i, e + 1 + i + p.len()) =~= b.subrange(i, i + p.len()));
        }
        let rt = replace_all(t, p, r);
        let ra = replace_all(a, p, r);
        let rb = replace_all(b, p, r);
        lemma_line_trim(rt, 0);
        if starts_with(trim(ra), key) {
            lemma_replace_not_key(a, cur, new_version);
        }
        assert(rt =~= (ra + seq!['\n']) + rb);
        lemma_version_from_shift(ra + seq!['\n'], rb, 0);
    }
}

/// Bumping the version that a manifest declares, to a new version without a
/// quote or a line break in it, and reading the version back gives the new
/// version.
pub proof fn lemma_bump_then_read(contents: Seq<char>, current: Seq<char>, new_version: Seq<char>)
    requires
        spec_read_version(contents) == Ok::<Seq<char>, VersionError>(current),
        lacks(new_version, '"'),
        lacks(new_version, '\n'),
    ensures
        spec_bump_version(contents, current, new_version) is Some,
        spec_read_version(spec_bump_version(contents, current, new_version)->0) == Ok::<
            Seq<char>,
            VersionError,
        >(new_version),
{
    lemma_bump_read_from(contents, current, new_version);
}

} // verus!
