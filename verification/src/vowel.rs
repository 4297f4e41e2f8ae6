//! Vowels, their modification by Telex keys, and where the tone mark goes.
use vstd::prelude::*;

use crate::ascii::{ascii_lower, is_ascii_upper, spec_ascii_lower, spec_is_ascii_upper};
use crate::tone::{
    apply_tone, get_tone, in_tone_table, is_table_entry, lemma_in_table_iff_indexed,
    lemma_strip_is_ngang, lemma_tone_roundtrip, spec_apply_tone, spec_get_tone, spec_strip_tone,
    strip_tone, table_position, tone_row, Tone, TONE_ROWS,
};

verus! {

/// The plain vowel letters, in lower case.
pub open spec fn is_plain_vowel_letter(c: char) -> bool {
    c == 'a' || c == 'e' || c == 'i' || c == 'o' || c == 'u' || c == 'y'
}

/// The vowel letters that carry a breve, circumflex or horn, in either case.
pub open spec fn is_modified_base(c: char) -> bool {
    ||| c == 'ă' || c == 'â' || c == 'ê' || c == 'ô' || c == 'ơ' || c == 'ư'
    ||| c == 'Ă' || c == 'Â' || c == 'Ê' || c == 'Ô' || c == 'Ơ' || c == 'Ư'
}

/// `c` is a Vietnamese vowel, plain or modified, with or without a tone mark,
/// in either case: exactly the characters of the tone table.
pub open spec fn spec_is_vowel(c: char) -> bool {
    in_tone_table(c)
}

/// `c` is a modified vowel (ă, â, ê, ô, ơ, ư in either case), with or
/// without a tone mark.
pub open spec fn spec_is_modified_vowel(c: char) -> bool {
    is_modified_base(spec_strip_tone(c))
}

proof fn lemma_row_base(r: int)
    requires
        0 <= r < TONE_ROWS,
    ensures
        is_plain_vowel_letter(spec_ascii_lower(tone_row(r)[0])) || is_modified_base(tone_row(r)[0]),
        spec_is_ascii_upper(tone_row(r)[0]) ==> is_plain_vowel_letter(spec_ascii_lower(tone_row(r)[0])),
{
}

/// The base of a vowel of the table is a plain or modified vowel letter.
proof fn lemma_stripped_vowel_letter(c: char)
    requires
        in_tone_table(c),
    ensures
        is_plain_vowel_letter(spec_ascii_lower(spec_strip_tone(c))) || is_modified_base(
            spec_strip_tone(c),
        ),
{
    let (r, k) = table_position(c);
    assert(is_table_entry(c, r, k));
    lemma_row_base(r);
}

/// A plain or modified vowel letter is a character of the tone table.
proof fn lemma_vowel_letter_in_table(c: char)
    requires
        is_plain_vowel_letter(spec_ascii_lower(c)) || is_modified_base(c),
    ensures
        in_tone_table(c),
{
    lemma_in_table_iff_indexed(c);
}

/// Whether `c` is a vowel of Vietnamese.
pub fn is_vowel(c: char) -> (r: bool)
    ensures
        r == spec_is_vowel(c),
{
    let base = strip_tone(c);
    let lower = ascii_lower(base);
    let r = lower == 'a' || lower == 'e' || lower == 'i' || lower == 'o' || lower == 'u' || lower
        == 'y' || is_modified_vowel(c);
    proof {
        if in_tone_table(c) {
            lemma_stripped_vowel_letter(c);
        } else if r {
            lemma_vowel_letter_in_table(c);
        }
    }
    r
}

/// Whether `c` is a modified vowel (ă, â, ê, ô, ơ, ư in either case).
pub fn is_modified_vowel(c: char) -> (r: bool)
    ensures
        r == spec_is_modified_vowel(c),
{
    let base = strip_tone(c);
    base == 'ă' || base == 'â' || base == 'ê' || base == 'ô' || base == 'ơ' || base == 'ư' || base
        == 'Ă' || base == 'Â' || base == 'Ê' || base == 'Ô' || base == 'Ơ' || base == 'Ư'
}

/// The vowel that a Telex modifier key makes of a plain lower-case vowel:
/// aa → â, aw → ă, ee → ê, oo → ô, ow → ơ, uw → ư.
pub open spec fn modified_letter(vowel: char, key: char) -> Option<char> {
    if vowel == 'a' && key == 'a' {
        Some('â')
    } else if vowel == 'a' && key == 'w' {
        Some('ă')
    } else if vowel == 'e' && key == 'e' {
        Some('ê')
    } else if vowel == 'o' && key == 'o' {
        Some('ô')
    } else if vowel == 'o' && key == 'w' {
        Some('ơ')
    } else if vowel == 'u' && key == 'w' {
        Some('ư')
    } else {
        None
    }
}

/// The upper-case form of a lower-case modified vowel.
pub open spec fn upper_modified(c: char) -> char {
    if c == 'â' {
        'Â'
    } else if c == 'ă' {
        'Ă'
    } else if c == 'ê' {
        'Ê'
    } else if c == 'ô' {
        'Ô'
    } else if c == 'ơ' {
        'Ơ'
    } else if c == 'ư' {
        'Ư'
    } else {
        c
    }
}

/// What modifier key `modifier` makes of `base`: the modified vowel, in the
/// case of `base` and with its tone, or nothing when the pair does not combine.
pub open spec fn spec_modify_vowel(base: char, modifier: char) -> Option<char> {
    let stripped = spec_strip_tone(base);
    match modified_letter(spec_ascii_lower(stripped), spec_ascii_lower(modifier)) {
        Some(m) => Some(
            spec_apply_tone(
                if spec_is_ascii_upper(stripped) {
                    upper_modified(m)
                } else {
                    m
                },
                spec_get_tone(base),
            ),
        ),
        None => None,
    }
}

/// Applies the vowel modifier `modifier` (a, e, o or w, in either case) to
/// `base`, keeping the tone and the case of `base`.
pub fn modify_vowel(base: char, modifier: char) -> (r: Option<char>)
    ensures
        r == spec_modify_vowel(base, modifier),
{
    let tone = get_tone(base);
    let stripped = strip_tone(base);
    let lower_stripped = ascii_lower(stripped);
    let lower_mod = ascii_lower(modifier);
    let new_base = if lower_stripped == 'a' && lower_mod == 'a' {
        'â'
    } else if lower_stripped == 'a' && lower_mod == 'w' {
        'ă'
    } else if lower_stripped == 'e' && lower_mod == 'e' {
        'ê'
    } else if lower_stripped == 'o' && lower_mod == 'o' {
        'ô'
    } else if lower_stripped == 'o' && lower_mod == 'w' {
        'ơ'
    } else if lower_stripped == 'u' && lower_mod == 'w' {
        'ư'
    } else {
        return None;
    };
    let new_base = if is_ascii_upper(stripped) {
        match new_base {
            'â' => 'Â',
            'ă' => 'Ă',
            'ê' => 'Ê',
            'ô' => 'Ô',
            'ơ' => 'Ơ',
            _ => 'Ư',
        }
    } else {
        new_base
    };
    Some(apply_tone(new_base, tone))
}

/// A modifier key turns a vowel into a modified vowel of the same tone.
pub proof fn lemma_modify_vowel_keeps_tone(base: char, modifier: char)
    requires
        spec_modify_vowel(base, modifier) is Some,
    ensures
        spec_is_vowel(base),
        spec_is_vowel(spec_modify_vowel(base, modifier)->0),
        spec_is_modified_vowel(spec_modify_vowel(base, modifier)->0),
        spec_get_tone(spec_modify_vowel(base, modifier)->0) == spec_get_tone(base),
{
    let stripped = spec_strip_tone(base);
    let m = modified_letter(spec_ascii_lower(stripped), spec_ascii_lower(modifier))->0;
    let nb = if spec_is_ascii_upper(stripped) {
        upper_modified(m)
    } else {
        m
    };
    lemma_strip_is_ngang(base);
    if !in_tone_table(base) {
        lemma_vowel_letter_in_table(stripped);
    }
    lemma_vowel_letter_in_table(nb);
    lemma_strip_is_ngang(nb);
    lemma_in_table_iff_indexed(nb);
    lemma_tone_roundtrip(nb, spec_get_tone(base));
}

/// The positions of the vowels of `buf`, in increasing order.
pub open spec fn vowel_positions(buf: Seq<char>) -> Seq<int>
    decreases buf.len(),
{
    if buf.len() == 0 {
        seq![]
    } else {
        let rest = vowel_positions(buf.drop_last());
        if spec_is_vowel(buf.last()) {
            rest.push(buf.len() - 1)
        } else {
            rest
        }
    }
}

/// Those of the positions `ps` that hold a modified vowel of `buf`, in order.
pub open spec fn modified_positions(buf: Seq<char>, ps: Seq<int>) -> Seq<int>
    decreases ps.len(),
{
    if ps.len() == 0 {
        seq![]
    } else {
        let rest = modified_positions(buf, ps.drop_last());
        if spec_is_modified_vowel(buf[ps.last()]) {
            rest.push(ps.last())
        } else {
            rest
        }
    }
}

/// `buf` opens with the consonant cluster gi or qu (in either case).
pub open spec fn opens_with_cluster(buf: Seq<char>) -> bool {
    &&& buf.len() >= 2
    &&& {
        ||| (buf[0] == 'g' || buf[0] == 'G') && (buf[1] == 'i' || buf[1] == 'I')
        ||| (buf[0] == 'q' || buf[0] == 'Q') && (buf[1] == 'u' || buf[1] == 'U')
    }
}

/// The vowel positions of `buf` that may carry the tone: all of them, but
/// for the glide i of a leading gi or u of a leading qu when another vowel
/// follows it (gia, qua).
pub open spec fn tone_candidates(buf: Seq<char>) -> Seq<int> {
    let vp = vowel_positions(buf);
    if vp.len() >= 2 && vp[0] == 1 && opens_with_cluster(buf) {
        vp.drop_first()
    } else {
        vp
    }
}

/// The position of the vowel of `buf` that takes the tone mark: the only
/// candidate; else the only modified vowel among the candidates; else the
/// second of three or more candidates; else, of two candidates, the second
/// in a closed syllable (a consonant follows) and the first in an open one.
/// Nothing when `buf` holds no vowel.
pub open spec fn spec_tone_position(buf: Seq<char>) -> Option<int> {
    let cand = tone_candidates(buf);
    let modified = modified_positions(buf, cand);
    if vowel_positions(buf).len() == 0 {
        None
    } else if cand.len() == 1 {
        Some(cand[0])
    } else if modified.len() == 1 {
        Some(modified[0])
    } else if cand.len() >= 3 {
        Some(cand[1])
    } else if buf.len() > cand.last() + 1 && !spec_is_vowel(buf[cand.last() + 1]) {
        Some(cand[1])
    } else {
        Some(cand[0])
    }
}

/// An optional index, as an optional integer.
pub open spec fn opt_int(o: Option<usize>) -> Option<int> {
    match o {
        Some(p) => Some(p as int),
        None => None,
    }
}

/// The positions of a sequence of indices, as integers.
pub open spec fn as_ints(v: Seq<usize>) -> Seq<int> {
    v.map_values(|p: usize| p as int)
}

/// The vowel positions of `buf` are exactly its vowels, in increasing order.
pub proof fn lemma_vowel_positions(buf: Seq<char>)
    ensures
        forall|j: int|
            0 <= j < vowel_positions(buf).len() ==> 0 <= #[trigger] vowel_positions(buf)[j]
                < buf.len() && spec_is_vowel(buf[vowel_positions(buf)[j]]),
        forall|j1: int, j2: int|
            0 <= j1 < j2 < vowel_positions(buf).len() ==> #[trigger] vowel_positions(buf)[j1]
                < #[trigger] vowel_positions(buf)[j2],
        forall|i: int|
            0 <= i < buf.len() && spec_is_vowel(#[trigger] buf[i]) ==> vowel_positions(
                buf,
            ).contains(i),
        vowel_positions(buf).len() <= buf.len(),
    decreases buf.len(),
{
    if buf.len() > 0 {
        let rest = buf.drop_last();
        lemma_vowel_positions(rest);
        let vp = vowel_positions(buf);
        let vr = vowel_positions(rest);
        assert forall|i: int| 0 <= i < buf.len() && spec_is_vowel(#[trigger] buf[i]) implies vp.contains(
            i,
        ) by {
            if i < buf.len() - 1 {
                assert(rest[i] == buf[i]);
                let j = choose|j: int| 0 <= j < vr.len() && vr[j] == i;
                assert(vp[j] == i);
            } else {
                assert(vp[vp.len() - 1] == i);
            }
        }
    }
}

/// The modified positions among `ps` are positions of `ps` that hold a
/// modified vowel.
proof fn lemma_modified_positions(buf: Seq<char>, ps: Seq<int>)
    ensures
        forall|j: int|
            0 <= j < modified_positions(buf, ps).len() ==> ps.contains(
                #[trigger] modified_positions(buf, ps)[j],
            ),
    decreases ps.len(),
{
    if ps.len() > 0 {
        let rest = ps.drop_last();
        lemma_modified_positions(buf, rest);
        let m = modified_positions(buf, ps);
        assert forall|j: int| 0 <= j < m.len() implies ps.contains(#[trigger] m[j]) by {
            let mr = modified_positions(buf, rest);
            if j < mr.len() {
                assert(m[j] == mr[j]);
                let i = choose|i: int| 0 <= i < rest.len() && rest[i] == mr[j];
                assert(ps[i] == rest[i]);
            } else {
                assert(ps[ps.len() - 1] == m[j]);
            }
        }
    }
}

/// The tone goes on a vowel of the buffer; there is a place for it exactly
/// when the buffer holds a vowel.
pub proof fn lemma_tone_position_is_vowel(buf: Seq<char>)
    ensures
        match spec_tone_position(buf) {
            Some(p) => 0 <= p < buf.len() && spec_is_vowel(buf[p]),
            None => forall|i: int| 0 <= i < buf.len() ==> !spec_is_vowel(#[trigger] buf[i]),
        },
{
    lemma_vowel_positions(buf);
    let vp = vowel_positions(buf);
    let cand = tone_candidates(buf);
    lemma_modified_positions(buf, cand);
    if vp.len() > 0 {
        assert(forall|j: int| 0 <= j < cand.len() ==> vp.contains(#[trigger] cand[j]));
        let m = modified_positions(buf, cand);
        if cand.len() != 1 && m.len() == 1 {
            assert(cand.contains(m[0]));
        }
    } else {
        assert forall|i: int| 0 <= i < buf.len() implies !spec_is_vowel(#[trigger] buf[i]) by {
            if spec_is_vowel(buf[i]) {
                assert(vp.contains(i));
            }
        }
    }
}

/// When the vowels of `buf` stand exactly at the increasing positions `ps`,
/// those are its vowel positions.
proof fn lemma_vowels_exactly(buf: Seq<char>, ps: Seq<int>)
    requires
        forall|j1: int, j2: int| 0 <= j1 < j2 < ps.len() ==> ps[j1] < ps[j2],
        forall|j: int| 0 <= j < ps.len() ==> 0 <= #[trigger] ps[j] < buf.len(),
        forall|i: int| 0 <= i < buf.len() ==> (spec_is_vowel(#[trigger] buf[i]) <==> ps.contains(i)),
    ensures
        vowel_positions(buf) == ps,
    decreases buf.len(),
{
    if buf.len() == 0 {
        assert(ps =~= seq![]) by {
            if ps.len() > 0 {
                assert(0 <= ps[0] < buf.len());
            }
        }
    } else {
        let last = buf.len() - 1;
        let rest = buf.drop_last();
        if spec_is_vowel(buf[last]) {
            assert(ps.contains(last));
            let jl = choose|j: int| 0 <= j < ps.len() && ps[j] == last;
            assert(jl == ps.len() - 1) by {
                if jl < ps.len() - 1 {
                    assert(ps[jl] < ps[ps.len() - 1]);
                }
            }
            let pr = ps.drop_last();
            assert forall|i: int| 0 <= i < rest.len() implies (spec_is_vowel(#[trigger] rest[i])
                <==> pr.contains(i)) by {
                assert(rest[i] == buf[i]);
                if ps.contains(i) {
                    let j = choose|j: int| 0 <= j < ps.len() && ps[j] == i;
                    assert(pr[j] == i);
                }
                if pr.contains(i) {
                    let j = choose|j: int| 0 <= j < pr.len() && pr[j] == i;
                    assert(ps[j] == i);
                }
            }
            assert forall|j: int| 0 <= j < pr.len() implies 0 <= #[trigger] pr[j] < rest.len() by {
                assert(ps[j] < ps[ps.len() - 1]);
            }
            lemma_vowels_exactly(rest, pr);
            assert(pr.push(last) =~= ps);
        } else {
            assert forall|i: int| 0 <= i < rest.len() implies (spec_is_vowel(#[trigger] rest[i])
                <==> ps.contains(i)) by {
                assert(rest[i] == buf[i]);
            }
            assert forall|j: int| 0 <= j < ps.len() implies 0 <= #[trigger] ps[j] < rest.len() by {
                if ps[j] == last {
                    assert(ps.contains(last));
                }
            }
            lemma_vowels_exactly(rest, ps);
        }
    }
}

/// None of the positions `ps` holds a modified vowel: none is found; all of
/// them do: all are.
proof fn lemma_modified_uniform(buf: Seq<char>, ps: Seq<int>)
    ensures
        (forall|j: int| 0 <= j < ps.len() ==> !spec_is_modified_vowel(#[trigger] buf[ps[j]]))
            ==> modified_positions(buf, ps).len() == 0,
        (forall|j: int| 0 <= j < ps.len() ==> spec_is_modified_vowel(#[trigger] buf[ps[j]]))
            ==> modified_positions(buf, ps).len() == ps.len(),
    decreases ps.len(),
{
    if ps.len() > 0 {
        let pr = ps.drop_last();
        lemma_modified_uniform(buf, pr);
        if forall|j: int| 0 <= j < ps.len() ==> !spec_is_modified_vowel(#[trigger] buf[ps[j]]) {
            assert(forall|j: int| 0 <= j < pr.len() ==> pr[j] == ps[j]);
            assert(!spec_is_modified_vowel(buf[ps[ps.len() - 1]]));
        }
        if forall|j: int| 0 <= j < ps.len() ==> spec_is_modified_vowel(#[trigger] buf[ps[j]]) {
            assert(forall|j: int| 0 <= j < pr.len() ==> pr[j] == ps[j]);
            assert(spec_is_modified_vowel(buf[ps[ps.len() - 1]]));
        }
    }
}

/// Exactly one of the positions `ps` holds a modified vowel: it alone is found.
proof fn lemma_modified_one(buf: Seq<char>, ps: Seq<int>, j0: int)
    requires
        0 <= j0 < ps.len(),
        forall|j: int| 0 <= j < ps.len() ==> (spec_is_modified_vowel(#[trigger] buf[ps[j]]) <==> j == j0),
    ensures
        modified_positions(buf, ps) == seq![ps[j0]],
    decreases ps.len(),
{
    let pr = ps.drop_last();
    assert(forall|j: int| 0 <= j < pr.len() ==> pr[j] == ps[j]);
    if j0 == ps.len() - 1 {
        lemma_modified_uniform(buf, pr);
        assert(forall|j: int| 0 <= j < pr.len() ==> !spec_is_modified_vowel(#[trigger] buf[pr[j]]));
        assert(modified_positions(buf, pr) =~= seq![]);
        assert(seq![].push(ps[j0]) =~= seq![ps[j0]]);
    } else {
        lemma_modified_one(buf, pr, j0);
        assert(!spec_is_modified_vowel(buf[ps[ps.len() - 1]]));
    }
}

/// `buf` opens with the consonant g then the glide i, or q then u, in
/// either case.
pub open spec fn glide_onset(buf: Seq<char>) -> bool {
    &&& buf.len() >= 2
    &&& {
        ||| (buf[0] == 'g' || buf[0] == 'G') && (buf[1] == 'i' || buf[1] == 'I')
        ||| (buf[0] == 'q' || buf[0] == 'Q') && (buf[1] == 'u' || buf[1] == 'U')
    }
}

/// A syllable whose vowels are two adjacent ones at `p` and `p + 1`, both
/// plain or both modified (not the i of gi or the u of qu): the tone goes on
/// the second when a consonant follows them, on the first otherwise
/// ("hoàn", "hòa"). After gi or qu, whose i or u is a glide and does not
/// count, the same holds of the two vowels that follow ("giáo", "quạt").
pub proof fn lemma_tone_on_two_vowels(buf: Seq<char>, p: int)
    requires
        0 <= p,
        p + 1 < buf.len(),
        forall|i: int|
            0 <= i < buf.len() ==> (spec_is_vowel(#[trigger] buf[i]) <==> (i == p || i == p + 1 || (
            glide_onset(buf) && i == 1 && p == 2))),
        spec_is_modified_vowel(buf[p]) == spec_is_modified_vowel(buf[p + 1]),
        !(glide_onset(buf) && p == 1),
    ensures
        spec_tone_position(buf) == Some(
            if p + 2 < buf.len() {
                p + 1
            } else {
                p
            },
        ),
{
    let vp = vowel_positions(buf);
    if glide_onset(buf) && p == 2 {
        let ps = seq![1int, 2, 3];
        assert forall|i: int| 0 <= i < buf.len() implies (spec_is_vowel(#[trigger] buf[i])
            <==> ps.contains(i)) by {
            if i == 1 || i == 2 || i == 3 {
                assert(ps[i - 1] == i);
            }
        }
        lemma_vowels_exactly(buf, ps);
        assert(tone_candidates(buf) =~= seq![2int, 3]);
    } else {
        let ps = seq![p, p + 1];
        assert forall|i: int| 0 <= i < buf.len() implies (spec_is_vowel(#[trigger] buf[i])
            <==> ps.contains(i)) by {
            if i == p || i == p + 1 {
                assert(ps[i - p] == i);
            }
        }
        lemma_vowels_exactly(buf, ps);
        assert(tone_candidates(buf) =~= ps);
    }
    let cand = tone_candidates(buf);
    assert(cand[0] == p && cand[1] == p + 1 && cand.len() == 2);
    lemma_modified_uniform(buf, cand);
    if spec_is_modified_vowel(buf[p]) {
        assert(forall|j: int| 0 <= j < cand.len() ==> spec_is_modified_vowel(#[trigger] buf[cand[j]]));
    } else {
        assert(forall|j: int| 0 <= j < cand.len() ==> !spec_is_modified_vowel(#[trigger] buf[cand[j]]));
    }
}

/// A syllable whose vowels are three adjacent ones, none modified (and not
/// after gi or qu): the tone goes on the middle one ("khuỷu", "ngoài").
pub proof fn lemma_tone_on_three_vowels(buf: Seq<char>, p: int)
    requires
        0 <= p,
        p + 2 < buf.len(),
        forall|i: int|
            0 <= i < buf.len() ==> (spec_is_vowel(#[trigger] buf[i]) <==> (p <= i <= p + 2)),
        !spec_is_modified_vowel(buf[p]),
        !spec_is_modified_vowel(buf[p + 1]),
        !spec_is_modified_vowel(buf[p + 2]),
        !(glide_onset(buf) && p == 1),
    ensures
        spec_tone_position(buf) == Some(p + 1),
{
    let ps = seq![p, p + 1, p + 2];
    assert forall|i: int| 0 <= i < buf.len() implies (spec_is_vowel(#[trigger] buf[i])
        <==> ps.contains(i)) by {
        if p <= i <= p + 2 {
            assert(ps[i - p] == i);
        }
    }
    lemma_vowels_exactly(buf, ps);
    assert(tone_candidates(buf) =~= ps);
    lemma_modified_uniform(buf, ps);
    assert(forall|j: int| 0 <= j < ps.len() ==> !spec_is_modified_vowel(#[trigger] buf[ps[j]]));
}

/// Of two or three adjacent vowels (not after gi or qu), exactly one of them
/// modified, that one takes the tone ("thuở", "người").
pub proof fn lemma_tone_on_modified_vowel(buf: Seq<char>, p: int, n: int, m: int)
    requires
        0 <= p,
        2 <= n <= 3,
        p + n <= buf.len(),
        forall|i: int|
            0 <= i < buf.len() ==> (spec_is_vowel(#[trigger] buf[i]) <==> (p <= i < p + n)),
        p <= m < p + n,
        forall|i: int| p <= i < p + n ==> (spec_is_modified_vowel(#[trigger] buf[i]) <==> i == m),
        !(glide_onset(buf) && p == 1),
    ensures
        spec_tone_position(buf) == Some(m),
{
    let ps = if n == 2 {
        seq![p, p + 1]
    } else {
        seq![p, p + 1, p + 2]
    };
    assert forall|i: int| 0 <= i < buf.len() implies (spec_is_vowel(#[trigger] buf[i])
        <==> ps.contains(i)) by {
        if p <= i < p + n {
            assert(ps[i - p] == i);
        }
    }
    lemma_vowels_exactly(buf, ps);
    assert(tone_candidates(buf) =~= ps);
    assert(ps[m - p] == m);
    assert forall|j: int| 0 <= j < ps.len() implies (spec_is_modified_vowel(#[trigger] buf[ps[j]])
        <==> j == m - p) by {
        assert(ps[j] == p + j);
    }
    lemma_modified_one(buf, ps, m - p);
}

/// The index of the vowel of `buf` that should receive the tone mark, or
/// nothing when `buf` holds no vowel.
pub fn tone_position(buf: &[char]) -> (pos: Option<usize>)
    ensures
        opt_int(pos) == spec_tone_position(buf@),
{
    let mut vowel_pos: Vec<usize> = Vec::new();
    let mut i: usize = 0;
    while i < buf.len()
        invariant
            i <= buf@.len(),
            as_ints(vowel_pos@) == vowel_positions(buf@.take(i as int)),
        decreases buf@.len() - i,
    {
        let ghost before = vowel_pos@;
        if is_vowel(buf[i]) {
            vowel_pos.push(i);
            assert(as_ints(vowel_pos@) =~= as_ints(before).push(i as int));
        }
        assert(buf@.take(i + 1).drop_last() =~= buf@.take(i as int));
        i += 1;
    }
    assert(buf@.take(buf@.len() as int) =~= buf@);
    proof {
        lemma_vowel_positions(buf@);
    }
    let ghost vp = vowel_positions(buf@);
    if vowel_pos.len() == 0 {
        return None;
    }
    assert(vowel_pos@[0] as int == vp[0]);
    if vowel_pos.len() >= 2 {
        let first = vowel_pos[0];
        if first == 1 {
            assert(vowel_pos@[1] as int == vp[1]);
            let first_char = buf[0];
            let second_char = buf[1];
            let is_gi_cluster = (first_char == 'g' || first_char == 'G') && (second_char == 'i'
                || second_char == 'I');
            let is_qu_cluster = (first_char == 'q' || first_char == 'Q') && (second_char == 'u'
                || second_char == 'U');
            if is_gi_cluster || is_qu_cluster {
                let ghost before = vowel_pos@;
                vowel_pos.remove(0);
                assert(as_ints(vowel_pos@) =~= as_ints(before).drop_first());
            }
        }
    }
    let ghost cand = tone_candidates(buf@);
    assert(as_ints(vowel_pos@) == cand);
    assert(forall|j: int| 0 <= j < cand.len() ==> vp.contains(#[trigger] cand[j]));
    assert(forall|j: int| 0 <= j < vowel_pos@.len() ==> #[trigger] vowel_pos@[j] as int == cand[j]);
    if vowel_pos.len() == 1 {
        return Some(vowel_pos[0]);
    }
    let mut modified: Vec<usize> = Vec::new();
    let mut j: usize = 0;
    while j < vowel_pos.len()
        invariant
            j <= vowel_pos@.len(),
            as_ints(vowel_pos@) == cand,
            forall|j2: int| 0 <= j2 < cand.len() ==> vp.contains(#[trigger] cand[j2]),
            forall|j2: int| 0 <= j2 < vp.len() ==> 0 <= #[trigger] vp[j2] < buf@.len(),
            forall|j2: int| 0 <= j2 < vowel_pos@.len() ==> #[trigger] vowel_pos@[j2] as int == cand[j2],
            as_ints(modified@) == modified_positions(buf@, cand.take(j as int)),
        decreases vowel_pos@.len() - j,
    {
        let p = vowel_pos[j];
        assert(vp.contains(cand[j as int]));
        let ghost before = modified@;
        if is_modified_vowel(buf[p]) {
            modified.push(p);
            assert(as_ints(modified@) =~= as_ints(before).push(p as int));
        }
        assert(cand.take(j + 1).drop_last() =~= cand.take(j as int));
        j += 1;
    }
    assert(cand.take(cand.len() as int) =~= cand);
    if modified.len() == 1 {
        assert(modified@[0] as int == modified_positions(buf@, cand)[0]);
        return Some(modified[0]);
    }
    if vowel_pos.len() >= 3 {
        return Some(vowel_pos[1]);
    }
    let last_vowel_idx = vowel_pos[vowel_pos.len() - 1];
    assert(vp.contains(cand[cand.len() - 1]));
    let has_final_consonant = buf.len() > last_vowel_idx + 1 && !is_vowel(
        buf[last_vowel_idx + 1],
    );
    if has_final_consonant {
        Some(vowel_pos[1])
    } else {
        Some(vowel_pos[0])
    }
}

/// Places tone `tone` on the vowel of `buf` chosen by `tone_position`.
/// Returns whether `buf` held a vowel; the buffer is unchanged otherwise.
pub fn apply_tone_to_buffer(buf: &mut [char], tone: Tone) -> (applied: bool)
    ensures
        match spec_tone_position(old(buf)@) {
            Some(p) => applied && final(buf)@ == old(buf)@.update(
                p,
                spec_apply_tone(old(buf)@[p], tone),
            ),
            None => !applied && final(buf)@ == old(buf)@,
        },
{
    proof {
        lemma_tone_position_is_vowel(buf@);
    }
    if let Some(pos) = tone_position(buf) {
        let c = apply_tone(buf[pos], tone);
        buf[pos] = c;
        return true;
    }
    false
}

/// Removes the tone mark from the vowel of `buf` chosen by `tone_position`.
/// Returns whether `buf` held a vowel.
pub fn remove_tone_from_buffer(buf: &mut [char]) -> (removed: bool)
    ensures
        match spec_tone_position(old(buf)@) {
            Some(p) => removed && final(buf)@ == old(buf)@.update(p, spec_strip_tone(old(buf)@[p])),
            None => !removed && final(buf)@ == old(buf)@,
        },
{
    proof {
        if let Some(p) = spec_tone_position(buf@) {
            lemma_strip_is_ngang(buf@[p]);
        }
    }
    apply_tone_to_buffer(buf, Tone::Ngang)
}

} // verus!
