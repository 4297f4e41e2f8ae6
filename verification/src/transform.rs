//! The Telex rules as pure functions: what a key does to a composing buffer,
//! how that effect is applied, and how a sequence of keys builds a buffer.
use vstd::prelude::*;

use crate::ascii::{
    ascii_lower, is_ascii_alpha, lemma_ascii_lower, spec_ascii_lower, spec_is_ascii_alpha,
};
use crate::tone::{
    apply_tone, get_tone, lemma_strip_is_ngang, lemma_tone_roundtrip, spec_apply_tone,
    spec_get_tone, spec_strip_tone, spec_tone_from_telex, strip_tone, Tone,
};
use crate::vowel::{
    is_vowel, lemma_modify_vowel_keeps_tone, lemma_tone_position_is_vowel, modify_vowel,
    spec_is_modified_vowel, spec_is_vowel, spec_modify_vowel, spec_tone_position, tone_position,
};

verus! {

/// What effect a single keystroke has on a composing buffer.
#[derive(Debug, Clone, PartialEq, Eq, Structural)]
pub enum KeyEffect {
    /// A tone was applied at `buf[position]`.
    ToneApplied { position: usize, replacement: char },
    /// The key of the tone that `buf[position]` already carries: the tone is
    /// taken off (`replacement`) and the key is typed as a letter (sixx → six).
    ToneClearAndAppend { position: usize, replacement: char, key: char },
    /// dd → đ: the last char was replaced.
    DdApplied { position: usize, replacement: char },
    /// A vowel was modified in place (e.g. a → â).
    VowelModified { position: usize, replacement: char },
    /// Standalone w → ư (or W → Ư) appended.
    WAsVowel(char),
    /// Regular character appended.
    Append(char),
    /// Key triggers a commit (space, punctuation, non-alpha).
    Commit(char),
    /// Backspace.
    Backspace,
}

/// The keys that end a word.
pub open spec fn spec_is_word_separator(c: char) -> bool {
    c == ' ' || c == '\n' || c == '\t' || c == '\r'
}

/// The keys that delete: backspace and delete.
pub open spec fn is_backspace_key(c: char) -> bool {
    c == '\x08' || c == '\x7f'
}

/// The keys that modify a vowel (in lower case).
pub open spec fn is_modifier_key(c: char) -> bool {
    c == 'a' || c == 'e' || c == 'o' || c == 'w'
}

/// A tone key on a buffer that holds a vowel: the tone goes on the vowel
/// chosen by `spec_tone_position`; pressing the key of the tone that vowel
/// already carries takes the tone off and types the key as a letter.
pub open spec fn spec_try_tone(key: char, buf: Seq<char>) -> Option<KeyEffect> {
    match spec_tone_from_telex(key) {
        None => None,
        Some(tone) => match spec_tone_position(buf) {
            None => None,
            Some(pos) => if tone != Tone::Ngang && spec_get_tone(buf[pos]) == tone {
                Some(
                    KeyEffect::ToneClearAndAppend {
                        position: pos as usize,
                        replacement: spec_strip_tone(buf[pos]),
                        key,
                    },
                )
            } else {
                Some(
                    KeyEffect::ToneApplied {
                        position: pos as usize,
                        replacement: spec_apply_tone(buf[pos], tone),
                    },
                )
            },
        },
    }
}

/// d after d, in either case, makes đ in the case of the first d.
pub open spec fn spec_try_dd(key: char, buf: Seq<char>) -> Option<KeyEffect> {
    if buf.len() > 0 && spec_ascii_lower(buf.last()) == 'd' && spec_ascii_lower(key) == 'd' {
        Some(
            KeyEffect::DdApplied {
                position: (buf.len() - 1) as usize,
                replacement: if buf.last() == 'D' {
                    'Đ'
                } else {
                    'đ'
                },
            },
        )
    } else {
        None
    }
}

/// Looking leftwards from `buf[n - 1]` through the trailing run of vowels,
/// the first character that `key` modifies, with what it becomes.
pub open spec fn scan_modify(key: char, buf: Seq<char>, n: int) -> Option<(int, char)>
    decreases n,
{
    if n <= 0 {
        None
    } else {
        match spec_modify_vowel(buf[n - 1], key) {
            Some(m) => Some((n - 1, m)),
            None => if !spec_is_vowel(buf[n - 1]) {
                None
            } else {
                scan_modify(key, buf, n - 1)
            },
        }
    }
}

/// A modifier key (a, e, o, w) changes the nearest vowel it combines with,
/// within the vowels at the end of the buffer.
pub open spec fn spec_try_vowel_modify(key: char, buf: Seq<char>) -> Option<KeyEffect> {
    if !is_modifier_key(spec_ascii_lower(key)) {
        None
    } else {
        match scan_modify(key, buf, buf.len() as int) {
            Some((i, m)) => Some(KeyEffect::VowelModified { position: i as usize, replacement: m }),
            None => None,
        }
    }
}

/// w modifies a u or o at the end of the buffer, else it types ư (W types Ư).
pub open spec fn spec_try_w(key: char, buf: Seq<char>) -> KeyEffect {
    match scan_modify(key, buf, buf.len() as int) {
        Some((i, m)) => KeyEffect::VowelModified { position: i as usize, replacement: m },
        None => KeyEffect::WAsVowel(
            if key == 'W' {
                'Ư'
            } else {
                'ư'
            },
        ),
    }
}

/// What key `key` does to the composing buffer `buf`.
pub open spec fn spec_classify_key(key: char, buf: Seq<char>) -> KeyEffect {
    if is_backspace_key(key) {
        KeyEffect::Backspace
    } else if spec_is_word_separator(key) || !spec_is_ascii_alpha(key) {
        KeyEffect::Commit(key)
    } else if spec_try_tone(key, buf) is Some {
        spec_try_tone(key, buf)->0
    } else if spec_try_dd(key, buf) is Some {
        spec_try_dd(key, buf)->0
    } else if spec_try_vowel_modify(key, buf) is Some {
        spec_try_vowel_modify(key, buf)->0
    } else if key == 'w' || key == 'W' {
        spec_try_w(key, buf)
    } else {
        KeyEffect::Append(key)
    }
}

/// `buf` with `c` written at `position`, when that is a place of `buf`.
pub open spec fn replace_at(buf: Seq<char>, position: usize, c: char) -> Seq<char> {
    if position < buf.len() {
        buf.update(position as int, c)
    } else {
        buf
    }
}

/// The buffer that effect `effect` makes of `buf`.
pub open spec fn spec_apply_effect(buf: Seq<char>, effect: KeyEffect) -> Seq<char> {
    match effect {
        KeyEffect::ToneApplied { position, replacement } => replace_at(buf, position, replacement),
        KeyEffect::DdApplied { position, replacement } => replace_at(buf, position, replacement),
        KeyEffect::VowelModified { position, replacement } => replace_at(
            buf,
            position,
            replacement,
        ),
        KeyEffect::ToneClearAndAppend { position, replacement, key } => replace_at(
            buf,
            position,
            replacement,
        ).push(key),
        KeyEffect::WAsVowel(c) => buf.push(c),
        KeyEffect::Append(c) => buf.push(c),
        KeyEffect::Commit(_) => buf,
        KeyEffect::Backspace => buf,
    }
}

/// The buffer that typing the keys `raw` in turn builds from an empty one.
pub open spec fn spec_replay(raw: Seq<char>) -> Seq<char>
    decreases raw.len(),
{
    if raw.len() == 0 {
        seq![]
    } else {
        let buf = spec_replay(raw.drop_last());
        spec_apply_effect(buf, spec_classify_key(raw.last(), buf))
    }
}

/// The effect adds a character at the end of the buffer.
pub open spec fn appends(effect: KeyEffect) -> bool {
    ||| effect is ToneClearAndAppend
    ||| effect is WAsVowel
    ||| effect is Append
}

/// The place in the buffer that the effect rewrites, if any.
pub open spec fn rewritten_position(effect: KeyEffect) -> Option<int> {
    match effect {
        KeyEffect::ToneApplied { position, .. } => Some(position as int),
        KeyEffect::DdApplied { position, .. } => Some(position as int),
        KeyEffect::VowelModified { position, .. } => Some(position as int),
        KeyEffect::ToneClearAndAppend { position, .. } => Some(position as int),
        _ => None,
    }
}

fn is_word_separator(c: char) -> (r: bool)
    ensures
        r == spec_is_word_separator(c),
{
    c == ' ' || c == '\n' || c == '\t' || c == '\r'
}

fn try_tone(key: char, buf: &[char]) -> (e: Option<KeyEffect>)
    ensures
        e == spec_try_tone(key, buf@),
{
    let tone = match Tone::from_telex(key) {
        Some(t) => t,
        None => return None,
    };
    let mut has_vowel = false;
    let mut i: usize = 0;
    while i < buf.len()
        invariant
            i <= buf@.len(),
            has_vowel == exists|j: int| 0 <= j < i && spec_is_vowel(#[trigger] buf@[j]),
        decreases buf@.len() - i,
    {
        if is_vowel(buf[i]) {
            has_vowel = true;
        }
        i += 1;
    }
    proof {
        lemma_tone_position_is_vowel(buf@);
    }
    if !has_vowel {
        return None;
    }
    let pos = match tone_position(buf) {
        Some(p) => p,
        None => return None,
    };
    let current = buf[pos];
    if tone != Tone::Ngang && get_tone(current) == tone {
        Some(KeyEffect::ToneClearAndAppend { position: pos, replacement: strip_tone(current), key })
    } else {
        let replacement = apply_tone(current, tone);
        Some(KeyEffect::ToneApplied { position: pos, replacement })
    }
}

fn try_dd(key: char, buf: &[char]) -> (e: Option<KeyEffect>)
    ensures
        e == spec_try_dd(key, buf@),
{
    if buf.len() == 0 {
        return None;
    }
    let last = buf[buf.len() - 1];
    if ascii_lower(last) == 'd' && ascii_lower(key) == 'd' {
        let replacement = if last == 'D' {
            'Đ'
        } else {
            'đ'
        };
        Some(KeyEffect::DdApplied { position: buf.len() - 1, replacement })
    } else {
        None
    }
}

/// The leftward scan of `scan_modify`, from the end of `buf`.
fn find_modifiable(key: char, buf: &[char]) -> (found: Option<(usize, char)>)
    ensures
        match found {
            Some((i, m)) => scan_modify(key, buf@, buf@.len() as int) == Some((i as int, m)),
            None => scan_modify(key, buf@, buf@.len() as int) is None,
        },
{
    let mut n: usize = buf.len();
    while n > 0
        invariant
            n <= buf@.len(),
            scan_modify(key, buf@, buf@.len() as int) == scan_modify(key, buf@, n as int),
        decreases n,
    {
        let c = buf[n - 1];
        if let Some(modified) = modify_vowel(c, key) {
            return Some((n - 1, modified));
        }
        if !is_vowel(c) {
            return None;
        }
        n -= 1;
    }
    None
}

fn try_vowel_modify(key: char, buf: &[char]) -> (e: Option<KeyEffect>)
    ensures
        e == spec_try_vowel_modify(key, buf@),
{
    let lower = ascii_lower(key);
    if !(lower == 'a' || lower == 'e' || lower == 'o' || lower == 'w') {
        return None;
    }
    match find_modifiable(key, buf) {
        Some((i, m)) => Some(KeyEffect::VowelModified { position: i, replacement: m }),
        None => None,
    }
}

fn try_w(key: char, buf: &[char]) -> (e: KeyEffect)
    ensures
        e == spec_try_w(key, buf@),
{
    match find_modifiable(key, buf) {
        Some((i, m)) => KeyEffect::VowelModified { position: i, replacement: m },
        None => {
            let ch = if key == 'W' {
                'Ư'
            } else {
                'ư'
            };
            KeyEffect::WAsVowel(ch)
        },
    }
}

/// Where the leftward scan stops, it stops on a place of the buffer.
proof fn lemma_scan_modify_in_range(key: char, buf: Seq<char>, n: int)
    requires
        n <= buf.len(),
    ensures
        scan_modify(key, buf, n) matches Some((i, m)) ==> 0 <= i < n,
    decreases n,
{
    if n > 0 {
        lemma_scan_modify_in_range(key, buf, n - 1);
    }
}

/// The effect of a key rewrites only places of the buffer; backspace and
/// commit are decided by the key alone, and every other key is a letter.
pub proof fn lemma_classify_key_shape(key: char, buf: Seq<char>)
    ensures
        rewritten_position(spec_classify_key(key, buf)) matches Some(p) ==> 0 <= p < buf.len(),
        spec_classify_key(key, buf) is Backspace <==> is_backspace_key(key),
        spec_classify_key(key, buf) is Commit <==> !is_backspace_key(key) && (
        spec_is_word_separator(key) || !spec_is_ascii_alpha(key)),
        spec_classify_key(key, buf) is Commit ==> spec_classify_key(key, buf) == KeyEffect::Commit(
            key,
        ),
{
    lemma_tone_position_is_vowel(buf);
    lemma_scan_modify_in_range(key, buf, buf.len() as int);
}

/// The leftward scan finds a vowel that the key modifies.
proof fn lemma_scan_modify_result(key: char, buf: Seq<char>, n: int)
    requires
        n <= buf.len(),
    ensures
        scan_modify(key, buf, n) matches Some((i, m)) ==> spec_modify_vowel(buf[i], key) == Some(m),
    decreases n,
{
    if n > 0 {
        lemma_scan_modify_result(key, buf, n - 1);
    }
}

/// The leftward scan stops at the nearest place from the end that the key
/// modifies, passing only over vowels that it does not modify; and it finds
/// one whenever such a place is followed by vowels alone.
proof fn lemma_scan_modify_nearest(key: char, buf: Seq<char>, n: int)
    requires
        0 <= n <= buf.len(),
    ensures
        scan_modify(key, buf, n) matches Some((i, m)) ==> {
            &&& 0 <= i < n
            &&& spec_modify_vowel(buf[i], key) == Some(m)
            &&& forall|q: int|
                i < q < n ==> spec_is_vowel(#[trigger] buf[q]) && spec_modify_vowel(buf[q], key) is None
        },
        (exists|p: int|
            0 <= p < n && spec_modify_vowel(#[trigger] buf[p], key) is Some && forall|q: int|
                p < q < n ==> spec_is_vowel(#[trigger] buf[q])) ==> scan_modify(key, buf, n) is Some,
    decreases n,
{
    if n > 0 {
        lemma_scan_modify_nearest(key, buf, n - 1);
        if spec_modify_vowel(buf[n - 1], key) is None {
            if exists|p: int|
                0 <= p < n && spec_modify_vowel(#[trigger] buf[p], key) is Some && forall|q: int|
                    p < q < n ==> spec_is_vowel(#[trigger] buf[q]) {
                let p = choose|p: int|
                    0 <= p < n && spec_modify_vowel(#[trigger] buf[p], key) is Some && forall|q: int|
                        p < q < n ==> spec_is_vowel(#[trigger] buf[q]);
                assert(p < n - 1);
                assert(spec_is_vowel(buf[n - 1]));
                assert(forall|q: int| p < q < n - 1 ==> spec_is_vowel(#[trigger] buf[q]));
            }
        }
    }
}

/// A modifier key (a, e, o, w in either case) rewrites the nearest vowel
/// from the end that it combines with, within the vowels that end the word:
/// every vowel after it is one the key does not combine with (so in "hoa",
/// w makes "hoă", not "hơa"). When no such vowel is there, w types ư (W
/// types Ư) and the other keys are typed as letters.
pub proof fn lemma_modifier_key_nearest(key: char, buf: Seq<char>)
    requires
        spec_ascii_lower(key) == 'a' || spec_ascii_lower(key) == 'e' || spec_ascii_lower(key)
            == 'o' || spec_ascii_lower(key) == 'w',
        buf.len() <= usize::MAX,
    ensures
        spec_classify_key(key, buf) matches KeyEffect::VowelModified { position, replacement }
            ==> {
            &&& 0 <= position < buf.len()
            &&& spec_modify_vowel(buf[position as int], key) == Some(replacement)
            &&& forall|q: int|
                position < q < buf.len() ==> spec_is_vowel(#[trigger] buf[q]) && spec_modify_vowel(
                    buf[q],
                    key,
                ) is None
        },
        (exists|p: int|
            0 <= p < buf.len() && spec_modify_vowel(#[trigger] buf[p], key) is Some && forall|q: int|
                p < q < buf.len() ==> spec_is_vowel(#[trigger] buf[q])) ==> spec_classify_key(
            key,
            buf,
        ) is VowelModified,
        !(spec_classify_key(key, buf) is VowelModified) ==> spec_classify_key(key, buf) == (if key
            == 'w' {
            KeyEffect::WAsVowel('ư')
        } else if key == 'W' {
            KeyEffect::WAsVowel('Ư')
        } else {
            KeyEffect::Append(key)
        }),
{
    lemma_ascii_lower(key);
    lemma_scan_modify_nearest(key, buf, buf.len() as int);
    lemma_scan_modify_in_range(key, buf, buf.len() as int);
}

/// What each effect of a letter key does to the character it rewrites: a
/// tone key puts the key's tone on a vowel and keeps its letter; pressing
/// the key of the tone already there strips the tone and types the key; a
/// modifier key turns a vowel into a modified vowel of the same tone; dd
/// turns a final d into đ in the same case.
pub proof fn lemma_effect_meaning(key: char, buf: Seq<char>)
    requires
        buf.len() <= usize::MAX,
    ensures
        spec_classify_key(key, buf) matches KeyEffect::ToneApplied { position, replacement } ==> {
            &&& spec_is_vowel(buf[position as int])
            &&& spec_strip_tone(replacement) == spec_strip_tone(buf[position as int])
            &&& spec_tone_from_telex(key) == Some(spec_get_tone(replacement))
        },
        spec_classify_key(key, buf) matches KeyEffect::ToneClearAndAppend {
            position,
            replacement,
            key: k,
        } ==> {
            &&& spec_is_vowel(buf[position as int])
            &&& replacement == spec_strip_tone(buf[position as int])
            &&& spec_get_tone(replacement) == Tone::Ngang
            &&& spec_tone_from_telex(key) == Some(spec_get_tone(buf[position as int]))
            &&& k == key
        },
        spec_classify_key(key, buf) matches KeyEffect::VowelModified { position, replacement } ==> {
            &&& spec_is_vowel(buf[position as int])
            &&& spec_is_modified_vowel(replacement)
            &&& spec_get_tone(replacement) == spec_get_tone(buf[position as int])
        },
        spec_classify_key(key, buf) matches KeyEffect::DdApplied { position, replacement } ==> {
            &&& position == buf.len() - 1
            &&& (buf[position as int] == 'd' && replacement == 'đ' || buf[position as int] == 'D'
                && replacement == 'Đ')
        },
{
    lemma_classify_key_shape(key, buf);
    lemma_tone_position_is_vowel(buf);
    lemma_scan_modify_result(key, buf, buf.len() as int);
    if !is_backspace_key(key) && !(spec_is_word_separator(key) || !spec_is_ascii_alpha(key)) {
        if spec_try_tone(key, buf) is Some {
            let tone = spec_tone_from_telex(key)->0;
            let pos = spec_tone_position(buf)->0;
            lemma_tone_roundtrip(buf[pos], tone);
            lemma_strip_is_ngang(buf[pos]);
        } else if spec_try_dd(key, buf) is Some {
            lemma_ascii_lower(buf.last());
        } else if scan_modify(key, buf, buf.len() as int) is Some {
            let (i, m) = scan_modify(key, buf, buf.len() as int)->0;
            lemma_scan_modify_in_range(key, buf, buf.len() as int);
            lemma_modify_vowel_keeps_tone(buf[i], key);
        }
    }
}

/// A key adds at most one character at the end of the buffer, and never
/// removes one.
pub proof fn lemma_apply_effect_len(buf: Seq<char>, key: char)
    ensures
        spec_apply_effect(buf, spec_classify_key(key, buf)).len() == buf.len() + if appends(
            spec_classify_key(key, buf),
        ) {
            1int
        } else {
            0int
        },
{
}

/// Replaying keys gives at most one character per key.
pub proof fn lemma_replay_len(raw: Seq<char>)
    ensures
        spec_replay(raw).len() <= raw.len(),
    decreases raw.len(),
{
    if raw.len() > 0 {
        lemma_replay_len(raw.drop_last());
        lemma_apply_effect_len(spec_replay(raw.drop_last()), raw.last());
    }
}

/// Classifies a key given the current buffer contents, without changing anything.
pub fn classify_key(key: char, buf: &[char]) -> (e: KeyEffect)
    ensures
        e == spec_classify_key(key, buf@),
        rewritten_position(e) matches Some(p) ==> 0 <= p < buf@.len(),
{
    proof {
        lemma_classify_key_shape(key, buf@);
    }
    if key == '\x08' || key == '\x7f' {
        return KeyEffect::Backspace;
    }
    if is_word_separator(key) || !is_ascii_alpha(key) {
        return KeyEffect::Commit(key);
    }
    if let Some(effect) = try_tone(key, buf) {
        return effect;
    }
    if let Some(effect) = try_dd(key, buf) {
        return effect;
    }
    if let Some(effect) = try_vowel_modify(key, buf) {
        return effect;
    }
    if key == 'w' || key == 'W' {
        return try_w(key, buf);
    }
    KeyEffect::Append(key)
}

/// Applies an effect to a buffer, returning the new buffer.
pub fn apply_effect(buf: &[char], effect: &KeyEffect) -> (r: Vec<char>)
    ensures
        r@ == spec_apply_effect(buf@, *effect),
{
    let mut result: Vec<char> = vstd::slice::slice_to_vec(buf);
    match *effect {
        KeyEffect::ToneApplied { position, replacement }
        | KeyEffect::DdApplied { position, replacement }
        | KeyEffect::VowelModified { position, replacement } => {
            if position < result.len() {
                result[position] = replacement;
            }
        },
        KeyEffect::ToneClearAndAppend { position, replacement, key } => {
            if position < result.len() {
                result[position] = replacement;
            }
            result.push(key);
        },
        KeyEffect::WAsVowel(ch) | KeyEffect::Append(ch) => {
            result.push(ch);
        },
        KeyEffect::Commit(_) | KeyEffect::Backspace => {},
    }
    result
}

/// Replays a sequence of raw keys from an empty buffer, returning the result.
pub fn replay(raw_keys: &[char]) -> (r: Vec<char>)
    ensures
        r@ == spec_replay(raw_keys@),
{
    let mut buf: Vec<char> = Vec::new();
    let mut i: usize = 0;
    while i < raw_keys.len()
        invariant
            i <= raw_keys@.len(),
            buf@ == spec_replay(raw_keys@.take(i as int)),
        decreases raw_keys@.len() - i,
    {
        let key = raw_keys[i];
        let effect = classify_key(key, buf.as_slice());
        buf = apply_effect(buf.as_slice(), &effect);
        assert(raw_keys@.take(i + 1).drop_last() =~= raw_keys@.take(i as int));
        i += 1;
    }
    assert(raw_keys@.take(raw_keys@.len() as int) =~= raw_keys@);
    buf
}

} // verus!
