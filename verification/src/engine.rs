//! The stateful engine: a composing buffer and the raw keys that built it.
use vstd::prelude::*;

use crate::ascii::spec_is_ascii_alpha;
use crate::text::{chars_to_string, push_char};
use crate::tone::{spec_strip_tone, strip_tone};
use crate::transform::{
    apply_effect, appends, classify_key, is_backspace_key, lemma_apply_effect_len,
    lemma_classify_key_shape, rewritten_position, spec_apply_effect, spec_classify_key,
    spec_is_word_separator, spec_replay, KeyEffect,
};
use crate::vowel::vowel_positions;

verus! {

/// What the engine asks its front end to show after a key.
#[derive(Debug, Clone, PartialEq, Eq)]
pub enum Action {
    /// The word being composed, to be shown as pre-edit text.
    Composing(String),
    /// Text to hand to the application; the composition is over.
    Commit(String),
}

/// `a` shows `text` as the word being composed.
pub open spec fn composes(a: Action, text: Seq<char>) -> bool {
    a matches Action::Composing(s) && s@ == text
}

/// `a` commits `text`.
pub open spec fn commits(a: Action, text: Seq<char>) -> bool {
    a matches Action::Commit(s) && s@ == text
}

/// The buffer that typing the keys `raw` in turn builds from the buffer
/// `base`.
pub open spec fn spec_replay_from(base: Seq<char>, raw: Seq<char>) -> Seq<char>
    decreases raw.len(),
{
    if raw.len() == 0 {
        base
    } else {
        let buf = spec_replay_from(base, raw.drop_last());
        spec_apply_effect(buf, spec_classify_key(raw.last(), buf))
    }
}

/// The abstract state of an engine: the displayed buffer, the raw keys typed
/// for it, the buffer those keys were typed on (empty unless Backspace had to
/// rebuild the word), and whether a word is being composed.
pub struct EngineView {
    pub base: Seq<char>,
    pub buf: Seq<char>,
    pub raw: Seq<char>,
    pub composing: bool,
}

impl EngineView {
    /// The state of a fresh engine.
    pub open spec fn empty() -> EngineView {
        EngineView { base: seq![], buf: seq![], raw: seq![], composing: false }
    }

    /// The state is consistent: the buffer is what the raw keys build on the
    /// base, the engine composes exactly while the buffer is not empty, and
    /// the raw keys are letters.
    pub open spec fn wf(self) -> bool {
        &&& self.buf == spec_replay_from(self.base, self.raw)
        &&& self.composing == (self.buf.len() > 0)
        &&& forall|i: int| 0 <= i < self.raw.len() ==> spec_is_ascii_alpha(#[trigger] self.raw[i])
    }
}

/// `after` is `before` with its last character deleted: one character
/// fewer, and the others keep their letters, though a tone may move.
pub open spec fn deletes_last(before: Seq<char>, after: Seq<char>) -> bool {
    &&& after.len() + 1 == before.len()
    &&& forall|i: int| 0 <= i < after.len() ==> spec_strip_tone(#[trigger] after[i]) == spec_strip_tone(before[i])
}

/// Whether effect `e`, met on a buffer of length `len`, touched place
/// `target`: by rewriting it, or by appending there.
pub open spec fn effect_touches(e: KeyEffect, len: int, target: int) -> bool {
    ||| rewritten_position(e) matches Some(p) && p < len && p == target
    ||| appends(e) && target == len
}

/// Whether key `i` of `raw`, while the keys were replayed on `base`, touched
/// place `target` of the buffer.
pub open spec fn key_touches(base: Seq<char>, raw: Seq<char>, i: int, target: int) -> bool {
    let buf = spec_replay_from(base, raw.take(i));
    effect_touches(spec_classify_key(raw[i], buf), buf.len() as int, target)
}

/// The keys among the first `n` of `raw` that did not touch place `target`, in order.
pub open spec fn keys_not_touching(base: Seq<char>, raw: Seq<char>, target: int, n: int) -> Seq<char>
    decreases n,
{
    if n <= 0 {
        seq![]
    } else {
        let rest = keys_not_touching(base, raw, target, n - 1);
        if key_touches(base, raw, n - 1, target) {
            rest
        } else {
            rest.push(raw[n - 1])
        }
    }
}

/// The keys left when the last key is dropped, again and again, until the
/// keys build on `base` a buffer of at most `target` characters (or none is left).
pub open spec fn pop_until(base: Seq<char>, raw: Seq<char>, target: int) -> Seq<char>
    decreases raw.len(),
{
    if raw.len() == 0 {
        raw
    } else if spec_replay_from(base, raw.drop_last()).len() <= target {
        raw.drop_last()
    } else {
        pop_until(base, raw.drop_last(), target)
    }
}

/// The state with raw keys `raw` typed on `base`.
pub open spec fn state_of(base: Seq<char>, raw: Seq<char>) -> EngineView {
    let buf = spec_replay_from(base, raw);
    EngineView { base, buf, raw, composing: buf.len() > 0 }
}

/// The state after Backspace. An empty buffer is left as it is. Otherwise
/// every raw key that touched the last displayed character is dropped and
/// the word is replayed from the keys that remain. Where that does not
/// delete exactly the last character (replaying can make a later key act
/// otherwise), raw keys are dropped from the end until the word is shorter;
/// and where that does not either, the word is rebuilt from its characters
/// but the last, with no raw keys.
pub open spec fn backspace_state(before: EngineView) -> EngineView {
    if before.buf.len() == 0 {
        before
    } else {
        let target = before.buf.len() - 1;
        let filtered = state_of(
            before.base,
            keys_not_touching(before.base, before.raw, target, before.raw.len() as int),
        );
        let popped = state_of(before.base, pop_until(before.base, before.raw, target));
        if deletes_last(before.buf, filtered.buf) {
            filtered
        } else if deletes_last(before.buf, popped.buf) {
            popped
        } else {
            state_of(before.buf.take(target), seq![])
        }
    }
}

/// The state after key `key`: Backspace deletes; a key that commits empties
/// the engine; any other key is recorded and its effect applied.
pub open spec fn next_state(s: EngineView, key: char) -> EngineView {
    match spec_classify_key(key, s.buf) {
        KeyEffect::Backspace => backspace_state(s),
        KeyEffect::Commit(_) => EngineView::empty(),
        effect => EngineView {
            base: s.base,
            buf: spec_apply_effect(s.buf, effect),
            raw: s.raw.push(key),
            composing: true,
        },
    }
}

/// What the engine reports for key `key`: whether it commits, and the text.
/// Backspace on an empty buffer commits nothing; a key that commits commits
/// the word followed by the key; otherwise the new word is being composed.
pub open spec fn key_output(s: EngineView, key: char) -> (bool, Seq<char>) {
    match spec_classify_key(key, s.buf) {
        KeyEffect::Backspace => if s.buf.len() == 0 {
            (true, seq![])
        } else {
            (false, backspace_state(s).buf)
        },
        KeyEffect::Commit(ch) => (true, s.buf.push(ch)),
        effect => (false, spec_apply_effect(s.buf, effect)),
    }
}

/// `a` is the report `out`.
pub open spec fn reports(a: Action, out: (bool, Seq<char>)) -> bool {
    if out.0 {
        commits(a, out.1)
    } else {
        composes(a, out.1)
    }
}

/// The state after typing `keys` in turn from state `s`.
pub open spec fn type_keys(s: EngineView, keys: Seq<char>) -> EngineView
    decreases keys.len(),
{
    if keys.len() == 0 {
        s
    } else {
        next_state(type_keys(s, keys.drop_last()), keys.last())
    }
}

/// Whether `v` holds `x`.
fn holds(v: &Vec<usize>, x: usize) -> (r: bool)
    ensures
        r == v@.contains(x),
{
    let mut i: usize = 0;
    while i < v.len()
        invariant
            i <= v@.len(),
            forall|j: int| 0 <= j < i ==> v@[j] != x,
        decreases v@.len() - i,
    {
        if v[i] == x {
            assert(v@[i as int] == x);
            return true;
        }
        i += 1;
    }
    false
}

/// A thin stateful wrapper around the Telex rules: it keeps the composing
/// buffer and the raw keys typed for it.
#[derive(Debug)]
pub struct TelexEngine {
    base: Vec<char>,
    buf: Vec<char>,
    raw: Vec<char>,
    composing: bool,
}

impl View for TelexEngine {
    type V = EngineView;

    closed spec fn view(&self) -> EngineView {
        EngineView { base: self.base@, buf: self.buf@, raw: self.raw@, composing: self.composing }
    }
}

/// Replaying on the empty buffer is replaying.
pub proof fn lemma_replay_from_empty(raw: Seq<char>)
    ensures
        spec_replay_from(seq![], raw) == spec_replay(raw),
    decreases raw.len(),
{
    if raw.len() > 0 {
        lemma_replay_from_empty(raw.drop_last());
    }
}

/// Replaying keys on a buffer never makes it shorter.
pub proof fn lemma_replay_from_len(base: Seq<char>, raw: Seq<char>)
    ensures
        spec_replay_from(base, raw).len() >= base.len(),
    decreases raw.len(),
{
    if raw.len() > 0 {
        lemma_replay_from_len(base, raw.drop_last());
        lemma_apply_effect_len(spec_replay_from(base, raw.drop_last()), raw.last());
    }
}

/// Dropping the keys that touch a place keeps the other keys, in order: at
/// most as many as there were, and only keys of `raw`.
pub proof fn lemma_keys_not_touching(base: Seq<char>, raw: Seq<char>, target: int, n: int)
    requires
        0 <= n <= raw.len(),
    ensures
        keys_not_touching(base, raw, target, n).len() <= n,
        forall|i: int|
            0 <= i < keys_not_touching(base, raw, target, n).len() ==> raw.contains(
                #[trigger] keys_not_touching(base, raw, target, n)[i],
            ),
    decreases n,
{
    if n > 0 {
        lemma_keys_not_touching(base, raw, target, n - 1);
        let rest = keys_not_touching(base, raw, target, n - 1);
        let ks = keys_not_touching(base, raw, target, n);
        assert forall|i: int| 0 <= i < ks.len() implies raw.contains(#[trigger] ks[i]) by {
            if i < rest.len() {
                assert(ks[i] == rest[i]);
            } else {
                assert(ks[i] == raw[n - 1]);
            }
        }
    }
}

/// Dropping keys from the end leaves a prefix of the keys.
pub proof fn lemma_pop_until(base: Seq<char>, raw: Seq<char>, target: int)
    ensures
        pop_until(base, raw, target).len() <= raw.len(),
        pop_until(base, raw, target) == raw.take(pop_until(base, raw, target).len() as int),
    decreases raw.len(),
{
    if raw.len() == 0 {
        assert(raw.take(0) =~= raw);
    } else {
        let r = raw.drop_last();
        lemma_pop_until(base, r, target);
        let k = pop_until(base, raw, target).len() as int;
        assert(r.take(k) =~= raw.take(k));
        assert(raw.take(r.len() as int) =~= r);
    }
}

/// The first letter typed on an empty buffer is appended.
proof fn lemma_first_letter_appends(key: char)
    requires
        spec_is_ascii_alpha(key),
    ensures
        appends(spec_classify_key(key, seq![])),
{
    let empty: Seq<char> = seq![];
    assert(vowel_positions(empty) =~= seq![]);
}

/// Replaying letters builds a non-empty buffer exactly when there is a letter.
pub proof fn lemma_replay_letters_nonempty(raw: Seq<char>)
    requires
        forall|i: int| 0 <= i < raw.len() ==> spec_is_ascii_alpha(#[trigger] raw[i]),
    ensures
        spec_replay(raw).len() > 0 <==> raw.len() > 0,
    decreases raw.len(),
{
    if raw.len() > 0 {
        let prev = raw.drop_last();
        assert(spec_is_ascii_alpha(raw[raw.len() - 1]));
        lemma_replay_letters_nonempty(prev);
        lemma_apply_effect_len(spec_replay(prev), raw.last());
        if prev.len() == 0 {
            lemma_first_letter_appends(raw.last());
        }
    }
}

/// Typing a word of letters into a fresh engine records the word, shows
/// what replaying it builds, and composes exactly when the word is not empty.
pub proof fn lemma_type_word(word: Seq<char>)
    requires
        forall|i: int| 0 <= i < word.len() ==> spec_is_ascii_alpha(#[trigger] word[i]),
    ensures
        type_keys(EngineView::empty(), word) == (EngineView {
            base: seq![],
            buf: spec_replay(word),
            raw: word,
            composing: word.len() > 0,
        }),
        type_keys(EngineView::empty(), word).wf(),
    decreases word.len(),
{
    lemma_replay_letters_nonempty(word);
    lemma_replay_from_empty(word);
    if word.len() == 0 {
        assert(word =~= seq![]);
    } else {
        let prev = word.drop_last();
        assert forall|i: int| 0 <= i < prev.len() implies spec_is_ascii_alpha(#[trigger] prev[i]) by {
            assert(prev[i] == word[i]);
        }
        lemma_type_word(prev);
        let k = word.last();
        assert(spec_is_ascii_alpha(word[word.len() - 1]));
        lemma_classify_key_shape(k, spec_replay(prev));
        assert(prev.push(k) =~= word);
    }
}

/// Typing a word of letters into a fresh engine and then a key that ends
/// the word (a space, punctuation, a digit...) commits what the word builds
/// followed by that key, and leaves a fresh engine.
pub proof fn lemma_type_word_then_commit(word: Seq<char>, end: char)
    requires
        forall|i: int| 0 <= i < word.len() ==> spec_is_ascii_alpha(#[trigger] word[i]),
        !is_backspace_key(end),
        spec_is_word_separator(end) || !spec_is_ascii_alpha(end),
    ensures
        key_output(type_keys(EngineView::empty(), word), end) == (true, spec_replay(word).push(end)),
        type_keys(EngineView::empty(), word.push(end)) == EngineView::empty(),
{
    lemma_type_word(word);
    lemma_classify_key_shape(end, spec_replay(word));
    assert(word.push(end).drop_last() =~= word);
}

/// Backspace on a non-empty word deletes exactly its last displayed
/// character: one character fewer, the others keeping their letters (a tone
/// may move). It keeps only raw keys that were typed, and leaves a
/// consistent state.
pub proof fn lemma_backspace_deletes_last(s: EngineView)
    requires
        s.wf(),
        s.buf.len() > 0,
    ensures
        deletes_last(s.buf, backspace_state(s).buf),
        backspace_state(s).raw.len() <= s.raw.len(),
        forall|i: int|
            0 <= i < backspace_state(s).raw.len() ==> s.raw.contains(
                #[trigger] backspace_state(s).raw[i],
            ),
        backspace_state(s).wf(),
{
    let t = s.buf.len() - 1;
    lemma_keys_not_touching(s.base, s.raw, t, s.raw.len() as int);
    lemma_pop_until(s.base, s.raw, t);
    let filtered = keys_not_touching(s.base, s.raw, t, s.raw.len() as int);
    let popped = pop_until(s.base, s.raw, t);
    assert forall|i: int| 0 <= i < popped.len() implies s.raw.contains(#[trigger] popped[i]) by {
        assert(popped[i] == s.raw[i]);
    }
    let raw = backspace_state(s).raw;
    assert forall|j: int| 0 <= j < raw.len() implies spec_is_ascii_alpha(#[trigger] raw[j]) by {
        assert(s.raw.contains(raw[j]));
    }
    if !deletes_last(s.buf, state_of(s.base, filtered).buf) && !deletes_last(
        s.buf,
        state_of(s.base, popped).buf,
    ) {
        let b = s.buf.take(t);
        assert(spec_replay_from(b, seq![]) == b);
        assert(deletes_last(s.buf, b));
    }
}

/// The engine commits empty text exactly for Backspace (or Delete) on an
/// empty buffer: that is how a front end learns to let the application
/// delete.
pub proof fn lemma_empty_commit(s: EngineView, key: char)
    ensures
        (key_output(s, key).0 && key_output(s, key).1.len() == 0) <==> (is_backspace_key(key)
            && s.buf.len() == 0),
{
    lemma_classify_key_shape(key, s.buf);
}

/// In a consistent state on an empty base, the engine composes exactly
/// while raw keys are recorded.
pub proof fn lemma_composing_iff_raw(s: EngineView)
    requires
        s.wf(),
        s.base.len() == 0,
    ensures
        s.composing <==> s.raw.len() > 0,
{
    assert(s.base =~= seq![]);
    lemma_replay_from_empty(s.raw);
    lemma_replay_letters_nonempty(s.raw);
}

/// The buffer that typing `keys` in turn builds from `base`.
fn replay_from(base: &[char], keys: &[char]) -> (r: Vec<char>)
    ensures
        r@ == spec_replay_from(base@, keys@),
{
    let mut buf: Vec<char> = vstd::slice::slice_to_vec(base);
    let mut i: usize = 0;
    while i < keys.len()
        invariant
            i <= keys@.len(),
            buf@ == spec_replay_from(base@, keys@.take(i as int)),
        decreases keys@.len() - i,
    {
        let effect = classify_key(keys[i], buf.as_slice());
        buf = apply_effect(buf.as_slice(), &effect);
        assert(keys@.take(i + 1).drop_last() =~= keys@.take(i as int));
        i += 1;
    }
    assert(keys@.take(keys@.len() as int) =~= keys@);
    buf
}

/// Whether `after` is `before` with its last character deleted (see
/// `deletes_last`).
fn is_last_deleted(before: &[char], after: &[char]) -> (r: bool)
    ensures
        r == deletes_last(before@, after@),
{
    if after.len() >= before.len() || after.len() + 1 != before.len() {
        return false;
    }
    let mut i: usize = 0;
    while i < after.len()
        invariant
            i <= after@.len(),
            after@.len() + 1 == before@.len(),
            forall|j: int| 0 <= j < i ==> spec_strip_tone(#[trigger] after@[j]) == spec_strip_tone(
                before@[j],
            ),
        decreases after@.len() - i,
    {
        if strip_tone(after[i]) != strip_tone(before[i]) {
            return false;
        }
        i += 1;
    }
    true
}

impl Clone for TelexEngine {
    /// A copy of the engine, in the same state.
    fn clone(&self) -> (e: Self)
        ensures
            e@ == self@,
    {
        proof {
            use_type_invariant(self);
        }
        TelexEngine {
            base: vstd::slice::slice_to_vec(self.base.as_slice()),
            buf: vstd::slice::slice_to_vec(self.buf.as_slice()),
            raw: vstd::slice::slice_to_vec(self.raw.as_slice()),
            composing: self.composing,
        }
    }
}

impl TelexEngine {
    #[verifier::type_invariant]
    spec fn inv(self) -> bool {
        self@.wf()
    }

    /// A fresh engine, composing nothing.
    pub fn new() -> (e: Self)
        ensures
            e@ == EngineView::empty(),
            e@.wf(),
    {
        Self { base: Vec::new(), buf: Vec::new(), raw: Vec::new(), composing: false }
    }

    /// Drops the word being composed.
    pub fn reset(&mut self)
        ensures
            final(self)@ == EngineView::empty(),
            final(self)@.wf(),
    {
        *self = Self::new();
    }

    /// The word being composed, as displayed.
    pub fn get_display(&self) -> (s: String)
        ensures
            s@ == self@.buf,
            self@.wf(),
    {
        proof {
            use_type_invariant(self);
        }
        chars_to_string(self.buf.as_slice())
    }

    /// The raw keys typed for the word being composed (since Backspace last
    /// had to rebuild it).
    pub fn get_raw(&self) -> (s: String)
        ensures
            s@ == self@.raw,
            self@.wf(),
    {
        proof {
            use_type_invariant(self);
        }
        chars_to_string(self.raw.as_slice())
    }

    /// Whether a word is being composed.
    pub fn is_composing(&self) -> (b: bool)
        ensures
            b == self@.composing,
            b == (self@.buf.len() > 0),
            self@.wf(),
    {
        proof {
            use_type_invariant(self);
        }
        self.composing
    }

    /// Feeds one key to the engine. Backspace deletes the last displayed
    /// character (see `handle_backspace`); a word separator or any key that
    /// is not a letter commits the word followed by the key; a letter
    /// updates the word by the Telex rules.
    pub fn process_key(&mut self, key: char) -> (a: Action)
        ensures
            final(self)@ == next_state(old(self)@, key),
            reports(a, key_output(old(self)@, key)),
            final(self)@.wf(),
            old(self)@.buf.len() > 0 && is_backspace_key(key) ==> deletes_last(
                old(self)@.buf,
                final(self)@.buf,
            ),
    {
        proof {
            use_type_invariant(&*self);
            lemma_classify_key_shape(key, self.buf@);
            lemma_apply_effect_len(self.buf@, key);
        }
        let effect = classify_key(key, self.buf.as_slice());
        match effect {
            KeyEffect::Backspace => self.handle_backspace(),
            KeyEffect::Commit(ch) => {
                let mut result = self.get_display();
                push_char(&mut result, ch);
                self.reset();
                Action::Commit(result)
            },
            _ => {
                let base = vstd::slice::slice_to_vec(self.base.as_slice());
                let mut raw = vstd::slice::slice_to_vec(self.raw.as_slice());
                raw.push(key);
                let buf = apply_effect(self.buf.as_slice(), &effect);
                proof {
                    assert(raw@.drop_last() =~= self.raw@);
                    assert forall|i: int| 0 <= i < raw@.len() implies spec_is_ascii_alpha(
                        #[trigger] raw@[i],
                    ) by {
                        if i < self.raw@.len() {
                            assert(raw@[i] == self.raw@[i]);
                        }
                    }
                }
                *self = TelexEngine { base, buf, raw, composing: true };
                Action::Composing(self.get_display())
            },
        }
    }

    /// Backspace: deletes the last displayed character, even when several
    /// keys (a letter, its modifier, its tone) built it. Every raw key that
    /// touched that character is dropped and the word is replayed from the
    /// others, so that "phucs" (phúc) becomes "phus" (phú); the replay may
    /// place a tone anew: "toans" (toán) becomes "tóa". Where the replay does
    /// not delete exactly that character (replayed, a later key may act
    /// otherwise: "asss" shows "ás", and without its third key replays to
    /// "as"), raw keys are dropped from the end until the word is shorter;
    /// where that fails too, the word is rebuilt from its other characters.
    /// On an empty buffer, commits nothing so that the application deletes.
    fn handle_backspace(&mut self) -> (a: Action)
        ensures
            final(self)@ == backspace_state(old(self)@),
            final(self)@.wf(),
            old(self)@.buf.len() > 0 ==> deletes_last(old(self)@.buf, final(self)@.buf),
            if old(self)@.buf.len() == 0 {
                commits(a, seq![])
            } else {
                composes(a, final(self)@.buf)
            },
    {
        proof {
            use_type_invariant(&*self);
        }
        if self.buf.len() == 0 {
            return Action::Commit(String::new());
        }
        proof {
            lemma_backspace_deletes_last(self@);
        }
        let last_idx = self.buf.len() - 1;
        let ghost raw0 = self.raw@;
        let ghost base0 = self.base@;

        // For each raw key, the buffer places it touched while replaying.
        let mut sim_buf: Vec<char> = vstd::slice::slice_to_vec(self.base.as_slice());
        let mut touched: Vec<Vec<usize>> = Vec::new();
        let mut i: usize = 0;
        assert(raw0.take(0) =~= seq![]);
        while i < self.raw.len()
            invariant
                i <= raw0.len(),
                self.raw@ == raw0,
                self.base@ == base0,
                sim_buf@ == spec_replay_from(base0, raw0.take(i as int)),
                touched@.len() == i,
                forall|j: int, t: usize|
                    0 <= j < i ==> (#[trigger] touched@[j]@.contains(t) <==> key_touches(
                        base0,
                        raw0,
                        j,
                        t as int,
                    )),
            decreases raw0.len() - i,
        {
            let key = self.raw[i];
            let effect = classify_key(key, sim_buf.as_slice());
            let mut indices: Vec<usize> = Vec::new();
            match effect {
                KeyEffect::ToneApplied { position, .. }
                | KeyEffect::DdApplied { position, .. }
                | KeyEffect::VowelModified { position, .. } => {
                    if position < sim_buf.len() {
                        indices.push(position);
                    }
                },
                KeyEffect::WAsVowel(_) | KeyEffect::Append(_) => {
                    indices.push(sim_buf.len());
                },
                KeyEffect::ToneClearAndAppend { position, .. } => {
                    if position < sim_buf.len() {
                        indices.push(position);
                    }
                    indices.push(sim_buf.len());
                },
                KeyEffect::Commit(_) | KeyEffect::Backspace => {},
            }
            proof {
                assert(raw0.take(i + 1).drop_last() =~= raw0.take(i as int));
                assert forall|t: usize| #[trigger] indices@.contains(t) <==> key_touches(
                    base0,
                    raw0,
                    i as int,
                    t as int,
                ) by {
                    if key_touches(base0, raw0, i as int, t as int) {
                        if indices@.len() == 1 {
                            assert(indices@[0] == t);
                        } else if indices@.len() == 2 {
                            if t == sim_buf@.len() {
                                assert(indices@[1] == t);
                            } else {
                                assert(indices@[0] == t);
                            }
                        }
                    }
                }
            }
            sim_buf = apply_effect(sim_buf.as_slice(), &effect);
            let ghost before = touched@;
            touched.push(indices);
            proof {
                assert forall|j: int, t: usize|
                    0 <= j < i + 1 implies (#[trigger] touched@[j]@.contains(t) <==> key_touches(
                    base0,
                    raw0,
                    j,
                    t as int,
                )) by {
                    if j < i {
                        assert(touched@[j] == before[j]);
                    }
                }
            }
            i += 1;
        }

        // Keep the raw keys that did not touch the last character.
        let mut new_raw: Vec<char> = Vec::new();
        let mut i: usize = 0;
        while i < self.raw.len()
            invariant
                i <= raw0.len(),
                self.raw@ == raw0,
                touched@.len() == raw0.len(),
                last_idx == self.buf@.len() - 1,
                forall|j: int, t: usize|
                    0 <= j < raw0.len() ==> (#[trigger] touched@[j]@.contains(t) <==> key_touches(
                        base0,
                        raw0,
                        j,
                        t as int,
                    )),
                new_raw@ == keys_not_touching(base0, raw0, last_idx as int, i as int),
            decreases raw0.len() - i,
        {
            if !holds(&touched[i], last_idx) {
                new_raw.push(self.raw[i]);
            }
            i += 1;
        }
        let buf = replay_from(self.base.as_slice(), new_raw.as_slice());
        if is_last_deleted(self.buf.as_slice(), buf.as_slice()) {
            return self.rebuild(buf, new_raw);
        }

        // Drop raw keys from the end until the word is shorter.
        let mut raw = vstd::slice::slice_to_vec(self.raw.as_slice());
        let mut buf = vstd::slice::slice_to_vec(self.buf.as_slice());
        let mut done = false;
        while !done && raw.len() > 0
            invariant
                self.base@ == base0,
                buf@ == spec_replay_from(base0, raw@),
                pop_until(base0, raw0, last_idx as int) == if done {
                    raw@
                } else {
                    pop_until(base0, raw@, last_idx as int)
                },
            decreases raw@.len(), if done {
                0int
            } else {
                1int
            },
        {
            let ghost before = raw@;
            raw.pop();
            assert(raw@ =~= before.drop_last());
            buf = replay_from(self.base.as_slice(), raw.as_slice());
            if buf.len() <= last_idx {
                done = true;
            }
        }
        if is_last_deleted(self.buf.as_slice(), buf.as_slice()) {
            return self.rebuild(buf, raw);
        }

        // Rebuild the word from its other characters.
        let base = vstd::slice::slice_to_vec(&self.buf.as_slice()[0..last_idx]);
        assert(base@ =~= self.buf@.take(last_idx as int));
        let buf = vstd::slice::slice_to_vec(base.as_slice());
        let composing = buf.len() > 0;
        *self = TelexEngine { base, buf, raw: Vec::new(), composing };
        Action::Composing(self.get_display())
    }

    /// Sets the engine to buffer `buf`, built by typing `raw` on its base,
    /// and shows the word.
    fn rebuild(&mut self, buf: Vec<char>, raw: Vec<char>) -> (a: Action)
        requires
            buf@ == spec_replay_from(old(self)@.base, raw@),
            forall|j: int| 0 <= j < raw@.len() ==> spec_is_ascii_alpha(#[trigger] raw@[j]),
        ensures
            final(self)@ == state_of(old(self)@.base, raw@),
            composes(a, final(self)@.buf),
    {
        let base = vstd::slice::slice_to_vec(self.base.as_slice());
        let composing = buf.len() > 0;
        *self = TelexEngine { base, buf, raw, composing };
        Action::Composing(self.get_display())
    }
}

} // verus!
