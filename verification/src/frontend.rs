//! The decisions of the desktop front ends (IBus, and fcitx5 through its C
//! shim): which key events the engine takes, and what the front end must
//! then show or commit. The front ends perform the returned actions.
use vstd::prelude::*;

use crate::engine::{key_output, lemma_empty_commit, next_state, Action, EngineView, TelexEngine};

verus! {

/// X key symbol of BackSpace.
pub const XK_BACKSPACE: u32 = 0xff08;

/// X key symbol of Return.
pub const XK_RETURN: u32 = 0xff0d;

/// X key symbol of Escape.
pub const XK_ESCAPE: u32 = 0xff1b;

/// X key symbol of the keypad's Enter.
pub const XK_KP_ENTER: u32 = 0xff8d;

/// IBus modifier state bit of a key release.
pub const IBUS_RELEASE_MASK: u32 = 0x4000_0000;

/// IBus modifier state bit of Control.
pub const IBUS_CONTROL_MASK: u32 = 0x4;

/// IBus modifier state bit of Alt (Mod1).
pub const IBUS_MOD1_MASK: u32 = 0x8;

/// IBus modifier state bit of Super.
pub const IBUS_SUPER_MASK: u32 = 0x400_0000;

/// Something a front end must do to the application's text field.
#[derive(Debug, Clone, PartialEq, Eq)]
pub enum UiAction {
    /// Show this pre-edit text, the cursor after its last character.
    UpdatePreedit(String),
    /// Hide (clear) the pre-edit text.
    HidePreedit,
    /// Insert this text into the application.
    Commit(String),
}

/// The abstract form of a `UiAction`.
pub enum UiEvent {
    UpdatePreedit(Seq<char>),
    HidePreedit,
    Commit(Seq<char>),
}

impl View for UiAction {
    type V = UiEvent;

    open spec fn view(&self) -> UiEvent {
        match self {
            UiAction::UpdatePreedit(s) => UiEvent::UpdatePreedit(s@),
            UiAction::HidePreedit => UiEvent::HidePreedit,
            UiAction::Commit(s) => UiEvent::Commit(s@),
        }
    }
}

/// The abstract form of a list of actions.
pub open spec fn events(acts: Seq<UiAction>) -> Seq<UiEvent> {
    acts.map_values(|a: UiAction| a@)
}

/// What a front end does with a key event.
#[derive(Debug, Clone, PartialEq, Eq)]
pub struct KeyOutcome {
    /// Whether the key was consumed; an unconsumed key goes on to the application.
    pub consumed: bool,
    /// What to show or commit, in order.
    pub actions: Vec<UiAction>,
}

/// The character that an X key symbol types: BackSpace types '\x08', the
/// printable ASCII key symbols type themselves, and other keys type nothing.
pub open spec fn spec_keyval_char(keyval: u32) -> Option<char> {
    if keyval == XK_BACKSPACE {
        Some('\x08')
    } else if 0x20 <= keyval <= 0x7e {
        Some(keyval as char)
    } else {
        None
    }
}

/// The state after the composition is flushed: emptied when composing.
pub open spec fn flush_state(s: EngineView) -> EngineView {
    if s.composing {
        EngineView::empty()
    } else {
        s
    }
}

/// What flushing shows: nothing when not composing; otherwise the pre-edit
/// is hidden and the word, if any, committed.
pub open spec fn flush_events(s: EngineView) -> Seq<UiEvent> {
    if !s.composing {
        seq![]
    } else if s.buf.len() > 0 {
        seq![UiEvent::HidePreedit, UiEvent::Commit(s.buf)]
    } else {
        seq![UiEvent::HidePreedit]
    }
}

/// An IBus key event in state `state` carries Control, Alt or Super.
pub open spec fn ibus_has_modifier(state: u32) -> bool {
    state & (IBUS_CONTROL_MASK | IBUS_MOD1_MASK | IBUS_SUPER_MASK) != 0
}

/// How IBus shows a word being composed: an empty word hides the pre-edit.
pub open spec fn ibus_preedit_events(text: Seq<char>) -> Seq<UiEvent> {
    if text.len() == 0 {
        seq![UiEvent::HidePreedit]
    } else {
        seq![UiEvent::UpdatePreedit(text)]
    }
}

/// The IBus engine's answer to a key event: the next state, whether the key
/// is consumed, and what to show. Releases are ignored; a key with Control,
/// Alt or Super, Return, Enter and keys that type nothing flush the word and
/// go on to the application; Escape drops the word; other keys go to the
/// engine, except that Backspace on an empty word goes on to the application.
pub open spec fn ibus_outcome(s: EngineView, keyval: u32, state: u32) -> (
    EngineView,
    bool,
    Seq<UiEvent>,
) {
    if state & IBUS_RELEASE_MASK != 0 {
        (s, false, seq![])
    } else if ibus_has_modifier(state) || keyval == XK_RETURN || keyval == XK_KP_ENTER {
        (flush_state(s), false, flush_events(s))
    } else if keyval == XK_ESCAPE {
        (EngineView::empty(), false, seq![UiEvent::HidePreedit])
    } else {
        match spec_keyval_char(keyval) {
            None => (flush_state(s), false, flush_events(s)),
            Some(ch) => {
                let out = key_output(s, ch);
                if !out.0 {
                    (next_state(s, ch), true, ibus_preedit_events(out.1))
                } else if out.1.len() == 0 {
                    (next_state(s, ch), false, seq![UiEvent::HidePreedit])
                } else {
                    (next_state(s, ch), true, seq![UiEvent::HidePreedit, UiEvent::Commit(out.1)])
                }
            },
        }
    }
}

/// The fcitx5 engine's answer to a key event: the next state, whether the
/// key is consumed, and what to show. Releases are ignored; keys that type
/// nothing flush the word and go on to the application; other keys go to
/// the engine, except that Backspace on an empty word goes on to the application.
pub open spec fn fcitx_outcome(s: EngineView, keyval: u32, is_release: bool) -> (
    EngineView,
    bool,
    Seq<UiEvent>,
) {
    if is_release {
        (s, false, seq![])
    } else {
        match spec_keyval_char(keyval) {
            None => (flush_state(s), false, flush_events(s)),
            Some(ch) => {
                let out = key_output(s, ch);
                if !out.0 {
                    (next_state(s, ch), true, seq![UiEvent::UpdatePreedit(out.1)])
                } else if out.1.len() == 0 {
                    (next_state(s, ch), false, seq![UiEvent::HidePreedit])
                } else {
                    (next_state(s, ch), true, seq![UiEvent::HidePreedit, UiEvent::Commit(out.1)])
                }
            },
        }
    }
}

/// Both front ends consume a pressed Backspace exactly while a word is being
/// composed; otherwise it goes on to the application, which deletes.
pub proof fn lemma_backspace_consumed_iff_composing(s: EngineView, state: u32)
    requires
        s.wf(),
        state & IBUS_RELEASE_MASK == 0,
        !ibus_has_modifier(state),
    ensures
        ibus_outcome(s, XK_BACKSPACE, state).1 == s.composing,
        fcitx_outcome(s, XK_BACKSPACE, false).1 == s.composing,
{
    lemma_empty_commit(s, '\x08');
}

/// A key pressed with Control (0x4), Alt (0x8) or Super (0x400_0000) held is
/// a shortcut of the application: the IBus engine does not consume it, and
/// flushes the word first (hides the pre-edit and commits the word, then
/// starts afresh); with no word being composed nothing happens.
pub proof fn lemma_ibus_shortcut_flushes(s: EngineView, keyval: u32, state: u32)
    requires
        state & 0x4000_0000u32 == 0,
        state & 0x4u32 != 0 || state & 0x8u32 != 0 || state & 0x400_0000u32 != 0,
    ensures
        ibus_outcome(s, keyval, state).1 == false,
        ibus_outcome(s, keyval, state).0 == (if s.composing {
            EngineView::empty()
        } else {
            s
        }),
        ibus_outcome(s, keyval, state).2 == (if !s.composing {
            seq![]
        } else if s.buf.len() > 0 {
            seq![UiEvent::HidePreedit, UiEvent::Commit(s.buf)]
        } else {
            seq![UiEvent::HidePreedit]
        }),
{
    assert(state & (0x4u32 | 0x8u32 | 0x400_0000u32) != 0) by (bit_vector)
        requires
            state & 0x4u32 != 0 || state & 0x8u32 != 0 || state & 0x400_0000u32 != 0,
    ;
}

/// The character that an X key symbol types, if any.
pub fn keyval_to_char(keyval: u32) -> (c: Option<char>)
    ensures
        c == spec_keyval_char(keyval),
{
    if keyval == XK_BACKSPACE {
        Some('\x08')
    } else if 0x20 <= keyval && keyval <= 0x7e {
        Some((keyval as u8) as char)
    } else {
        None
    }
}

/// Flushes the word being composed (on focus out, Enter, a shortcut...):
/// the pre-edit is hidden and the word committed.
pub fn flush(engine: &mut TelexEngine) -> (acts: Vec<UiAction>)
    ensures
        final(engine)@ == flush_state(old(engine)@),
        events(acts@) == flush_events(old(engine)@),
{
    let mut acts: Vec<UiAction> = Vec::new();
    if !engine.is_composing() {
        assert(events(acts@) =~= flush_events(old(engine)@));
        return acts;
    }
    let text = engine.get_display();
    let nonempty = !text.as_str().is_empty();
    engine.reset();
    acts.push(UiAction::HidePreedit);
    if nonempty {
        acts.push(UiAction::Commit(text));
    }
    assert(events(acts@) =~= flush_events(old(engine)@));
    acts
}

/// What the engine's answer to a key shows in IBus, and whether the key is
/// consumed.
fn ibus_show(a: Action) -> (out: KeyOutcome)
    ensures
        a matches Action::Composing(t) ==> out.consumed && events(out.actions@)
            == ibus_preedit_events(t@),
        a matches Action::Commit(t) ==> if t@.len() == 0 {
            !out.consumed && events(out.actions@) == seq![UiEvent::HidePreedit]
        } else {
            out.consumed && events(out.actions@) == seq![UiEvent::HidePreedit, UiEvent::Commit(t@)]
        },
{
    let mut actions: Vec<UiAction> = Vec::new();
    match a {
        Action::Composing(text) => {
            if text.as_str().is_empty() {
                actions.push(UiAction::HidePreedit);
            } else {
                actions.push(UiAction::UpdatePreedit(text));
            }
            assert(events(actions@) =~= ibus_preedit_events(a->Composing_0@));
            KeyOutcome { consumed: true, actions }
        },
        Action::Commit(text) => {
            // An empty commit (Backspace on an empty word) lets the
            // application handle the key.
            if text.as_str().is_empty() {
                actions.push(UiAction::HidePreedit);
                assert(events(actions@) =~= seq![UiEvent::HidePreedit]);
                KeyOutcome { consumed: false, actions }
            } else {
                actions.push(UiAction::HidePreedit);
                actions.push(UiAction::Commit(text));
                assert(events(actions@) =~= seq![
                    UiEvent::HidePreedit,
                    UiEvent::Commit(a->Commit_0@),
                ]);
                KeyOutcome { consumed: true, actions }
            }
        },
    }
}

/// The IBus engine's handling of a key event (`ProcessKeyEvent`): updates
/// the engine and says what to show and whether the key is consumed.
pub fn ibus_key_event(engine: &mut TelexEngine, keyval: u32, state: u32) -> (out: KeyOutcome)
    ensures
        (final(engine)@, out.consumed, events(out.actions@)) == ibus_outcome(
            old(engine)@,
            keyval,
            state,
        ),
{
    if state & IBUS_RELEASE_MASK != 0 {
        let actions: Vec<UiAction> = Vec::new();
        assert(events(actions@) =~= seq![]);
        return KeyOutcome { consumed: false, actions };
    }
    if state & (IBUS_CONTROL_MASK | IBUS_MOD1_MASK | IBUS_SUPER_MASK) != 0 || keyval == XK_RETURN
        || keyval == XK_KP_ENTER {
        let actions = flush(engine);
        return KeyOutcome { consumed: false, actions };
    }
    if keyval == XK_ESCAPE {
        engine.reset();
        let mut actions: Vec<UiAction> = Vec::new();
        actions.push(UiAction::HidePreedit);
        assert(events(actions@) =~= seq![UiEvent::HidePreedit]);
        return KeyOutcome { consumed: false, actions };
    }
    let ch = match keyval_to_char(keyval) {
        Some(c) => c,
        None => {
            let actions = flush(engine);
            return KeyOutcome { consumed: false, actions };
        },
    };
    let a = engine.process_key(ch);
    ibus_show(a)
}

/// The fcitx5 engine's handling of a key event: updates the engine and says
/// what to show and whether the key is consumed.
pub fn fcitx_key_event(engine: &mut TelexEngine, keyval: u32, is_release: bool) -> (out:
    KeyOutcome)
    ensures
        (final(engine)@, out.consumed, events(out.actions@)) == fcitx_outcome(
            old(engine)@,
            keyval,
            is_release,
        ),
{
    if is_release {
        let actions: Vec<UiAction> = Vec::new();
        assert(events(actions@) =~= seq![]);
        return KeyOutcome { consumed: false, actions };
    }
    let ch = match keyval_to_char(keyval) {
        Some(c) => c,
        None => {
            // Unknown key: flush the word and pass the event through.
            let actions = flush(engine);
            return KeyOutcome { consumed: false, actions };
        },
    };
    let mut actions: Vec<UiAction> = Vec::new();
    match engine.process_key(ch) {
        Action::Composing(text) => {
            actions.push(UiAction::UpdatePreedit(text));
            assert(events(actions@) =~= seq![UiEvent::UpdatePreedit(actions@[0]->UpdatePreedit_0@)]);
            KeyOutcome { consumed: true, actions }
        },
        Action::Commit(text) => {
            actions.push(UiAction::HidePreedit);
            // An empty commit means the buffer was already empty: let the
            // application handle the deletion.
            if text.as_str().is_empty() {
                assert(events(actions@) =~= seq![UiEvent::HidePreedit]);
                KeyOutcome { consumed: false, actions }
            } else {
                actions.push(UiAction::Commit(text));
                assert(events(actions@) =~= seq![
                    UiEvent::HidePreedit,
                    UiEvent::Commit(actions@[1]->Commit_0@),
                ]);
                KeyOutcome { consumed: true, actions }
            }
        },
    }
}

/// Drops the word being composed without committing it (fcitx5's Escape
/// and Reset): when composing, the engine is emptied and the pre-edit hidden.
pub fn escape(engine: &mut TelexEngine) -> (acts: Vec<UiAction>)
    ensures
        final(engine)@ == flush_state(old(engine)@),
        events(acts@) == if old(engine)@.composing {
            seq![UiEvent::HidePreedit]
        } else {
            seq![]
        },
{
    let mut acts: Vec<UiAction> = Vec::new();
    if engine.is_composing() {
        engine.reset();
        acts.push(UiAction::HidePreedit);
    }
    assert(events(acts@) =~= if old(engine)@.composing {
        seq![UiEvent::HidePreedit]
    } else {
        seq![]
    });
    acts
}

} // verus!
