use gochu_core::engine::TelexEngine;
use gochu_core::frontend::{
    escape, fcitx_key_event, flush, ibus_key_event, keyval_to_char, UiAction, IBUS_CONTROL_MASK,
    IBUS_RELEASE_MASK, XK_BACKSPACE, XK_ESCAPE, XK_KP_ENTER, XK_RETURN,
};

fn commit(s: &str) -> UiAction {
    UiAction::Commit(s.to_string())
}

fn preedit(s: &str) -> UiAction {
    UiAction::UpdatePreedit(s.to_string())
}

#[test]
fn keyval_mapping() {
    assert_eq!(keyval_to_char(XK_BACKSPACE), Some('\x08'));
    assert_eq!(keyval_to_char(0x61), Some('a'));
    assert_eq!(keyval_to_char(0x20), Some(' '));
    assert_eq!(keyval_to_char(0x7e), Some('~'));
    assert_eq!(keyval_to_char(0x7f), None);
    assert_eq!(keyval_to_char(0x1f), None);
    assert_eq!(keyval_to_char(XK_RETURN), None);
}

#[test]
fn ibus_release_is_ignored() {
    let mut e = TelexEngine::new();
    e.process_key('a');
    let out = ibus_key_event(&mut e, 0x73, IBUS_RELEASE_MASK);
    assert!(!out.consumed);
    assert!(out.actions.is_empty());
    assert_eq!(e.get_display(), "a");
}

#[test]
fn ibus_typing_updates_preedit() {
    let mut e = TelexEngine::new();
    let out = ibus_key_event(&mut e, 0x61, 0);
    assert!(out.consumed);
    assert_eq!(out.actions, vec![preedit("a")]);
    let out = ibus_key_event(&mut e, 0x73, 0);
    assert!(out.consumed);
    assert_eq!(out.actions, vec![preedit("á")]);
}

#[test]
fn ibus_space_commits_word() {
    let mut e = TelexEngine::new();
    ibus_key_event(&mut e, 0x61, 0);
    ibus_key_event(&mut e, 0x73, 0);
    let out = ibus_key_event(&mut e, 0x20, 0);
    assert!(out.consumed);
    assert_eq!(out.actions, vec![UiAction::HidePreedit, commit("á ")]);
    assert!(!e.is_composing());
}

#[test]
fn ibus_backspace_on_empty_goes_to_application() {
    let mut e = TelexEngine::new();
    let out = ibus_key_event(&mut e, XK_BACKSPACE, 0);
    assert!(!out.consumed);
    assert_eq!(out.actions, vec![UiAction::HidePreedit]);
}

#[test]
fn ibus_backspace_to_empty_hides_preedit() {
    let mut e = TelexEngine::new();
    ibus_key_event(&mut e, 0x61, 0);
    let out = ibus_key_event(&mut e, XK_BACKSPACE, 0);
    assert!(out.consumed);
    assert_eq!(out.actions, vec![UiAction::HidePreedit]);
    assert!(!e.is_composing());
}

#[test]
fn ibus_shortcut_flushes() {
    let mut e = TelexEngine::new();
    ibus_key_event(&mut e, 0x61, 0);
    ibus_key_event(&mut e, 0x61, 0);
    let out = ibus_key_event(&mut e, 0x63, IBUS_CONTROL_MASK);
    assert!(!out.consumed);
    assert_eq!(out.actions, vec![UiAction::HidePreedit, commit("â")]);
    assert!(!e.is_composing());
}

#[test]
fn ibus_return_flushes() {
    let mut e = TelexEngine::new();
    ibus_key_event(&mut e, 0x6f, 0);
    let out = ibus_key_event(&mut e, XK_RETURN, 0);
    assert!(!out.consumed);
    assert_eq!(out.actions, vec![UiAction::HidePreedit, commit("o")]);
    let out = ibus_key_event(&mut e, XK_KP_ENTER, 0);
    assert!(!out.consumed);
    assert!(out.actions.is_empty());
}

#[test]
fn ibus_escape_drops_word() {
    let mut e = TelexEngine::new();
    ibus_key_event(&mut e, 0x6f, 0);
    let out = ibus_key_event(&mut e, XK_ESCAPE, 0);
    assert!(!out.consumed);
    assert_eq!(out.actions, vec![UiAction::HidePreedit]);
    assert_eq!(e.get_display(), "");
}

#[test]
fn ibus_unknown_key_flushes() {
    let mut e = TelexEngine::new();
    ibus_key_event(&mut e, 0x6f, 0);
    let out = ibus_key_event(&mut e, 0xff51, 0);
    assert!(!out.consumed);
    assert_eq!(out.actions, vec![UiAction::HidePreedit, commit("o")]);
}

#[test]
fn fcitx_release_is_ignored() {
    let mut e = TelexEngine::new();
    let out = fcitx_key_event(&mut e, 0x61, true);
    assert!(!out.consumed);
    assert!(out.actions.is_empty());
    assert!(!e.is_composing());
}

#[test]
fn fcitx_typing_and_backspace() {
    let mut e = TelexEngine::new();
    let out = fcitx_key_event(&mut e, 0x61, false);
    assert!(out.consumed);
    assert_eq!(out.actions, vec![preedit("a")]);
    let out = fcitx_key_event(&mut e, XK_BACKSPACE, false);
    assert!(out.consumed);
    assert_eq!(out.actions, vec![preedit("")]);
    let out = fcitx_key_event(&mut e, XK_BACKSPACE, false);
    assert!(!out.consumed);
    assert_eq!(out.actions, vec![UiAction::HidePreedit]);
}

#[test]
fn fcitx_space_commits_word() {
    let mut e = TelexEngine::new();
    for k in "xin".chars() {
        fcitx_key_event(&mut e, k as u32, false);
    }
    let out = fcitx_key_event(&mut e, 0x20, false);
    assert!(out.consumed);
    assert_eq!(out.actions, vec![UiAction::HidePreedit, commit("xin ")]);
}

#[test]
fn fcitx_unknown_key_flushes() {
    let mut e = TelexEngine::new();
    fcitx_key_event(&mut e, 0x64, false);
    fcitx_key_event(&mut e, 0x64, false);
    let out = fcitx_key_event(&mut e, 0xff0d, false);
    assert!(!out.consumed);
    assert_eq!(out.actions, vec![UiAction::HidePreedit, commit("đ")]);
    assert!(!e.is_composing());
}

#[test]
fn flush_when_idle_does_nothing() {
    let mut e = TelexEngine::new();
    assert!(flush(&mut e).is_empty());
}

#[test]
fn escape_only_when_composing() {
    let mut e = TelexEngine::new();
    assert!(escape(&mut e).is_empty());
    e.process_key('a');
    assert_eq!(escape(&mut e), vec![UiAction::HidePreedit]);
    assert_eq!(e.get_display(), "");
}
