use jdd_crypto::shortcuts::{ensure_no_conflict, pressed_is, validate_shortcut, ShortcutOwner};
use jdd_crypto::spotlight::{
    hide_step, pref_step, show_step, shortcut_step, toggle_step, SpotlightAction,
};
use jdd_crypto::windows::{bubble_event, BubbleEvent, CryptoHint};

fn hint(text: &str) -> CryptoHint {
    CryptoHint { text: text.to_string(), mode: "encrypt".to_string() }
}

#[test]
fn cmd_or_ctrl_shortcuts_validate_like_any_other() {
    assert_eq!(validate_shortcut("CmdOrCtrl+Shift+K").unwrap(), "CmdOrCtrl+Shift+K");
    assert_eq!(validate_shortcut(" CommandOrControl + Alt + J ").unwrap(), "CommandOrControl+Alt+J");
    assert!(validate_shortcut("CmdOrCtrl+Shift+NoSuchKey").is_err());
}

#[test]
fn conflicts_are_found_when_a_slot_spells_cmd_or_ctrl() {
    let follow = "CmdOrCtrl+Shift+F";
    assert!(ensure_no_conflict("Ctrl+T", ShortcutOwner::Compare, follow, "Ctrl+Shift+C", "Ctrl+Shift+H", "Ctrl+Shift+B").is_err());
    assert!(ensure_no_conflict("Ctrl+Shift+C", ShortcutOwner::HostsQuick, follow, "Ctrl+Shift+C", "Ctrl+Shift+H", "Ctrl+Shift+B").is_err());
    assert!(ensure_no_conflict("Ctrl+Nope", ShortcutOwner::Compare, follow, "Ctrl+Shift+C", "Ctrl+Shift+H", "Ctrl+Shift+B").is_err());
    assert!(ensure_no_conflict("Ctrl+Shift+Q", ShortcutOwner::Compare, follow, "Ctrl+Shift+C", "Ctrl+Shift+H", "Ctrl+Shift+B").is_ok());
    assert!(ensure_no_conflict("Ctrl+Shift+Q", ShortcutOwner::Compare, "CmdOrCtrl+Nope", "Ctrl+Shift+C", "Ctrl+Shift+H", "Ctrl+Shift+B").is_err());
}

#[test]
fn an_unparsable_configured_shortcut_never_matches() {
    assert!(!pressed_is(true, 0, "Ctrl+Nope"));
    assert!(!pressed_is(true, 0, "CmdOrCtrl+Nope"));
    assert!(!pressed_is(false, 0, "Ctrl+T"));
}

#[test]
fn spotlight_shortcut_toggles_unless_blocked() {
    assert!(shortcut_step(false, true, false, true) == (true, SpotlightAction::Show));
    assert!(shortcut_step(true, true, false, true) == (false, SpotlightAction::Hide));
    assert!(shortcut_step(false, false, false, true) == (false, SpotlightAction::Nothing));
    assert!(shortcut_step(false, true, true, true) == (false, SpotlightAction::Nothing));
    assert!(shortcut_step(true, true, false, false) == (true, SpotlightAction::Nothing));
    assert!(show_step(true, false) == (true, SpotlightAction::Nothing));
    assert!(show_step(false, true) == (false, SpotlightAction::Nothing));
    assert!(hide_step(false) == (false, SpotlightAction::Disarm));
    assert!(toggle_step(false, false) == (true, SpotlightAction::Show));
    assert!(pref_step(true, false) == (false, SpotlightAction::Hide));
    assert!(pref_step(true, true) == (true, SpotlightAction::Nothing));
}

#[test]
fn reading_the_pending_bubble_keeps_it() {
    let mut pending: Option<CryptoHint> = None;
    assert!(bubble_event(&mut pending, BubbleEvent::ShowStarted(hint("abc"))).is_none());
    bubble_event(&mut pending, BubbleEvent::HideWindow);
    let first = bubble_event(&mut pending, BubbleEvent::Read).unwrap();
    let second = bubble_event(&mut pending, BubbleEvent::Read).unwrap();
    assert_eq!(first.text, "abc");
    assert_eq!(second.text, "abc");
    bubble_event(&mut pending, BubbleEvent::Hide);
    assert!(bubble_event(&mut pending, BubbleEvent::Read).is_none());
    bubble_event(&mut pending, BubbleEvent::ShowStarted(hint("xyz")));
    bubble_event(&mut pending, BubbleEvent::WindowFailed);
    assert!(bubble_event(&mut pending, BubbleEvent::Read).is_none());
}
