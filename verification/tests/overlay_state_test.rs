use swiftfind_core::overlay_state::{HotkeyAction, OverlayState};

#[test]
fn hotkey_shows_hidden_overlay() {
    let mut state = OverlayState::default();
    let action = state.on_hotkey(false);
    assert_eq!(action, HotkeyAction::ShowAndFocus);
    assert!(state.is_visible());
}

#[test]
fn hotkey_hides_visible_overlay_when_focused() {
    let mut state = OverlayState::default();
    state.on_hotkey(false);
    let action = state.on_hotkey(true);
    assert_eq!(action, HotkeyAction::Hide);
    assert!(!state.is_visible());
}

#[test]
fn hotkey_refocuses_visible_overlay_when_not_focused() {
    let mut state = OverlayState::default();
    state.on_hotkey(false);
    let action = state.on_hotkey(false);
    assert_eq!(action, HotkeyAction::FocusExisting);
    assert!(state.is_visible());
}

#[test]
fn escape_hides_only_when_visible() {
    let mut state = OverlayState::default();
    assert!(!state.on_escape());
    state.on_hotkey(false);
    assert!(state.on_escape());
    assert!(!state.is_visible());
}

#[test]
fn escape_twice_is_same_as_once() {
    let mut state = OverlayState::default();
    state.set_visible(true);
    assert!(state.on_escape());
    assert!(!state.on_escape());
    assert!(!state.is_visible());
}
