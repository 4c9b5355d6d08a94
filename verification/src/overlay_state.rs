//! Whether the search overlay is shown, and what the hotkey and Escape do to it.
use vstd::prelude::*;

verus! {

/// What the global hotkey asks of the overlay window.
#[derive(Debug, Clone, Copy, PartialEq, Eq, Structural)]
pub enum HotkeyAction {
    ShowAndFocus,
    Hide,
    FocusExisting,
}

/// The overlay's visibility.
#[derive(Debug, Clone, Copy, PartialEq, Eq, Structural)]
pub struct OverlayState {
    visible: bool,
}

impl Default for OverlayState {
    fn default() -> (s: Self)
        ensures
            !s.shown(),
    {
        OverlayState { visible: false }
    }
}

/// The visibility after the hotkey, from `visible`, with the overlay focused or not.
pub open spec fn hotkey_visible(visible: bool, has_focus: bool) -> bool {
    !visible || !has_focus
}

/// What the hotkey asks for, from `visible`, with the overlay focused or not.
pub open spec fn hotkey_action(visible: bool, has_focus: bool) -> HotkeyAction {
    if !visible {
        HotkeyAction::ShowAndFocus
    } else if has_focus {
        HotkeyAction::Hide
    } else {
        HotkeyAction::FocusExisting
    }
}

/// Whether Escape hides something, from `visible`.
pub open spec fn escape_hides(visible: bool) -> bool {
    visible
}

/// The visibility after Escape, from `visible`.
pub open spec fn escape_visible(visible: bool) -> bool {
    false
}

impl OverlayState {
    pub closed spec fn shown(self) -> bool {
        self.visible
    }

    pub fn set_visible(&mut self, visible: bool)
        ensures
            final(self).shown() == visible,
    {
        self.visible = visible;
    }

    pub fn is_visible(&self) -> (b: bool)
        ensures
            b == self.shown(),
    {
        self.visible
    }

    /// The global hotkey: a hidden overlay is shown and focused, a focused one
    /// is hidden, an unfocused one is focused again.
    pub fn on_hotkey(&mut self, has_focus: bool) -> (a: HotkeyAction)
        ensures
            a == hotkey_action(old(self).shown(), has_focus),
            final(self).shown() == hotkey_visible(old(self).shown(), has_focus),
    {
        if !self.visible {
            self.visible = true;
            return HotkeyAction::ShowAndFocus;
        }
        if has_focus {
            self.visible = false;
            return HotkeyAction::Hide;
        }
        HotkeyAction::FocusExisting
    }

    /// Escape hides a visible overlay and says whether it did.
    pub fn on_escape(&mut self) -> (hid: bool)
        ensures
            hid == escape_hides(old(self).shown()),
            final(self).shown() == escape_visible(old(self).shown()),
    {
        if self.visible {
            self.visible = false;
            return true;
        }
        false
    }
}

/// The hotkey always leaves the overlay visible unless it was visible and focused.
pub proof fn law_hotkey_hides_only_focused(visible: bool, has_focus: bool)
    ensures
        !hotkey_visible(visible, has_focus) <==> (visible && has_focus),
        hotkey_action(visible, has_focus) == HotkeyAction::Hide <==> (visible && has_focus),
{
}

/// From hidden, the hotkey shows the overlay, and a second press while it has
/// the focus hides it again: the hotkey toggles.
pub proof fn law_hotkey_toggles(first_focus: bool)
    ensures
        hotkey_visible(false, first_focus),
        !hotkey_visible(hotkey_visible(false, first_focus), true),
        hotkey_action(hotkey_visible(false, first_focus), true) == HotkeyAction::Hide,
{
}

/// A second Escape does nothing: after one, the overlay is hidden, and Escape
/// on it again hides nothing and leaves it hidden.
pub proof fn law_escape_idempotent(visible: bool)
    ensures
        !escape_hides(escape_visible(visible)),
        escape_visible(escape_visible(visible)) == escape_visible(visible),
{
}

/// Escape hides exactly a visible overlay, and the hotkey then shows it again.
pub proof fn law_escape_then_hotkey_shows(visible: bool, has_focus: bool)
    ensures
        escape_hides(visible) == visible,
        hotkey_visible(escape_visible(visible), has_focus),
        hotkey_action(escape_visible(visible), has_focus) == HotkeyAction::ShowAndFocus,
{
}

} // verus!
