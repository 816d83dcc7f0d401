//! The overlay window's state and the decisions of its hotkey: Alt+W
//! toggles whether the window lets the mouse through and is transparent.
use vstd::prelude::*;

verus! {

/// Alpha of the window while it lets the mouse through (hidden).
pub const HIDDEN_ALPHA: u8 = 0;

/// Alpha of the window while it takes the mouse (shown).
pub const SHOWN_ALPHA: u8 = 255;

/// What the overlay keeps between events: whether the mouse passes
/// through the window, and the window's handle once it is known.
pub struct OverlayState {
    pub mouse_passthrough: bool,
    pub window_hwnd: Option<isize>,
}

impl OverlayState {
    /// Passthrough off and no handle yet.
    pub fn new() -> (r: Self)
        ensures
            !r.mouse_passthrough,
            r.window_hwnd is None,
    {
        OverlayState { mouse_passthrough: false, window_hwnd: None }
    }
}

pub fn get_mouse_passthrough_state(state: &OverlayState) -> (r: bool)
    ensures
        r == state.mouse_passthrough,
{
    state.mouse_passthrough
}

pub fn set_mouse_passthrough_state(state: &mut OverlayState, on: bool)
    ensures
        final(state).mouse_passthrough == on,
        final(state).window_hwnd == old(state).window_hwnd,
{
    state.mouse_passthrough = on;
}

pub fn store_window_hwnd(state: &mut OverlayState, hwnd: isize)
    ensures
        final(state).window_hwnd == Some(hwnd),
        final(state).mouse_passthrough == old(state).mouse_passthrough,
{
    state.window_hwnd = Some(hwnd);
}

/// The window's alpha for a passthrough state.
pub fn window_alpha(passthrough: bool) -> (r: u8)
    ensures
        r == (if passthrough { HIDDEN_ALPHA } else { SHOWN_ALPHA }),
{
    if passthrough {
        HIDDEN_ALPHA
    } else {
        SHOWN_ALPHA
    }
}

/// A keyboard event, as far as the hotkey cares.
#[derive(Clone, Copy, Debug, PartialEq, Eq, Structural)]
pub enum KeyEvent {
    /// Alt or AltGr went down.
    AltPressed,
    /// Alt or AltGr came up.
    AltReleased,
    /// W went down.
    WPressed,
    /// Anything else.
    Other,
}

/// The hotkey listener's own state: whether Alt is held.
pub struct HotkeyListener {
    pub alt_pressed: bool,
}

impl HotkeyListener {
    pub fn new() -> (r: Self)
        ensures
            !r.alt_pressed,
    {
        HotkeyListener { alt_pressed: false }
    }

    /// Takes one key event. When it completes Alt+W, the passthrough state
    /// of `overlay` flips, and the new state is returned so that the window
    /// can be told (mouse passthrough, and `window_alpha` of it).
    pub fn on_event(&mut self, overlay: &mut OverlayState, event: KeyEvent) -> (r: Option<bool>)
        ensures
            final(self).alt_pressed == match event {
                KeyEvent::AltPressed => true,
                KeyEvent::AltReleased => false,
                _ => old(self).alt_pressed,
            },
            r == (if event == KeyEvent::WPressed && old(self).alt_pressed {
                Some(!old(overlay).mouse_passthrough)
            } else {
                None::<bool>
            }),
            final(overlay).mouse_passthrough == match r {
                Some(on) => on,
                None => old(overlay).mouse_passthrough,
            },
            final(overlay).window_hwnd == old(overlay).window_hwnd,
    {
        match event {
            KeyEvent::AltPressed => {
                self.alt_pressed = true;
                None
            },
            KeyEvent::AltReleased => {
                self.alt_pressed = false;
                None
            },
            KeyEvent::WPressed => {
                if self.alt_pressed {
                    let on = !get_mouse_passthrough_state(overlay);
                    set_mouse_passthrough_state(overlay, on);
                    Some(on)
                } else {
                    None
                }
            },
            KeyEvent::Other => None,
        }
    }
}

/// On each frame the window brings its visibility in line with the
/// passthrough state: when `visible` equals `passthrough`, it must change,
/// and the new visibility (the negation of `passthrough`) is returned.
pub fn sync_visibility(visible: bool, passthrough: bool) -> (r: Option<bool>)
    ensures
        r == (if visible == passthrough { Some(!passthrough) } else { None::<bool> }),
{
    if visible == passthrough {
        Some(!passthrough)
    } else {
        None
    }
}

} // verus!
