//! The events that reach widgets: keys, mouse actions, resizes, focus changes and ticks.

use vstd::prelude::*;

verus! {

/// A key on the keyboard.
#[derive(Debug, Clone, Copy, PartialEq, Eq, Structural)]
pub enum KeyCode {
    Backspace,
    Enter,
    Left,
    Right,
    Up,
    Down,
    Home,
    End,
    PageUp,
    PageDown,
    Tab,
    BackTab,
    Delete,
    Insert,
    F(u8),
    Char(char),
    Null,
    Esc,
}

/// No modifier key held.
pub const NO_MODIFIERS: u8 = 0;

/// The shift key.
pub const SHIFT: u8 = 1;

/// The control key.
pub const CONTROL: u8 = 2;

/// The alt key.
pub const ALT: u8 = 4;

/// A key press and the modifier keys held with it (a set of the bits above).
#[derive(Debug, Clone, Copy, PartialEq, Eq, Structural)]
pub struct KeyEvent {
    pub code: KeyCode,
    pub modifiers: u8,
}

/// A mouse button.
#[derive(Debug, Clone, Copy, PartialEq, Eq, Structural)]
pub enum MouseButton {
    Left,
    Right,
    Middle,
}

/// A mouse action at a column and a row, with the modifier keys held.
#[derive(Debug, Clone, Copy, PartialEq, Eq, Structural)]
pub enum MouseEvent {
    Down(MouseButton, u16, u16, u8),
    Up(MouseButton, u16, u16, u8),
    Drag(MouseButton, u16, u16, u8),
    ScrollDown(u16, u16, u8),
    ScrollUp(u16, u16, u8),
}

/// A change of focus.
#[derive(Debug, Clone, Copy, PartialEq, Eq, Structural)]
pub enum FocusEvent {
    GotFocus,
    LostFocus,
}

/// The events that reach widgets.
#[derive(Debug, Clone, Copy, PartialEq, Eq, Structural)]
pub enum WidgetEvent {
    Key(KeyEvent),
    Mouse(MouseEvent),
    Resize(u16, u16),
    Focus(FocusEvent),
    /// Another name for a tick: time to refresh.
    Update,
}

/// A key pressed with no modifier.
pub open spec fn plain_key(e: WidgetEvent, code: KeyCode) -> bool {
    e == WidgetEvent::Key(KeyEvent { code, modifiers: NO_MODIFIERS })
}

/// A mouse button pressed or released.
pub open spec fn is_click(e: WidgetEvent) -> bool {
    e matches WidgetEvent::Mouse(m) && (m is Down || m is Up)
}

/// The events that widgets which show something but take no input accept: focus changes and
/// mouse presses and releases.
pub open spec fn accepts_focus_and_clicks(e: WidgetEvent) -> bool {
    e == WidgetEvent::Focus(FocusEvent::GotFocus) || e == WidgetEvent::Focus(FocusEvent::LostFocus)
        || is_click(e)
}

/// Whether a widget that takes no input handles the event: focus changes and mouse presses
/// and releases, nothing else.
pub fn handles_focus_and_clicks(event: WidgetEvent) -> (b: bool)
    ensures
        b == accepts_focus_and_clicks(event),
{
    match event {
        WidgetEvent::Focus(FocusEvent::GotFocus) => true,
        WidgetEvent::Focus(FocusEvent::LostFocus) => true,
        WidgetEvent::Mouse(MouseEvent::Up(_, _, _, _)) => true,
        WidgetEvent::Mouse(MouseEvent::Down(_, _, _, _)) => true,
        _ => false,
    }
}

} // verus!
