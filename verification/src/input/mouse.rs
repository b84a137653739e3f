//! Mouse input: button flags, event kinds and mouse input values.

use vstd::prelude::*;
use super::key::{KeyModifiers, has_flag};

verus! {

/// Mouse button flags.
#[derive(Debug, Clone, Copy, PartialEq, Eq, Hash, Structural)]
pub struct MouseButtons {
    pub bits: u8,
}

impl MouseButtons {
    /// No button.
    pub fn empty() -> (m: MouseButtons)
        ensures
            m.bits == 0,
    {
        MouseButtons { bits: 0 }
    }

    /// Every button.
    pub fn all() -> (m: MouseButtons)
        ensures
            m.bits == 0x1f,
    {
        MouseButtons { bits: 0x1f }
    }

    /// The left button.
    #[allow(non_snake_case)]
    pub fn LEFT() -> (m: MouseButtons)
        ensures
            m.bits == 0x01,
    {
        MouseButtons { bits: 0x01 }
    }

    /// The right button.
    #[allow(non_snake_case)]
    pub fn RIGHT() -> (m: MouseButtons)
        ensures
            m.bits == 0x02,
    {
        MouseButtons { bits: 0x02 }
    }

    /// The middle button.
    #[allow(non_snake_case)]
    pub fn MIDDLE() -> (m: MouseButtons)
        ensures
            m.bits == 0x04,
    {
        MouseButtons { bits: 0x04 }
    }

    /// The first extra button.
    #[allow(non_snake_case)]
    pub fn EXTRA1() -> (m: MouseButtons)
        ensures
            m.bits == 0x08,
    {
        MouseButtons { bits: 0x08 }
    }

    /// The second extra button.
    #[allow(non_snake_case)]
    pub fn EXTRA2() -> (m: MouseButtons)
        ensures
            m.bits == 0x10,
    {
        MouseButtons { bits: 0x10 }
    }

    /// `true` when no button is set.
    pub fn is_empty(&self) -> (b: bool)
        ensures
            b == (self.bits == 0),
    {
        self.bits == 0
    }

    /// `true` when every button of `other` is set in `self`.
    pub fn contains(&self, other: MouseButtons) -> (b: bool)
        ensures
            b == (self.bits & other.bits == other.bits),
    {
        self.bits & other.bits == other.bits
    }
}

impl core::ops::BitOr for MouseButtons {
    type Output = MouseButtons;

    fn bitor(self, rhs: MouseButtons) -> (r: MouseButtons) {
        MouseButtons { bits: self.bits | rhs.bits }
    }
}

impl vstd::std_specs::ops::BitOrSpecImpl for MouseButtons {
    open spec fn obeys_bitor_spec() -> bool {
        true
    }

    open spec fn bitor_req(self, rhs: MouseButtons) -> bool {
        true
    }

    open spec fn bitor_spec(self, rhs: MouseButtons) -> MouseButtons {
        MouseButtons { bits: self.bits | rhs.bits }
    }
}

impl Default for MouseButtons {
    fn default() -> (m: MouseButtons)
        ensures
            m.bits == 0,
    {
        MouseButtons { bits: 0 }
    }
}

/// The kind of a mouse input.
#[derive(Debug, Clone, Copy, PartialEq, Eq, Structural)]
pub enum MouseEventType {
    Press,
    Release,
    Move,
    Scroll,
    Drag,
    Drop,
}

/// A mouse input: position, buttons, modifiers, kind and optional scroll delta.
#[derive(Debug, Clone, Copy)]
pub struct MouseInput {
    pub x: u16,
    pub y: u16,
    pub buttons: MouseButtons,
    pub modifiers: KeyModifiers,
    pub event_type: MouseEventType,
    pub scroll_delta: Option<(i16, i16)>,
}

/// The press at `(x, y)` with `buttons`, no modifier and no scroll delta.
pub open spec fn mouse_press(x: u16, y: u16, buttons: MouseButtons) -> MouseInput {
    MouseInput {
        x,
        y,
        buttons,
        modifiers: KeyModifiers { bits: 0 },
        event_type: MouseEventType::Press,
        scroll_delta: None,
    }
}

impl MouseInput {
    /// A press at `(x, y)` with `buttons`.
    pub fn new(x: u16, y: u16, buttons: MouseButtons) -> (m: MouseInput)
        ensures
            m == mouse_press(x, y, buttons),
    {
        MouseInput {
            x,
            y,
            buttons,
            modifiers: KeyModifiers::empty(),
            event_type: MouseEventType::Press,
            scroll_delta: None,
        }
    }

    /// This input with `modifiers`.
    pub fn with_modifiers(self, modifiers: KeyModifiers) -> (m: MouseInput)
        ensures
            m == (MouseInput { modifiers, ..self }),
    {
        let mut m = self;
        m.modifiers = modifiers;
        m
    }

    /// This input with kind `event_type`.
    pub fn with_event_type(self, event_type: MouseEventType) -> (m: MouseInput)
        ensures
            m == (MouseInput { event_type, ..self }),
    {
        let mut m = self;
        m.event_type = event_type;
        m
    }

    /// This input with scroll delta `(delta_x, delta_y)`.
    pub fn with_scroll_delta(self, delta_x: i16, delta_y: i16) -> (m: MouseInput)
        ensures
            m == (MouseInput { scroll_delta: Some((delta_x, delta_y)), ..self }),
    {
        let mut m = self;
        m.scroll_delta = Some((delta_x, delta_y));
        m
    }

    /// A press.
    pub fn press(x: u16, y: u16, buttons: MouseButtons) -> (m: MouseInput)
        ensures
            m == mouse_press(x, y, buttons),
    {
        Self::new(x, y, buttons).with_event_type(MouseEventType::Press)
    }

    /// A release.
    pub fn release(x: u16, y: u16, buttons: MouseButtons) -> (m: MouseInput)
        ensures
            m == (MouseInput { event_type: MouseEventType::Release, ..mouse_press(x, y, buttons) }),
    {
        Self::new(x, y, buttons).with_event_type(MouseEventType::Release)
    }

    /// A move with no button.
    pub fn move_to(x: u16, y: u16) -> (m: MouseInput)
        ensures
            m == (MouseInput {
                event_type: MouseEventType::Move,
                ..mouse_press(x, y, MouseButtons { bits: 0 })
            }),
    {
        Self::new(x, y, MouseButtons::empty()).with_event_type(MouseEventType::Move)
    }

    /// A scroll with no button.
    pub fn scroll(x: u16, y: u16, delta_x: i16, delta_y: i16) -> (m: MouseInput)
        ensures
            m == (MouseInput {
                event_type: MouseEventType::Scroll,
                scroll_delta: Some((delta_x, delta_y)),
                ..mouse_press(x, y, MouseButtons { bits: 0 })
            }),
    {
        Self::new(x, y, MouseButtons::empty()).with_event_type(MouseEventType::Scroll).with_scroll_delta(
            delta_x,
            delta_y,
        )
    }

    /// A drag.
    pub fn drag(x: u16, y: u16, buttons: MouseButtons) -> (m: MouseInput)
        ensures
            m == (MouseInput { event_type: MouseEventType::Drag, ..mouse_press(x, y, buttons) }),
    {
        Self::new(x, y, buttons).with_event_type(MouseEventType::Drag)
    }

    /// A drop.
    pub fn drop(x: u16, y: u16, buttons: MouseButtons) -> (m: MouseInput)
        ensures
            m == (MouseInput { event_type: MouseEventType::Drop, ..mouse_press(x, y, buttons) }),
    {
        Self::new(x, y, buttons).with_event_type(MouseEventType::Drop)
    }

    /// `true` when the left button is set.
    pub fn is_left_button(&self) -> (b: bool)
        ensures
            b == (self.buttons.bits & 1 == 1),
    {
        self.buttons.contains(MouseButtons::LEFT())
    }

    /// `true` when the right button is set.
    pub fn is_right_button(&self) -> (b: bool)
        ensures
            b == (self.buttons.bits & 2 == 2),
    {
        self.buttons.contains(MouseButtons::RIGHT())
    }

    /// `true` when the middle button is set.
    pub fn is_middle_button(&self) -> (b: bool)
        ensures
            b == (self.buttons.bits & 4 == 4),
    {
        self.buttons.contains(MouseButtons::MIDDLE())
    }

    /// `true` when Control is held.
    pub fn is_ctrl(&self) -> (b: bool)
        ensures
            b == has_flag(self.modifiers, 2),
    {
        self.modifiers.contains(KeyModifiers::CONTROL())
    }

    /// `true` when Shift is held.
    pub fn is_shift(&self) -> (b: bool)
        ensures
            b == has_flag(self.modifiers, 1),
    {
        self.modifiers.contains(KeyModifiers::SHIFT())
    }

    /// `true` when Alt is held.
    pub fn is_alt(&self) -> (b: bool)
        ensures
            b == has_flag(self.modifiers, 4),
    {
        self.modifiers.contains(KeyModifiers::ALT())
    }
}

impl Default for MouseInput {
    fn default() -> (m: MouseInput)
        ensures
            m == mouse_press(0, 0, MouseButtons { bits: 0 }),
    {
        Self::new(0, 0, MouseButtons::empty())
    }
}

/// A mouse input stamped with the wall-clock time it was created at.
#[derive(Debug, Clone)]
pub struct MouseInputEvent {
    pub input: MouseInput,
    pub timestamp: u64,
}

impl MouseInputEvent {
    /// Stamps `input` with the current time in milliseconds since the Unix epoch.
    pub fn new(input: MouseInput) -> (e: MouseInputEvent)
        ensures
            e.input == input,
    {
        MouseInputEvent { input, timestamp: crate::clock::now_millis() }
    }
}

} // verus!
