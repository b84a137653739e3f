//! Input events: keyboard, mouse, clipboard, resize, focus, blur and paste
//! inputs stamped with the time they were created at.

use vstd::prelude::*;
use super::clipboard::ClipboardInput;
use super::key::KeyboardInput;
use super::mouse::MouseInput;

verus! {

/// The payload of an input event.
#[derive(Debug, Clone)]
pub enum InputEventType {
    Keyboard(KeyboardInput),
    Mouse(MouseInput),
    Clipboard(ClipboardInput),
    Resize(u16, u16),
    Focus,
    Blur,
    Paste(String),
}

/// An input event and the wall-clock time it was created at.
#[derive(Debug, Clone)]
pub struct InputEvent {
    pub event_type: InputEventType,
    pub timestamp: u64,
}

impl InputEvent {
    /// Stamps `event_type` with the current time in milliseconds since the Unix epoch.
    pub fn new(event_type: InputEventType) -> (e: InputEvent)
        ensures
            e.event_type == event_type,
    {
        InputEvent { event_type, timestamp: crate::clock::now_millis() }
    }

    /// A keyboard event.
    pub fn keyboard(input: KeyboardInput) -> (e: InputEvent)
        ensures
            e.event_type == InputEventType::Keyboard(input),
    {
        Self::new(InputEventType::Keyboard(input))
    }

    /// A mouse event.
    pub fn mouse(input: MouseInput) -> (e: InputEvent)
        ensures
            e.event_type == InputEventType::Mouse(input),
    {
        Self::new(InputEventType::Mouse(input))
    }

    /// A clipboard event.
    pub fn clipboard(input: ClipboardInput) -> (e: InputEvent)
        ensures
            e.event_type == InputEventType::Clipboard(input),
    {
        Self::new(InputEventType::Clipboard(input))
    }

    /// A resize event.
    pub fn resize(width: u16, height: u16) -> (e: InputEvent)
        ensures
            e.event_type == InputEventType::Resize(width, height),
    {
        Self::new(InputEventType::Resize(width, height))
    }

    /// A focus-gained event.
    pub fn focus() -> (e: InputEvent)
        ensures
            e.event_type == InputEventType::Focus,
    {
        Self::new(InputEventType::Focus)
    }

    /// A focus-lost event.
    pub fn blur() -> (e: InputEvent)
        ensures
            e.event_type == InputEventType::Blur,
    {
        Self::new(InputEventType::Blur)
    }

    /// A paste event.
    pub fn paste(data: String) -> (e: InputEvent)
        ensures
            e.event_type == InputEventType::Paste(data),
    {
        Self::new(InputEventType::Paste(data))
    }

    /// `true` for a keyboard event.
    pub fn is_keyboard(&self) -> (b: bool)
        ensures
            b == (self.event_type is Keyboard),
    {
        matches!(self.event_type, InputEventType::Keyboard(_))
    }

    /// `true` for a mouse event.
    pub fn is_mouse(&self) -> (b: bool)
        ensures
            b == (self.event_type is Mouse),
    {
        matches!(self.event_type, InputEventType::Mouse(_))
    }

    /// `true` for a clipboard event.
    pub fn is_clipboard(&self) -> (b: bool)
        ensures
            b == (self.event_type is Clipboard),
    {
        matches!(self.event_type, InputEventType::Clipboard(_))
    }

    /// `true` for a resize event.
    pub fn is_resize(&self) -> (b: bool)
        ensures
            b == (self.event_type is Resize),
    {
        matches!(self.event_type, InputEventType::Resize(_, _))
    }

    /// `true` for a focus-gained event.
    pub fn is_focus(&self) -> (b: bool)
        ensures
            b == (self.event_type is Focus),
    {
        matches!(self.event_type, InputEventType::Focus)
    }

    /// `true` for a focus-lost event.
    pub fn is_blur(&self) -> (b: bool)
        ensures
            b == (self.event_type is Blur),
    {
        matches!(self.event_type, InputEventType::Blur)
    }

    /// `true` for a paste event.
    pub fn is_paste(&self) -> (b: bool)
        ensures
            b == (self.event_type is Paste),
    {
        matches!(self.event_type, InputEventType::Paste(_))
    }
}

impl Default for InputEvent {
    fn default() -> (e: InputEvent)
        ensures
            e.event_type == InputEventType::Focus,
    {
        Self::new(InputEventType::Focus)
    }
}

} // verus!
