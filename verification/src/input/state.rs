//! Runtime input state: the clipboard registers, the mouse and keyboard
//! state, and the queue of input events waiting to be handled.

use vstd::prelude::*;
use std::collections::VecDeque;
use super::clipboard::{ClipboardAction, ClipboardInput};
use super::event::{InputEvent, InputEventType};
use super::key::{KeyAction, KeyModifiers, KeyboardInput};
use super::mouse::{MouseButtons, MouseInput};

verus! {

/// The view of an optional string.
pub open spec fn opt_view(o: Option<String>) -> Option<Seq<char>> {
    match o {
        Some(s) => Some(s@),
        None => None,
    }
}

/// The view of an optional string slice.
pub open spec fn opt_str_view(o: Option<&str>) -> Option<Seq<char>> {
    match o {
        Some(s) => Some(s@),
        None => None,
    }
}

fn as_opt_str(o: &Option<String>) -> (r: Option<&str>)
    ensures
        opt_str_view(r) == opt_view(*o),
{
    match o {
        Some(s) => Some(s.as_str()),
        None => None,
    }
}

/// The clipboard registers: the content, the selection and the primary
/// selection.
#[derive(Debug, Clone)]
pub struct ClipboardState {
    pub content: Option<String>,
    pub selection: Option<String>,
    pub primary: Option<String>,
}

impl Default for ClipboardState {
    fn default() -> (c: ClipboardState)
        ensures
            c.content is None && c.selection is None && c.primary is None,
    {
        ClipboardState::new()
    }
}

impl ClipboardState {
    /// Every register empty.
    pub fn new() -> (c: ClipboardState)
        ensures
            c.content is None && c.selection is None && c.primary is None,
    {
        ClipboardState { content: None, selection: None, primary: None }
    }

    pub fn set_content(&mut self, content: String)
        ensures
            opt_view(final(self).content) == Some(content@),
            opt_view(final(self).selection) == opt_view(old(self).selection),
            opt_view(final(self).primary) == opt_view(old(self).primary),
    {
        self.content = Some(content);
    }

    pub fn get_content(&self) -> (r: Option<&str>)
        ensures
            opt_str_view(r) == opt_view(self.content),
    {
        as_opt_str(&self.content)
    }

    pub fn set_selection(&mut self, selection: String)
        ensures
            opt_view(final(self).selection) == Some(selection@),
            opt_view(final(self).content) == opt_view(old(self).content),
            opt_view(final(self).primary) == opt_view(old(self).primary),
    {
        self.selection = Some(selection);
    }

    pub fn get_selection(&self) -> (r: Option<&str>)
        ensures
            opt_str_view(r) == opt_view(self.selection),
    {
        as_opt_str(&self.selection)
    }

    pub fn set_primary(&mut self, primary: String)
        ensures
            opt_view(final(self).primary) == Some(primary@),
            opt_view(final(self).content) == opt_view(old(self).content),
            opt_view(final(self).selection) == opt_view(old(self).selection),
    {
        self.primary = Some(primary);
    }

    pub fn get_primary(&self) -> (r: Option<&str>)
        ensures
            opt_str_view(r) == opt_view(self.primary),
    {
        as_opt_str(&self.primary)
    }

    /// Empties every register.
    pub fn clear(&mut self)
        ensures
            final(self).content is None && final(self).selection is None && final(self).primary is None,
    {
        self.content = None;
        self.selection = None;
        self.primary = None;
    }
}

/// A scroll direction.
#[derive(Debug, Clone, Copy, PartialEq, Eq, Structural)]
pub enum ScrollDirection {
    Up,
    Down,
    Left,
    Right,
}

/// The mouse: position, buttons held, modifiers and the last scroll.
#[derive(Debug, Clone, Copy)]
pub struct MouseState {
    pub position: (u16, u16),
    pub buttons: MouseButtons,
    pub modifiers: KeyModifiers,
    pub scroll_direction: Option<ScrollDirection>,
}

/// The mouse at rest at the origin.
pub open spec fn mouse_at_rest() -> MouseState {
    MouseState {
        position: (0, 0),
        buttons: MouseButtons { bits: 0 },
        modifiers: KeyModifiers { bits: 0 },
        scroll_direction: None,
    }
}

impl Default for MouseState {
    fn default() -> (m: MouseState)
        ensures
            m == mouse_at_rest(),
    {
        MouseState::new()
    }
}

impl MouseState {
    /// At the origin, nothing held, no scroll.
    pub fn new() -> (m: MouseState)
        ensures
            m == mouse_at_rest(),
    {
        MouseState {
            position: (0, 0),
            buttons: MouseButtons::empty(),
            modifiers: KeyModifiers::empty(),
            scroll_direction: None,
        }
    }

    pub fn set_position(&mut self, x: u16, y: u16)
        ensures
            *final(self) == (MouseState { position: (x, y), ..*old(self) }),
    {
        self.position = (x, y);
    }

    pub fn set_buttons(&mut self, buttons: MouseButtons)
        ensures
            *final(self) == (MouseState { buttons, ..*old(self) }),
    {
        self.buttons = buttons;
    }

    pub fn set_modifiers(&mut self, modifiers: KeyModifiers)
        ensures
            *final(self) == (MouseState { modifiers, ..*old(self) }),
    {
        self.modifiers = modifiers;
    }

    pub fn set_scroll(&mut self, direction: ScrollDirection)
        ensures
            *final(self) == (MouseState { scroll_direction: Some(direction), ..*old(self) }),
    {
        self.scroll_direction = Some(direction);
    }

    pub fn clear_scroll(&mut self)
        ensures
            *final(self) == (MouseState { scroll_direction: None, ..*old(self) }),
    {
        self.scroll_direction = None;
    }
}

/// The keyboard: modifiers held and the terminal modes in use.
#[derive(Debug, Clone, Copy)]
pub struct KeyboardState {
    pub modifiers: KeyModifiers,
    pub kitty_keyboard: bool,
    pub bracketed_paste: bool,
    pub focus_events: bool,
}

/// No modifier, no mode.
pub open spec fn keyboard_at_rest() -> KeyboardState {
    KeyboardState {
        modifiers: KeyModifiers { bits: 0 },
        kitty_keyboard: false,
        bracketed_paste: false,
        focus_events: false,
    }
}

impl Default for KeyboardState {
    fn default() -> (k: KeyboardState)
        ensures
            k == keyboard_at_rest(),
    {
        KeyboardState::new()
    }
}

impl KeyboardState {
    /// No modifier, no mode.
    pub fn new() -> (k: KeyboardState)
        ensures
            k == keyboard_at_rest(),
    {
        KeyboardState {
            modifiers: KeyModifiers::empty(),
            kitty_keyboard: false,
            bracketed_paste: false,
            focus_events: false,
        }
    }

    pub fn with_kitty_keyboard(self, enabled: bool) -> (k: KeyboardState)
        ensures
            k == (KeyboardState { kitty_keyboard: enabled, ..self }),
    {
        KeyboardState { kitty_keyboard: enabled, ..self }
    }

    pub fn with_bracketed_paste(self, enabled: bool) -> (k: KeyboardState)
        ensures
            k == (KeyboardState { bracketed_paste: enabled, ..self }),
    {
        KeyboardState { bracketed_paste: enabled, ..self }
    }

    pub fn with_focus_events(self, enabled: bool) -> (k: KeyboardState)
        ensures
            k == (KeyboardState { focus_events: enabled, ..self }),
    {
        KeyboardState { focus_events: enabled, ..self }
    }

    pub fn set_modifiers(&mut self, modifiers: KeyModifiers)
        ensures
            *final(self) == (KeyboardState { modifiers, ..*old(self) }),
    {
        self.modifiers = modifiers;
    }

    /// The input of pressing `key` with `modifiers`; the state is unchanged.
    pub fn press_key(&mut self, key: char, modifiers: KeyModifiers) -> (i: KeyboardInput)
        ensures
            *final(self) == *old(self),
            i == (KeyboardInput { key, modifiers, action: KeyAction::Press }),
    {
        KeyboardInput { key, modifiers, action: KeyAction::Press }
    }

    /// The input of releasing `key` with `modifiers`; the state is unchanged.
    pub fn release_key(&mut self, key: char, modifiers: KeyModifiers) -> (i: KeyboardInput)
        ensures
            *final(self) == *old(self),
            i == (KeyboardInput { key, modifiers, action: KeyAction::Release }),
    {
        KeyboardInput { key, modifiers, action: KeyAction::Release }
    }
}

/// The input runtime: the event queue, the clipboard, the mouse and the
/// keyboard.
pub struct InputRuntime {
    events: VecDeque<InputEvent>,
    clipboard: ClipboardState,
    mouse_state: MouseState,
    keyboard_state: KeyboardState,
}

impl InputRuntime {
    /// The queued events, oldest first.
    pub closed spec fn queue(&self) -> Seq<InputEvent> {
        self.events@
    }

    /// The clipboard registers.
    pub closed spec fn clipboard_view(&self) -> ClipboardState {
        self.clipboard
    }

    /// The mouse state.
    pub closed spec fn mouse_view(&self) -> MouseState {
        self.mouse_state
    }

    /// The keyboard state.
    pub closed spec fn keyboard_view(&self) -> KeyboardState {
        self.keyboard_state
    }

    /// No event, empty clipboard, mouse and keyboard at rest.
    pub fn new() -> (r: InputRuntime)
        ensures
            r.queue().len() == 0,
            r.clipboard_view().content is None,
            r.clipboard_view().selection is None,
            r.clipboard_view().primary is None,
            r.mouse_view() == mouse_at_rest(),
            r.keyboard_view() == keyboard_at_rest(),
    {
        InputRuntime {
            events: VecDeque::new(),
            clipboard: ClipboardState::new(),
            mouse_state: MouseState::new(),
            keyboard_state: KeyboardState::new(),
        }
    }

    pub fn with_kitty_keyboard(self, enabled: bool) -> (r: InputRuntime)
        ensures
            r.keyboard_view() == (KeyboardState { kitty_keyboard: enabled, ..self.keyboard_view() }),
            r.queue() == self.queue(),
            r.clipboard_view() == self.clipboard_view(),
            r.mouse_view() == self.mouse_view(),
    {
        let k = self.keyboard_state.with_kitty_keyboard(enabled);
        InputRuntime { keyboard_state: k, ..self }
    }

    pub fn with_bracketed_paste(self, enabled: bool) -> (r: InputRuntime)
        ensures
            r.keyboard_view() == (KeyboardState { bracketed_paste: enabled, ..self.keyboard_view() }),
            r.queue() == self.queue(),
            r.clipboard_view() == self.clipboard_view(),
            r.mouse_view() == self.mouse_view(),
    {
        let k = self.keyboard_state.with_bracketed_paste(enabled);
        InputRuntime { keyboard_state: k, ..self }
    }

    pub fn with_focus_events(self, enabled: bool) -> (r: InputRuntime)
        ensures
            r.keyboard_view() == (KeyboardState { focus_events: enabled, ..self.keyboard_view() }),
            r.queue() == self.queue(),
            r.clipboard_view() == self.clipboard_view(),
            r.mouse_view() == self.mouse_view(),
    {
        let k = self.keyboard_state.with_focus_events(enabled);
        InputRuntime { keyboard_state: k, ..self }
    }

    /// Queues an event last.
    pub fn push_event(&mut self, event: InputEvent)
        ensures
            final(self).queue() == old(self).queue().push(event),
            final(self).clipboard_view() == old(self).clipboard_view(),
            final(self).mouse_view() == old(self).mouse_view(),
            final(self).keyboard_view() == old(self).keyboard_view(),
    {
        self.events.push_back(event);
    }

    /// Takes the oldest queued event.
    pub fn poll_event(&mut self) -> (e: Option<InputEvent>)
        ensures
            if old(self).queue().len() == 0 {
                e is None && final(self).queue() == old(self).queue()
            } else {
                e == Some(old(self).queue()[0]) && final(self).queue() == old(self).queue().drop_first()
            },
            final(self).clipboard_view() == old(self).clipboard_view(),
            final(self).mouse_view() == old(self).mouse_view(),
            final(self).keyboard_view() == old(self).keyboard_view(),
    {
        self.events.pop_front()
    }

    pub fn events(&self) -> (q: &VecDeque<InputEvent>)
        ensures
            q@ == self.queue(),
    {
        &self.events
    }

    pub fn clipboard(&self) -> (c: &ClipboardState)
        ensures
            *c == self.clipboard_view(),
    {
        &self.clipboard
    }

    pub fn clipboard_mut(&mut self) -> (c: &mut ClipboardState)
        ensures
            *c == old(self).clipboard_view(),
            final(self).clipboard_view() == *final(c),
            final(self).queue() == old(self).queue(),
            final(self).mouse_view() == old(self).mouse_view(),
            final(self).keyboard_view() == old(self).keyboard_view(),
    {
        &mut self.clipboard
    }

    pub fn mouse_state(&self) -> (m: &MouseState)
        ensures
            *m == self.mouse_view(),
    {
        &self.mouse_state
    }

    pub fn mouse_state_mut(&mut self) -> (m: &mut MouseState)
        ensures
            *m == old(self).mouse_view(),
            final(self).mouse_view() == *final(m),
            final(self).queue() == old(self).queue(),
            final(self).clipboard_view() == old(self).clipboard_view(),
            final(self).keyboard_view() == old(self).keyboard_view(),
    {
        &mut self.mouse_state
    }

    pub fn keyboard_state(&self) -> (k: &KeyboardState)
        ensures
            *k == self.keyboard_view(),
    {
        &self.keyboard_state
    }

    pub fn keyboard_state_mut(&mut self) -> (k: &mut KeyboardState)
        ensures
            *k == old(self).keyboard_view(),
            final(self).keyboard_view() == *final(k),
            final(self).queue() == old(self).queue(),
            final(self).clipboard_view() == old(self).clipboard_view(),
            final(self).mouse_view() == old(self).mouse_view(),
    {
        &mut self.keyboard_state
    }

    /// Queues the keyboard input as an event stamped with the clock.
    pub fn handle_keyboard_input(&mut self, input: KeyboardInput)
        ensures
            final(self).queue().len() == old(self).queue().len() + 1,
            final(self).queue().drop_last() == old(self).queue(),
            final(self).queue().last().event_type == InputEventType::Keyboard(input),
            final(self).clipboard_view() == old(self).clipboard_view(),
            final(self).mouse_view() == old(self).mouse_view(),
            final(self).keyboard_view() == old(self).keyboard_view(),
    {
        let event = InputEvent::new(InputEventType::Keyboard(input));
        self.push_event(event);
        assert(self.events@.drop_last() =~= old(self).events@);
    }

    /// Queues the mouse input as an event stamped with the clock.
    pub fn handle_mouse_input(&mut self, input: MouseInput)
        ensures
            final(self).queue().len() == old(self).queue().len() + 1,
            final(self).queue().drop_last() == old(self).queue(),
            final(self).queue().last().event_type == InputEventType::Mouse(input),
            final(self).clipboard_view() == old(self).clipboard_view(),
            final(self).mouse_view() == old(self).mouse_view(),
            final(self).keyboard_view() == old(self).keyboard_view(),
    {
        let event = InputEvent::new(InputEventType::Mouse(input));
        self.push_event(event);
        assert(self.events@.drop_last() =~= old(self).events@);
    }

    /// A copy or a cut puts the data in the clipboard content (a paste
    /// leaves the clipboard alone); either way the input is queued as an
    /// event stamped with the clock.
    pub fn handle_clipboard_input(&mut self, input: ClipboardInput)
        ensures
            final(self).queue().len() == old(self).queue().len() + 1,
            final(self).queue().drop_last() == old(self).queue(),
            final(self).queue().last().event_type == InputEventType::Clipboard(input),
            match input.action {
                ClipboardAction::Paste => opt_view(final(self).clipboard_view().content) == opt_view(
                    old(self).clipboard_view().content,
                ),
                _ => opt_view(final(self).clipboard_view().content) == Some(input.data@),
            },
            opt_view(final(self).clipboard_view().selection) == opt_view(old(self).clipboard_view().selection),
            opt_view(final(self).clipboard_view().primary) == opt_view(old(self).clipboard_view().primary),
            final(self).mouse_view() == old(self).mouse_view(),
            final(self).keyboard_view() == old(self).keyboard_view(),
    {
        match input.action {
            ClipboardAction::Copy => {
                self.clipboard.set_content(input.data.clone());
            },
            ClipboardAction::Paste => {},
            ClipboardAction::Cut => {
                self.clipboard.set_content(input.data.clone());
            },
        }
        let event = InputEvent::new(InputEventType::Clipboard(input));
        self.events.push_back(event);
        assert(self.events@.drop_last() =~= old(self).events@);
    }

    /// Drops every event, empties the clipboard and resets mouse and
    /// keyboard.
    pub fn clear(&mut self)
        ensures
            final(self).queue().len() == 0,
            final(self).clipboard_view().content is None,
            final(self).clipboard_view().selection is None,
            final(self).clipboard_view().primary is None,
            final(self).mouse_view() == mouse_at_rest(),
            final(self).keyboard_view() == keyboard_at_rest(),
    {
        self.events.clear();
        self.clipboard.clear();
        self.mouse_state = MouseState::new();
        self.keyboard_state = KeyboardState::new();
    }
}

impl Default for InputRuntime {
    fn default() -> (r: InputRuntime)
        ensures
            r.queue().len() == 0,
            r.mouse_view() == mouse_at_rest(),
            r.keyboard_view() == keyboard_at_rest(),
    {
        InputRuntime::new()
    }
}

} // verus!
