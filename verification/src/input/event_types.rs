//! Events dispatched through the node tree: keys, mouse buttons, paste,
//! focus, blur, resize and lifecycle events, with their dispatch phase.

use vstd::prelude::*;
use crate::tree::{NodeId, Point};

verus! {

/// The dispatch phase of an event.
#[derive(Debug, Clone, Copy, PartialEq, Eq, Hash, Structural)]
pub enum EventPhase {
    Capture,
    Target,
    Bubble,
}

/// A logical key.
#[derive(Debug, Clone, Copy, PartialEq, Eq, Hash, Structural)]
pub enum Key {
    Character(char),
    Enter,
    Escape,
    Backspace,
    Delete,
    Tab,
    Space,
    ArrowUp,
    ArrowDown,
    ArrowLeft,
    ArrowRight,
    Home,
    End,
    PageUp,
    PageDown,
    F(u8),
    Ctrl(char),
    Alt(char),
}

/// Modifier keys held during an event.
#[derive(Debug, Clone, Copy, PartialEq, Eq, Hash, Structural)]
pub struct Modifiers {
    pub ctrl: bool,
    pub shift: bool,
    pub alt: bool,
    pub meta: bool,
}

/// No modifier held.
pub open spec fn no_modifiers() -> Modifiers {
    Modifiers { ctrl: false, shift: false, alt: false, meta: false }
}

impl Modifiers {
    /// No modifier held.
    #[allow(non_snake_case)]
    pub fn NONE() -> (m: Modifiers)
        ensures
            m == no_modifiers(),
    {
        Modifiers { ctrl: false, shift: false, alt: false, meta: false }
    }

    /// `true` when no modifier is held.
    pub fn is_empty(&self) -> (b: bool)
        ensures
            b == (*self == no_modifiers()),
    {
        !self.ctrl && !self.shift && !self.alt && !self.meta
    }
}

impl Default for Modifiers {
    fn default() -> (m: Modifiers)
        ensures
            m == no_modifiers(),
    {
        Modifiers::NONE()
    }
}

/// A key event aimed at a node.
#[derive(Debug, Clone, Copy)]
pub struct KeyEvent {
    pub key: Key,
    pub modifiers: Modifiers,
    pub target: NodeId,
    pub phase: EventPhase,
    pub default_prevented: bool,
}

impl KeyEvent {
    /// A key event for `key` at `target`, with no modifier, in the target phase.
    pub fn new(key: Key, target: NodeId) -> (e: KeyEvent)
        ensures
            e.key == key,
            e.modifiers == no_modifiers(),
            e.target == target,
            e.phase == EventPhase::Target,
            !e.default_prevented,
    {
        KeyEvent {
            key,
            modifiers: Modifiers::NONE(),
            target,
            phase: EventPhase::Target,
            default_prevented: false,
        }
    }

    /// This event with `modifiers`.
    pub fn with_modifiers(self, modifiers: Modifiers) -> (e: KeyEvent)
        ensures
            e == (KeyEvent { modifiers, ..self }),
    {
        let mut e = self;
        e.modifiers = modifiers;
        e
    }

    /// Marks the event's default action as prevented.
    pub fn prevent_default(&mut self)
        ensures
            *final(self) == (KeyEvent { default_prevented: true, ..*old(self) }),
    {
        self.default_prevented = true;
    }
}

/// A mouse button, or a scroll direction reported as a button.
#[derive(Debug, Clone, Copy, PartialEq, Eq, Structural)]
pub enum MouseButton {
    Left,
    Right,
    Middle,
    ScrollUp,
    ScrollDown,
    ScrollLeft,
    ScrollRight,
    /// No button.
    NoButton,
}

/// A mouse event aimed at a node.
#[derive(Debug, Clone, Copy)]
pub struct MouseEvent {
    pub button: MouseButton,
    pub position: Point,
    pub modifiers: Modifiers,
    pub target: NodeId,
    pub phase: EventPhase,
    pub default_prevented: bool,
}

impl MouseEvent {
    /// A mouse event with no modifier, in the target phase.
    pub fn new(button: MouseButton, position: Point, target: NodeId) -> (e: MouseEvent)
        ensures
            e.button == button,
            e.position == position,
            e.modifiers == no_modifiers(),
            e.target == target,
            e.phase == EventPhase::Target,
            !e.default_prevented,
    {
        MouseEvent {
            button,
            position,
            modifiers: Modifiers::NONE(),
            target,
            phase: EventPhase::Target,
            default_prevented: false,
        }
    }

    /// Marks the event's default action as prevented.
    pub fn prevent_default(&mut self)
        ensures
            *final(self) == (MouseEvent { default_prevented: true, ..*old(self) }),
    {
        self.default_prevented = true;
    }
}

/// A paste event aimed at a node.
#[derive(Debug, Clone)]
pub struct PasteEvent {
    pub text: String,
    pub target: NodeId,
    pub phase: EventPhase,
    pub default_prevented: bool,
}

impl PasteEvent {
    /// A paste of `text` at `target`, in the target phase.
    pub fn new(text: &str, target: NodeId) -> (e: PasteEvent)
        ensures
            e.text@ == text@,
            e.target == target,
            e.phase == EventPhase::Target,
            !e.default_prevented,
    {
        PasteEvent {
            text: String::from_str(text),
            target,
            phase: EventPhase::Target,
            default_prevented: false,
        }
    }
}

/// Focus moved to `target`.
#[derive(Debug, Clone, Copy)]
pub struct FocusEvent {
    pub target: NodeId,
    pub previous: Option<NodeId>,
    pub phase: EventPhase,
}

impl FocusEvent {
    /// A focus event in the target phase.
    pub fn new(target: NodeId, previous: Option<NodeId>) -> (e: FocusEvent)
        ensures
            e.target == target,
            e.previous == previous,
            e.phase == EventPhase::Target,
    {
        FocusEvent { target, previous, phase: EventPhase::Target }
    }
}

/// Focus left `target`.
#[derive(Debug, Clone, Copy)]
pub struct BlurEvent {
    pub target: NodeId,
    pub next: Option<NodeId>,
    pub phase: EventPhase,
}

impl BlurEvent {
    /// A blur event in the target phase.
    pub fn new(target: NodeId, next: Option<NodeId>) -> (e: BlurEvent)
        ensures
            e.target == target,
            e.next == next,
            e.phase == EventPhase::Target,
    {
        BlurEvent { target, next, phase: EventPhase::Target }
    }
}

/// The terminal was resized.
#[derive(Debug, Clone, Copy)]
pub struct ResizeEvent {
    pub width: u16,
    pub height: u16,
    pub previous_width: u16,
    pub previous_height: u16,
}

impl ResizeEvent {
    /// A resize from `previous_width x previous_height` to `width x height`.
    pub fn new(width: u16, height: u16, previous_width: u16, previous_height: u16) -> (e: ResizeEvent)
        ensures
            e == (ResizeEvent { width, height, previous_width, previous_height }),
    {
        ResizeEvent { width, height, previous_width, previous_height }
    }
}

/// Application lifecycle events.
#[derive(Debug, Clone, Copy, PartialEq, Eq, Structural)]
pub enum LifecycleEvent {
    Mount,
    Unmount,
    Suspend,
    Resume,
}

/// Whether a handler consumed an event.
#[derive(Debug, Clone, Copy, PartialEq, Eq, Structural)]
pub enum EventResult {
    Consumed,
    Ignored,
}

/// An event dispatched through the node tree.
#[derive(Debug, Clone)]
pub enum Event {
    Key(KeyEvent),
    Mouse(MouseEvent),
    Paste(PasteEvent),
    Focus(FocusEvent),
    Blur(BlurEvent),
    Resize(ResizeEvent),
    Lifecycle(LifecycleEvent),
}

/// The phase of an event; resize and lifecycle events are always in the target phase.
pub open spec fn event_phase(e: Event) -> EventPhase {
    match e {
        Event::Key(k) => k.phase,
        Event::Mouse(m) => m.phase,
        Event::Paste(p) => p.phase,
        Event::Focus(f) => f.phase,
        Event::Blur(b) => b.phase,
        Event::Resize(_) => EventPhase::Target,
        Event::Lifecycle(_) => EventPhase::Target,
    }
}

/// The target node of an event; resize and lifecycle events have none.
pub open spec fn event_target(e: Event) -> Option<NodeId> {
    match e {
        Event::Key(k) => Some(k.target),
        Event::Mouse(m) => Some(m.target),
        Event::Paste(p) => Some(p.target),
        Event::Focus(f) => Some(f.target),
        Event::Blur(b) => Some(b.target),
        Event::Resize(_) => None,
        Event::Lifecycle(_) => None,
    }
}

/// The event with its phase set; resize and lifecycle events are unchanged.
pub open spec fn with_phase(e: Event, phase: EventPhase) -> Event {
    match e {
        Event::Key(k) => Event::Key(KeyEvent { phase, ..k }),
        Event::Mouse(m) => Event::Mouse(MouseEvent { phase, ..m }),
        Event::Paste(p) => Event::Paste(PasteEvent { phase, ..p }),
        Event::Focus(f) => Event::Focus(FocusEvent { phase, ..f }),
        Event::Blur(b) => Event::Blur(BlurEvent { phase, ..b }),
        Event::Resize(r) => Event::Resize(r),
        Event::Lifecycle(l) => Event::Lifecycle(l),
    }
}

impl Event {
    /// The event's dispatch phase.
    pub fn phase(&self) -> (p: EventPhase)
        ensures
            p == event_phase(*self),
    {
        match self {
            Event::Key(e) => e.phase,
            Event::Mouse(e) => e.phase,
            Event::Paste(e) => e.phase,
            Event::Focus(e) => e.phase,
            Event::Blur(e) => e.phase,
            Event::Resize(_) => EventPhase::Target,
            Event::Lifecycle(_) => EventPhase::Target,
        }
    }

    /// Sets the dispatch phase; resize and lifecycle events keep the target phase.
    pub fn set_phase(&mut self, phase: EventPhase)
        ensures
            *final(self) == with_phase(*old(self), phase),
    {
        match self {
            Event::Key(e) => e.phase = phase,
            Event::Mouse(e) => e.phase = phase,
            Event::Paste(e) => e.phase = phase,
            Event::Focus(e) => e.phase = phase,
            Event::Blur(e) => e.phase = phase,
            Event::Resize(_) => {},
            Event::Lifecycle(_) => {},
        }
    }

    /// The event's target node, if it has one.
    pub fn target(&self) -> (t: Option<NodeId>)
        ensures
            t == event_target(*self),
    {
        match self {
            Event::Key(e) => Some(e.target),
            Event::Mouse(e) => Some(e.target),
            Event::Paste(e) => Some(e.target),
            Event::Focus(e) => Some(e.target),
            Event::Blur(e) => Some(e.target),
            Event::Resize(_) => None,
            Event::Lifecycle(_) => None,
        }
    }

    /// `true` when a key, mouse or paste event had its default prevented.
    pub fn is_consumed(&self) -> (b: bool)
        ensures
            b == match *self {
                Event::Key(k) => k.default_prevented,
                Event::Mouse(m) => m.default_prevented,
                Event::Paste(p) => p.default_prevented,
                _ => false,
            },
    {
        match self {
            Event::Key(e) => e.default_prevented,
            Event::Mouse(e) => e.default_prevented,
            Event::Paste(e) => e.default_prevented,
            _ => false,
        }
    }
}

} // verus!
