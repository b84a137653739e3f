//! Clipboard input types.

use vstd::prelude::*;

verus! {

/// What a clipboard input does.
#[derive(Debug, Clone, Copy, PartialEq, Eq, Structural)]
pub enum ClipboardAction {
    Copy,
    Paste,
    Cut,
}

/// A clipboard input: an action and its text.
#[derive(Debug, Clone)]
pub struct ClipboardInput {
    pub data: String,
    pub action: ClipboardAction,
}

impl ClipboardInput {
    /// A clipboard input with the given action and text.
    pub fn new(action: ClipboardAction, data: String) -> (c: ClipboardInput)
        ensures
            c.action == action,
            c.data@ == data@,
    {
        ClipboardInput { data, action }
    }

    /// A copy of `data`.
    pub fn copy(data: String) -> (c: ClipboardInput)
        ensures
            c.action == ClipboardAction::Copy,
            c.data@ == data@,
    {
        Self::new(ClipboardAction::Copy, data)
    }

    /// A paste of `data`.
    pub fn paste(data: String) -> (c: ClipboardInput)
        ensures
            c.action == ClipboardAction::Paste,
            c.data@ == data@,
    {
        Self::new(ClipboardAction::Paste, data)
    }

    /// A cut of `data`.
    pub fn cut(data: String) -> (c: ClipboardInput)
        ensures
            c.action == ClipboardAction::Cut,
            c.data@ == data@,
    {
        Self::new(ClipboardAction::Cut, data)
    }

    /// `true` for a copy.
    pub fn is_copy(&self) -> (b: bool)
        ensures
            b == (self.action == ClipboardAction::Copy),
    {
        self.action == ClipboardAction::Copy
    }

    /// `true` for a paste.
    pub fn is_paste(&self) -> (b: bool)
        ensures
            b == (self.action == ClipboardAction::Paste),
    {
        self.action == ClipboardAction::Paste
    }

    /// `true` for a cut.
    pub fn is_cut(&self) -> (b: bool)
        ensures
            b == (self.action == ClipboardAction::Cut),
    {
        self.action == ClipboardAction::Cut
    }
}

impl Default for ClipboardInput {
    fn default() -> (c: ClipboardInput)
        ensures
            c.action == ClipboardAction::Copy,
            c.data@.len() == 0,
    {
        Self::new(ClipboardAction::Copy, String::new())
    }
}

} // verus!
