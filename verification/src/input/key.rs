//! Keyboard input: modifier flags, key actions, key codes and keyboard input values.

use vstd::prelude::*;

verus! {

/// Keyboard modifier flags.
#[derive(Debug, Clone, Copy, PartialEq, Eq, Hash, Structural)]
pub struct KeyModifiers {
    pub bits: u8,
}

impl KeyModifiers {
    /// No modifier.
    pub fn empty() -> (m: KeyModifiers)
        ensures
            m.bits == 0,
    {
        KeyModifiers { bits: 0 }
    }

    /// Every modifier.
    pub fn all() -> (m: KeyModifiers)
        ensures
            m.bits == 0x0f,
    {
        KeyModifiers { bits: 0x0f }
    }

    /// Shift.
    #[allow(non_snake_case)]
    pub fn SHIFT() -> (m: KeyModifiers)
        ensures
            m.bits == 0x01,
    {
        KeyModifiers { bits: 0x01 }
    }

    /// Control.
    #[allow(non_snake_case)]
    pub fn CONTROL() -> (m: KeyModifiers)
        ensures
            m.bits == 0x02,
    {
        KeyModifiers { bits: 0x02 }
    }

    /// Alt.
    #[allow(non_snake_case)]
    pub fn ALT() -> (m: KeyModifiers)
        ensures
            m.bits == 0x04,
    {
        KeyModifiers { bits: 0x04 }
    }

    /// Super.
    #[allow(non_snake_case)]
    pub fn SUPER() -> (m: KeyModifiers)
        ensures
            m.bits == 0x08,
    {
        KeyModifiers { bits: 0x08 }
    }

    /// The raw flag bits.
    pub fn bits(&self) -> (b: u8)
        ensures
            b == self.bits,
    {
        self.bits
    }

    /// `true` when no flag is set.
    pub fn is_empty(&self) -> (b: bool)
        ensures
            b == (self.bits == 0),
    {
        self.bits == 0
    }

    /// `true` when every flag of `other` is set in `self`.
    pub fn contains(&self, other: KeyModifiers) -> (b: bool)
        ensures
            b == (self.bits & other.bits == other.bits),
    {
        self.bits & other.bits == other.bits
    }
}

impl core::ops::BitOr for KeyModifiers {
    type Output = KeyModifiers;

    fn bitor(self, rhs: KeyModifiers) -> (r: KeyModifiers) {
        KeyModifiers { bits: self.bits | rhs.bits }
    }
}

impl vstd::std_specs::ops::BitOrSpecImpl for KeyModifiers {
    open spec fn obeys_bitor_spec() -> bool {
        true
    }

    open spec fn bitor_req(self, rhs: KeyModifiers) -> bool {
        true
    }

    open spec fn bitor_spec(self, rhs: KeyModifiers) -> KeyModifiers {
        KeyModifiers { bits: self.bits | rhs.bits }
    }
}

impl Default for KeyModifiers {
    fn default() -> (m: KeyModifiers)
        ensures
            m.bits == 0,
    {
        KeyModifiers { bits: 0 }
    }
}

/// Whether a key is pressed, released or auto-repeated.
#[derive(Debug, Clone, Copy, PartialEq, Eq, Structural)]
pub enum KeyAction {
    Press,
    Release,
    Repeat,
}

/// Media keys.
#[derive(Debug, Clone, Copy, PartialEq, Eq, Structural)]
pub enum MediaKey {
    PlayPause,
    NextTrack,
    PreviousTrack,
    Stop,
    VolumeUp,
    VolumeDown,
    Mute,
}

/// Key codes.
#[derive(Debug, Clone, Copy, PartialEq, Eq, Structural)]
pub enum KeyCode {
    Char(char),
    Enter,
    Esc,
    Backspace,
    Tab,
    Space,
    Up,
    Down,
    Left,
    Right,
    Home,
    End,
    PageUp,
    PageDown,
    Delete,
    Insert,
    F(u8),
    Modifier(KeyModifiers),
    Media(MediaKey),
}

/// A keyboard input: a key character, its modifiers and its action.
#[derive(Debug, Clone, Copy, PartialEq, Eq, Structural)]
pub struct KeyboardInput {
    pub key: char,
    pub modifiers: KeyModifiers,
    pub action: KeyAction,
}

/// Control characters that `is_modifier_only` reports.
pub open spec fn is_control_key(c: char) -> bool {
    c == '\x00' || c == '\x1b' || c == '\x08' || c == '\x09' || c == '\x0d' || c == '\x0a'
}

/// The name `to_display_string` gives a key character.
pub open spec fn key_name(c: char) -> Seq<char> {
    if c == '\x00' {
        "Null"@
    } else if c == '\x1b' {
        "Esc"@
    } else if c == '\x08' {
        "Backspace"@
    } else if c == '\x09' {
        "Tab"@
    } else if c == '\x0d' {
        "Enter"@
    } else if c == '\x0a' {
        "LineFeed"@
    } else if c == ' ' {
        "Space"@
    } else {
        seq![c]
    }
}

/// The flag `bit` is set in `m`.
pub open spec fn has_flag(m: KeyModifiers, bit: u8) -> bool {
    m.bits & bit == bit
}

/// The display string of a keyboard input: modifier prefixes in the order
/// Ctrl, Shift, Alt, Super, then the key's name.
pub open spec fn display_string(k: KeyboardInput) -> Seq<char> {
    (if has_flag(k.modifiers, 2) {
        "Ctrl+"@
    } else {
        Seq::empty()
    }) + (if has_flag(k.modifiers, 1) {
        "Shift+"@
    } else {
        Seq::empty()
    }) + (if has_flag(k.modifiers, 4) {
        "Alt+"@
    } else {
        Seq::empty()
    }) + (if has_flag(k.modifiers, 8) {
        "Super+"@
    } else {
        Seq::empty()
    }) + key_name(k.key)
}

impl KeyboardInput {
    /// A key press of `key` with `modifiers`.
    pub fn new(key: char, modifiers: KeyModifiers) -> (k: KeyboardInput)
        ensures
            k == (KeyboardInput { key, modifiers, action: KeyAction::Press }),
    {
        KeyboardInput { key, modifiers, action: KeyAction::Press }
    }

    /// This input with action `action`.
    pub fn with_action(self, action: KeyAction) -> (k: KeyboardInput)
        ensures
            k == (KeyboardInput { action, ..self }),
    {
        let mut k = self;
        k.action = action;
        k
    }

    /// A key press.
    pub fn press(key: char, modifiers: KeyModifiers) -> (k: KeyboardInput)
        ensures
            k == (KeyboardInput { key, modifiers, action: KeyAction::Press }),
    {
        Self::new(key, modifiers).with_action(KeyAction::Press)
    }

    /// A key release.
    pub fn release(key: char, modifiers: KeyModifiers) -> (k: KeyboardInput)
        ensures
            k == (KeyboardInput { key, modifiers, action: KeyAction::Release }),
    {
        Self::new(key, modifiers).with_action(KeyAction::Release)
    }

    /// A key auto-repeat.
    pub fn repeat(key: char, modifiers: KeyModifiers) -> (k: KeyboardInput)
        ensures
            k == (KeyboardInput { key, modifiers, action: KeyAction::Repeat }),
    {
        Self::new(key, modifiers).with_action(KeyAction::Repeat)
    }

    /// `true` when Control is held.
    pub fn is_ctrl(&self) -> (b: bool)
        ensures
            b == has_flag(self.modifiers, 2),
    {
        self.modifiers.contains(KeyModifiers::CONTROL())
    }

    /// `true` when Shift is held.
    pub fn is_shift(&self) -> (b: bool)
        ensures
            b == has_flag(self.modifiers, 1),
    {
        self.modifiers.contains(KeyModifiers::SHIFT())
    }

    /// `true` when Alt is held.
    pub fn is_alt(&self) -> (b: bool)
        ensures
            b == has_flag(self.modifiers, 4),
    {
        self.modifiers.contains(KeyModifiers::ALT())
    }

    /// `true` when Super is held.
    pub fn is_super(&self) -> (b: bool)
        ensures
            b == has_flag(self.modifiers, 8),
    {
        self.modifiers.contains(KeyModifiers::SUPER())
    }

    /// `true` when the key is NUL, Escape, Backspace, Tab, CR or LF.
    pub fn is_modifier_only(&self) -> (b: bool)
        ensures
            b == is_control_key(self.key),
    {
        let c = self.key;
        c == '\x00' || c == '\x1b' || c == '\x08' || c == '\x09' || c == '\x0d' || c == '\x0a'
    }

    /// A readable rendering such as `Ctrl+Shift+C` or `Esc`.
    pub fn to_display_string(&self) -> (s: String)
        ensures
            s@ == display_string(*self),
    {
        let mut result = String::new();
        if self.is_ctrl() {
            result.append("Ctrl+");
        }
        if self.is_shift() {
            result.append("Shift+");
        }
        if self.is_alt() {
            result.append("Alt+");
        }
        if self.is_super() {
            result.append("Super+");
        }
        let c = self.key;
        if c == '\x00' {
            result.append("Null");
        } else if c == '\x1b' {
            result.append("Esc");
        } else if c == '\x08' {
            result.append("Backspace");
        } else if c == '\x09' {
            result.append("Tab");
        } else if c == '\x0d' {
            result.append("Enter");
        } else if c == '\x0a' {
            result.append("LineFeed");
        } else if c == ' ' {
            result.append("Space");
        } else {
            crate::text::push_char(&mut result, c);
        }
        assert(result@ =~= display_string(*self));
        result
    }
}

impl Default for KeyboardInput {
    fn default() -> (k: KeyboardInput)
        ensures
            k == (KeyboardInput { key: '\0', modifiers: KeyModifiers { bits: 0 }, action: KeyAction::Press }),
    {
        Self::new('\0', KeyModifiers::empty())
    }
}

} // verus!
