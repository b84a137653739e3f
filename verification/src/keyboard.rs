//! Keyboard handling: named actions bound to keys with modifiers, the
//! modifier state, and the mapping of a key to an action.

use vstd::prelude::*;
use crate::input::event_types::Key;

verus! {

/// A key and the modifiers that must be held with it.
#[derive(Debug, Clone, Copy, PartialEq, Eq, Hash, Structural)]
pub struct KeyBinding {
    pub key: Key,
    pub ctrl: bool,
    pub shift: bool,
    pub alt: bool,
}

impl KeyBinding {
    /// `key` with no modifier.
    pub fn new(key: Key) -> (b: KeyBinding)
        ensures
            b == (KeyBinding { key, ctrl: false, shift: false, alt: false }),
    {
        KeyBinding { key, ctrl: false, shift: false, alt: false }
    }

    /// This binding with Ctrl.
    pub fn ctrl(self) -> (b: KeyBinding)
        ensures
            b == (KeyBinding { ctrl: true, ..self }),
    {
        let mut b = self;
        b.ctrl = true;
        b
    }

    /// This binding with Shift.
    pub fn shift(self) -> (b: KeyBinding)
        ensures
            b == (KeyBinding { shift: true, ..self }),
    {
        let mut b = self;
        b.shift = true;
        b
    }

    /// This binding with Alt.
    pub fn alt(self) -> (b: KeyBinding)
        ensures
            b == (KeyBinding { alt: true, ..self }),
    {
        let mut b = self;
        b.alt = true;
        b
    }
}

/// What a key does.
#[derive(Debug, Clone, PartialEq, Eq)]
pub enum KeyAction {
    /// The bound action of this name.
    Action(String),
    /// A character typed.
    Char(char),
    /// Nothing.
    Unhandled,
}

/// Maps keys, with the modifiers held, to named actions.
#[derive(Debug, Clone)]
pub struct KeyboardHandler {
    bindings: Vec<(KeyBinding, String)>,
    ctrl: bool,
    shift: bool,
    alt: bool,
    kitty_protocol: bool,
}

/// `b` is `key` with exactly the modifiers held.
pub open spec fn binding_fires(b: KeyBinding, key: Key, ctrl: bool, shift: bool, alt: bool) -> bool {
    b.key == key && b.ctrl == ctrl && b.shift == shift && b.alt == alt
}

/// The position of the most recently registered binding that fires.
pub open spec fn last_firing(bs: Seq<(KeyBinding, String)>, key: Key, ctrl: bool, shift: bool, alt: bool) -> Option<int>
    decreases bs.len(),
{
    if bs.len() == 0 {
        None
    } else if binding_fires(bs.last().0, key, ctrl, shift, alt) {
        Some(bs.len() - 1)
    } else {
        last_firing(bs.drop_last(), key, ctrl, shift, alt)
    }
}

/// `bs` without the entries bound to `b`.
pub open spec fn without_binding(bs: Seq<(KeyBinding, String)>, b: KeyBinding) -> Seq<(KeyBinding, String)>
    decreases bs.len(),
{
    if bs.len() == 0 {
        bs
    } else {
        let r = without_binding(bs.drop_last(), b);
        if bs.last().0 == b {
            r
        } else {
            r.push(bs.last())
        }
    }
}

proof fn lemma_last_firing_range(bs: Seq<(KeyBinding, String)>, key: Key, ctrl: bool, shift: bool, alt: bool)
    ensures
        last_firing(bs, key, ctrl, shift, alt) matches Some(i) ==> 0 <= i < bs.len() && binding_fires(
            bs[i].0,
            key,
            ctrl,
            shift,
            alt,
        ),
    decreases bs.len(),
{
    if bs.len() > 0 && !binding_fires(bs.last().0, key, ctrl, shift, alt) {
        lemma_last_firing_range(bs.drop_last(), key, ctrl, shift, alt);
    }
}

impl KeyboardHandler {
    /// The bindings and their action names, oldest first.
    pub closed spec fn binding_seq(&self) -> Seq<(KeyBinding, String)> {
        self.bindings@
    }

    /// The modifier state `(ctrl, shift, alt)`.
    pub closed spec fn held(&self) -> (bool, bool, bool) {
        (self.ctrl, self.shift, self.alt)
    }

    /// Whether the kitty keyboard protocol is on.
    pub closed spec fn kitty(&self) -> bool {
        self.kitty_protocol
    }

    /// A handler without bindings, modifiers or kitty protocol.
    pub fn new() -> (h: KeyboardHandler)
        ensures
            h.binding_seq().len() == 0,
            h.held() == (false, false, false),
            !h.kitty(),
    {
        KeyboardHandler { bindings: Vec::new(), ctrl: false, shift: false, alt: false, kitty_protocol: false }
    }

    /// Binds `binding` to the action `action`; a later binding of the same
    /// key shadows an earlier one.
    pub fn bind(&mut self, binding: KeyBinding, action: &str)
        ensures
            final(self).binding_seq().len() == old(self).binding_seq().len() + 1,
            final(self).binding_seq().drop_last() == old(self).binding_seq(),
            final(self).binding_seq().last().0 == binding,
            final(self).binding_seq().last().1@ == action@,
            final(self).held() == old(self).held(),
            final(self).kitty() == old(self).kitty(),
    {
        let ghost before = self.bindings@;
        self.bindings.push((binding, String::from_str(action)));
        assert(self.bindings@.drop_last() =~= before);
    }

    /// Removes every binding equal to `binding`.
    pub fn unbind(&mut self, binding: &KeyBinding)
        ensures
            final(self).binding_seq() == without_binding(old(self).binding_seq(), *binding),
            final(self).held() == old(self).held(),
            final(self).kitty() == old(self).kitty(),
    {
        let mut src: Vec<(KeyBinding, String)> = Vec::new();
        std::mem::swap(&mut src, &mut self.bindings);
        let ghost all = src@;
        let mut kept: Vec<(KeyBinding, String)> = Vec::new();
        let mut k: usize = 0;
        assert(all.subrange(0, 0) =~= Seq::<(KeyBinding, String)>::empty());
        assert(all.subrange(0, all.len() as int) =~= all);
        assert(all.len() == src.len());
        while src.len() > 0
            invariant
                k <= all.len(),
                all.len() <= usize::MAX,
                src@ == all.subrange(k as int, all.len() as int),
                kept@ == without_binding(all.subrange(0, k as int), *binding),
            decreases src@.len(),
        {
            let entry = src.remove(0);
            assert(all.subrange(0, k + 1).drop_last() =~= all.subrange(0, k as int));
            assert(entry == all[k as int]);
            if entry.0 != *binding {
                kept.push(entry);
            }
            assert(src@ =~= all.subrange(k + 1, all.len() as int));
            k += 1;
        }
        assert(all.subrange(0, k as int) =~= all);
        self.bindings = kept;
    }

    /// Turns the kitty keyboard protocol on or off.
    pub fn set_kitty_protocol(&mut self, enabled: bool)
        ensures
            final(self).kitty() == enabled,
            final(self).binding_seq() == old(self).binding_seq(),
            final(self).held() == old(self).held(),
    {
        self.kitty_protocol = enabled;
    }

    /// Whether the kitty keyboard protocol is on.
    pub fn kitty_protocol(&self) -> (b: bool)
        ensures
            b == self.kitty(),
    {
        self.kitty_protocol
    }

    /// Sets the modifiers held.
    pub fn set_modifiers(&mut self, ctrl: bool, shift: bool, alt: bool)
        ensures
            final(self).held() == (ctrl, shift, alt),
            final(self).binding_seq() == old(self).binding_seq(),
            final(self).kitty() == old(self).kitty(),
    {
        self.ctrl = ctrl;
        self.shift = shift;
        self.alt = alt;
    }

    /// The modifiers held, as `(ctrl, shift, alt)`.
    pub fn modifiers(&self) -> (m: (bool, bool, bool))
        ensures
            m == self.held(),
    {
        (self.ctrl, self.shift, self.alt)
    }

    /// What `key` does with the modifiers held: the action of the most
    /// recently registered binding that fires; otherwise the character for
    /// a character key; otherwise nothing.
    pub fn process_key(&self, key: &Key) -> (a: KeyAction)
        ensures
            match last_firing(self.binding_seq(), *key, self.held().0, self.held().1, self.held().2) {
                Some(i) => a matches KeyAction::Action(name) && name@ == self.binding_seq()[i].1@,
                None => match *key {
                    Key::Character(c) => a == KeyAction::Char(c),
                    _ => a == KeyAction::Unhandled,
                },
            },
    {
        let mut i = self.bindings.len();
        assert(self.bindings@.subrange(0, i as int) =~= self.bindings@);
        while i > 0
            invariant
                i <= self.bindings@.len(),
                last_firing(self.bindings@, *key, self.ctrl, self.shift, self.alt) == last_firing(
                    self.bindings@.subrange(0, i as int),
                    *key,
                    self.ctrl,
                    self.shift,
                    self.alt,
                ),
            decreases i,
        {
            let b = &self.bindings[i - 1];
            assert(self.bindings@.subrange(0, i as int).drop_last() =~= self.bindings@.subrange(0, i - 1));
            if b.0.key == *key && b.0.ctrl == self.ctrl && b.0.shift == self.shift && b.0.alt == self.alt {
                return KeyAction::Action(b.1.clone());
            }
            i -= 1;
        }
        match key {
            Key::Character(ch) => KeyAction::Char(*ch),
            _ => KeyAction::Unhandled,
        }
    }

    /// The number of bindings.
    pub fn binding_count(&self) -> (n: usize)
        ensures
            n == self.binding_seq().len(),
    {
        self.bindings.len()
    }

    /// Removes every binding.
    pub fn clear_bindings(&mut self)
        ensures
            final(self).binding_seq().len() == 0,
            final(self).held() == old(self).held(),
            final(self).kitty() == old(self).kitty(),
    {
        self.bindings.clear();
    }
}

impl Default for KeyboardHandler {
    fn default() -> (h: KeyboardHandler)
        ensures
            h.binding_seq().len() == 0,
            h.held() == (false, false, false),
            !h.kitty(),
    {
        KeyboardHandler::new()
    }
}

/// The binding registered last wins: after `bind`, a key that fires the new
/// binding gives its action, whatever was bound before.
pub proof fn lemma_last_binding_wins(
    before: Seq<(KeyBinding, String)>,
    after: Seq<(KeyBinding, String)>,
    key: Key,
    ctrl: bool,
    shift: bool,
    alt: bool,
)
    requires
        after.len() == before.len() + 1,
        after.drop_last() == before,
        binding_fires(after.last().0, key, ctrl, shift, alt),
    ensures
        last_firing(after, key, ctrl, shift, alt) == Some(before.len() as int),
{
}

/// After `unbind(b)`, no binding equal to `b` is left.
pub proof fn lemma_unbind_removes(bs: Seq<(KeyBinding, String)>, b: KeyBinding, i: int)
    requires
        0 <= i < without_binding(bs, b).len(),
    ensures
        without_binding(bs, b)[i].0 != b,
    decreases bs.len(),
{
    let r = without_binding(bs.drop_last(), b);
    if i < r.len() {
        lemma_unbind_removes(bs.drop_last(), b, i);
    }
}

} // verus!
