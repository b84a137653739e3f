//! Keybinding engine: key combinations and chord sequences, a parser for
//! key strings, bindings with conditions, prioritised binding layers and the
//! keymap that resolves key events to commands across layers.

use vstd::prelude::*;
use crate::input::event_types::{Key, KeyEvent, Modifiers, no_modifiers};
use crate::text::{
    all_ascii, ascii_lower_str, chars_of, chars_eq_str, contains_char, lowercase, push_chars, slice_chars, starts_with_chars,
    str_eq, string_from_chars, to_lowercase, trim_chars, trimmed, utf8_len, utf8_len_up_to,
};

verus! {

// ---------------------------------------------------------------------------
// Key combinations and sequences
// ---------------------------------------------------------------------------

/// A key together with the modifiers held with it.
#[derive(Debug, Clone, Copy, PartialEq, Eq, Hash, Structural)]
pub struct KeyCombo {
    pub key: Key,
    pub modifiers: Modifiers,
}

/// `c` is the key and modifiers of `e`.
pub open spec fn combo_matches(c: KeyCombo, e: KeyEvent) -> bool {
    c.key == e.key && c.modifiers == e.modifiers
}

impl KeyCombo {
    /// The combination of `key` and `modifiers`.
    pub fn new(key: Key, modifiers: Modifiers) -> (c: KeyCombo)
        ensures
            c == (KeyCombo { key, modifiers }),
    {
        KeyCombo { key, modifiers }
    }

    /// `key` with no modifier.
    pub fn plain(key: Key) -> (c: KeyCombo)
        ensures
            c == (KeyCombo { key, modifiers: no_modifiers() }),
    {
        KeyCombo { key, modifiers: Modifiers::NONE() }
    }

    /// `key` with Ctrl alone.
    pub fn with_ctrl(key: Key) -> (c: KeyCombo)
        ensures
            c == (KeyCombo { key, modifiers: Modifiers { ctrl: true, ..no_modifiers() } }),
    {
        KeyCombo { key, modifiers: Modifiers { ctrl: true, ..Modifiers::NONE() } }
    }

    /// `key` with Shift alone.
    pub fn with_shift(key: Key) -> (c: KeyCombo)
        ensures
            c == (KeyCombo { key, modifiers: Modifiers { shift: true, ..no_modifiers() } }),
    {
        KeyCombo { key, modifiers: Modifiers { shift: true, ..Modifiers::NONE() } }
    }

    /// `key` with Alt alone.
    pub fn with_alt(key: Key) -> (c: KeyCombo)
        ensures
            c == (KeyCombo { key, modifiers: Modifiers { alt: true, ..no_modifiers() } }),
    {
        KeyCombo { key, modifiers: Modifiers { alt: true, ..Modifiers::NONE() } }
    }

    /// Whether the event carries exactly this key and these modifiers.
    pub fn matches(&self, event: &KeyEvent) -> (b: bool)
        ensures
            b == combo_matches(*self, *event),
    {
        self.key == event.key && self.modifiers == event.modifiers
    }
}

/// A sequence of key combinations; more than one makes a chord.
#[derive(Debug, Clone, PartialEq, Eq, Hash)]
pub struct KeySequence {
    pub keys: Vec<KeyCombo>,
}

impl KeySequence {
    /// The sequence of the one combination `combo`.
    pub fn single(combo: KeyCombo) -> (s: KeySequence)
        ensures
            s.keys@ == seq![combo],
    {
        let mut keys: Vec<KeyCombo> = Vec::new();
        keys.push(combo);
        KeySequence { keys }
    }

    /// The sequence of `combos`, in order.
    pub fn chord(combos: Vec<KeyCombo>) -> (s: KeySequence)
        ensures
            s.keys@ == combos@,
    {
        KeySequence { keys: combos }
    }

    /// The number of combinations.
    pub fn len(&self) -> (n: usize)
        ensures
            n == self.keys@.len(),
    {
        self.keys.len()
    }

    /// Whether there is no combination.
    pub fn is_empty(&self) -> (b: bool)
        ensures
            b == (self.keys@.len() == 0),
    {
        self.keys.len() == 0
    }

    /// Whether the first combination is `combo`.
    pub fn starts_with(&self, combo: &KeyCombo) -> (b: bool)
        ensures
            b == (self.keys@.len() > 0 && self.keys@[0] == *combo),
    {
        self.keys.len() > 0 && self.keys[0] == *combo
    }

    /// The sequence without its first combination.
    pub fn tail(&self) -> (s: KeySequence)
        requires
            self.keys@.len() >= 1,
        ensures
            s.keys@ == self.keys@.drop_first(),
    {
        let mut keys: Vec<KeyCombo> = Vec::new();
        let mut i: usize = 1;
        while i < self.keys.len()
            invariant
                1 <= i <= self.keys@.len(),
                keys@ == self.keys@.subrange(1, i as int),
            decreases self.keys@.len() - i,
        {
            keys.push(self.keys[i]);
            i += 1;
        }
        KeySequence { keys }
    }
}

// ---------------------------------------------------------------------------
// Parsing
// ---------------------------------------------------------------------------

/// Why a key string was refused.
#[derive(Debug, Clone, PartialEq, Eq)]
pub enum ParseError {
    InvalidKey(String),
    InvalidModifier(String),
    InvalidSequence(String),
}

/// The message of a parse error.
pub open spec fn parse_error_text(e: ParseError) -> Seq<char> {
    match e {
        ParseError::InvalidKey(s) => "Invalid key: "@ + s@,
        ParseError::InvalidModifier(s) => "Invalid modifier: "@ + s@,
        ParseError::InvalidSequence(s) => "Invalid sequence: "@ + s@,
    }
}

impl ParseError {
    /// The message, such as `Invalid key: xyz`.
    pub fn to_string(&self) -> (s: String)
        ensures
            s@ == parse_error_text(*self),
    {
        let (prefix, rest) = match self {
            ParseError::InvalidKey(s) => ("Invalid key: ", s),
            ParseError::InvalidModifier(s) => ("Invalid modifier: ", s),
            ParseError::InvalidSequence(s) => ("Invalid sequence: ", s),
        };
        let mut out = String::from_str(prefix);
        let tail = chars_of(rest.as_str());
        push_chars(&mut out, tail.as_slice());
        out
    }
}

/// A decimal digit.
pub open spec fn is_digit(c: char) -> bool {
    '0' <= c <= '9'
}

/// The value of a string of decimal digits.
pub open spec fn digits_value(s: Seq<char>) -> nat
    decreases s.len(),
{
    if s.len() == 0 {
        0
    } else {
        digits_value(s.drop_last()) * 10 + ((s.last() as u32) - 48) as nat
    }
}

/// Every character of `d` is a decimal digit.
pub open spec fn all_digits(d: Seq<char>) -> bool {
    forall|i: int| 0 <= i < d.len() ==> is_digit(#[trigger] d[i])
}

/// `s` without a leading `+`.
pub open spec fn unsigned_digits(s: Seq<char>) -> Seq<char> {
    if s.len() > 0 && s[0] == '+' {
        s.drop_first()
    } else {
        s
    }
}

/// The unsigned byte a string spells (as `str::parse::<u8>`): an optional
/// `+` followed by one or more decimal digits whose value is at most 255.
pub open spec fn parse_u8(s: Seq<char>) -> Option<u8> {
    let d = unsigned_digits(s);
    if d.len() > 0 && all_digits(d) && digits_value(d) <= 255 {
        Some(digits_value(d) as u8)
    } else {
        None
    }
}

proof fn lemma_digits_value_prefix(s: Seq<char>, i: int)
    requires
        0 <= i <= s.len(),
        forall|k: int| 0 <= k < s.len() ==> is_digit(#[trigger] s[k]),
    ensures
        digits_value(s.subrange(0, i)) <= digits_value(s),
    decreases s.len() - i,
{
    if i < s.len() {
        lemma_digits_value_prefix(s, i + 1);
        assert(s.subrange(0, i + 1).drop_last() =~= s.subrange(0, i));
    } else {
        assert(s.subrange(0, i) =~= s);
    }
}

/// Parses an unsigned byte (see `parse_u8`).
fn parse_u8_chars(s: &[char]) -> (r: Option<u8>)
    ensures
        r == parse_u8(s@),
{
    let start: usize = if s.len() > 0 && s[0] == '+' {
        1
    } else {
        0
    };
    let ghost d = unsigned_digits(s@);
    assert(d =~= s@.subrange(start as int, s@.len() as int));
    if start == s.len() {
        return None;
    }
    let mut acc: u32 = 0;
    let mut i: usize = start;
    while i < s.len()
        invariant
            start <= i <= s.len(),
            d == s@.subrange(start as int, s@.len() as int),
            d == unsigned_digits(s@),
            forall|k: int| start <= k < i ==> is_digit(#[trigger] s@[k]),
            acc as nat == digits_value(s@.subrange(start as int, i as int)),
            acc <= 255,
        decreases s.len() - i,
    {
        let c = s[i];
        if !('0' <= c && c <= '9') {
            assert(d[i - start] == s@[i as int]);
            return None;
        }
        let v = acc * 10 + (c as u32 - 48);
        assert(s@.subrange(start as int, i + 1).drop_last() =~= s@.subrange(start as int, i as int));
        if v > 255 {
            proof {
                if all_digits(d) {
                    lemma_digits_value_prefix(d, i + 1 - start);
                    assert(d.subrange(0, i + 1 - start) =~= s@.subrange(start as int, i + 1));
                }
            }
            return None;
        }
        acc = v;
        i += 1;
    }
    assert(s@.subrange(start as int, i as int) =~= d);
    assert forall|k: int| 0 <= k < d.len() implies is_digit(#[trigger] d[k]) by {
        assert(d[k] == s@[k + start]);
    }
    Some(acc as u8)
}

/// A named key: `enter`, `escape`, `tab`, the arrows and so on, with their aliases.
pub open spec fn named_key(s: Seq<char>) -> Option<Key> {
    if s == "enter"@ || s == "return"@ || s == "cr"@ {
        Some(Key::Enter)
    } else if s == "escape"@ || s == "esc"@ {
        Some(Key::Escape)
    } else if s == "backspace"@ || s == "bs"@ {
        Some(Key::Backspace)
    } else if s == "delete"@ || s == "del"@ {
        Some(Key::Delete)
    } else if s == "tab"@ {
        Some(Key::Tab)
    } else if s == "space"@ || s == "sp"@ {
        Some(Key::Space)
    } else if s == "up"@ || s == "arrow_up"@ {
        Some(Key::ArrowUp)
    } else if s == "down"@ || s == "arrow_down"@ {
        Some(Key::ArrowDown)
    } else if s == "left"@ || s == "arrow_left"@ {
        Some(Key::ArrowLeft)
    } else if s == "right"@ || s == "arrow_right"@ {
        Some(Key::ArrowRight)
    } else if s == "home"@ {
        Some(Key::Home)
    } else if s == "end"@ {
        Some(Key::End)
    } else if s == "page_up"@ || s == "pgup"@ {
        Some(Key::PageUp)
    } else if s == "page_down"@ || s == "pgdn"@ {
        Some(Key::PageDown)
    } else {
        None
    }
}

/// The key a key name denotes: a named key; `f` followed by a number, of
/// two or three bytes in all, for a function key; a one-byte string (a lone
/// `f` among them) for that character; nothing otherwise.
pub open spec fn key_of(s: Seq<char>) -> Option<Key> {
    match named_key(s) {
        Some(k) => Some(k),
        None => if s.len() > 1 && s[0] == 'f' && utf8_len(s) <= 3 {
            match parse_u8(s.drop_first()) {
                Some(n) => Some(Key::F(n)),
                None => None,
            }
        } else if utf8_len(s) == 1 {
            Some(Key::Character(s[0]))
        } else {
            None
        },
    }
}

/// Each key name denotes its own key, and no other string denotes it:
/// `enter`, `return` and `cr` are Enter; `escape` and `esc` are Escape;
/// `backspace` and `bs` Backspace; `delete` and `del` Delete; `tab` Tab;
/// `space` and `sp` Space; `up`, `down`, `left`, `right` and their
/// `arrow_` forms the four arrows, each its own; `home` Home; `end` End;
/// `page_up` and `pgup` PageUp; `page_down` and `pgdn` PageDown.
pub proof fn lemma_key_names(s: Seq<char>)
    ensures
        key_of(s) == Some(Key::Enter) <==> (s == "enter"@ || s == "return"@ || s == "cr"@),
        key_of(s) == Some(Key::Escape) <==> (s == "escape"@ || s == "esc"@),
        key_of(s) == Some(Key::Backspace) <==> (s == "backspace"@ || s == "bs"@),
        key_of(s) == Some(Key::Delete) <==> (s == "delete"@ || s == "del"@),
        key_of(s) == Some(Key::Tab) <==> (s == "tab"@),
        key_of(s) == Some(Key::Space) <==> (s == "space"@ || s == "sp"@),
        key_of(s) == Some(Key::ArrowUp) <==> (s == "up"@ || s == "arrow_up"@),
        key_of(s) == Some(Key::ArrowDown) <==> (s == "down"@ || s == "arrow_down"@),
        key_of(s) == Some(Key::ArrowLeft) <==> (s == "left"@ || s == "arrow_left"@),
        key_of(s) == Some(Key::ArrowRight) <==> (s == "right"@ || s == "arrow_right"@),
        key_of(s) == Some(Key::Home) <==> (s == "home"@),
        key_of(s) == Some(Key::End) <==> (s == "end"@),
        key_of(s) == Some(Key::PageUp) <==> (s == "page_up"@ || s == "pgup"@),
        key_of(s) == Some(Key::PageDown) <==> (s == "page_down"@ || s == "pgdn"@),
{
    reveal_strlit("enter");
    reveal_strlit("return");
    reveal_strlit("cr");
    reveal_strlit("escape");
    reveal_strlit("esc");
    reveal_strlit("backspace");
    reveal_strlit("bs");
    reveal_strlit("delete");
    reveal_strlit("del");
    reveal_strlit("tab");
    reveal_strlit("space");
    reveal_strlit("sp");
    reveal_strlit("up");
    reveal_strlit("arrow_up");
    reveal_strlit("down");
    reveal_strlit("arrow_down");
    reveal_strlit("left");
    reveal_strlit("arrow_left");
    reveal_strlit("right");
    reveal_strlit("arrow_right");
    reveal_strlit("home");
    reveal_strlit("end");
    reveal_strlit("page_up");
    reveal_strlit("pgup");
    reveal_strlit("page_down");
    reveal_strlit("pgdn");
    assert("enter"@[0] != "space"@[0]);
    assert("enter"@[0] != "right"@[0]);
    assert("return"@[0] != "escape"@[0]);
    assert("return"@[0] != "delete"@[0]);
    assert("cr"@[0] != "bs"@[0]);
    assert("cr"@[0] != "sp"@[0]);
    assert("cr"@[0] != "up"@[0]);
    assert("escape"@[0] != "delete"@[0]);
    assert("esc"@[0] != "del"@[0]);
    assert("esc"@[0] != "tab"@[0]);
    assert("esc"@[1] != "end"@[1]);
    assert("backspace"@[0] != "page_down"@[0]);
    assert("bs"@[0] != "sp"@[0]);
    assert("bs"@[0] != "up"@[0]);
    assert("del"@[0] != "tab"@[0]);
    assert("del"@[0] != "end"@[0]);
    assert("tab"@[0] != "end"@[0]);
    assert("space"@[0] != "right"@[0]);
    assert("sp"@[0] != "up"@[0]);
    assert("down"@[0] != "left"@[0]);
    assert("down"@[0] != "home"@[0]);
    assert("down"@[0] != "pgup"@[0]);
    assert("down"@[0] != "pgdn"@[0]);
    assert("arrow_down"@[6] != "arrow_left"@[6]);
    assert("left"@[0] != "home"@[0]);
    assert("left"@[0] != "pgup"@[0]);
    assert("left"@[0] != "pgdn"@[0]);
    assert("home"@[0] != "pgup"@[0]);
    assert("home"@[0] != "pgdn"@[0]);
    assert("pgup"@[2] != "pgdn"@[2]);
}

/// `p` followed by the rest of `s`.
pub open spec fn has_prefix(s: Seq<char>, p: Seq<char>) -> bool {
    p.len() <= s.len() && s.subrange(0, p.len() as int) == p
}

/// The modifier prefixes `ctrl+`, `alt+`, `shift+` and `meta+` at the start
/// of `s`, in any order and number, added to `m`, and what follows them.
pub open spec fn strip_modifiers(s: Seq<char>, m: Modifiers) -> (Modifiers, Seq<char>)
    decreases s.len(),
{
    if has_prefix(s, seq!['c', 't', 'r', 'l', '+']) {
        strip_modifiers(s.skip(5), Modifiers { ctrl: true, ..m })
    } else if has_prefix(s, seq!['a', 'l', 't', '+']) {
        strip_modifiers(s.skip(4), Modifiers { alt: true, ..m })
    } else if has_prefix(s, seq!['s', 'h', 'i', 'f', 't', '+']) {
        strip_modifiers(s.skip(6), Modifiers { shift: true, ..m })
    } else if has_prefix(s, seq!['m', 'e', 't', 'a', '+']) {
        strip_modifiers(s.skip(5), Modifiers { meta: true, ..m })
    } else {
        (m, s)
    }
}

/// What a lowercased, trimmed key string parses to: the combination, or the
/// key name that was not understood.
pub open spec fn combo_of(t: Seq<char>) -> Result<KeyCombo, Seq<char>> {
    let (m, rest) = strip_modifiers(t, no_modifiers());
    match key_of(rest) {
        Some(k) => Ok(KeyCombo { key: k, modifiers: m }),
        None => Err(rest),
    }
}

/// `r` is the exec form of the parse outcome `o`: the same value, or an
/// invalid-key error naming the same text.
pub open spec fn combo_outcome(r: Result<KeyCombo, ParseError>, o: Result<KeyCombo, Seq<char>>) -> bool {
    match r {
        Ok(c) => o == Ok::<KeyCombo, Seq<char>>(c),
        Err(ParseError::InvalidKey(s)) => o == Err::<KeyCombo, Seq<char>>(s@),
        Err(_) => false,
    }
}

/// Lowercasing as `str::to_lowercase` does it (see `lowercase`).
pub open spec fn lowercase_fn() -> spec_fn(Seq<char>) -> Seq<char> {
    |t: Seq<char>| lowercase(t)
}

/// Lowercasing of ASCII letters only, which is what `str::to_lowercase`
/// does on an all-ASCII string.
pub open spec fn ascii_lower_fn() -> spec_fn(Seq<char>) -> Seq<char> {
    |t: Seq<char>| ascii_lower_str(t)
}

/// `s` trimmed, lowered by `low`, then parsed as a combination.
pub open spec fn combo_with(s: Seq<char>, low: spec_fn(Seq<char>) -> Seq<char>) -> Result<KeyCombo, Seq<char>> {
    combo_of(low(trimmed(s)))
}

/// What `parse_combo` gives for `s`: `s` is trimmed and lowercased, then parsed.
pub open spec fn parse_combo_spec(s: Seq<char>) -> Result<KeyCombo, Seq<char>> {
    combo_with(s, lowercase_fn())
}

/// Parses key strings into combinations and sequences.
pub struct KeyParser;

fn key_from_chars(s: &[char]) -> (r: Option<Key>)
    ensures
        r == key_of(s@),
{
    if chars_eq_str(s, "enter") || chars_eq_str(s, "return") || chars_eq_str(s, "cr") {
        return Some(Key::Enter);
    }
    if chars_eq_str(s, "escape") || chars_eq_str(s, "esc") {
        return Some(Key::Escape);
    }
    if chars_eq_str(s, "backspace") || chars_eq_str(s, "bs") {
        return Some(Key::Backspace);
    }
    if chars_eq_str(s, "delete") || chars_eq_str(s, "del") {
        return Some(Key::Delete);
    }
    if chars_eq_str(s, "tab") {
        return Some(Key::Tab);
    }
    if chars_eq_str(s, "space") || chars_eq_str(s, "sp") {
        return Some(Key::Space);
    }
    if chars_eq_str(s, "up") || chars_eq_str(s, "arrow_up") {
        return Some(Key::ArrowUp);
    }
    if chars_eq_str(s, "down") || chars_eq_str(s, "arrow_down") {
        return Some(Key::ArrowDown);
    }
    if chars_eq_str(s, "left") || chars_eq_str(s, "arrow_left") {
        return Some(Key::ArrowLeft);
    }
    if chars_eq_str(s, "right") || chars_eq_str(s, "arrow_right") {
        return Some(Key::ArrowRight);
    }
    if chars_eq_str(s, "home") {
        return Some(Key::Home);
    }
    if chars_eq_str(s, "end") {
        return Some(Key::End);
    }
    if chars_eq_str(s, "page_up") || chars_eq_str(s, "pgup") {
        return Some(Key::PageUp);
    }
    if chars_eq_str(s, "page_down") || chars_eq_str(s, "pgdn") {
        return Some(Key::PageDown);
    }
    let bytes = utf8_len_up_to(s, 4);
    if s.len() > 1 && s[0] == 'f' && bytes <= 3 {
        let rest = slice_chars(s, 1, s.len());
        assert(rest@ =~= s@.drop_first());
        return match parse_u8_chars(rest.as_slice()) {
            Some(n) => Some(Key::F(n)),
            None => None,
        };
    }
    if bytes == 1 {
        proof {
            if s@.len() == 0 {
                assert(utf8_len(s@) == 0);
            }
        }
        return Some(Key::Character(s[0]));
    }
    None
}

fn strip_modifier_prefixes(s: &[char]) -> (r: (Modifiers, Vec<char>))
    ensures
        (r.0, r.1@) == strip_modifiers(s@, no_modifiers()),
{
    let ctrl = chars_of("ctrl+");
    let alt = chars_of("alt+");
    let shift = chars_of("shift+");
    let meta = chars_of("meta+");
    proof {
        reveal_strlit("ctrl+");
        reveal_strlit("alt+");
        reveal_strlit("shift+");
        reveal_strlit("meta+");
        assert(ctrl@ =~= seq!['c', 't', 'r', 'l', '+']);
        assert(alt@ =~= seq!['a', 'l', 't', '+']);
        assert(shift@ =~= seq!['s', 'h', 'i', 'f', 't', '+']);
        assert(meta@ =~= seq!['m', 'e', 't', 'a', '+']);
    }
    let mut m = Modifiers::NONE();
    let mut pos: usize = 0;
    let mut rest = slice_chars(s, 0, s.len());
    assert(rest@ =~= s@.skip(0));
    assert(s@.skip(0) =~= s@);
    loop
        invariant
            pos <= s.len(),
            rest@ == s@.skip(pos as int),
            ctrl@ == seq!['c', 't', 'r', 'l', '+'],
            alt@ == seq!['a', 'l', 't', '+'],
            shift@ == seq!['s', 'h', 'i', 'f', 't', '+'],
            meta@ == seq!['m', 'e', 't', 'a', '+'],
            strip_modifiers(s@, no_modifiers()) == strip_modifiers(rest@, m),
        ensures
            strip_modifiers(s@, no_modifiers()) == (m, rest@),
        decreases s.len() - pos,
    {
        let step: usize;
        if starts_with_chars(rest.as_slice(), ctrl.as_slice()) {
            m.ctrl = true;
            step = 5;
        } else if starts_with_chars(rest.as_slice(), alt.as_slice()) {
            m.alt = true;
            step = 4;
        } else if starts_with_chars(rest.as_slice(), shift.as_slice()) {
            m.shift = true;
            step = 6;
        } else if starts_with_chars(rest.as_slice(), meta.as_slice()) {
            m.meta = true;
            step = 5;
        } else {
            break;
        }
        let next = slice_chars(rest.as_slice(), step, rest.len());
        assert(next@ =~= s@.skip(pos + step));
        rest = next;
        pos = pos + step;
    }
    (m, rest)
}

impl KeyParser {
    /// Parses a key string that is already trimmed and lowercased: modifier
    /// prefixes, then a key name (see `combo_of`).
    pub fn parse_lowered_combo(t: &str) -> (r: Result<KeyCombo, ParseError>)
        ensures
            combo_outcome(r, combo_of(t@)),
    {
        let chars = chars_of(t);
        let (m, rest) = strip_modifier_prefixes(chars.as_slice());
        match key_from_chars(rest.as_slice()) {
            Some(k) => Ok(KeyCombo::new(k, m)),
            None => Err(ParseError::InvalidKey(string_from_chars(rest.as_slice()))),
        }
    }

    /// Parses a key combination such as `ctrl+shift+k`, `enter` or `f5`:
    /// the string is trimmed and lowercased first.
    pub fn parse_combo(s: &str) -> (r: Result<KeyCombo, ParseError>)
        ensures
            combo_outcome(r, parse_combo_spec(s@)),
            all_ascii(trimmed(s@)) ==> combo_outcome(r, combo_with(s@, ascii_lower_fn())),
    {
        let chars = chars_of(s);
        let t = trim_chars(chars.as_slice());
        let ts = string_from_chars(t.as_slice());
        let lowered = to_lowercase(ts.as_str());
        Self::parse_lowered_combo(lowered.as_str())
    }
}


/// `s` split at every `sep` (as `str::split`): always at least one part.
pub open spec fn split_on(s: Seq<char>, sep: char) -> Seq<Seq<char>>
    decreases s.len(),
{
    if s.len() == 0 {
        seq![Seq::<char>::empty()]
    } else {
        let r = split_on(s.drop_last(), sep);
        if s.last() == sep {
            r.push(Seq::<char>::empty())
        } else {
            r.update(r.len() - 1, r.last().push(s.last()))
        }
    }
}

proof fn lemma_split_on_nonempty(s: Seq<char>, sep: char)
    ensures
        split_on(s, sep).len() >= 1,
    decreases s.len(),
{
    if s.len() > 0 {
        lemma_split_on_nonempty(s.drop_last(), sep);
    }
}

proof fn lemma_split_on_ascii(s: Seq<char>, sep: char)
    requires
        all_ascii(s),
    ensures
        forall|i: int| 0 <= i < split_on(s, sep).len() ==> all_ascii(#[trigger] split_on(s, sep)[i]),
    decreases s.len(),
{
    if s.len() > 0 {
        let d = s.drop_last();
        assert(all_ascii(d)) by {
            assert forall|i: int| 0 <= i < d.len() implies (#[trigger] d[i] as u32) < 128 by {
                assert(d[i] == s[i]);
            }
        }
        lemma_split_on_ascii(d, sep);
        lemma_split_on_nonempty(d, sep);
        let r = split_on(d, sep);
        if s.last() != sep {
            let l = r.last().push(s.last());
            assert(all_ascii(r.last()));
            assert(all_ascii(l)) by {
                assert forall|i: int| 0 <= i < l.len() implies (#[trigger] l[i] as u32) < 128 by {
                    if i < r.last().len() {
                        assert(l[i] == r.last()[i]);
                    } else {
                        assert(l[i] == s[s.len() - 1]);
                    }
                }
            }
            let w = r.update(r.len() - 1, l);
            assert forall|i: int| 0 <= i < w.len() implies all_ascii(#[trigger] w[i]) by {
                if i < r.len() - 1 {
                    assert(w[i] == r[i]);
                }
            }
        } else {
            let w = r.push(Seq::<char>::empty());
            assert forall|i: int| 0 <= i < w.len() implies all_ascii(#[trigger] w[i]) by {
                if i < r.len() {
                    assert(w[i] == r[i]);
                }
            }
        }
    }
}

/// Each part parsed as a combination (see `combo_with`); the first part
/// that fails decides the error.
pub open spec fn combos_with(parts: Seq<Seq<char>>, low: spec_fn(Seq<char>) -> Seq<char>) -> Result<
    Seq<KeyCombo>,
    Seq<char>,
>
    decreases parts.len(),
{
    if parts.len() == 0 {
        Ok(Seq::empty())
    } else {
        match combos_with(parts.drop_last(), low) {
            Err(e) => Err(e),
            Ok(cs) => match combo_with(parts.last(), low) {
                Ok(c) => Ok(cs.push(c)),
                Err(e) => Err(e),
            },
        }
    }
}

proof fn lemma_combos_with_error_stays(p: Seq<Seq<char>>, q: Seq<Seq<char>>, low: spec_fn(Seq<char>) -> Seq<char>)
    requires
        combos_with(p, low) is Err,
    ensures
        combos_with(p + q, low) == combos_with(p, low),
    decreases q.len(),
{
    if q.len() == 0 {
        assert(p + q =~= p);
    } else {
        lemma_combos_with_error_stays(p, q.drop_last(), low);
        assert((p + q).drop_last() =~= p + q.drop_last());
    }
}

/// A key string that the plain sequence parse cannot take: once trimmed, a
/// single character that is two bytes long in UTF-8.
pub open spec fn plain_sequence_panics(s: Seq<char>) -> bool {
    let t = trimmed(s);
    t.len() == 1 && utf8_len(t) == 2
}

/// What a key string without the leader prefix parses to (trimmed), key
/// names lowered by `low`: a two-byte string of one repeated character
/// without `+` or `<` is the chord of that character twice; a string
/// without `,` is one combination; otherwise the comma-separated
/// combinations.
pub open spec fn plain_sequence_with(s: Seq<char>, low: spec_fn(Seq<char>) -> Seq<char>) -> Result<
    Seq<KeyCombo>,
    Seq<char>,
> {
    let t = trimmed(s);
    if utf8_len(t) == 2 && !t.contains('+') && !t.contains('<') && t.len() == 2 && t[0] == t[1] {
        let c = KeyCombo { key: Key::Character(t[0]), modifiers: no_modifiers() };
        Ok(seq![c, c])
    } else if !t.contains(',') {
        match combo_with(t, low) {
            Ok(c) => Ok(seq![c]),
            Err(e) => Err(e),
        }
    } else {
        combos_with(split_on(t, ','), low)
    }
}

/// The prefix `<leader>` that stands for the leader key in a chord.
pub open spec fn leader_prefix() -> Seq<char> {
    seq!['<', 'l', 'e', 'a', 'd', 'e', 'r', '>']
}

/// The leader key: backslash, as in vim, without modifiers.
pub open spec fn leader_combo() -> KeyCombo {
    KeyCombo { key: Key::Character('\\'), modifiers: no_modifiers() }
}

/// What follows the `<leader>` prefix of the trimmed string `t`.
pub open spec fn after_leader(t: Seq<char>) -> Seq<char> {
    t.skip(leader_prefix().len() as int)
}

/// A key string that `parse_sequence` cannot take: the plain part of it (all
/// of it, or what follows `<leader>`) is a single two-byte character.
pub open spec fn sequence_panics(s: Seq<char>) -> bool {
    let t = trimmed(s);
    if has_prefix(t, leader_prefix()) {
        plain_sequence_panics(after_leader(t))
    } else {
        plain_sequence_panics(s)
    }
}

/// What a key string parses to, key names lowered by `low`: once trimmed,
/// `<leader>` followed by keys is the leader key and then those keys
/// (`<leader>` alone is the leader key); any other string is parsed as in
/// `plain_sequence_with`.
pub open spec fn sequence_with(s: Seq<char>, low: spec_fn(Seq<char>) -> Seq<char>) -> Result<
    Seq<KeyCombo>,
    Seq<char>,
> {
    let t = trimmed(s);
    if has_prefix(t, leader_prefix()) {
        let rest = after_leader(t);
        if trimmed(rest).len() == 0 {
            Ok(seq![leader_combo()])
        } else {
            match plain_sequence_with(rest, low) {
                Ok(ks) => Ok(seq![leader_combo()] + ks),
                Err(e) => Err(e),
            }
        }
    } else {
        plain_sequence_with(s, low)
    }
}

/// What `parse_sequence` gives for `s`: key names are lowercased as
/// `str::to_lowercase` does it.
pub open spec fn sequence_of(s: Seq<char>) -> Result<Seq<KeyCombo>, Seq<char>> {
    sequence_with(s, lowercase_fn())
}

/// What `parse_sequence` gives for an all-ASCII `s`: only ASCII letters are
/// lowered.
pub open spec fn ascii_sequence_of(s: Seq<char>) -> Result<Seq<KeyCombo>, Seq<char>> {
    sequence_with(s, ascii_lower_fn())
}

/// `s` parses as a key sequence: under `str::to_lowercase`, or, for an
/// all-ASCII string, under ASCII lowering, which also describes what
/// `parse_sequence` gives for such a string.
pub open spec fn key_string_parses(s: Seq<char>) -> bool {
    sequence_of(s) is Ok || (all_ascii(s) && ascii_sequence_of(s) is Ok)
}

/// `r` is the exec form of the sequence parse outcome `o`.
pub open spec fn sequence_outcome(r: Result<KeySequence, ParseError>, o: Result<Seq<KeyCombo>, Seq<char>>) -> bool {
    match r {
        Ok(q) => o == Ok::<Seq<KeyCombo>, Seq<char>>(q.keys@),
        Err(ParseError::InvalidKey(e)) => o == Err::<Seq<KeyCombo>, Seq<char>>(e@),
        Err(_) => false,
    }
}

/// The characters of each vector.
pub open spec fn char_views(v: Seq<Vec<char>>) -> Seq<Seq<char>> {
    v.map_values(|x: Vec<char>| x@)
}

fn split_commas(t: &[char]) -> (parts: Vec<Vec<char>>)
    ensures
        char_views(parts@) == split_on(t@, ','),
{
    let mut parts: Vec<Vec<char>> = Vec::new();
    let mut cur: Vec<char> = Vec::new();
    let mut i: usize = 0;
    assert(t@.subrange(0, 0) =~= Seq::<char>::empty());
    assert(char_views(parts@).push(cur@) =~= split_on(Seq::<char>::empty(), ','));
    while i < t.len()
        invariant
            i <= t.len(),
            char_views(parts@).push(cur@) == split_on(t@.subrange(0, i as int), ','),
        decreases t.len() - i,
    {
        let ghost before = char_views(parts@);
        let ghost cur_before = cur@;
        assert(t@.subrange(0, i + 1).drop_last() =~= t@.subrange(0, i as int));
        if t[i] == ',' {
            let done = cur;
            parts.push(done);
            cur = Vec::new();
            assert(char_views(parts@) =~= before.push(cur_before));
            assert(char_views(parts@).push(cur@) =~= before.push(cur_before).push(Seq::<char>::empty()));
        } else {
            cur.push(t[i]);
            assert(char_views(parts@).push(cur@) =~= before.push(cur_before).update(
                before.len() as int,
                cur_before.push(t@[i as int]),
            ));
        }
        i += 1;
    }
    assert(t@.subrange(0, t.len() as int) =~= t@);
    let ghost before = char_views(parts@);
    let ghost last = cur@;
    parts.push(cur);
    assert(char_views(parts@) =~= before.push(last));
    parts
}

impl KeyParser {
    /// Parses a key sequence without the leader prefix: `dd`-style repeated
    /// characters, a single combination, or comma-separated combinations
    /// (see `plain_sequence_with`).
    fn parse_plain_sequence(s: &str) -> (r: Result<KeySequence, ParseError>)
        requires
            !plain_sequence_panics(s@),
        ensures
            sequence_outcome(r, plain_sequence_with(s@, lowercase_fn())),
            all_ascii(s@) ==> sequence_outcome(r, plain_sequence_with(s@, ascii_lower_fn())),
    {
        let chars = chars_of(s);
        let t = trim_chars(chars.as_slice());
        let bytes = utf8_len_up_to(t.as_slice(), 3);
        if bytes == 2 && !contains_char(t.as_slice(), '+') && !contains_char(t.as_slice(), '<') {
            proof {
                crate::text::lemma_utf8_len_at_least_len(t@);
            }
            if t[0] == t[1] {
                let combo = KeyCombo::plain(Key::Character(t[0]));
                let mut keys: Vec<KeyCombo> = Vec::new();
                keys.push(combo);
                keys.push(combo);
                assert(keys@ =~= seq![combo, combo]);
                return Ok(KeySequence::chord(keys));
            }
        }
        if !contains_char(t.as_slice(), ',') {
            let ts = string_from_chars(t.as_slice());
            proof {
                crate::text::lemma_trimmed_idempotent(s@);
                if all_ascii(s@) {
                    crate::text::lemma_all_ascii_trimmed(s@);
                    crate::text::lemma_all_ascii_trimmed(t@);
                }
            }
            return match Self::parse_combo(ts.as_str()) {
                Ok(c) => Ok(KeySequence::single(c)),
                Err(e) => Err(e),
            };
        }
        assert(plain_sequence_with(s@, lowercase_fn()) == combos_with(split_on(t@, ','), lowercase_fn()));
        assert(plain_sequence_with(s@, ascii_lower_fn()) == combos_with(split_on(t@, ','), ascii_lower_fn()));
        let ghost asc = all_ascii(s@);
        proof {
            if asc {
                crate::text::lemma_all_ascii_trimmed(s@);
                lemma_split_on_ascii(t@, ',');
            }
        }
        let parts = split_commas(t.as_slice());
        let mut combos: Vec<KeyCombo> = Vec::new();
        let mut k: usize = 0;
        assert(char_views(parts@).subrange(0, 0) =~= Seq::<Seq<char>>::empty());
        while k < parts.len()
            invariant
                k <= parts@.len(),
                char_views(parts@) == split_on(t@, ','),
                plain_sequence_with(s@, lowercase_fn()) == combos_with(split_on(t@, ','), lowercase_fn()),
                plain_sequence_with(s@, ascii_lower_fn()) == combos_with(split_on(t@, ','), ascii_lower_fn()),
                asc == all_ascii(s@),
                asc ==> forall|i: int| 0 <= i < split_on(t@, ',').len() ==> all_ascii(#[trigger] split_on(t@, ',')[i]),
                combos_with(char_views(parts@).subrange(0, k as int), lowercase_fn()) == Ok::<
                    Seq<KeyCombo>,
                    Seq<char>,
                >(combos@),
                asc ==> combos_with(char_views(parts@).subrange(0, k as int), ascii_lower_fn()) == Ok::<
                    Seq<KeyCombo>,
                    Seq<char>,
                >(combos@),
            decreases parts@.len() - k,
        {
            let ps = string_from_chars(parts[k].as_slice());
            let ghost pre = char_views(parts@).subrange(0, k as int);
            assert(char_views(parts@).subrange(0, k + 1) =~= pre.push(char_views(parts@)[k as int]));
            assert(char_views(parts@)[k as int] == parts@[k as int]@);
            assert(ps@ == pre.push(parts@[k as int]@).last());
            assert(pre.push(parts@[k as int]@).drop_last() =~= pre);
            proof {
                if asc {
                    assert(all_ascii(split_on(t@, ',')[k as int]));
                    crate::text::lemma_all_ascii_trimmed(ps@);
                }
            }
            match Self::parse_combo(ps.as_str()) {
                Ok(c) => {
                    combos.push(c);
                },
                Err(e) => {
                    proof {
                        let all = char_views(parts@);
                        lemma_combos_with_error_stays(
                            all.subrange(0, k + 1),
                            all.subrange(k + 1, all.len() as int),
                            lowercase_fn(),
                        );
                        if asc {
                            lemma_combos_with_error_stays(
                                all.subrange(0, k + 1),
                                all.subrange(k + 1, all.len() as int),
                                ascii_lower_fn(),
                            );
                        }
                        assert(all.subrange(0, k + 1) + all.subrange(k + 1, all.len() as int) =~= all);
                    }
                    return Err(e);
                },
            }
            k += 1;
        }
        assert(char_views(parts@).subrange(0, parts@.len() as int) =~= char_views(parts@));
        Ok(KeySequence::chord(combos))
    }
}

impl KeyParser {
    /// Parses a key sequence: `<leader>` followed by keys (the leader key,
    /// then those keys), `dd`-style repeated characters, a single
    /// combination, or comma-separated combinations (see `sequence_of`).
    pub fn parse_sequence(s: &str) -> (r: Result<KeySequence, ParseError>)
        requires
            !sequence_panics(s@),
        ensures
            sequence_outcome(r, sequence_of(s@)),
            all_ascii(s@) ==> sequence_outcome(r, ascii_sequence_of(s@)),
    {
        let chars = chars_of(s);
        let t = trim_chars(chars.as_slice());
        proof {
            if all_ascii(s@) {
                crate::text::lemma_all_ascii_trimmed(s@);
            }
        }
        let leader = chars_of("<leader>");
        proof {
            reveal_strlit("<leader>");
            assert(leader@ =~= leader_prefix());
        }
        if !starts_with_chars(t.as_slice(), leader.as_slice()) {
            proof {
                assert(!has_prefix(t@, leader_prefix()));
            }
            return Self::parse_plain_sequence(s);
        }
        assert(has_prefix(t@, leader_prefix()));
        let rest = slice_chars(t.as_slice(), 8, t.len());
        assert(rest@ =~= after_leader(t@));
        let lead = KeyCombo::plain(Key::Character('\\'));
        let rest_trimmed = trim_chars(rest.as_slice());
        if rest_trimmed.len() == 0 {
            let mut keys: Vec<KeyCombo> = Vec::new();
            keys.push(lead);
            assert(keys@ =~= seq![leader_combo()]);
            return Ok(KeySequence::chord(keys));
        }
        let rs = string_from_chars(rest.as_slice());
        proof {
            if all_ascii(s@) {
                assert forall|i: int| 0 <= i < rs@.len() implies (#[trigger] rs@[i] as u32) < 128 by {
                    assert(rs@[i] == t@[i + 8]);
                }
            }
        }
        match Self::parse_plain_sequence(rs.as_str()) {
            Ok(q) => {
                let mut keys: Vec<KeyCombo> = Vec::new();
                keys.push(lead);
                let mut i: usize = 0;
                while i < q.keys.len()
                    invariant
                        i <= q.keys@.len(),
                        keys@ == seq![leader_combo()] + q.keys@.subrange(0, i as int),
                    decreases q.keys@.len() - i,
                {
                    keys.push(q.keys[i]);
                    assert(q.keys@.subrange(0, i + 1) =~= q.keys@.subrange(0, i as int).push(q.keys@[i as int]));
                    i += 1;
                }
                assert(q.keys@.subrange(0, q.keys@.len() as int) =~= q.keys@);
                Ok(KeySequence::chord(keys))
            },
            Err(e) => Err(e),
        }
    }
}


// ---------------------------------------------------------------------------
// Bindings
// ---------------------------------------------------------------------------

/// When a binding is active.
#[derive(Debug, Clone)]
pub enum BindingCondition {
    /// Active in this mode.
    Mode(String),
    /// Active in this focus scope (not checked: always active).
    FocusScope(String),
    /// A condition evaluated elsewhere (not checked: always active).
    Custom(String),
}

/// A key sequence bound to a command.
#[derive(Debug, Clone)]
pub struct KeyBinding {
    pub id: String,
    pub sequence: KeySequence,
    pub command: String,
    pub description: Option<String>,
    pub condition: Option<BindingCondition>,
    pub enabled: bool,
}

/// The characters of an optional string.
pub open spec fn opt_str_view(o: Option<&str>) -> Option<Seq<char>> {
    match o {
        Some(m) => Some(m@),
        None => None,
    }
}

/// Whether the condition `c` allows the binding in `mode`: a mode condition
/// needs that very mode; the others always allow it.
pub open spec fn condition_holds(c: Option<BindingCondition>, mode: Option<Seq<char>>) -> bool {
    match c {
        Some(BindingCondition::Mode(m)) => mode == Some(m@),
        _ => true,
    }
}

/// The binding is enabled, its condition holds in `mode`, and the first
/// combination of its sequence is the key of `e`.
pub open spec fn binding_matches(b: KeyBinding, e: KeyEvent, mode: Option<Seq<char>>) -> bool {
    &&& b.enabled
    &&& condition_holds(b.condition, mode)
    &&& b.sequence.keys@.len() > 0
    &&& combo_matches(b.sequence.keys@[0], e)
}

/// The binding made by `KeyBinding::new` from parsed keys.
pub open spec fn made_binding(b: KeyBinding, id: Seq<char>, keys: Seq<KeyCombo>, description: Seq<char>) -> bool {
    &&& b.id@ == id
    &&& b.command@ == id
    &&& b.sequence.keys@ == keys
    &&& b.description matches Some(d) && d@ == description
    &&& b.condition is None
    &&& b.enabled
}

impl KeyBinding {
    /// A binding of `key_str` (see `KeyParser::parse_sequence`) whose id and
    /// command are `id`, enabled and without condition. The key string must parse.
    pub fn new(id: &str, key_str: &str, description: &str) -> (b: KeyBinding)
        requires
            !sequence_panics(key_str@),
            key_string_parses(key_str@),
        ensures
            sequence_of(key_str@) matches Ok(keys) && made_binding(b, id@, keys, description@),
    {
        let sequence = match KeyParser::parse_sequence(key_str) {
            Ok(q) => q,
            Err(_) => {
                assert(false);
                KeySequence { keys: Vec::new() }
            },
        };
        KeyBinding {
            id: String::from_str(id),
            sequence,
            command: String::from_str(id),
            description: Some(String::from_str(description)),
            condition: None,
            enabled: true,
        }
    }

    /// `KeyBinding::new` when `key_str` parses; the parse error otherwise.
    pub fn try_new(id: &str, key_str: &str, description: &str) -> (r: Result<KeyBinding, ParseError>)
        requires
            !sequence_panics(key_str@),
        ensures
            match r {
                Ok(b) => sequence_of(key_str@) matches Ok(keys) && made_binding(b, id@, keys, description@),
                Err(ParseError::InvalidKey(e)) => sequence_of(key_str@) == Err::<Seq<KeyCombo>, Seq<char>>(e@),
                Err(_) => false,
            },
    {
        match KeyParser::parse_sequence(key_str) {
            Ok(_) => Ok(KeyBinding::new(id, key_str, description)),
            Err(e) => Err(e),
        }
    }

    /// This binding running `command`.
    pub fn with_command(self, command: &str) -> (b: KeyBinding)
        ensures
            b.command@ == command@,
            b.id == self.id,
            b.sequence == self.sequence,
            b.description == self.description,
            b.condition == self.condition,
            b.enabled == self.enabled,
    {
        let mut b = self;
        b.command = String::from_str(command);
        b
    }

    /// This binding active in `mode` only.
    pub fn in_mode(self, mode: &str) -> (b: KeyBinding)
        ensures
            b.condition matches Some(BindingCondition::Mode(m)) && m@ == mode@,
            b.id == self.id,
            b.sequence == self.sequence,
            b.command == self.command,
            b.description == self.description,
            b.enabled == self.enabled,
    {
        let mut b = self;
        b.condition = Some(BindingCondition::Mode(String::from_str(mode)));
        b
    }

    /// This binding active in the focus scope `scope`.
    pub fn in_focus_scope(self, scope: &str) -> (b: KeyBinding)
        ensures
            b.condition matches Some(BindingCondition::FocusScope(m)) && m@ == scope@,
            b.id == self.id,
            b.sequence == self.sequence,
            b.command == self.command,
            b.description == self.description,
            b.enabled == self.enabled,
    {
        let mut b = self;
        b.condition = Some(BindingCondition::FocusScope(String::from_str(scope)));
        b
    }

    /// This binding, disabled.
    pub fn disabled(self) -> (b: KeyBinding)
        ensures
            !b.enabled,
            b.id == self.id,
            b.sequence == self.sequence,
            b.command == self.command,
            b.description == self.description,
            b.condition == self.condition,
    {
        let mut b = self;
        b.enabled = false;
        b
    }

    /// Whether the binding takes `event` in `current_mode` (see `binding_matches`).
    pub fn matches(&self, event: &KeyEvent, current_mode: Option<&str>) -> (b: bool)
        ensures
            b == binding_matches(*self, *event, opt_str_view(current_mode)),
    {
        if !self.enabled {
            return false;
        }
        match &self.condition {
            Some(BindingCondition::Mode(mode)) => {
                match current_mode {
                    None => {
                        return false;
                    },
                    Some(m) => {
                        if !str_eq(m, mode.as_str()) {
                            return false;
                        }
                    },
                }
            },
            _ => {},
        }
        if self.sequence.keys.len() > 0 {
            self.sequence.keys[0].matches(event)
        } else {
            false
        }
    }
}

// ---------------------------------------------------------------------------
// Layers
// ---------------------------------------------------------------------------

/// A named, prioritised group of bindings that can be switched off.
#[derive(Debug, Clone)]
pub struct KeyLayer {
    pub name: String,
    pub priority: i32,
    pub enabled: bool,
    pub bindings: Vec<KeyBinding>,
}

/// The first binding of `bs` that takes `e` in `mode`.
pub open spec fn first_binding(bs: Seq<KeyBinding>, e: KeyEvent, mode: Option<Seq<char>>) -> Option<KeyBinding>
    decreases bs.len(),
{
    if bs.len() == 0 {
        None
    } else if binding_matches(bs[0], e, mode) {
        Some(bs[0])
    } else {
        first_binding(bs.drop_first(), e, mode)
    }
}

/// `bs` without the bindings whose id is `id`.
pub open spec fn without_id(bs: Seq<KeyBinding>, id: Seq<char>) -> Seq<KeyBinding>
    decreases bs.len(),
{
    if bs.len() == 0 {
        bs
    } else {
        let r = without_id(bs.drop_last(), id);
        if bs.last().id@ == id {
            r
        } else {
            r.push(bs.last())
        }
    }
}

proof fn lemma_without_id_len(bs: Seq<KeyBinding>, id: Seq<char>)
    ensures
        without_id(bs, id).len() <= bs.len(),
        without_id(bs, id).len() == bs.len() <==> (forall|i: int| 0 <= i < bs.len() ==> bs[i].id@ != id),
    decreases bs.len(),
{
    if bs.len() > 0 {
        let dl = bs.drop_last();
        lemma_without_id_len(dl, id);
        if bs.last().id@ == id {
            assert(bs[bs.len() - 1].id@ == id);
        } else {
            if forall|i: int| 0 <= i < dl.len() ==> dl[i].id@ != id {
                assert forall|i: int| 0 <= i < bs.len() implies bs[i].id@ != id by {
                    if i < dl.len() {
                        assert(bs[i] == dl[i]);
                    }
                }
            }
            if forall|i: int| 0 <= i < bs.len() ==> bs[i].id@ != id {
                assert forall|i: int| 0 <= i < dl.len() implies dl[i].id@ != id by {
                    assert(bs[i] == dl[i]);
                }
            }
        }
    }
}

impl KeyLayer {
    /// An enabled layer without bindings.
    pub fn new(name: &str, priority: i32) -> (l: KeyLayer)
        ensures
            l.name@ == name@,
            l.priority == priority,
            l.enabled,
            l.bindings@.len() == 0,
    {
        KeyLayer { name: String::from_str(name), priority, enabled: true, bindings: Vec::new() }
    }

    /// Appends a binding.
    pub fn add_binding(&mut self, binding: KeyBinding)
        ensures
            final(self).bindings@ == old(self).bindings@.push(binding),
            final(self).name == old(self).name,
            final(self).priority == old(self).priority,
            final(self).enabled == old(self).enabled,
    {
        self.bindings.push(binding);
    }

    /// Removes every binding whose id is `id`; `true` when one was removed.
    pub fn remove_binding(&mut self, id: &str) -> (removed: bool)
        ensures
            final(self).bindings@ == without_id(old(self).bindings@, id@),
            removed == (exists|i: int| 0 <= i < old(self).bindings@.len() && #[trigger] old(self).bindings@[i].id@ == id@),
            final(self).name == old(self).name,
            final(self).priority == old(self).priority,
            final(self).enabled == old(self).enabled,
    {
        let mut src: Vec<KeyBinding> = Vec::new();
        std::mem::swap(&mut src, &mut self.bindings);
        let ghost all = src@;
        let n = src.len();
        let mut kept: Vec<KeyBinding> = Vec::new();
        let mut k: usize = 0;
        assert(all.subrange(0, 0) =~= Seq::<KeyBinding>::empty());
        assert(all.subrange(0, all.len() as int) =~= all);
        while src.len() > 0
            invariant
                k <= all.len(),
                n == all.len(),
                src@ == all.subrange(k as int, all.len() as int),
                kept@ == without_id(all.subrange(0, k as int), id@),
            decreases src@.len(),
        {
            let b = src.remove(0);
            assert(all.subrange(0, k + 1).drop_last() =~= all.subrange(0, k as int));
            assert(b == all[k as int]);
            if !str_eq(b.id.as_str(), id) {
                kept.push(b);
            }
            assert(src@ =~= all.subrange(k + 1, all.len() as int));
            k += 1;
        }
        assert(all.subrange(0, k as int) =~= all);
        proof {
            lemma_without_id_len(all, id@);
        }
        let removed = kept.len() < n;
        self.bindings = kept;
        removed
    }

    /// The bindings, in the order they were added.
    pub fn bindings(&self) -> (bs: &[KeyBinding])
        ensures
            bs@ == self.bindings@,
    {
        self.bindings.as_slice()
    }

    /// The first binding that takes `event` in `current_mode`, when the layer is enabled.
    pub fn find_binding(&self, event: &KeyEvent, current_mode: Option<&str>) -> (r: Option<&KeyBinding>)
        ensures
            match r {
                Some(b) => layer_binding(*self, *event, opt_str_view(current_mode)) == Some(*b),
                None => layer_binding(*self, *event, opt_str_view(current_mode)) is None,
            },
    {
        if !self.enabled {
            return None;
        }
        let ghost mode = opt_str_view(current_mode);
        let mut i: usize = 0;
        assert(self.bindings@.skip(0) =~= self.bindings@);
        while i < self.bindings.len()
            invariant
                i <= self.bindings@.len(),
                self.enabled,
                mode == opt_str_view(current_mode),
                first_binding(self.bindings@, *event, mode) == first_binding(self.bindings@.skip(i as int), *event, mode),
            decreases self.bindings@.len() - i,
        {
            assert(self.bindings@.skip(i as int)[0] == self.bindings@[i as int]);
            assert(self.bindings@.skip(i as int).drop_first() =~= self.bindings@.skip(i + 1));
            if self.bindings[i].matches(event, current_mode) {
                return Some(&self.bindings[i]);
            }
            i += 1;
        }
        None
    }

    /// Enables the layer.
    pub fn enable(&mut self)
        ensures
            final(self).enabled,
            final(self).bindings@ == old(self).bindings@,
            final(self).name == old(self).name,
            final(self).priority == old(self).priority,
    {
        self.enabled = true;
    }

    /// Disables the layer.
    pub fn disable(&mut self)
        ensures
            !final(self).enabled,
            final(self).bindings@ == old(self).bindings@,
            final(self).name == old(self).name,
            final(self).priority == old(self).priority,
    {
        self.enabled = false;
    }
}

/// The binding a layer offers for `e` in `mode`: none when it is disabled,
/// else its first matching binding.
pub open spec fn layer_binding(l: KeyLayer, e: KeyEvent, mode: Option<Seq<char>>) -> Option<KeyBinding> {
    if l.enabled {
        first_binding(l.bindings@, e, mode)
    } else {
        None
    }
}


proof fn lemma_first_binding_matches(bs: Seq<KeyBinding>, e: KeyEvent, mode: Option<Seq<char>>)
    ensures
        first_binding(bs, e, mode) matches Some(b) ==> binding_matches(b, e, mode),
    decreases bs.len(),
{
    if bs.len() > 0 && !binding_matches(bs[0], e, mode) {
        lemma_first_binding_matches(bs.drop_first(), e, mode);
    }
}

// ---------------------------------------------------------------------------
// Keymap
// ---------------------------------------------------------------------------

/// The binding the first layer that offers one gives for `e` in `mode`.
pub open spec fn layers_binding(ls: Seq<KeyLayer>, e: KeyEvent, mode: Option<Seq<char>>) -> Option<KeyBinding>
    decreases ls.len(),
{
    if ls.len() == 0 {
        None
    } else {
        match layer_binding(ls[0], e, mode) {
            Some(b) => Some(b),
            None => layers_binding(ls.drop_first(), e, mode),
        }
    }
}

proof fn lemma_layers_binding_matches(ls: Seq<KeyLayer>, e: KeyEvent, mode: Option<Seq<char>>)
    ensures
        layers_binding(ls, e, mode) matches Some(b) ==> binding_matches(b, e, mode),
    decreases ls.len(),
{
    if ls.len() > 0 {
        lemma_first_binding_matches(ls[0].bindings@, e, mode);
        lemma_layers_binding_matches(ls.drop_first(), e, mode);
    }
}

/// Inserts `x` after every layer of at least its priority.
pub open spec fn insert_layer(s: Seq<KeyLayer>, x: KeyLayer) -> Seq<KeyLayer>
    decreases s.len(),
{
    if s.len() == 0 {
        seq![x]
    } else if s.last().priority >= x.priority {
        s.push(x)
    } else {
        insert_layer(s.drop_last(), x).push(s.last())
    }
}

/// The layers stably sorted by decreasing priority: layers of equal
/// priority keep their order.
pub open spec fn sort_layers(s: Seq<KeyLayer>) -> Seq<KeyLayer>
    decreases s.len(),
{
    if s.len() == 0 {
        Seq::empty()
    } else {
        insert_layer(sort_layers(s.drop_last()), s.last())
    }
}

/// `ls` without the layers named `name`.
pub open spec fn without_layer(ls: Seq<KeyLayer>, name: Seq<char>) -> Seq<KeyLayer>
    decreases ls.len(),
{
    if ls.len() == 0 {
        ls
    } else {
        let r = without_layer(ls.drop_last(), name);
        if ls.last().name@ == name {
            r
        } else {
            r.push(ls.last())
        }
    }
}

/// The position of the first layer named `name`.
pub open spec fn layer_position(ls: Seq<KeyLayer>, name: Seq<char>) -> Option<int>
    decreases ls.len(),
{
    if ls.len() == 0 {
        None
    } else if ls[0].name@ == name {
        Some(0)
    } else {
        match layer_position(ls.drop_first(), name) {
            Some(i) => Some(i + 1),
            None => None,
        }
    }
}

proof fn lemma_layer_position(ls: Seq<KeyLayer>, name: Seq<char>, i: int)
    requires
        0 <= i <= ls.len(),
        forall|j: int| 0 <= j < i ==> #[trigger] ls[j].name@ != name,
        i < ls.len() ==> ls[i].name@ == name,
    ensures
        layer_position(ls, name) == (if i < ls.len() {
            Some(i)
        } else {
            None::<int>
        }),
    decreases i,
{
    if i > 0 {
        let d = ls.drop_first();
        assert forall|j: int| 0 <= j < i - 1 implies #[trigger] d[j].name@ != name by {
            assert(d[j] == ls[j + 1]);
        }
        if i < ls.len() {
            assert(d[i - 1] == ls[i]);
        }
        lemma_layer_position(d, name, i - 1);
        assert(ls[0].name@ != name);
    }
}

proof fn lemma_without_layer_len(ls: Seq<KeyLayer>, name: Seq<char>)
    ensures
        without_layer(ls, name).len() <= ls.len(),
        without_layer(ls, name).len() == ls.len() <==> (forall|i: int| 0 <= i < ls.len() ==> ls[i].name@ != name),
    decreases ls.len(),
{
    if ls.len() > 0 {
        let dl = ls.drop_last();
        lemma_without_layer_len(dl, name);
        if ls.last().name@ == name {
            assert(ls[ls.len() - 1].name@ == name);
        } else {
            if forall|i: int| 0 <= i < dl.len() ==> dl[i].name@ != name {
                assert forall|i: int| 0 <= i < ls.len() implies ls[i].name@ != name by {
                    if i < dl.len() {
                        assert(ls[i] == dl[i]);
                    }
                }
            }
            if forall|i: int| 0 <= i < ls.len() ==> ls[i].name@ != name {
                assert forall|i: int| 0 <= i < dl.len() implies dl[i].name@ != name by {
                    assert(ls[i] == dl[i]);
                }
            }
        }
    }
}

/// The characters of each string.
pub open spec fn string_views(v: Seq<String>) -> Seq<Seq<char>> {
    v.map_values(|x: String| x@)
}

/// The characters of an optional string.
pub open spec fn opt_string_view(o: Option<String>) -> Option<Seq<char>> {
    match o {
        Some(s) => Some(s@),
        None => None,
    }
}

/// One key event handled by a keymap with layers `ls` in `mode`, with the
/// pending chord keys `pending` and the command history `history`: the new
/// pending keys, the new history and the command to run.
///
/// A pending chord whose next key is the event's advances, and completes
/// with the last recorded command once no key is left. Otherwise the pending
/// keys are dropped and the first layer's matching binding is taken: a
/// single-key binding runs its command at once; a chord records its command
/// and waits for its remaining keys. Every binding taken is recorded.
pub open spec fn handle_outcome(
    ls: Seq<KeyLayer>,
    mode: Option<Seq<char>>,
    pending: Seq<KeyCombo>,
    history: Seq<Seq<char>>,
    e: KeyEvent,
) -> (Seq<KeyCombo>, Seq<Seq<char>>, Option<Seq<char>>) {
    if pending.len() > 0 && combo_matches(pending[0], e) {
        let rest = pending.drop_first();
        if rest.len() == 0 {
            (rest, history, if history.len() > 0 { Some(history.last()) } else { None })
        } else {
            (rest, history, None)
        }
    } else {
        match layers_binding(ls, e, mode) {
            Some(b) => if b.sequence.keys@.len() == 1 {
                (Seq::empty(), history.push(b.command@), Some(b.command@))
            } else {
                (b.sequence.keys@.drop_first(), history.push(b.command@), None)
            },
            None => (Seq::empty(), history, None),
        }
    }
}

/// The bindings of `bs` (only the enabled ones when `only_enabled`), each
/// paired with `name`.
pub open spec fn listed(bs: Seq<KeyBinding>, name: Seq<char>, only_enabled: bool) -> Seq<(KeyBinding, Seq<char>)>
    decreases bs.len(),
{
    if bs.len() == 0 {
        Seq::empty()
    } else {
        let r = listed(bs.drop_last(), name, only_enabled);
        if !only_enabled || bs.last().enabled {
            r.push((bs.last(), name))
        } else {
            r
        }
    }
}

/// The bindings of every layer in order, each paired with its layer's name;
/// when `only_enabled`, disabled layers and disabled bindings are left out.
pub open spec fn listed_layers(ls: Seq<KeyLayer>, only_enabled: bool) -> Seq<(KeyBinding, Seq<char>)>
    decreases ls.len(),
{
    if ls.len() == 0 {
        Seq::empty()
    } else {
        let r = listed_layers(ls.drop_last(), only_enabled);
        if !only_enabled || ls.last().enabled {
            r + listed(ls.last().bindings@, ls.last().name@, only_enabled)
        } else {
            r
        }
    }
}

/// The bindings and layer names a list of references points at.
pub open spec fn pairs_view(v: Seq<(&KeyBinding, &str)>) -> Seq<(KeyBinding, Seq<char>)> {
    v.map_values(|p: (&KeyBinding, &str)| (*p.0, p.1@))
}

/// `after` is `before` with `binding` appended to the first layer named
/// `name`, or, when there is none, with a new enabled layer of that name and
/// `priority` holding `binding` alone, placed by priority.
pub open spec fn added_to_layer(
    before: Seq<KeyLayer>,
    after: Seq<KeyLayer>,
    name: Seq<char>,
    binding: KeyBinding,
    priority: i32,
) -> bool {
    match layer_position(before, name) {
        Some(i) => {
            &&& after.len() == before.len()
            &&& forall|j: int| 0 <= j < before.len() && j != i ==> after[j] == before[j]
            &&& after[i].name == before[i].name
            &&& after[i].priority == before[i].priority
            &&& after[i].enabled == before[i].enabled
            &&& after[i].bindings@ == before[i].bindings@.push(binding)
        },
        None => exists|l: KeyLayer|
            {
                &&& l.name@ == name
                &&& l.priority == priority
                &&& l.enabled
                &&& l.bindings@ == seq![binding]
                &&& after == sort_layers(before.push(l))
            },
    }
}

/// Resolves key events to commands across prioritised layers, with a mode,
/// pending chord keys and a history of the commands taken.
#[derive(Debug)]
pub struct Keymap {
    layers: Vec<KeyLayer>,
    current_mode: Option<String>,
    pending_sequence: Vec<KeyCombo>,
    chord_timeout_ms: u64,
    command_history: Vec<String>,
}

impl Keymap {
    /// The layers, highest priority first.
    pub closed spec fn layer_seq(&self) -> Seq<KeyLayer> {
        self.layers@
    }

    /// The current mode.
    pub closed spec fn mode(&self) -> Option<Seq<char>> {
        opt_string_view(self.current_mode)
    }

    /// The keys still expected to complete a chord.
    pub closed spec fn pending(&self) -> Seq<KeyCombo> {
        self.pending_sequence@
    }

    /// The commands taken, oldest first.
    pub closed spec fn history(&self) -> Seq<Seq<char>> {
        string_views(self.command_history@)
    }

    /// The chord timeout in milliseconds.
    pub closed spec fn timeout(&self) -> u64 {
        self.chord_timeout_ms
    }

    /// An empty keymap: no layer, no mode, no pending key, a chord timeout of
    /// 1000 ms and an empty history.
    pub fn new() -> (k: Keymap)
        ensures
            k.layer_seq().len() == 0,
            k.mode() is None,
            k.pending().len() == 0,
            k.timeout() == 1000,
            k.history().len() == 0,
    {
        Keymap {
            layers: Vec::new(),
            current_mode: None,
            pending_sequence: Vec::new(),
            chord_timeout_ms: 1000,
            command_history: Vec::new(),
        }
    }

    /// Adds a layer and sorts the layers by decreasing priority, keeping the
    /// order of layers of equal priority.
    pub fn add_layer(&mut self, layer: KeyLayer)
        ensures
            final(self).layer_seq() == sort_layers(old(self).layer_seq().push(layer)),
            final(self).mode() == old(self).mode(),
            final(self).pending() == old(self).pending(),
            final(self).history() == old(self).history(),
            final(self).timeout() == old(self).timeout(),
    {
        self.layers.push(layer);
        let mut src: Vec<KeyLayer> = Vec::new();
        std::mem::swap(&mut src, &mut self.layers);
        let ghost all = src@;
        assert(all.len() == src.len());
        let mut sorted: Vec<KeyLayer> = Vec::new();
        let mut k: usize = 0;
        assert(all.subrange(0, 0) =~= Seq::<KeyLayer>::empty());
        assert(all.subrange(0, all.len() as int) =~= all);
        while src.len() > 0
            invariant
                k <= all.len(),
                all.len() <= usize::MAX,
                src@ == all.subrange(k as int, all.len() as int),
                sorted@ == sort_layers(all.subrange(0, k as int)),
            decreases src@.len(),
        {
            let x = src.remove(0);
            assert(x == all[k as int]);
            assert(all.subrange(0, k + 1).drop_last() =~= all.subrange(0, k as int));
            let ghost before = sorted@;
            let mut p: usize = sorted.len();
            assert(before.subrange(0, p as int) =~= before);
            assert(before.subrange(p as int, before.len() as int) =~= Seq::<KeyLayer>::empty());
            assert(insert_layer(before, x) =~= insert_layer(before, x) + Seq::<KeyLayer>::empty());
            while p > 0 && sorted[p - 1].priority < x.priority
                invariant
                    p <= sorted@.len(),
                    sorted@ == before,
                    insert_layer(before, x) == insert_layer(before.subrange(0, p as int), x)
                        + before.subrange(p as int, before.len() as int),
                decreases p,
            {
                proof {
                    let s = before.subrange(0, p as int);
                    assert(s.drop_last() =~= before.subrange(0, p - 1));
                    assert(before.subrange(p - 1, before.len() as int) =~= seq![s.last()]
                        + before.subrange(p as int, before.len() as int));
                    assert(insert_layer(before.subrange(0, p - 1), x).push(s.last())
                        + before.subrange(p as int, before.len() as int) =~= insert_layer(
                        before.subrange(0, p - 1),
                        x,
                    ) + before.subrange(p - 1, before.len() as int));
                }
                p -= 1;
            }
            proof {
                let s = before.subrange(0, p as int);
                assert(insert_layer(s, x) =~= s.push(x));
            }
            sorted.insert(p, x);
            assert(sorted@ =~= before.subrange(0, p as int).push(x) + before.subrange(
                p as int,
                before.len() as int,
            ));
            assert(src@ =~= all.subrange(k + 1, all.len() as int));
            k += 1;
        }
        assert(all.subrange(0, k as int) =~= all);
        self.layers = sorted;
    }

    /// Removes every layer named `name`; `true` when one was removed.
    #[verifier::spinoff_prover]
    pub fn remove_layer(&mut self, name: &str) -> (removed: bool)
        ensures
            final(self).layer_seq() == without_layer(old(self).layer_seq(), name@),
            removed == (exists|i: int| 0 <= i < old(self).layer_seq().len() && #[trigger] old(self).layer_seq()[i].name@ == name@),
            final(self).mode() == old(self).mode(),
            final(self).pending() == old(self).pending(),
            final(self).history() == old(self).history(),
            final(self).timeout() == old(self).timeout(),
    {
        let mut src: Vec<KeyLayer> = Vec::new();
        std::mem::swap(&mut src, &mut self.layers);
        let ghost all = src@;
        let n = src.len();
        let mut kept: Vec<KeyLayer> = Vec::new();
        let mut k: usize = 0;
        assert(all.subrange(0, 0) =~= Seq::<KeyLayer>::empty());
        assert(all.subrange(0, all.len() as int) =~= all);
        while src.len() > 0
            invariant
                k <= all.len(),
                n == all.len(),
                src@ == all.subrange(k as int, all.len() as int),
                kept@ == without_layer(all.subrange(0, k as int), name@),
            decreases src@.len(),
        {
            let l = src.remove(0);
            assert(all.subrange(0, k + 1).drop_last() =~= all.subrange(0, k as int));
            assert(l == all[k as int]);
            if !str_eq(l.name.as_str(), name) {
                kept.push(l);
            }
            assert(src@ =~= all.subrange(k + 1, all.len() as int));
            k += 1;
        }
        assert(all.subrange(0, k as int) =~= all);
        proof {
            lemma_without_layer_len(all, name@);
            assert(old(self).layer_seq() == all);
        }
        let removed = kept.len() < n;
        self.layers = kept;
        removed
    }

    fn find_layer(&self, name: &str) -> (r: Option<usize>)
        ensures
            match r {
                Some(i) => i < self.layers@.len() && layer_position(self.layers@, name@) == Some(i as int),
                None => layer_position(self.layers@, name@) is None,
            },
    {
        let mut i: usize = 0;
        while i < self.layers.len()
            invariant
                i <= self.layers@.len(),
                forall|j: int| 0 <= j < i ==> #[trigger] self.layers@[j].name@ != name@,
            decreases self.layers@.len() - i,
        {
            if str_eq(self.layers[i].name.as_str(), name) {
                proof {
                    lemma_layer_position(self.layers@, name@, i as int);
                }
                return Some(i);
            }
            i += 1;
        }
        proof {
            lemma_layer_position(self.layers@, name@, i as int);
        }
        None
    }

    /// The first layer named `name`.
    pub fn get_layer(&self, name: &str) -> (r: Option<&KeyLayer>)
        ensures
            match r {
                Some(l) => layer_position(self.layer_seq(), name@) matches Some(i) && self.layer_seq()[i] == *l,
                None => layer_position(self.layer_seq(), name@) is None,
            },
    {
        match self.find_layer(name) {
            Some(i) => Some(&self.layers[i]),
            None => None,
        }
    }

    /// The first layer named `name`, to change in place.
    pub fn get_layer_mut(&mut self, name: &str) -> (r: Option<&mut KeyLayer>)
        ensures
            match r {
                Some(l) => layer_position(old(self).layer_seq(), name@) matches Some(i) && *l == old(
                    self,
                ).layer_seq()[i] && final(self).layer_seq() == old(self).layer_seq().update(i, *final(l)),
                None => layer_position(old(self).layer_seq(), name@) is None && final(self).layer_seq()
                    == old(self).layer_seq(),
            },
            final(self).mode() == old(self).mode(),
            final(self).pending() == old(self).pending(),
            final(self).history() == old(self).history(),
            final(self).timeout() == old(self).timeout(),
    {
        match self.find_layer(name) {
            Some(i) => Some(&mut self.layers[i]),
            None => None,
        }
    }

    /// Appends `binding` to the first layer named `layer_name`, or adds a new
    /// layer of that name and `priority` holding it.
    pub fn add_binding_to_layer(&mut self, layer_name: &str, binding: KeyBinding, priority: i32)
        ensures
            added_to_layer(old(self).layer_seq(), final(self).layer_seq(), layer_name@, binding, priority),
            final(self).mode() == old(self).mode(),
            final(self).pending() == old(self).pending(),
            final(self).history() == old(self).history(),
            final(self).timeout() == old(self).timeout(),
    {
        match self.find_layer(layer_name) {
            Some(i) => {
                let ghost before = self.layers@;
                let mut l = self.layers.remove(i);
                l.add_binding(binding);
                self.layers.insert(i, l);
                assert forall|j: int| 0 <= j < before.len() && j != i implies self.layers@[j] == before[j] by {
                    if j < i {
                    } else {
                        assert(self.layers@[j] == before[j]);
                    }
                }
            },
            None => {
                let mut l = KeyLayer::new(layer_name, priority);
                l.add_binding(binding);
                assert(l.bindings@ =~= seq![binding]);
                self.add_layer(l);
            },
        }
    }

    /// Appends `binding` to the layer `default` (priority 0 when it is created).
    pub fn add_binding(&mut self, binding: KeyBinding)
        ensures
            added_to_layer(old(self).layer_seq(), final(self).layer_seq(), "default"@, binding, 0),
            final(self).mode() == old(self).mode(),
            final(self).pending() == old(self).pending(),
            final(self).history() == old(self).history(),
            final(self).timeout() == old(self).timeout(),
    {
        self.add_binding_to_layer("default", binding, 0);
    }

    /// Sets the mode and drops any pending chord keys.
    pub fn set_mode(&mut self, mode: &str)
        ensures
            final(self).mode() == Some(mode@),
            final(self).pending().len() == 0,
            final(self).layer_seq() == old(self).layer_seq(),
            final(self).history() == old(self).history(),
            final(self).timeout() == old(self).timeout(),
    {
        self.current_mode = Some(String::from_str(mode));
        self.pending_sequence.clear();
    }

    /// The current mode.
    pub fn current_mode(&self) -> (m: Option<&str>)
        ensures
            opt_str_view(m) == self.mode(),
    {
        match &self.current_mode {
            Some(s) => Some(s.as_str()),
            None => None,
        }
    }

    /// Clears the mode and drops any pending chord keys.
    pub fn clear_mode(&mut self)
        ensures
            final(self).mode() is None,
            final(self).pending().len() == 0,
            final(self).layer_seq() == old(self).layer_seq(),
            final(self).history() == old(self).history(),
            final(self).timeout() == old(self).timeout(),
    {
        self.current_mode = None;
        self.pending_sequence.clear();
    }

    /// Sets the chord timeout in milliseconds.
    pub fn set_chord_timeout(&mut self, ms: u64)
        ensures
            final(self).timeout() == ms,
            final(self).layer_seq() == old(self).layer_seq(),
            final(self).mode() == old(self).mode(),
            final(self).pending() == old(self).pending(),
            final(self).history() == old(self).history(),
    {
        self.chord_timeout_ms = ms;
    }

    /// The chord timeout in milliseconds.
    pub fn chord_timeout_ms(&self) -> (ms: u64)
        ensures
            ms == self.timeout(),
    {
        self.chord_timeout_ms
    }

    /// Handles a key event (see `handle_outcome`) and returns the command to run.
    pub fn handle_event(&mut self, event: &KeyEvent) -> (r: Option<String>)
        ensures
            ({
                let o = handle_outcome(
                    old(self).layer_seq(),
                    old(self).mode(),
                    old(self).pending(),
                    old(self).history(),
                    *event,
                );
                &&& final(self).pending() == o.0
                &&& final(self).history() == o.1
                &&& opt_string_view(r) == o.2
            }),
            final(self).layer_seq() == old(self).layer_seq(),
            final(self).mode() == old(self).mode(),
            final(self).timeout() == old(self).timeout(),
    {
        if self.pending_sequence.len() > 0 {
            if self.pending_sequence[0].matches(event) {
                self.pending_sequence.remove(0);
                if self.pending_sequence.len() == 0 {
                    return self.last_binding_command();
                }
                return None;
            } else {
                self.pending_sequence.clear();
            }
        }
        let mode: Option<&str> = match &self.current_mode {
            Some(m) => Some(m.as_str()),
            None => None,
        };
        let ghost mv = opt_str_view(mode);
        assert(mv == opt_string_view(self.current_mode));
        let mut i: usize = 0;
        assert(self.layers@.skip(0) =~= self.layers@);
        while i < self.layers.len()
            invariant
                i <= self.layers@.len(),
                mv == opt_str_view(mode),
                mv == old(self).mode(),
                self.pending_sequence@.len() == 0,
                self.layers@ == old(self).layers@,
                self.current_mode == old(self).current_mode,
                self.chord_timeout_ms == old(self).chord_timeout_ms,
                self.command_history@ == old(self).command_history@,
                !(old(self).pending_sequence@.len() > 0 && combo_matches(old(self).pending_sequence@[0], *event)),
                layers_binding(self.layers@, *event, mv) == layers_binding(self.layers@.skip(i as int), *event, mv),
            decreases self.layers@.len() - i,
        {
            assert(self.layers@.skip(i as int)[0] == self.layers@[i as int]);
            assert(self.layers@.skip(i as int).drop_first() =~= self.layers@.skip(i + 1));
            match self.layers[i].find_binding(event, mode) {
                Some(b) => {
                    proof {
                        lemma_layers_binding_matches(self.layers@, *event, mv);
                    }
                    let cmd = b.command.clone();
                    if b.sequence.keys.len() == 1 {
                        let ghost h = string_views(self.command_history@);
                        self.command_history.push(cmd.clone());
                        assert(string_views(self.command_history@) =~= h.push(cmd@));
                        return Some(cmd);
                    } else {
                        let rest = b.sequence.tail();
                        let ghost h = string_views(self.command_history@);
                        self.pending_sequence = rest.keys;
                        self.command_history.push(cmd);
                        assert(string_views(self.command_history@) =~= h.push(b.command@));
                        return None;
                    }
                },
                None => {},
            }
            i += 1;
        }
        None
    }

    /// Whether chord keys are pending.
    pub fn has_pending_sequence(&self) -> (b: bool)
        ensures
            b == (self.pending().len() > 0),
    {
        self.pending_sequence.len() > 0
    }

    /// Drops the pending chord keys.
    pub fn clear_pending_sequence(&mut self)
        ensures
            final(self).pending().len() == 0,
            final(self).layer_seq() == old(self).layer_seq(),
            final(self).mode() == old(self).mode(),
            final(self).history() == old(self).history(),
            final(self).timeout() == old(self).timeout(),
    {
        self.pending_sequence.clear();
    }

    /// The keys still expected to complete a chord.
    pub fn pending_keys(&self) -> (ks: &[KeyCombo])
        ensures
            ks@ == self.pending(),
    {
        self.pending_sequence.as_slice()
    }

    /// The commands taken, oldest first.
    pub fn command_history(&self) -> (h: &[String])
        ensures
            string_views(h@) == self.history(),
    {
        self.command_history.as_slice()
    }

    /// Forgets the command history.
    pub fn clear_history(&mut self)
        ensures
            final(self).history().len() == 0,
            final(self).layer_seq() == old(self).layer_seq(),
            final(self).mode() == old(self).mode(),
            final(self).pending() == old(self).pending(),
            final(self).timeout() == old(self).timeout(),
    {
        self.command_history.clear();
    }

    fn listed_bindings(&self, only_enabled: bool) -> (v: Vec<(&KeyBinding, &str)>)
        ensures
            pairs_view(v@) == listed_layers(self.layers@, only_enabled),
    {
        let mut v: Vec<(&KeyBinding, &str)> = Vec::new();
        let mut li: usize = 0;
        while li < self.layers.len()
            invariant
                li <= self.layers@.len(),
                pairs_view(v@) == listed_layers(self.layers@.subrange(0, li as int), only_enabled),
            decreases self.layers@.len() - li,
        {
            let layer = &self.layers[li];
            assert(self.layers@.subrange(0, li + 1).drop_last() =~= self.layers@.subrange(0, li as int));
            if !only_enabled || layer.enabled {
                let ghost base = pairs_view(v@);
                let mut bi: usize = 0;
                assert(layer.bindings@.subrange(0, 0) =~= Seq::<KeyBinding>::empty());
                assert(base + Seq::<(KeyBinding, Seq<char>)>::empty() =~= base);
                while bi < layer.bindings.len()
                    invariant
                        bi <= layer.bindings@.len(),
                        pairs_view(v@) == base + listed(layer.bindings@.subrange(0, bi as int), layer.name@, only_enabled),
                    decreases layer.bindings@.len() - bi,
                {
                    let b = &layer.bindings[bi];
                    assert(layer.bindings@.subrange(0, bi + 1).drop_last() =~= layer.bindings@.subrange(0, bi as int));
                    if !only_enabled || b.enabled {
                        let ghost pv = pairs_view(v@);
                        v.push((b, layer.name.as_str()));
                        assert(pairs_view(v@) =~= pv.push((*b, layer.name@)));
                    }
                    bi += 1;
                }
                assert(layer.bindings@.subrange(0, layer.bindings@.len() as int) =~= layer.bindings@);
            }
            li += 1;
        }
        assert(self.layers@.subrange(0, self.layers@.len() as int) =~= self.layers@);
        v
    }

    /// The enabled bindings of the enabled layers, with their layers' names,
    /// highest priority layer first.
    pub fn active_bindings(&self) -> (v: Vec<(&KeyBinding, &str)>)
        ensures
            pairs_view(v@) == listed_layers(self.layer_seq(), true),
    {
        self.listed_bindings(true)
    }

    /// Every binding of every layer, with its layer's name.
    pub fn all_bindings(&self) -> (v: Vec<(&KeyBinding, &str)>)
        ensures
            pairs_view(v@) == listed_layers(self.layer_seq(), false),
    {
        self.listed_bindings(false)
    }

    fn last_binding_command(&self) -> (r: Option<String>)
        ensures
            opt_string_view(r) == (if self.history().len() > 0 {
                Some(self.history().last())
            } else {
                None::<Seq<char>>
            }),
    {
        let n = self.command_history.len();
        if n == 0 {
            None
        } else {
            Some(self.command_history[n - 1].clone())
        }
    }
}

impl Default for Keymap {
    fn default() -> (k: Keymap)
        ensures
            k.layer_seq().len() == 0,
            k.mode() is None,
            k.pending().len() == 0,
            k.timeout() == 1000,
            k.history().len() == 0,
    {
        Keymap::new()
    }
}


/// The combinations a key string parses to; empty when it does not parse.
pub open spec fn parsed_keys(keys: Seq<char>) -> Seq<KeyCombo> {
    match sequence_of(keys) {
        Ok(ks) => ks,
        Err(_) => Seq::empty(),
    }
}

/// Builds a keymap step by step.
pub struct KeymapBuilder {
    keymap: Keymap,
}

impl KeymapBuilder {
    /// The keymap built so far.
    pub closed spec fn built(&self) -> Keymap {
        self.keymap
    }

    /// A builder of an empty keymap (see `Keymap::new`).
    pub fn new() -> (b: KeymapBuilder)
        ensures
            b.built().layer_seq().len() == 0,
            b.built().mode() is None,
            b.built().pending().len() == 0,
            b.built().timeout() == 1000,
            b.built().history().len() == 0,
    {
        KeymapBuilder { keymap: Keymap::new() }
    }

    /// Adds the binding `KeyBinding::new(id, keys, desc)` to the layer
    /// `default`. The key string must parse.
    pub fn binding(self, id: &str, keys: &str, desc: &str) -> (b: KeymapBuilder)
        requires
            !sequence_panics(keys@),
            key_string_parses(keys@),
        ensures
            exists|kb: KeyBinding|
                #[trigger] made_binding(kb, id@, parsed_keys(keys@), desc@) && added_to_layer(
                    self.built().layer_seq(),
                    b.built().layer_seq(),
                    "default"@,
                    kb,
                    0,
                ),
            b.built().mode() == self.built().mode(),
            b.built().pending() == self.built().pending(),
            b.built().history() == self.built().history(),
            b.built().timeout() == self.built().timeout(),
    {
        let mut b = self;
        let kb = KeyBinding::new(id, keys, desc);
        let ghost g = kb;
        assert(made_binding(g, id@, parsed_keys(keys@), desc@));
        b.keymap.add_binding(kb);
        b
    }

    /// `binding` when `keys` parses; the builder unchanged otherwise.
    pub fn try_binding(self, id: &str, keys: &str, desc: &str) -> (b: KeymapBuilder)
        requires
            !sequence_panics(keys@),
        ensures
            sequence_of(keys@) is Err ==> b == self,
            sequence_of(keys@) is Ok ==> exists|kb: KeyBinding|
                #[trigger] made_binding(kb, id@, parsed_keys(keys@), desc@) && added_to_layer(
                    self.built().layer_seq(),
                    b.built().layer_seq(),
                    "default"@,
                    kb,
                    0,
                ),
            b.built().mode() == self.built().mode(),
            b.built().pending() == self.built().pending(),
            b.built().history() == self.built().history(),
            b.built().timeout() == self.built().timeout(),
    {
        match KeyParser::parse_sequence(keys) {
            Ok(_) => self.binding(id, keys, desc),
            Err(_) => self,
        }
    }

    /// Adds the binding `KeyBinding::new(id, keys, desc)` to the layer
    /// `layer` (created with `priority` when missing). The key string must parse.
    pub fn binding_in_layer(self, layer: &str, priority: i32, id: &str, keys: &str, desc: &str) -> (b: KeymapBuilder)
        requires
            !sequence_panics(keys@),
            key_string_parses(keys@),
        ensures
            exists|kb: KeyBinding|
                #[trigger] made_binding(kb, id@, parsed_keys(keys@), desc@) && added_to_layer(
                    self.built().layer_seq(),
                    b.built().layer_seq(),
                    layer@,
                    kb,
                    priority,
                ),
            b.built().mode() == self.built().mode(),
            b.built().pending() == self.built().pending(),
            b.built().history() == self.built().history(),
            b.built().timeout() == self.built().timeout(),
    {
        let mut b = self;
        let kb = KeyBinding::new(id, keys, desc);
        let ghost g = kb;
        assert(made_binding(g, id@, parsed_keys(keys@), desc@));
        b.keymap.add_binding_to_layer(layer, kb, priority);
        b
    }

    /// `binding_in_layer` when `keys` parses; the builder unchanged otherwise.
    pub fn try_binding_in_layer(self, layer: &str, priority: i32, id: &str, keys: &str, desc: &str) -> (b: KeymapBuilder)
        requires
            !sequence_panics(keys@),
        ensures
            sequence_of(keys@) is Err ==> b == self,
            sequence_of(keys@) is Ok ==> exists|kb: KeyBinding|
                #[trigger] made_binding(kb, id@, parsed_keys(keys@), desc@) && added_to_layer(
                    self.built().layer_seq(),
                    b.built().layer_seq(),
                    layer@,
                    kb,
                    priority,
                ),
            b.built().mode() == self.built().mode(),
            b.built().pending() == self.built().pending(),
            b.built().history() == self.built().history(),
            b.built().timeout() == self.built().timeout(),
    {
        match KeyParser::parse_sequence(keys) {
            Ok(_) => self.binding_in_layer(layer, priority, id, keys, desc),
            Err(_) => self,
        }
    }

    /// Sets the mode (see `Keymap::set_mode`).
    pub fn mode(self, mode: &str) -> (b: KeymapBuilder)
        ensures
            b.built().mode() == Some(mode@),
            b.built().pending().len() == 0,
            b.built().layer_seq() == self.built().layer_seq(),
            b.built().history() == self.built().history(),
            b.built().timeout() == self.built().timeout(),
    {
        let mut b = self;
        b.keymap.set_mode(mode);
        b
    }

    /// The keymap.
    pub fn build(self) -> (k: Keymap)
        ensures
            k == self.built(),
    {
        self.keymap
    }
}

impl Default for KeymapBuilder {
    fn default() -> (b: KeymapBuilder)
        ensures
            b.built().layer_seq().len() == 0,
            b.built().mode() is None,
            b.built().pending().len() == 0,
            b.built().timeout() == 1000,
            b.built().history().len() == 0,
    {
        KeymapBuilder::new()
    }
}


// ---------------------------------------------------------------------------
// Laws
// ---------------------------------------------------------------------------

/// The layers are ordered by non-increasing priority.
pub open spec fn priority_sorted(s: Seq<KeyLayer>) -> bool {
    forall|i: int, j: int| 0 <= i < j < s.len() ==> s[i].priority >= s[j].priority
}

proof fn lemma_insert_layer(t: Seq<KeyLayer>, x: KeyLayer)
    requires
        priority_sorted(t),
    ensures
        priority_sorted(insert_layer(t, x)),
        insert_layer(t, x).to_multiset() == t.to_multiset().insert(x),
    decreases t.len(),
{
    if t.len() == 0 {
        vstd::seq_lib::to_multiset_build(t, x);
        assert(insert_layer(t, x) =~= t.push(x));
    } else if t.last().priority >= x.priority {
        vstd::seq_lib::to_multiset_build(t, x);
    } else {
        let dl = t.drop_last();
        let l = t.last();
        assert(priority_sorted(dl));
        lemma_insert_layer(dl, x);
        let r = insert_layer(dl, x);
        assert forall|i: int| 0 <= i < r.len() implies #[trigger] r[i].priority >= l.priority by {
            vstd::seq_lib::to_multiset_contains(r, r[i]);
            assert(r.contains(r[i]));
            vstd::seq_lib::to_multiset_contains(dl, r[i]);
            if r[i] != x {
                assert(dl.to_multiset().count(r[i]) > 0);
                let k = choose|k: int| 0 <= k < dl.len() && dl[k] == r[i];
                assert(t[k] == dl[k]);
            }
        }
        vstd::seq_lib::to_multiset_build(r, l);
        vstd::seq_lib::to_multiset_build(dl, l);
        assert(dl.push(l) =~= t);
        assert(r.push(l).to_multiset() =~= t.to_multiset().insert(x));
    }
}

/// However layers are added, they end up sorted by non-increasing
/// priority, and they are exactly the layers added.
pub proof fn lemma_sort_layers_sorted(s: Seq<KeyLayer>)
    ensures
        priority_sorted(sort_layers(s)),
        sort_layers(s).to_multiset() == s.to_multiset(),
    decreases s.len(),
{
    if s.len() == 0 {
        assert(sort_layers(s) =~= s);
    } else {
        lemma_sort_layers_sorted(s.drop_last());
        lemma_insert_layer(sort_layers(s.drop_last()), s.last());
        vstd::seq_lib::to_multiset_build(s.drop_last(), s.last());
        assert(s.drop_last().push(s.last()) =~= s);
    }
}

/// The first layer that offers a binding for the event decides it: layers
/// after it are not consulted.
pub proof fn lemma_first_offering_layer_wins(ls: Seq<KeyLayer>, e: KeyEvent, mode: Option<Seq<char>>, i: int)
    requires
        0 <= i < ls.len(),
        layer_binding(ls[i], e, mode) is Some,
        forall|j: int| 0 <= j < i ==> #[trigger] layer_binding(ls[j], e, mode) is None,
    ensures
        layers_binding(ls, e, mode) == layer_binding(ls[i], e, mode),
    decreases i,
{
    if i > 0 {
        let d = ls.drop_first();
        assert forall|j: int| 0 <= j < i - 1 implies #[trigger] layer_binding(d[j], e, mode) is None by {
            assert(d[j] == ls[j + 1]);
        }
        assert(d[i - 1] == ls[i]);
        assert(layer_binding(ls[0], e, mode) is None);
        lemma_first_offering_layer_wins(d, e, mode, i - 1);
    }
}

/// Outside a chord, a single-key binding that matches runs its command at
/// once and is recorded in the history.
pub proof fn lemma_single_key_runs(
    ls: Seq<KeyLayer>,
    mode: Option<Seq<char>>,
    pending: Seq<KeyCombo>,
    history: Seq<Seq<char>>,
    e: KeyEvent,
    b: KeyBinding,
)
    requires
        !(pending.len() > 0 && combo_matches(pending[0], e)),
        layers_binding(ls, e, mode) == Some(b),
        b.sequence.keys@.len() == 1,
    ensures
        handle_outcome(ls, mode, pending, history, e) == (
            Seq::<KeyCombo>::empty(),
            history.push(b.command@),
            Some(b.command@),
        ),
{
}

/// A two-key chord: its first key runs nothing and leaves the second key
/// pending; its second key completes it and runs its command.
pub proof fn lemma_chord_completes(
    ls: Seq<KeyLayer>,
    mode: Option<Seq<char>>,
    history: Seq<Seq<char>>,
    e1: KeyEvent,
    e2: KeyEvent,
    b: KeyBinding,
)
    requires
        layers_binding(ls, e1, mode) == Some(b),
        b.sequence.keys@.len() == 2,
        combo_matches(b.sequence.keys@[1], e2),
    ensures
        ({
            let o1 = handle_outcome(ls, mode, Seq::empty(), history, e1);
            let o2 = handle_outcome(ls, mode, o1.0, o1.1, e2);
            &&& o1.0 == seq![b.sequence.keys@[1]]
            &&& o1.1 == history.push(b.command@)
            &&& o1.2 is None
            &&& o2.0.len() == 0
            &&& o2.1 == history.push(b.command@)
            &&& o2.2 == Some(b.command@)
        }),
{
    let o1 = handle_outcome(ls, mode, Seq::empty(), history, e1);
    assert(o1.0 =~= seq![b.sequence.keys@[1]]);
}

/// A chord broken by a key that no binding takes leaves nothing pending
/// and runs nothing.
pub proof fn lemma_broken_chord_clears(
    ls: Seq<KeyLayer>,
    mode: Option<Seq<char>>,
    pending: Seq<KeyCombo>,
    history: Seq<Seq<char>>,
    e: KeyEvent,
)
    requires
        pending.len() > 0,
        !combo_matches(pending[0], e),
        layers_binding(ls, e, mode) is None,
    ensures
        handle_outcome(ls, mode, pending, history, e) == (Seq::<KeyCombo>::empty(), history, None::<Seq<char>>),
{
}

/// Each event adds at most one command to the history, at its end.
pub proof fn lemma_history_grows_by_at_most_one(
    ls: Seq<KeyLayer>,
    mode: Option<Seq<char>>,
    pending: Seq<KeyCombo>,
    history: Seq<Seq<char>>,
    e: KeyEvent,
)
    ensures
        ({
            let h = handle_outcome(ls, mode, pending, history, e).1;
            h == history || (h.len() == history.len() + 1 && h.subrange(0, history.len() as int) == history)
        }),
{
    let h = handle_outcome(ls, mode, pending, history, e).1;
    if h != history {
        assert(h.subrange(0, history.len() as int) =~= history);
    }
}

} // verus!
