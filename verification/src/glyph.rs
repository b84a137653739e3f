//! Glyphs: classification of characters for rendering, glyph records,
//! per-glyph metrics with a byte-budgeted least-recently-used cache, lookup
//! tables for the ASCII, box-drawing and Braille ranges, and the glyph cache
//! that ties them together.
//!
//! Access times are readings of a nanosecond clock (`u64`).

use vstd::prelude::*;
use vstd::layout::size_of;
use crate::framebuffer::CellAttributes;
use crate::text::{decimal, push_decimal, push_str};

verus! {

// ===========================================================================
// Character classification
// ===========================================================================

/// The identifier of a glyph: its Unicode code point.
#[derive(Debug, Clone, Copy, PartialEq, Eq, Hash, Structural)]
pub struct GlyphId(pub u32);

/// How a character is rendered: it decides the width hint and special
/// handling.
#[derive(Debug, Clone, Copy, PartialEq, Eq, Hash, Structural)]
pub enum GlyphCategory {
    Ascii,
    AsciiExtended,
    Unicode,
    Emoji,
    NerdFont,
    BoxDrawing,
    Braille,
    Cjk,
    Diacritical,
    Symbol,
}

/// Emoji, dingbat, variation-selector, flag and pictograph blocks.
pub open spec fn emoji_cp(cp: u32) -> bool {
    (0x1F600 <= cp <= 0x1F64F) || (0x1F300 <= cp <= 0x1F5FF) || (0x1F680 <= cp <= 0x1F6FF) || (0x1F900 <= cp
        <= 0x1F9FF) || (0x2700 <= cp <= 0x27BF) || (0xFE00 <= cp <= 0xFE0F) || (0x1F1E0 <= cp <= 0x1F1FF) || (
    0x1FA00 <= cp <= 0x1FA6F) || (0x1FA70 <= cp <= 0x1FAFF)
}

/// The Box Drawing and Block Elements blocks.
pub open spec fn box_drawing_cp(cp: u32) -> bool {
    0x2500 <= cp <= 0x25FF
}

/// The Braille Patterns block.
pub open spec fn braille_cp(cp: u32) -> bool {
    0x2800 <= cp <= 0x28FF
}

/// The CJK ideograph blocks.
pub open spec fn cjk_cp(cp: u32) -> bool {
    (0x4E00 <= cp <= 0x9FFF) || (0x3400 <= cp <= 0x4DBF) || (0x20000 <= cp <= 0x2A6DF) || (0x2A700 <= cp
        <= 0x2B73F) || (0x2B740 <= cp <= 0x2B81F) || (0x2B820 <= cp <= 0x2CEAF) || (0xF900 <= cp <= 0xFAFF) || (
    0x2F800 <= cp <= 0x2FA1F)
}

/// The combining diacritical mark blocks.
pub open spec fn diacritical_cp(cp: u32) -> bool {
    (0x0300 <= cp <= 0x036F) || (0x1AB0 <= cp <= 0x1AFF) || (0x1DC0 <= cp <= 0x1DFF) || (0x20D0 <= cp <= 0x20FF)
        || (0xFE20 <= cp <= 0xFE2F)
}

/// The private-use ranges that Nerd Fonts patch in.
pub open spec fn nerd_font_cp(cp: u32) -> bool {
    (0xE000 <= cp <= 0xE00A) || (0xE0A0 <= cp <= 0xE0A3) || (0xE0B0 <= cp <= 0xE0C8) || (0xE0D0 <= cp <= 0xE0D4)
        || (0xE200 <= cp <= 0xE2A9) || (0xE300 <= cp <= 0xE3E3) || (0xE500 <= cp <= 0xE5E5) || (0xE700 <= cp
        <= 0xEC45) || (0xED00 <= cp <= 0xEF99) || (0xF000 <= cp <= 0xF00F) || (0xF100 <= cp <= 0xF299) || (0xF400
        <= cp <= 0xF8FF)
}

/// General punctuation through miscellaneous symbols and arrows.
pub open spec fn symbol_cp(cp: u32) -> bool {
    0x2000 <= cp <= 0x2BFF
}

/// The category of a code point; the first test that holds decides.
pub open spec fn category_of(cp: u32) -> GlyphCategory {
    if cp <= 0x7F {
        GlyphCategory::Ascii
    } else if cp <= 0xFF {
        GlyphCategory::AsciiExtended
    } else if emoji_cp(cp) {
        GlyphCategory::Emoji
    } else if box_drawing_cp(cp) {
        GlyphCategory::BoxDrawing
    } else if braille_cp(cp) {
        GlyphCategory::Braille
    } else if cjk_cp(cp) {
        GlyphCategory::Cjk
    } else if diacritical_cp(cp) {
        GlyphCategory::Diacritical
    } else if nerd_font_cp(cp) {
        GlyphCategory::NerdFont
    } else if symbol_cp(cp) {
        GlyphCategory::Symbol
    } else {
        GlyphCategory::Unicode
    }
}

/// Cells a category takes: two for CJK and emoji, else one.
pub open spec fn category_width(c: GlyphCategory) -> u8 {
    match c {
        GlyphCategory::Cjk => 2,
        GlyphCategory::Emoji => 2,
        _ => 1,
    }
}

/// The snake-case name of a category.
pub open spec fn category_name(c: GlyphCategory) -> Seq<char> {
    match c {
        GlyphCategory::Ascii => "ascii"@,
        GlyphCategory::AsciiExtended => "ascii_extended"@,
        GlyphCategory::Unicode => "unicode"@,
        GlyphCategory::Emoji => "emoji"@,
        GlyphCategory::NerdFont => "nerd_font"@,
        GlyphCategory::BoxDrawing => "box_drawing"@,
        GlyphCategory::Braille => "braille"@,
        GlyphCategory::Cjk => "cjk"@,
        GlyphCategory::Diacritical => "diacritical"@,
        GlyphCategory::Symbol => "symbol"@,
    }
}

/// Each code point falls in the category of the Unicode blocks it belongs
/// to: ASCII up to U+007F, extended ASCII up to U+00FF; emoji in the
/// emoticon, pictograph, transport, supplemental-symbol, dingbat,
/// variation-selector, regional-indicator and symbols-and-pictographs
/// blocks; box drawing U+2500..U+25FF; Braille U+2800..U+28FF; the CJK
/// ideograph blocks; the combining diacritical blocks; the Nerd Font
/// private-use ranges; the rest of U+2000..U+2BFF as symbols; anything else
/// plain Unicode. Emoji and CJK take two cells, everything else one.
pub proof fn lemma_category_blocks(cp: u32)
    ensures
        (cp <= 0x7F) <==> category_of(cp) == GlyphCategory::Ascii,
        (0x80 <= cp <= 0xFF) <==> category_of(cp) == GlyphCategory::AsciiExtended,
        (0x1F600 <= cp <= 0x1F64F || 0x1F300 <= cp <= 0x1F5FF || 0x1F680 <= cp <= 0x1F6FF || 0x1F900 <= cp
            <= 0x1F9FF || 0x2700 <= cp <= 0x27BF || 0xFE00 <= cp <= 0xFE0F || 0x1F1E0 <= cp <= 0x1F1FF
            || 0x1FA00 <= cp <= 0x1FAFF) <==> category_of(cp) == GlyphCategory::Emoji,
        (0x2500 <= cp <= 0x25FF) <==> category_of(cp) == GlyphCategory::BoxDrawing,
        (0x2800 <= cp <= 0x28FF) <==> category_of(cp) == GlyphCategory::Braille,
        (0x3400 <= cp <= 0x4DBF || 0x4E00 <= cp <= 0x9FFF || 0xF900 <= cp <= 0xFAFF || 0x20000 <= cp
            <= 0x2A6DF || 0x2A700 <= cp <= 0x2CEAF || 0x2F800 <= cp <= 0x2FA1F) <==> category_of(cp)
            == GlyphCategory::Cjk,
        (0x0300 <= cp <= 0x036F || 0x1AB0 <= cp <= 0x1AFF || 0x1DC0 <= cp <= 0x1DFF || 0x20D0 <= cp <= 0x20FF
            || 0xFE20 <= cp <= 0xFE2F) <==> category_of(cp) == GlyphCategory::Diacritical,
        (0xE000 <= cp <= 0xE00A || 0xE0A0 <= cp <= 0xE0A3 || 0xE0B0 <= cp <= 0xE0C8 || 0xE0D0 <= cp <= 0xE0D4
            || 0xE200 <= cp <= 0xE2A9 || 0xE300 <= cp <= 0xE3E3 || 0xE500 <= cp <= 0xE5E5 || 0xE700 <= cp
            <= 0xEC45 || 0xED00 <= cp <= 0xEF99 || 0xF000 <= cp <= 0xF00F || 0xF100 <= cp <= 0xF299 || 0xF400
            <= cp <= 0xF8FF) <==> category_of(cp) == GlyphCategory::NerdFont,
        ((0x2000 <= cp <= 0x20CF || 0x2100 <= cp <= 0x24FF || 0x2600 <= cp <= 0x26FF || 0x27C0 <= cp <= 0x27FF
            || 0x2900 <= cp <= 0x2BFF)) <==> category_of(cp) == GlyphCategory::Symbol,
        category_width(category_of(cp)) == (if (0x1F600 <= cp <= 0x1F64F || 0x1F300 <= cp <= 0x1F5FF || 0x1F680
            <= cp <= 0x1F6FF || 0x1F900 <= cp <= 0x1F9FF || 0x2700 <= cp <= 0x27BF || 0xFE00 <= cp <= 0xFE0F
            || 0x1F1E0 <= cp <= 0x1F1FF || 0x1FA00 <= cp <= 0x1FAFF || 0x3400 <= cp <= 0x4DBF || 0x4E00 <= cp
            <= 0x9FFF || 0xF900 <= cp <= 0xFAFF || 0x20000 <= cp <= 0x2A6DF || 0x2A700 <= cp <= 0x2CEAF
            || 0x2F800 <= cp <= 0x2FA1F) {
            2u8
        } else {
            1u8
        }),
{
}

fn is_emoji(cp: u32) -> (r: bool)
    ensures
        r == emoji_cp(cp),
{
    (0x1F600 <= cp && cp <= 0x1F64F) || (0x1F300 <= cp && cp <= 0x1F5FF) || (0x1F680 <= cp && cp <= 0x1F6FF) || (
    0x1F900 <= cp && cp <= 0x1F9FF) || (0x2700 <= cp && cp <= 0x27BF) || (0xFE00 <= cp && cp <= 0xFE0F) || (
    0x1F1E0 <= cp && cp <= 0x1F1FF) || (0x1FA00 <= cp && cp <= 0x1FA6F) || (0x1FA70 <= cp && cp <= 0x1FAFF)
}

fn is_box_drawing(cp: u32) -> (r: bool)
    ensures
        r == box_drawing_cp(cp),
{
    0x2500 <= cp && cp <= 0x25FF
}

fn is_braille(cp: u32) -> (r: bool)
    ensures
        r == braille_cp(cp),
{
    0x2800 <= cp && cp <= 0x28FF
}

fn is_cjk(cp: u32) -> (r: bool)
    ensures
        r == cjk_cp(cp),
{
    (0x4E00 <= cp && cp <= 0x9FFF) || (0x3400 <= cp && cp <= 0x4DBF) || (0x20000 <= cp && cp <= 0x2A6DF) || (
    0x2A700 <= cp && cp <= 0x2B73F) || (0x2B740 <= cp && cp <= 0x2B81F) || (0x2B820 <= cp && cp <= 0x2CEAF) || (
    0xF900 <= cp && cp <= 0xFAFF) || (0x2F800 <= cp && cp <= 0x2FA1F)
}

fn is_diacritical(cp: u32) -> (r: bool)
    ensures
        r == diacritical_cp(cp),
{
    (0x0300 <= cp && cp <= 0x036F) || (0x1AB0 <= cp && cp <= 0x1AFF) || (0x1DC0 <= cp && cp <= 0x1DFF) || (0x20D0
        <= cp && cp <= 0x20FF) || (0xFE20 <= cp && cp <= 0xFE2F)
}

fn is_nerd_font(cp: u32) -> (r: bool)
    ensures
        r == nerd_font_cp(cp),
{
    (0xE000 <= cp && cp <= 0xE00A) || (0xE0A0 <= cp && cp <= 0xE0A3) || (0xE0B0 <= cp && cp <= 0xE0C8) || (0xE0D0
        <= cp && cp <= 0xE0D4) || (0xE200 <= cp && cp <= 0xE2A9) || (0xE300 <= cp && cp <= 0xE3E3) || (0xE500
        <= cp && cp <= 0xE5E5) || (0xE700 <= cp && cp <= 0xEC45) || (0xED00 <= cp && cp <= 0xEF99) || (0xF000
        <= cp && cp <= 0xF00F) || (0xF100 <= cp && cp <= 0xF299) || (0xF400 <= cp && cp <= 0xF8FF)
}

fn is_symbol(cp: u32) -> (r: bool)
    ensures
        r == symbol_cp(cp),
{
    0x2000 <= cp && cp <= 0x2BFF
}

impl GlyphCategory {
    /// Classifies a character: ASCII, extended ASCII, then emoji, box
    /// drawing, Braille, CJK, diacritical, Nerd Font and symbol ranges in
    /// that order; anything else is plain Unicode.
    pub fn from_char(ch: char) -> (c: GlyphCategory)
        ensures
            c == category_of(ch as u32),
    {
        let cp = ch as u32;
        if cp <= 0x7F {
            return GlyphCategory::Ascii;
        }
        if cp <= 0xFF {
            return GlyphCategory::AsciiExtended;
        }
        if is_emoji(cp) {
            return GlyphCategory::Emoji;
        }
        if is_box_drawing(cp) {
            return GlyphCategory::BoxDrawing;
        }
        if is_braille(cp) {
            return GlyphCategory::Braille;
        }
        if is_cjk(cp) {
            return GlyphCategory::Cjk;
        }
        if is_diacritical(cp) {
            return GlyphCategory::Diacritical;
        }
        if is_nerd_font(cp) {
            return GlyphCategory::NerdFont;
        }
        if is_symbol(cp) {
            return GlyphCategory::Symbol;
        }
        GlyphCategory::Unicode
    }

    /// The display width hint: 2 for CJK and emoji, else 1.
    pub fn width_hint(&self) -> (w: u8)
        ensures
            w == category_width(*self),
    {
        match self {
            GlyphCategory::Cjk => 2,
            GlyphCategory::Emoji => 2,
            _ => 1,
        }
    }

    /// The category's snake-case name, such as `"box_drawing"`.
    pub fn as_str(&self) -> (s: &'static str)
        ensures
            s@ == category_name(*self),
    {
        match self {
            GlyphCategory::Ascii => "ascii",
            GlyphCategory::AsciiExtended => "ascii_extended",
            GlyphCategory::Unicode => "unicode",
            GlyphCategory::Emoji => "emoji",
            GlyphCategory::NerdFont => "nerd_font",
            GlyphCategory::BoxDrawing => "box_drawing",
            GlyphCategory::Braille => "braille",
            GlyphCategory::Cjk => "cjk",
            GlyphCategory::Diacritical => "diacritical",
            GlyphCategory::Symbol => "symbol",
        }
    }
}

/// A glyph with its cell geometry and category.
#[derive(Debug, Clone, Copy, PartialEq, Eq, Structural)]
pub struct Glyph {
    pub id: GlyphId,
    pub ch: char,
    pub width: u8,
    pub height: u8,
    pub advance_x: u8,
    pub advance_y: u8,
    pub offset_x: i8,
    pub offset_y: i8,
    pub attributes: CellAttributes,
    pub category: GlyphCategory,
}

/// The glyph of a character before any builder: one cell, no offset, no
/// attribute, its own category.
pub open spec fn default_glyph(ch: char) -> Glyph {
    Glyph {
        id: GlyphId(ch as u32),
        ch,
        width: 1,
        height: 1,
        advance_x: 1,
        advance_y: 1,
        offset_x: 0,
        offset_y: 0,
        attributes: CellAttributes { bits: 0 },
        category: category_of(ch as u32),
    }
}

impl Glyph {
    /// The glyph of `ch`: one cell wide and high, advancing one cell, no
    /// offset or attribute, classified by `GlyphCategory::from_char`.
    pub fn new(ch: char) -> (g: Glyph)
        ensures
            g == default_glyph(ch),
    {
        Glyph {
            id: GlyphId(ch as u32),
            ch,
            width: 1,
            height: 1,
            advance_x: 1,
            advance_y: 1,
            offset_x: 0,
            offset_y: 0,
            attributes: CellAttributes::empty(),
            category: GlyphCategory::from_char(ch),
        }
    }

    pub fn with_width(self, width: u8) -> (g: Glyph)
        ensures
            g == (Glyph { width, ..self }),
    {
        Glyph { width, ..self }
    }

    pub fn with_height(self, height: u8) -> (g: Glyph)
        ensures
            g == (Glyph { height, ..self }),
    {
        Glyph { height, ..self }
    }

    pub fn with_advance_x(self, advance: u8) -> (g: Glyph)
        ensures
            g == (Glyph { advance_x: advance, ..self }),
    {
        Glyph { advance_x: advance, ..self }
    }

    pub fn with_offset(self, x: i8, y: i8) -> (g: Glyph)
        ensures
            g == (Glyph { offset_x: x, offset_y: y, ..self }),
    {
        Glyph { offset_x: x, offset_y: y, ..self }
    }

    pub fn with_category(self, category: GlyphCategory) -> (g: Glyph)
        ensures
            g == (Glyph { category, ..self }),
    {
        Glyph { category, ..self }
    }

    /// Wider than one cell.
    pub fn is_wide(&self) -> (b: bool)
        ensures
            b == (self.width > 1),
    {
        self.width > 1
    }

    pub fn is_emoji(&self) -> (b: bool)
        ensures
            b == (self.category == GlyphCategory::Emoji),
    {
        self.category == GlyphCategory::Emoji
    }

    pub fn is_nerd_font(&self) -> (b: bool)
        ensures
            b == (self.category == GlyphCategory::NerdFont),
    {
        self.category == GlyphCategory::NerdFont
    }

    pub fn is_box_drawing(&self) -> (b: bool)
        ensures
            b == (self.category == GlyphCategory::BoxDrawing),
    {
        self.category == GlyphCategory::BoxDrawing
    }

    pub fn is_braille(&self) -> (b: bool)
        ensures
            b == (self.category == GlyphCategory::Braille),
    {
        self.category == GlyphCategory::Braille
    }

    pub fn is_cjk(&self) -> (b: bool)
        ensures
            b == (self.category == GlyphCategory::Cjk),
    {
        self.category == GlyphCategory::Cjk
    }
}

impl From<char> for Glyph {
    fn from(ch: char) -> (g: Glyph) {
        Glyph::new(ch)
    }
}

impl vstd::std_specs::convert::FromSpecImpl<char> for Glyph {
    open spec fn obeys_from_spec() -> bool {
        true
    }

    open spec fn from_spec(ch: char) -> Glyph {
        default_glyph(ch)
    }
}

// ===========================================================================
// Metrics
// ===========================================================================

/// Dimensions, bitmap placement and access record of a glyph.
#[derive(Debug, Clone, Copy)]
pub struct GlyphMetrics {
    pub glyph_id: GlyphId,
    pub width: u16,
    pub height: u16,
    pub bearing_x: i16,
    pub bearing_y: i16,
    pub advance_x: u16,
    pub advance_y: u16,
    pub bitmap_offset: usize,
    pub bitmap_size: usize,
    /// Clock reading of the last access, in nanoseconds.
    pub last_accessed: u64,
    pub access_count: u64,
}

/// The bytes a metrics record accounts for: the record and its bitmap.
pub open spec fn metrics_bytes(m: GlyphMetrics) -> nat {
    size_of::<GlyphMetrics>() + (m.bitmap_size as nat)
}

impl GlyphMetrics {
    /// Zero metrics for `glyph_id`, never accessed, stamped with the clock.
    pub fn new(glyph_id: GlyphId) -> (m: GlyphMetrics)
        ensures
            m.glyph_id == glyph_id,
            m.width == 0 && m.height == 0,
            m.bearing_x == 0 && m.bearing_y == 0,
            m.advance_x == 0 && m.advance_y == 0,
            m.bitmap_offset == 0 && m.bitmap_size == 0,
            m.access_count == 0,
    {
        GlyphMetrics {
            glyph_id,
            width: 0,
            height: 0,
            bearing_x: 0,
            bearing_y: 0,
            advance_x: 0,
            advance_y: 0,
            bitmap_offset: 0,
            bitmap_size: 0,
            last_accessed: crate::clock::now_nanos(),
            access_count: 0,
        }
    }

    pub fn with_dimensions(self, width: u16, height: u16) -> (m: GlyphMetrics)
        ensures
            m == (GlyphMetrics { width, height, ..self }),
    {
        GlyphMetrics { width, height, ..self }
    }

    pub fn with_bearing(self, x: i16, y: i16) -> (m: GlyphMetrics)
        ensures
            m == (GlyphMetrics { bearing_x: x, bearing_y: y, ..self }),
    {
        GlyphMetrics { bearing_x: x, bearing_y: y, ..self }
    }

    pub fn with_advance(self, x: u16, y: u16) -> (m: GlyphMetrics)
        ensures
            m == (GlyphMetrics { advance_x: x, advance_y: y, ..self }),
    {
        GlyphMetrics { advance_x: x, advance_y: y, ..self }
    }

    pub fn with_bitmap(self, offset: usize, size: usize) -> (m: GlyphMetrics)
        ensures
            m == (GlyphMetrics { bitmap_offset: offset, bitmap_size: size, ..self }),
    {
        GlyphMetrics { bitmap_offset: offset, bitmap_size: size, ..self }
    }

    /// Records an access: counts it and stamps the clock.
    pub fn touch(&mut self)
        requires
            old(self).access_count < u64::MAX,
        ensures
            final(self).access_count == old(self).access_count + 1,
            *final(self) == (GlyphMetrics {
                last_accessed: final(self).last_accessed,
                access_count: final(self).access_count,
                ..*old(self)
            }),
    {
        self.last_accessed = crate::clock::now_nanos();
        self.access_count = self.access_count + 1;
    }

    /// The size of the record plus its bitmap.
    pub fn bytes_used(&self) -> (n: usize)
        requires
            metrics_bytes(*self) <= usize::MAX,
        ensures
            n == metrics_bytes(*self),
    {
        core::mem::size_of::<GlyphMetrics>() + self.bitmap_size
    }
}

/// A summary of a metrics cache.
#[derive(Debug, Clone, Copy)]
pub struct MetricsStats {
    pub total_glyphs: usize,
    pub total_bytes: usize,
    pub max_bytes: usize,
    pub total_accesses: u64,
    pub oldest_access: u64,
    pub newest_access: u64,
}

impl MetricsStats {
    /// `Glyphs: <n>, Memory: <used>/<max> bytes, Accesses: <n>`.
    pub fn to_string(&self) -> (s: String)
        ensures
            s@ == "Glyphs: "@ + decimal(self.total_glyphs as nat) + ", Memory: "@ + decimal(self.total_bytes as nat)
                + "/"@ + decimal(self.max_bytes as nat) + " bytes, Accesses: "@ + decimal(
                self.total_accesses as nat,
            ),
    {
        let mut s = String::new();
        push_str(&mut s, "Glyphs: ");
        push_decimal(&mut s, self.total_glyphs as u64);
        push_str(&mut s, ", Memory: ");
        push_decimal(&mut s, self.total_bytes as u64);
        push_str(&mut s, "/");
        push_decimal(&mut s, self.max_bytes as u64);
        push_str(&mut s, " bytes, Accesses: ");
        push_decimal(&mut s, self.total_accesses);
        s
    }
}

/// The bytes accounted for by a sequence of records.
pub open spec fn sum_bytes(s: Seq<GlyphMetrics>) -> nat
    decreases s.len(),
{
    if s.len() == 0 {
        0
    } else {
        sum_bytes(s.drop_last()) + metrics_bytes(s.last())
    }
}

/// The accesses counted by a sequence of records.
pub open spec fn sum_accesses(s: Seq<GlyphMetrics>) -> nat
    decreases s.len(),
{
    if s.len() == 0 {
        0
    } else {
        sum_accesses(s.drop_last()) + (s.last().access_count as nat)
    }
}

/// The position of the record of `id`, or -1.
pub open spec fn metrics_index(s: Seq<GlyphMetrics>, id: GlyphId) -> int
    decreases s.len(),
{
    if s.len() == 0 {
        -1
    } else if s.last().glyph_id == id {
        s.len() - 1
    } else {
        metrics_index(s.drop_last(), id)
    }
}

/// No glyph has two records.
pub open spec fn unique_ids(s: Seq<GlyphMetrics>) -> bool {
    forall|i: int, j: int| 0 <= i < j < s.len() ==> s[i].glyph_id != s[j].glyph_id
}

/// The position of the oldest record (the first of the oldest on a tie).
pub open spec fn oldest_index(s: Seq<GlyphMetrics>) -> int
    decreases s.len(),
{
    if s.len() <= 1 {
        0
    } else {
        let k = oldest_index(s.drop_last());
        if s.last().last_accessed < s[k].last_accessed {
            s.len() - 1
        } else {
            k
        }
    }
}

/// Least recently used eviction: while more than `target` bytes are
/// accounted for and records remain, the oldest record goes. The records
/// left, the bytes then accounted for, and how many went.
pub open spec fn lru_evict(s: Seq<GlyphMetrics>, total: nat, target: nat) -> (Seq<GlyphMetrics>, nat, nat)
    decreases s.len(),
{
    if total <= target || s.len() == 0 {
        (s, total, 0)
    } else {
        let k = oldest_index(s);
        proof {
            lemma_oldest_index(s);
        }
        let rest: nat = if metrics_bytes(s[k]) <= total {
            (total - metrics_bytes(s[k])) as nat
        } else {
            0
        };
        let r = lru_evict(s.remove(k), rest, target);
        (r.0, r.1, r.2 + 1)
    }
}

/// The smallest of `t` and the access times of `s`.
pub open spec fn min_access(s: Seq<GlyphMetrics>, t: u64) -> u64
    decreases s.len(),
{
    if s.len() == 0 {
        t
    } else {
        let m = min_access(s.drop_last(), t);
        if s.last().last_accessed < m {
            s.last().last_accessed
        } else {
            m
        }
    }
}

/// The largest of `t` and the access times of `s`.
pub open spec fn max_access(s: Seq<GlyphMetrics>, t: u64) -> u64
    decreases s.len(),
{
    if s.len() == 0 {
        t
    } else {
        let m = max_access(s.drop_last(), t);
        if s.last().last_accessed > m {
            s.last().last_accessed
        } else {
            m
        }
    }
}

proof fn lemma_sum_bytes_update(s: Seq<GlyphMetrics>, k: int, m: GlyphMetrics)
    requires
        0 <= k < s.len(),
    ensures
        sum_bytes(s.update(k, m)) + metrics_bytes(s[k]) == sum_bytes(s) + metrics_bytes(m),
        metrics_bytes(s[k]) <= sum_bytes(s),
    decreases s.len(),
{
    if k < s.len() - 1 {
        assert(s.update(k, m).drop_last() =~= s.drop_last().update(k, m));
        lemma_sum_bytes_update(s.drop_last(), k, m);
    } else {
        assert(s.update(k, m).drop_last() =~= s.drop_last());
    }
}

proof fn lemma_sum_bytes_remove(s: Seq<GlyphMetrics>, k: int)
    requires
        0 <= k < s.len(),
    ensures
        sum_bytes(s.remove(k)) + metrics_bytes(s[k]) == sum_bytes(s),
    decreases s.len(),
{
    if k < s.len() - 1 {
        assert(s.remove(k).drop_last() =~= s.drop_last().remove(k));
        lemma_sum_bytes_remove(s.drop_last(), k);
    } else {
        assert(s.remove(k) =~= s.drop_last());
    }
}

proof fn lemma_sum_bytes_push(s: Seq<GlyphMetrics>, m: GlyphMetrics)
    ensures
        sum_bytes(s.push(m)) == sum_bytes(s) + metrics_bytes(m),
{
    assert(s.push(m).drop_last() =~= s);
}

proof fn lemma_metrics_index(s: Seq<GlyphMetrics>, id: GlyphId)
    requires
        unique_ids(s),
    ensures
        -1 <= metrics_index(s, id) < s.len(),
        metrics_index(s, id) >= 0 ==> s[metrics_index(s, id)].glyph_id == id,
        metrics_index(s, id) < 0 ==> forall|i: int| 0 <= i < s.len() ==> s[i].glyph_id != id,
    decreases s.len(),
{
    if s.len() > 0 {
        lemma_metrics_index(s.drop_last(), id);
        assert forall|i: int| 0 <= i < s.len() - 1 implies s.drop_last()[i] == s[i] by {}
    }
}

/// The oldest record is one of them, and no record is older.
pub proof fn lemma_oldest_index(s: Seq<GlyphMetrics>)
    requires
        s.len() > 0,
    ensures
        0 <= oldest_index(s) < s.len(),
        forall|i: int| 0 <= i < s.len() ==> s[oldest_index(s)].last_accessed <= #[trigger] s[i].last_accessed,
    decreases s.len(),
{
    if s.len() > 1 {
        lemma_oldest_index(s.drop_last());
        assert forall|i: int| 0 <= i < s.len() - 1 implies s.drop_last()[i] == s[i] by {}
    }
}

/// A least-recently-used cache of glyph metrics under a byte budget. It
/// holds at most one record per glyph, in the order they came in.
#[derive(Debug, Clone)]
pub struct MetricsCache {
    metrics: Vec<GlyphMetrics>,
    total_bytes: usize,
    max_bytes: usize,
}

impl MetricsCache {
    /// The records, in the order they came in.
    pub closed spec fn records(&self) -> Seq<GlyphMetrics> {
        self.metrics@
    }

    /// The bytes accounted for. A replaced record's bytes stay counted.
    pub closed spec fn spec_total_bytes(&self) -> nat {
        self.total_bytes as nat
    }

    /// The byte budget it was made with.
    pub closed spec fn spec_max_bytes(&self) -> nat {
        self.max_bytes as nat
    }

    /// One record per glyph, and at least their bytes accounted for.
    pub closed spec fn wf(&self) -> bool {
        &&& unique_ids(self.metrics@)
        &&& sum_bytes(self.metrics@) <= self.total_bytes
    }

    /// An empty cache with a budget of `max_bytes`.
    pub fn new(max_bytes: usize) -> (c: MetricsCache)
        ensures
            c.wf(),
            c.records() == Seq::<GlyphMetrics>::empty(),
            c.spec_total_bytes() == 0,
            c.spec_max_bytes() == max_bytes,
    {
        MetricsCache { metrics: Vec::new(), total_bytes: 0, max_bytes }
    }

    fn find(&self, glyph_id: &GlyphId) -> (r: Option<usize>)
        requires
            self.wf(),
        ensures
            match r {
                Some(k) => k as int == metrics_index(self.records(), *glyph_id) && k < self.records().len(),
                None => metrics_index(self.records(), *glyph_id) == -1,
            },
    {
        proof {
            lemma_metrics_index(self.metrics@, *glyph_id);
        }
        let mut i: usize = self.metrics.len();
        while i > 0
            invariant
                i <= self.metrics@.len(),
                unique_ids(self.metrics@),
                forall|j: int| i <= j < self.metrics@.len() ==> self.metrics@[j].glyph_id != *glyph_id,
                metrics_index(self.metrics@, *glyph_id) < i,
                -1 <= metrics_index(self.metrics@, *glyph_id),
                metrics_index(self.metrics@, *glyph_id) >= 0 ==> self.metrics@[metrics_index(
                    self.metrics@,
                    *glyph_id,
                )].glyph_id == *glyph_id,
            decreases i,
        {
            i -= 1;
            if self.metrics[i].glyph_id.0 == glyph_id.0 {
                proof {
                    assert(self.metrics@[i as int].glyph_id == *glyph_id);
                    lemma_metrics_index(self.metrics@, *glyph_id);
                    let m = metrics_index(self.metrics@, *glyph_id);
                    if m < i {
                        assert(self.metrics@[m].glyph_id != self.metrics@[i as int].glyph_id);
                    }
                }
                return Some(i);
            }
        }
        None
    }

    /// Whether the record of a glyph can count one more access.
    pub open spec fn can_touch(&self, glyph_id: GlyphId) -> bool {
        forall|i: int|
            0 <= i < self.records().len() && #[trigger] self.records()[i].glyph_id == glyph_id
                ==> self.records()[i].access_count < u64::MAX
    }

    /// `new` is this cache after an access to the record of `glyph_id` was
    /// recorded: that record (if any) counts one more access and has a new
    /// access time; nothing else changed.
    pub open spec fn touched(self, new: MetricsCache, glyph_id: GlyphId) -> bool {
        let k = metrics_index(self.records(), glyph_id);
        &&& new.spec_total_bytes() == self.spec_total_bytes()
        &&& new.spec_max_bytes() == self.spec_max_bytes()
        &&& if k < 0 {
            new.records() == self.records()
        } else {
            let m = new.records()[k];
            &&& m.access_count == self.records()[k].access_count + 1
            &&& m == (GlyphMetrics { last_accessed: m.last_accessed, access_count: m.access_count, ..self.records()[k] })
            &&& new.records() == self.records().update(k, m)
        }
    }

    /// The record of `glyph_id`, after recording the access on it.
    pub fn get(&mut self, glyph_id: &GlyphId) -> (r: Option<&GlyphMetrics>)
        requires
            old(self).wf(),
            old(self).can_touch(*glyph_id),
        ensures
            final(self).wf(),
            old(self).touched(*final(self), *glyph_id),
            ({
                let k = metrics_index(old(self).records(), *glyph_id);
                if k < 0 {
                    r is None
                } else {
                    r == Some(&final(self).records()[k])
                }
            }),
    {
        match self.find(glyph_id) {
            Some(k) => {
                proof {
                    lemma_metrics_index(self.metrics@, *glyph_id);
                    assert(self.records()[k as int].glyph_id == *glyph_id);
                }
                let mut m = self.metrics[k];
                m.touch();
                proof {
                    lemma_sum_bytes_update(self.metrics@, k as int, m);
                }
                self.metrics.set(k, m);
                proof {
                    assert(unique_ids(self.metrics@)) by {
                        assert forall|i: int, j: int| 0 <= i < j < self.metrics@.len() implies self.metrics@[i].glyph_id
                            != self.metrics@[j].glyph_id by {
                            assert(old(self).metrics@[i].glyph_id == self.metrics@[i].glyph_id);
                            assert(old(self).metrics@[j].glyph_id == self.metrics@[j].glyph_id);
                        }
                    }
                }
                Some(&self.metrics[k])
            },
            None => None,
        }
    }

    /// Adds a record, replacing the glyph's earlier one in place. Its bytes
    /// are added to the account (those of a replaced record stay counted).
    pub fn insert(&mut self, metrics: GlyphMetrics)
        requires
            old(self).wf(),
            old(self).spec_total_bytes() + metrics_bytes(metrics) <= usize::MAX,
        ensures
            final(self).wf(),
            final(self).spec_total_bytes() == old(self).spec_total_bytes() + metrics_bytes(metrics),
            final(self).spec_max_bytes() == old(self).spec_max_bytes(),
            ({
                let k = metrics_index(old(self).records(), metrics.glyph_id);
                if k < 0 {
                    final(self).records() == old(self).records().push(metrics)
                } else {
                    final(self).records() == old(self).records().update(k, metrics)
                }
            }),
    {
        let bytes = metrics.bytes_used();
        self.total_bytes = self.total_bytes + bytes;
        match self.find(&metrics.glyph_id) {
            Some(k) => {
                proof {
                    lemma_metrics_index(self.metrics@, metrics.glyph_id);
                    lemma_sum_bytes_update(self.metrics@, k as int, metrics);
                }
                self.metrics.set(k, metrics);
                proof {
                    assert forall|i: int, j: int| 0 <= i < j < self.metrics@.len() implies self.metrics@[i].glyph_id
                        != self.metrics@[j].glyph_id by {
                        if i != k && j != k {
                            assert(old(self).metrics@[i].glyph_id != old(self).metrics@[j].glyph_id);
                        } else if i == k {
                            assert(old(self).metrics@[k as int].glyph_id == metrics.glyph_id);
                            assert(old(self).metrics@[k as int].glyph_id != old(self).metrics@[j].glyph_id);
                        } else {
                            assert(old(self).metrics@[k as int].glyph_id == metrics.glyph_id);
                            assert(old(self).metrics@[i].glyph_id != old(self).metrics@[k as int].glyph_id);
                        }
                    }
                }
            },
            None => {
                proof {
                    lemma_metrics_index(self.metrics@, metrics.glyph_id);
                    lemma_sum_bytes_push(self.metrics@, metrics);
                }
                self.metrics.push(metrics);
            },
        }
    }

    /// Takes out the record of `glyph_id`, taking its bytes off the account.
    pub fn remove(&mut self, glyph_id: &GlyphId) -> (r: Option<GlyphMetrics>)
        requires
            old(self).wf(),
        ensures
            final(self).wf(),
            final(self).spec_max_bytes() == old(self).spec_max_bytes(),
            ({
                let k = metrics_index(old(self).records(), *glyph_id);
                if k < 0 {
                    &&& r is None
                    &&& final(self).records() == old(self).records()
                    &&& final(self).spec_total_bytes() == old(self).spec_total_bytes()
                } else {
                    &&& r == Some(old(self).records()[k])
                    &&& final(self).records() == old(self).records().remove(k)
                    &&& final(self).spec_total_bytes() == old(self).spec_total_bytes() - metrics_bytes(
                        old(self).records()[k],
                    )
                }
            }),
    {
        match self.find(glyph_id) {
            Some(k) => {
                proof {
                    lemma_sum_bytes_remove(self.metrics@, k as int);
                }
                let m = self.metrics.remove(k);
                let bytes = m.bytes_used();
                self.total_bytes = self.total_bytes - bytes;
                proof {
                    assert forall|i: int, j: int| 0 <= i < j < self.metrics@.len() implies self.metrics@[i].glyph_id
                        != self.metrics@[j].glyph_id by {
                        let oi = if i < k { i } else { i + 1 };
                        let oj = if j < k { j } else { j + 1 };
                        assert(self.metrics@[i] == old(self).metrics@[oi]);
                        assert(self.metrics@[j] == old(self).metrics@[oj]);
                    }
                }
                Some(m)
            },
            None => None,
        }
    }

    /// Whether the glyph has a record.
    pub fn contains(&self, glyph_id: &GlyphId) -> (b: bool)
        requires
            self.wf(),
        ensures
            b == (metrics_index(self.records(), *glyph_id) >= 0),
            b == (exists|i: int| 0 <= i < self.records().len() && self.records()[i].glyph_id == *glyph_id),
    {
        proof {
            lemma_metrics_index(self.metrics@, *glyph_id);
        }
        self.find(glyph_id).is_some()
    }

    pub fn len(&self) -> (n: usize)
        ensures
            n == self.records().len(),
    {
        self.metrics.len()
    }

    pub fn is_empty(&self) -> (b: bool)
        ensures
            b == (self.records().len() == 0),
    {
        self.metrics.len() == 0
    }

    pub fn total_bytes(&self) -> (n: usize)
        ensures
            n == self.spec_total_bytes(),
    {
        self.total_bytes
    }

    pub fn max_bytes(&self) -> (n: usize)
        ensures
            n == self.spec_max_bytes(),
    {
        self.max_bytes
    }

    /// Evicts the least recently used records until at most `target_bytes`
    /// are accounted for or none is left; returns how many went.
    pub fn evict_lru(&mut self, target_bytes: usize) -> (evicted: usize)
        requires
            old(self).wf(),
        ensures
            final(self).wf(),
            final(self).spec_max_bytes() == old(self).spec_max_bytes(),
            (final(self).records(), final(self).spec_total_bytes(), evicted as nat) == lru_evict(
                old(self).records(),
                old(self).spec_total_bytes(),
                target_bytes as nat,
            ),
            final(self).spec_total_bytes() <= target_bytes || final(self).records().len() == 0,
    {
        let start_len = self.metrics.len();
        let mut evicted: usize = 0;
        while self.total_bytes > target_bytes && self.metrics.len() > 0
            invariant
                self.wf(),
                self.max_bytes == old(self).max_bytes,
                evicted + self.metrics@.len() == start_len,
                ({
                    let r = lru_evict(self.metrics@, self.total_bytes as nat, target_bytes as nat);
                    lru_evict(old(self).metrics@, old(self).total_bytes as nat, target_bytes as nat) == (
                    r.0,
                    r.1,
                    (r.2 + evicted) as nat,
                    )
                }),
            decreases self.metrics@.len(),
        {
            let ghost before = self.metrics@;
            let k = self.oldest();
            proof {
                lemma_sum_bytes_remove(self.metrics@, k as int);
            }
            let m = self.metrics.remove(k);
            let bytes = m.bytes_used();
            self.total_bytes = self.total_bytes - bytes;
            evicted = evicted + 1;
            proof {
                assert forall|i: int, j: int| 0 <= i < j < self.metrics@.len() implies self.metrics@[i].glyph_id
                    != self.metrics@[j].glyph_id by {
                    let oi = if i < k { i } else { i + 1 };
                    let oj = if j < k { j } else { j + 1 };
                    assert(self.metrics@[i] == before[oi]);
                    assert(self.metrics@[j] == before[oj]);
                }
            }
        }
        evicted
    }

    fn oldest(&self) -> (k: usize)
        requires
            self.metrics@.len() > 0,
        ensures
            k == oldest_index(self.metrics@),
            k < self.metrics@.len(),
    {
        proof {
            lemma_oldest_index(self.metrics@);
        }
        let mut k: usize = 0;
        let mut i: usize = 1;
        while i < self.metrics.len()
            invariant
                1 <= i <= self.metrics@.len(),
                k == oldest_index(self.metrics@.take(i as int)),
                k < i,
            decreases self.metrics@.len() - i,
        {
            proof {
                assert(self.metrics@.take(i + 1).drop_last() =~= self.metrics@.take(i as int));
                lemma_oldest_index(self.metrics@.take(i as int));
            }
            if self.metrics[i].last_accessed < self.metrics[k].last_accessed {
                k = i;
            }
            i += 1;
        }
        assert(self.metrics@.take(i as int) =~= self.metrics@);
        k
    }

    /// Drops every record and zeroes the account.
    pub fn clear(&mut self)
        ensures
            final(self).wf(),
            final(self).records() == Seq::<GlyphMetrics>::empty(),
            final(self).spec_total_bytes() == 0,
            final(self).spec_max_bytes() == old(self).spec_max_bytes(),
    {
        self.metrics.clear();
        self.total_bytes = 0;
    }

    /// The count, the bytes, the budget, the total of access counts, and
    /// the oldest and newest access among the records and the clock
    /// reading taken now.
    pub fn stats(&self) -> (st: MetricsStats)
        requires
            sum_accesses(self.records()) <= u64::MAX,
        ensures
            st.total_glyphs == self.records().len(),
            st.total_bytes == self.spec_total_bytes(),
            st.max_bytes == self.spec_max_bytes(),
            st.total_accesses == sum_accesses(self.records()),
            exists|t: u64|
                st.oldest_access == min_access(self.records(), t) && st.newest_access == max_access(
                    self.records(),
                    t,
                ),
    {
        let now = crate::clock::now_nanos();
        let mut total_accesses: u64 = 0;
        let mut oldest = now;
        let mut newest = now;
        let mut i: usize = 0;
        while i < self.metrics.len()
            invariant
                i <= self.metrics@.len(),
                sum_accesses(self.metrics@) <= u64::MAX,
                total_accesses == sum_accesses(self.metrics@.take(i as int)),
                oldest == min_access(self.metrics@.take(i as int), now),
                newest == max_access(self.metrics@.take(i as int), now),
            decreases self.metrics@.len() - i,
        {
            proof {
                assert(self.metrics@.take(i + 1).drop_last() =~= self.metrics@.take(i as int));
                lemma_sum_accesses_prefix(self.metrics@, i + 1);
            }
            let m = self.metrics[i];
            total_accesses = total_accesses + m.access_count;
            if m.last_accessed < oldest {
                oldest = m.last_accessed;
            }
            if m.last_accessed > newest {
                newest = m.last_accessed;
            }
            i += 1;
        }
        assert(self.metrics@.take(i as int) =~= self.metrics@);
        MetricsStats {
            total_glyphs: self.metrics.len(),
            total_bytes: self.total_bytes,
            max_bytes: self.max_bytes,
            total_accesses,
            oldest_access: oldest,
            newest_access: newest,
        }
    }
}

proof fn lemma_sum_accesses_prefix(s: Seq<GlyphMetrics>, k: int)
    requires
        0 <= k <= s.len(),
    ensures
        sum_accesses(s.take(k)) <= sum_accesses(s),
    decreases s.len() - k,
{
    if k < s.len() {
        lemma_sum_accesses_prefix(s, k + 1);
        assert(s.take(k + 1).drop_last() =~= s.take(k));
    } else {
        assert(s.take(k) =~= s);
    }
}

/// Eviction leaves at most `target` bytes accounted for, or no record.
pub proof fn lemma_lru_evict_meets_target(s: Seq<GlyphMetrics>, total: nat, target: nat)
    ensures
        lru_evict(s, total, target).1 <= target || lru_evict(s, total, target).0.len() == 0,
        lru_evict(s, total, target).1 <= total,
        lru_evict(s, total, target).2 + lru_evict(s, total, target).0.len() == s.len(),
    decreases s.len(),
{
    if !(total <= target || s.len() == 0) {
        let k = oldest_index(s);
        lemma_oldest_index(s);
        let rest: nat = if metrics_bytes(s[k]) <= total {
            (total - metrics_bytes(s[k])) as nat
        } else {
            0
        };
        lemma_lru_evict_meets_target(s.remove(k), rest, target);
    }
}

/// Eviction takes the least recently used records first: what it keeps is
/// drawn from `s`, and each record it evicts was accessed no later than any
/// record it keeps.
pub proof fn lemma_lru_evict_oldest_first(s: Seq<GlyphMetrics>, total: nat, target: nat)
    ensures
        lru_evict(s, total, target).0.to_multiset().subset_of(s.to_multiset()),
        forall|e: GlyphMetrics, j: int|
            #![trigger s.to_multiset().count(e), lru_evict(s, total, target).0[j]]
            s.to_multiset().count(e) > lru_evict(s, total, target).0.to_multiset().count(e) && 0 <= j
                < lru_evict(s, total, target).0.len() ==> e.last_accessed <= lru_evict(
                s,
                total,
                target,
            ).0[j].last_accessed,
    decreases s.len(),
{
    broadcast use vstd::seq_lib::group_to_multiset_ensures, vstd::multiset::group_multiset_axioms;

    if !(total <= target || s.len() == 0) {
        let k = oldest_index(s);
        lemma_oldest_index(s);
        let rest: nat = if metrics_bytes(s[k]) <= total {
            (total - metrics_bytes(s[k])) as nat
        } else {
            0
        };
        let t = s.remove(k);
        lemma_lru_evict_oldest_first(t, rest, target);
        let kept = lru_evict(s, total, target).0;
        assert(kept == lru_evict(t, rest, target).0);
        assert(s.to_multiset() =~= t.to_multiset().insert(s[k]));
        assert forall|e: GlyphMetrics, j: int|
            #![trigger s.to_multiset().count(e), kept[j]]
            s.to_multiset().count(e) > kept.to_multiset().count(e) && 0 <= j < kept.len() implies e.last_accessed
            <= kept[j].last_accessed by {
            if e != s[k] {
                assert(t.to_multiset().count(e) == s.to_multiset().count(e));
                assert(t.to_multiset().count(e) > kept.to_multiset().count(e));
            } else {
                assert(kept.to_multiset().count(kept[j]) > 0);
                assert(t.to_multiset().count(kept[j]) > 0);
                assert(t.contains(kept[j]));
                let i = choose|i: int| 0 <= i < t.len() && t[i] == kept[j];
                if i < k {
                    assert(t[i] == s[i]);
                } else {
                    assert(t[i] == s[i + 1]);
                }
            }
        }
    }
}

// ===========================================================================
// Lookup tables
// ===========================================================================

/// `char::from_u32`: the character with code point `cp`, or none when `cp`
/// is a surrogate or past `0x10FFFF`.
#[verifier::external_body]
fn char_from_u32(cp: u32) -> (r: Option<char>)
    ensures
        r is Some <==> (cp <= 0x10FFFF && !(0xD800 <= cp <= 0xDFFF)),
        r matches Some(c) ==> c as u32 == cp,
{
    char::from_u32(cp)
}

/// The first box-drawing code point of the table.
pub const BOX_DRAWING_FIRST: u32 = 0x2500;
/// The last box-drawing code point of the table.
pub const BOX_DRAWING_LAST: u32 = 0x257F;
/// The first Braille code point.
pub const BRAILLE_FIRST: u32 = 0x2800;
/// The last Braille code point.
pub const BRAILLE_LAST: u32 = 0x28FF;

/// `g` is the table glyph of code point `cp`: the default glyph of the
/// character `cp`.
pub open spec fn is_table_glyph(g: Glyph, cp: u32) -> bool {
    g.ch as u32 == cp && g == default_glyph(g.ch)
}

/// The eight emoji kept ready: grinning face, tears of joy, thinking face,
/// thumbs up, thumbs down, heavy heart, party popper and fire.
pub open spec fn common_emoji_chars() -> Seq<char> {
    seq!['\u{1F600}', '\u{1F602}', '\u{1F914}', '\u{1F44D}', '\u{1F44E}', '\u{2764}', '\u{1F389}', '\u{1F525}']
}

/// What the tables hold for a character: a glyph for ASCII, the first half
/// of the box-drawing block (up to U+257F) and the Braille block.
pub open spec fn table_lookup(ch: char) -> Option<Glyph> {
    let cp = ch as u32;
    match category_of(cp) {
        GlyphCategory::Ascii => Some(default_glyph(ch)),
        GlyphCategory::BoxDrawing => if BOX_DRAWING_FIRST <= cp <= BOX_DRAWING_LAST {
            Some(default_glyph(ch))
        } else {
            None
        },
        GlyphCategory::Braille => Some(default_glyph(ch)),
        _ => None,
    }
}

/// Ready-made glyphs for ASCII, box drawing and Braille, and a few common
/// emoji.
#[derive(Debug)]
pub struct GlyphTables {
    ascii: Vec<Glyph>,
    box_drawing: Vec<Glyph>,
    braille: Vec<Glyph>,
    common_emoji: Vec<Glyph>,
}

impl GlyphTables {
    /// Each table holds the glyph of each code point of its range.
    pub closed spec fn wf(&self) -> bool {
        &&& self.ascii@.len() == 128
        &&& forall|i: int| 0 <= i < 128 ==> #[trigger] is_table_glyph(self.ascii@[i], i as u32)
        &&& self.box_drawing@.len() == 128
        &&& forall|i: int| 0 <= i < 128 ==> #[trigger] is_table_glyph(self.box_drawing@[i], (0x2500 + i) as u32)
        &&& self.braille@.len() == 256
        &&& forall|i: int| 0 <= i < 256 ==> #[trigger] is_table_glyph(self.braille@[i], (0x2800 + i) as u32)
        &&& self.common_emoji@ == common_emoji_chars().map_values(|c: char| default_glyph(c))
    }

    fn range_table(first: u32, count: u32, category: GlyphCategory) -> (t: Vec<Glyph>)
        requires
            first + count <= 0xD800,
            forall|i: int| 0 <= i < count ==> #[trigger] category_of((first + i) as u32) == category,
        ensures
            t@.len() == count,
            forall|i: int| 0 <= i < count ==> is_table_glyph(#[trigger] t@[i], (first + i) as u32),
    {
        let mut t: Vec<Glyph> = Vec::new();
        let mut i: u32 = 0;
        while i < count
            invariant
                i <= count,
                first + count <= 0xD800,
                forall|j: int| 0 <= j < count ==> #[trigger] category_of((first + j) as u32) == category,
                t@.len() == i,
                forall|j: int| 0 <= j < i ==> is_table_glyph(#[trigger] t@[j], (first + j) as u32),
            decreases count - i,
        {
            let cp = first + i;
            match char_from_u32(cp) {
                Some(ch) => {
                    assert(category_of((first + i) as u32) == category);
                    t.push(Glyph::new(ch).with_category(category));
                },
                None => {},
            }
            i += 1;
        }
        t
    }

    /// Builds the tables: the 128 ASCII glyphs, U+2500..=U+257F, the 256
    /// Braille patterns, and the common emoji, each with its category.
    pub fn new() -> (t: GlyphTables)
        ensures
            t.wf(),
    {
        let ascii = Self::range_table(0, 128, GlyphCategory::Ascii);
        let box_drawing = Self::range_table(BOX_DRAWING_FIRST, 128, GlyphCategory::BoxDrawing);
        let braille = Self::range_table(BRAILLE_FIRST, 256, GlyphCategory::Braille);
        let mut common_emoji: Vec<Glyph> = Vec::new();
        common_emoji.push(Glyph::new('\u{1F600}').with_category(GlyphCategory::Emoji));
        common_emoji.push(Glyph::new('\u{1F602}').with_category(GlyphCategory::Emoji));
        common_emoji.push(Glyph::new('\u{1F914}').with_category(GlyphCategory::Emoji));
        common_emoji.push(Glyph::new('\u{1F44D}').with_category(GlyphCategory::Emoji));
        common_emoji.push(Glyph::new('\u{1F44E}').with_category(GlyphCategory::Emoji));
        common_emoji.push(Glyph::new('\u{2764}').with_category(GlyphCategory::Emoji));
        common_emoji.push(Glyph::new('\u{1F389}').with_category(GlyphCategory::Emoji));
        common_emoji.push(Glyph::new('\u{1F525}').with_category(GlyphCategory::Emoji));
        let t = GlyphTables { ascii, box_drawing, braille, common_emoji };
        assert(t.common_emoji@ =~= common_emoji_chars().map_values(|c: char| default_glyph(c)));
        t
    }

    /// The glyph of an ASCII character.
    pub fn ascii_glyph(&self, ch: char) -> (r: Option<&Glyph>)
        requires
            self.wf(),
        ensures
            r is Some <==> (ch as u32) < 128,
            r matches Some(g) ==> *g == default_glyph(ch),
    {
        let idx = ch as u32;
        if idx < 128 {
            assert(is_table_glyph(self.ascii@[idx as int], idx));
            assert(self.ascii@[idx as int].ch == ch);
            Some(&self.ascii[idx as usize])
        } else {
            None
        }
    }

    /// The glyph of a character of U+2500..=U+257F.
    pub fn box_drawing_glyph(&self, ch: char) -> (r: Option<&Glyph>)
        requires
            self.wf(),
        ensures
            r is Some <==> BOX_DRAWING_FIRST <= (ch as u32) <= BOX_DRAWING_LAST,
            r matches Some(g) ==> *g == default_glyph(ch),
    {
        let cp = ch as u32;
        if BOX_DRAWING_FIRST <= cp && cp <= BOX_DRAWING_LAST {
            assert(is_table_glyph(self.box_drawing@[cp - 0x2500], (0x2500 + (cp - 0x2500)) as u32));
            assert(self.box_drawing@[cp - 0x2500].ch == ch);
            Some(&self.box_drawing[(cp - BOX_DRAWING_FIRST) as usize])
        } else {
            None
        }
    }

    /// The glyph of a Braille pattern.
    pub fn braille_glyph(&self, ch: char) -> (r: Option<&Glyph>)
        requires
            self.wf(),
        ensures
            r is Some <==> BRAILLE_FIRST <= (ch as u32) <= BRAILLE_LAST,
            r matches Some(g) ==> *g == default_glyph(ch),
    {
        let cp = ch as u32;
        if BRAILLE_FIRST <= cp && cp <= BRAILLE_LAST {
            assert(is_table_glyph(self.braille@[cp - 0x2800], (0x2800 + (cp - 0x2800)) as u32));
            assert(self.braille@[cp - 0x2800].ch == ch);
            Some(&self.braille[(cp - BRAILLE_FIRST) as usize])
        } else {
            None
        }
    }

    /// The table glyph of a character, by its category.
    pub fn get_glyph(&self, ch: char) -> (r: Option<&Glyph>)
        requires
            self.wf(),
        ensures
            r is Some <==> table_lookup(ch) is Some,
            r matches Some(g) ==> table_lookup(ch) == Some(*g),
    {
        let category = GlyphCategory::from_char(ch);
        match category {
            GlyphCategory::Ascii => self.ascii_glyph(ch),
            GlyphCategory::BoxDrawing => self.box_drawing_glyph(ch),
            GlyphCategory::Braille => self.braille_glyph(ch),
            _ => None,
        }
    }

    /// The common emoji glyphs.
    pub fn common_emoji(&self) -> (r: &[Glyph])
        requires
            self.wf(),
        ensures
            r@ == common_emoji_chars().map_values(|c: char| default_glyph(c)),
    {
        self.common_emoji.as_slice()
    }
}

impl Default for GlyphTables {
    fn default() -> (t: GlyphTables)
        ensures
            t.wf(),
    {
        GlyphTables::new()
    }
}

// ===========================================================================
// Cache
// ===========================================================================

/// Glyphs a default cache holds before it evicts.
pub const DEFAULT_MAX_GLYPHS: usize = 10_000;
/// Bytes of metrics a default cache budgets for.
pub const DEFAULT_MAX_BYTES: usize = 16_777_216;
/// Nanoseconds after which an unused glyph has expired (one minute).
pub const DEFAULT_MAX_AGE: u64 = 60_000_000_000;
/// Glyphs an insertion into a full cache evicts.
pub const EVICT_BATCH: usize = 100;

/// Counters of a glyph cache.
#[derive(Debug, Clone, Copy, PartialEq, Eq, Structural)]
pub struct CacheStats {
    pub hits: u64,
    pub misses: u64,
    pub evictions: u64,
    pub insertions: u64,
    pub lookups: u64,
}

impl Default for CacheStats {
    fn default() -> (s: CacheStats)
        ensures
            s == (CacheStats { hits: 0, misses: 0, evictions: 0, insertions: 0, lookups: 0 }),
    {
        CacheStats { hits: 0, misses: 0, evictions: 0, insertions: 0, lookups: 0 }
    }
}

/// The position of the glyph with `id`, or -1.
pub open spec fn glyph_index(s: Seq<Glyph>, id: GlyphId) -> int
    decreases s.len(),
{
    if s.len() == 0 {
        -1
    } else if s.last().id == id {
        s.len() - 1
    } else {
        glyph_index(s.drop_last(), id)
    }
}

proof fn lemma_glyph_index(s: Seq<Glyph>, id: GlyphId)
    ensures
        -1 <= glyph_index(s, id) < s.len(),
        glyph_index(s, id) >= 0 ==> s[glyph_index(s, id)].id == id,
        glyph_index(s, id) < 0 ==> forall|i: int| 0 <= i < s.len() ==> s[i].id != id,
        forall|i: int| glyph_index(s, id) < i < s.len() ==> s[i].id != id,
    decreases s.len(),
{
    if s.len() > 0 {
        lemma_glyph_index(s.drop_last(), id);
        assert forall|i: int| 0 <= i < s.len() - 1 implies s.drop_last()[i] == s[i] by {}
    }
}

/// The glyph a cache makes for a character it lacks: the table glyph when
/// there is one, else the default glyph with its category's width.
pub open spec fn created_glyph(ch: char) -> Glyph {
    match table_lookup(ch) {
        Some(g) => g,
        None => {
            let c = category_of(ch as u32);
            Glyph { width: category_width(c), category: c, ..default_glyph(ch) }
        },
    }
}

/// The metrics record a cache keeps for a glyph: 8 by 16 pixels a cell.
pub open spec fn glyph_metrics_of(g: Glyph, m: GlyphMetrics) -> bool {
    &&& m.glyph_id == g.id
    &&& m.width == g.width * 8 && m.height == g.height * 16
    &&& m.advance_x == g.advance_x * 8 && m.advance_y == g.advance_y * 16
    &&& m.bearing_x == 0 && m.bearing_y == 0
    &&& m.bitmap_offset == 0 && m.bitmap_size == 0
    &&& m.access_count == 0
}

/// The glyphs an eviction of a batch aims to keep, out of `n`.
pub open spec fn batch_target(n: int) -> int {
    if n >= EVICT_BATCH {
        n - EVICT_BATCH
    } else {
        0
    }
}

/// `s` with `g` put in: it replaces the glyph with its id, or is appended.
pub open spec fn put_glyph(s: Seq<Glyph>, g: Glyph) -> Seq<Glyph> {
    let k = glyph_index(s, g.id);
    if k < 0 {
        s.push(g)
    } else {
        s.update(k, g)
    }
}

/// `s` with `m` put in: it replaces the record of its glyph, or is appended.
pub open spec fn put_metrics(s: Seq<GlyphMetrics>, m: GlyphMetrics) -> Seq<GlyphMetrics> {
    let k = metrics_index(s, m.glyph_id);
    if k < 0 {
        s.push(m)
    } else {
        s.update(k, m)
    }
}

/// A glyph cache: the glyphs in the order they came in, their metrics
/// under a byte budget, the lookup tables, and counters.
pub struct GlyphCache {
    glyphs: Vec<Glyph>,
    metrics: MetricsCache,
    tables: GlyphTables,
    max_glyphs: usize,
    max_bytes: usize,
    max_age: u64,
    stats: CacheStats,
}

/// What `evict(count)` does to the metrics of `c`: least recently used
/// records go until at most the budget share of `len - count` glyphs
/// (saturating) is accounted for. The records kept, the bytes then
/// accounted for, and how many went.
pub open spec fn evict_outcome(c: GlyphCache, count: nat) -> (Seq<GlyphMetrics>, nat, nat) {
    let target: int = if c.glyph_list().len() >= count {
        c.glyph_list().len() - count
    } else {
        0
    };
    let target_bytes: int = (c.byte_budget() * target) / (c.glyph_limit() as int);
    lru_evict(c.metrics_cache().records(), c.metrics_cache().spec_total_bytes(), target_bytes as nat)
}

/// An insertion into `c` evicts a batch first: `c` holds its limit of glyphs.
pub open spec fn insert_evicts(c: GlyphCache) -> bool {
    c.glyph_list().len() >= c.glyph_limit()
}

/// How many metrics records an insertion into `c` evicts.
pub open spec fn insert_evictions(c: GlyphCache) -> nat {
    if insert_evicts(c) {
        evict_outcome(c, EVICT_BATCH as nat).2
    } else {
        0
    }
}

/// `b` is `a` after inserting `g`, the counters aside: when `a` holds its
/// limit of glyphs, a batch is evicted first (see `evict_outcome`, the
/// glyphs left without metrics going too); then `g` is put into the glyphs
/// and its metrics record (with the current time as its last access) into
/// the metrics, its bytes added to the account.
pub open spec fn inserted(a: GlyphCache, g: Glyph, b: GlyphCache) -> bool {
    let full = insert_evicts(a);
    let r = evict_outcome(a, EVICT_BATCH as nat);
    let glyphs0 = if full {
        with_metrics(a.glyph_list(), r.0)
    } else {
        a.glyph_list()
    };
    let records0 = if full {
        r.0
    } else {
        a.metrics_cache().records()
    };
    let bytes0: nat = if full {
        r.1
    } else {
        a.metrics_cache().spec_total_bytes()
    };
    &&& b.glyph_list() == put_glyph(glyphs0, g)
    &&& b.glyph_limit() == a.glyph_limit()
    &&& b.byte_budget() == a.byte_budget()
    &&& b.age_limit() == a.age_limit()
    &&& b.metrics_cache().spec_max_bytes() == a.metrics_cache().spec_max_bytes()
    &&& exists|m: GlyphMetrics|
        #[trigger] glyph_metrics_of(g, m) && b.metrics_cache().records() == put_metrics(records0, m)
            && b.metrics_cache().spec_total_bytes() == bytes0 + metrics_bytes(m)
}

/// `b` is `a` after looking up (and on a miss inserting) the glyph of `ch`:
/// a hit counts a lookup and a hit and changes nothing else; a miss
/// inserts the glyph made for `ch` and counts a lookup, a miss, an
/// insertion and the evictions.
#[verifier::opaque]
pub open spec fn looked_up(a: GlyphCache, ch: char, b: GlyphCache) -> bool {
    if glyph_index(a.glyph_list(), GlyphId(ch as u32)) >= 0 {
        &&& b.glyph_list() == a.glyph_list()
        &&& b.metrics_cache() == a.metrics_cache()
        &&& b.glyph_limit() == a.glyph_limit()
        &&& b.byte_budget() == a.byte_budget()
        &&& b.age_limit() == a.age_limit()
        &&& b.counters() == (CacheStats {
            lookups: (a.counters().lookups + 1) as u64,
            hits: (a.counters().hits + 1) as u64,
            ..a.counters()
        })
    } else {
        &&& inserted(a, created_glyph(ch), b)
        &&& b.counters() == (CacheStats {
            lookups: (a.counters().lookups + 1) as u64,
            misses: (a.counters().misses + 1) as u64,
            insertions: (a.counters().insertions + 1) as u64,
            evictions: (a.counters().evictions + insert_evictions(a)) as u64,
            ..a.counters()
        })
    }
}

/// `states` runs from `a` to `b`, each state the one before it after
/// looking up the glyph of the next code point of `first ..= last`.
pub open spec fn lookup_chain(states: Seq<GlyphCache>, a: GlyphCache, first: int, last: int, b: GlyphCache) -> bool {
    &&& states.len() == last - first + 2
    &&& states[0] == a
    &&& states.last() == b
    &&& forall|i: int|
        0 <= i < states.len() - 1 ==> looked_up(#[trigger] states[i], (first + i) as char, states[i + 1])
}

/// `b` is `a` after looking up, in order, the glyph of each code point in
/// `first ..= last` (all of them characters).
pub open spec fn range_looked_up(a: GlyphCache, first: int, last: int, b: GlyphCache) -> bool {
    exists|states: Seq<GlyphCache>| #[trigger] lookup_chain(states, a, first, last, b)
}

impl GlyphCache {
    /// The glyphs, in the order they came in.
    pub closed spec fn glyph_list(&self) -> Seq<Glyph> {
        self.glyphs@
    }

    /// The metrics cache.
    pub closed spec fn metrics_cache(&self) -> MetricsCache {
        self.metrics
    }

    /// The counters.
    pub closed spec fn counters(&self) -> CacheStats {
        self.stats
    }

    /// The glyph limit.
    pub closed spec fn glyph_limit(&self) -> nat {
        self.max_glyphs as nat
    }

    /// The byte budget.
    pub closed spec fn byte_budget(&self) -> nat {
        self.max_bytes as nat
    }

    /// How long, in nanoseconds, a glyph may go unused before it expires.
    pub closed spec fn age_limit(&self) -> u64 {
        self.max_age
    }

    /// One glyph per id, consistent parts, and every lookup a hit or a
    /// miss.
    pub closed spec fn wf(&self) -> bool {
        &&& forall|i: int, j: int| 0 <= i < j < self.glyphs@.len() ==> self.glyphs@[i].id != self.glyphs@[j].id
        &&& self.metrics.wf()
        &&& self.tables.wf()
        &&& self.stats.hits + self.stats.misses == self.stats.lookups
    }

    /// Room for `k` more insertions without any counter, account or
    /// budget computation overflowing, and a nonzero glyph limit.
    pub open spec fn room(&self, k: nat) -> bool {
        &&& self.counters().lookups + k <= u64::MAX
        &&& self.insert_room(k)
    }

    /// Room for `k` more insertions, lookups aside.
    pub open spec fn insert_room(&self, k: nat) -> bool {
        &&& self.counters().insertions + k <= u64::MAX
        &&& self.counters().evictions + self.metrics_cache().records().len() + k <= u64::MAX
        &&& self.metrics_cache().spec_total_bytes() + k * size_of::<GlyphMetrics>() <= usize::MAX
        &&& self.glyph_limit() > 0
        &&& k > 0 ==> self.byte_budget() * batch_target(self.glyph_list().len() + k - 1) <= usize::MAX
    }

    /// A cache of 10 000 glyphs and 16 MiB of metrics.
    pub fn new() -> (c: GlyphCache)
        ensures
            c.wf(),
            c.glyph_list().len() == 0,
            c.metrics_cache().records().len() == 0,
            c.metrics_cache().spec_total_bytes() == 0,
            c.counters() == CacheStats::default_spec(),
            c.glyph_limit() == DEFAULT_MAX_GLYPHS,
            c.byte_budget() == DEFAULT_MAX_BYTES,
    {
        Self::with_config(DEFAULT_MAX_GLYPHS, DEFAULT_MAX_BYTES)
    }

    /// An empty cache of at most `max_glyphs` glyphs (before eviction) and
    /// `max_bytes` bytes of metrics; glyphs expire after a minute.
    pub fn with_config(max_glyphs: usize, max_bytes: usize) -> (c: GlyphCache)
        ensures
            c.wf(),
            c.glyph_list().len() == 0,
            c.metrics_cache().records().len() == 0,
            c.metrics_cache().spec_total_bytes() == 0,
            c.metrics_cache().spec_max_bytes() == max_bytes,
            c.counters() == CacheStats::default_spec(),
            c.glyph_limit() == max_glyphs,
            c.byte_budget() == max_bytes,
    {
        GlyphCache {
            glyphs: Vec::new(),
            metrics: MetricsCache::new(max_bytes),
            tables: GlyphTables::new(),
            max_glyphs,
            max_bytes,
            max_age: DEFAULT_MAX_AGE,
            stats: CacheStats::default(),
        }
    }

    fn find(&self, id: GlyphId) -> (r: Option<usize>)
        requires
            self.wf(),
        ensures
            match r {
                Some(k) => k as int == glyph_index(self.glyphs@, id) && k < self.glyphs@.len(),
                None => glyph_index(self.glyphs@, id) == -1,
            },
    {
        proof {
            lemma_glyph_index(self.glyphs@, id);
        }
        let mut i: usize = self.glyphs.len();
        while i > 0
            invariant
                i <= self.glyphs@.len(),
                forall|j: int| i <= j < self.glyphs@.len() ==> self.glyphs@[j].id != id,
                -1 <= glyph_index(self.glyphs@, id) < self.glyphs@.len(),
                glyph_index(self.glyphs@, id) >= 0 ==> self.glyphs@[glyph_index(self.glyphs@, id)].id == id,
                forall|j: int| glyph_index(self.glyphs@, id) < j < self.glyphs@.len() ==> self.glyphs@[j].id != id,
            decreases i,
        {
            i -= 1;
            if self.glyphs[i].id.0 == id.0 {
                assert(self.glyphs@[i as int].id == id);
                return Some(i);
            }
        }
        None
    }

    /// Looks up the glyph of `ch`: a hit records the access on its metrics.
    pub fn get(&mut self, ch: char) -> (r: Option<&Glyph>)
        requires
            old(self).wf(),
            old(self).counters().lookups < u64::MAX,
            old(self).metrics_cache().can_touch(GlyphId(ch as u32)),
        ensures
            final(self).wf(),
            final(self).glyph_list() == old(self).glyph_list(),
            final(self).glyph_limit() == old(self).glyph_limit(),
            final(self).byte_budget() == old(self).byte_budget(),
            ({
                let k = glyph_index(old(self).glyph_list(), GlyphId(ch as u32));
                if k < 0 {
                    &&& r is None
                    &&& final(self).counters() == (CacheStats {
                        lookups: (old(self).counters().lookups + 1) as u64,
                        misses: (old(self).counters().misses + 1) as u64,
                        ..old(self).counters()
                    })
                    &&& final(self).metrics_cache() == old(self).metrics_cache()
                } else {
                    &&& r == Some(&old(self).glyph_list()[k])
                    &&& final(self).counters() == (CacheStats {
                        lookups: (old(self).counters().lookups + 1) as u64,
                        hits: (old(self).counters().hits + 1) as u64,
                        ..old(self).counters()
                    })
                    &&& old(self).metrics_cache().touched(final(self).metrics_cache(), GlyphId(ch as u32))
                }
            }),
    {
        let id = GlyphId(ch as u32);
        match self.find(id) {
            Some(k) => {
                self.stats.lookups = self.stats.lookups + 1;
                self.stats.hits = self.stats.hits + 1;
                let _ = self.metrics.get(&id);
                Some(&self.glyphs[k])
            },
            None => {
                self.stats.lookups = self.stats.lookups + 1;
                self.stats.misses = self.stats.misses + 1;
                None
            },
        }
    }

    /// The glyph of `ch`, made and inserted on a miss.
    pub fn get_or_insert(&mut self, ch: char) -> (r: &Glyph)
        requires
            old(self).wf(),
            old(self).room(1),
        ensures
            final(self).wf(),
            forall|k: nat| old(self).room(k + 1) ==> final(self).room(k),
            final(self).glyph_limit() == old(self).glyph_limit(),
            final(self).byte_budget() == old(self).byte_budget(),
            final(self).counters().lookups == old(self).counters().lookups + 1,
            final(self).glyph_list().len() <= old(self).glyph_list().len() + 1,
            old(self).glyph_list().len() < old(self).glyph_limit() ==> forall|g: Glyph|
                #[trigger] old(self).glyph_list().contains(g) ==> final(self).glyph_list().contains(g),
            looked_up(*old(self), ch, *final(self)),
            glyph_index(final(self).glyph_list(), GlyphId(ch as u32)) >= 0,
            ({
                let k = glyph_index(old(self).glyph_list(), GlyphId(ch as u32));
                if k < 0 {
                    &&& *r == created_glyph(ch)
                    &&& final(self).glyph_list().contains(created_glyph(ch))
                } else {
                    *r == old(self).glyph_list()[k]
                }
            }),
    {
        proof {
            reveal(looked_up);
        }
        let id = GlyphId(ch as u32);
        match self.find(id) {
            Some(k) => {
                self.stats.lookups = self.stats.lookups + 1;
                self.stats.hits = self.stats.hits + 1;
                proof {
                    lemma_room_step(*old(self), *self);
                }
                &self.glyphs[k]
            },
            None => {
                let glyph = self.create_glyph(ch);
                let ghost before = *self;
                self.insert(glyph);
                self.stats.lookups = self.stats.lookups + 1;
                self.stats.misses = self.stats.misses + 1;
                proof {
                    lemma_glyph_index(before.glyphs@, id);
                    lemma_room_step(*old(self), *self);
                    let q = choose|q: int| 0 <= q < self.glyphs@.len() && self.glyphs@[q] == glyph;
                    lemma_glyph_index(self.glyphs@, id);
                    if before.glyphs@.len() < before.max_glyphs {
                        assert(self.glyphs@ == before.glyphs@.push(glyph));
                        assert forall|g: Glyph| old(self).glyphs@.contains(g) implies self.glyphs@.contains(g) by {
                            let r = choose|r: int| 0 <= r < before.glyphs@.len() && before.glyphs@[r] == g;
                            assert(self.glyphs@[r] == g);
                        }
                    }
                }
                match self.find(id) {
                    Some(k) => &self.glyphs[k],
                    None => {
                        assert(false);
                        &self.glyphs[0]
                    },
                }
            },
        }
    }

    /// The metrics of `ch`, after recording the access on them.
    pub fn get_metrics(&mut self, ch: char) -> (r: Option<&GlyphMetrics>)
        requires
            old(self).wf(),
            old(self).metrics_cache().can_touch(GlyphId(ch as u32)),
        ensures
            final(self).wf(),
            final(self).glyph_list() == old(self).glyph_list(),
            final(self).counters() == old(self).counters(),
            final(self).glyph_limit() == old(self).glyph_limit(),
            final(self).byte_budget() == old(self).byte_budget(),
            old(self).metrics_cache().touched(final(self).metrics_cache(), GlyphId(ch as u32)),
            ({
                let k = metrics_index(old(self).metrics_cache().records(), GlyphId(ch as u32));
                if k < 0 {
                    r is None
                } else {
                    r == Some(&final(self).metrics_cache().records()[k])
                }
            }),
    {
        let id = GlyphId(ch as u32);
        self.metrics.get(&id)
    }

    /// Adds a glyph with its metrics (replacing one with the same id),
    /// evicting a batch first when the cache holds its limit of glyphs.
    pub fn insert(&mut self, glyph: Glyph)
        requires
            old(self).wf(),
            old(self).insert_room(1),
        ensures
            final(self).wf(),
            forall|k: nat| old(self).insert_room(k + 1) ==> final(self).insert_room(k),
            inserted(*old(self), glyph, *final(self)),
            final(self).counters() == (CacheStats {
                insertions: (old(self).counters().insertions + 1) as u64,
                evictions: (old(self).counters().evictions + insert_evictions(*old(self))) as u64,
                ..old(self).counters()
            }),
            final(self).counters().evictions + final(self).metrics_cache().records().len() <= old(
                self,
            ).counters().evictions + old(self).metrics_cache().records().len() + 1,
            final(self).metrics_cache().spec_total_bytes() <= old(self).metrics_cache().spec_total_bytes() + size_of::<
                GlyphMetrics,
            >(),
            final(self).glyph_list().contains(glyph),
            final(self).glyph_list().len() <= old(self).glyph_list().len() + 1,
    {
        let ghost start = *self;
        if self.glyphs.len() >= self.max_glyphs {
            self.evict(EVICT_BATCH);
            proof {
                lemma_with_metrics(start.glyphs@, self.metrics.records());
                let target: int = if start.glyphs@.len() >= EVICT_BATCH {
                    start.glyphs@.len() - EVICT_BATCH
                } else {
                    0
                };
                let target_bytes: int = (start.max_bytes * target) / (start.max_glyphs as int);
                lemma_lru_evict_meets_target(start.metrics.records(), start.metrics.spec_total_bytes(), target_bytes as nat);
            }
        }
        let ghost evicted = *self;
        let id = glyph.id;
        let m = GlyphMetrics::new(id).with_dimensions(glyph.width as u16 * 8, glyph.height as u16 * 16).with_advance(
            glyph.advance_x as u16 * 8,
            glyph.advance_y as u16 * 16,
        );
        let ghost before = self.metrics;
        self.metrics.insert(m);
        proof {
            let k = metrics_index(before.records(), id);
            lemma_metrics_index(before.metrics@, id);
            if k < 0 {
                assert(self.metrics.records()[before.records().len() as int] == m);
            } else {
                assert(self.metrics.records()[k] == m);
            }
        }
        let ghost before_glyphs = self.glyphs@;
        match self.find(id) {
            Some(k) => {
                self.glyphs.set(k, glyph);
                proof {
                    lemma_glyph_index(before_glyphs, id);
                    assert forall|i: int, j: int| 0 <= i < j < self.glyphs@.len() implies self.glyphs@[i].id
                        != self.glyphs@[j].id by {
                        assert(before_glyphs[k as int].id == id);
                        if i != k && j != k {
                            assert(before_glyphs[i].id != before_glyphs[j].id);
                        } else if i == k {
                            assert(before_glyphs[k as int].id != before_glyphs[j].id);
                        } else {
                            assert(before_glyphs[i].id != before_glyphs[k as int].id);
                        }
                    }
                    assert(self.glyphs@[k as int] == glyph);
                }
            },
            None => {
                proof {
                    lemma_glyph_index(before_glyphs, id);
                }
                self.glyphs.push(glyph);
                assert(self.glyphs@[before_glyphs.len() as int] == glyph);
            },
        }
        self.stats.insertions = self.stats.insertions + 1;
        proof {
            assert(self.metrics_cache().records().contains(m));
            if start.glyphs@.len() < start.max_glyphs {
                assert(evicted.glyphs@ == start.glyphs@);
                assert(evicted.metrics == start.metrics);
                assert(evicted.stats == start.stats);
            }
            assert(glyph_metrics_of(glyph, m));
            assert(self.glyphs@ == put_glyph(evicted.glyphs@, glyph));
            assert(self.metrics.records() == put_metrics(evicted.metrics.records(), m));
            if start.glyphs@.len() >= start.max_glyphs {
                let r = evict_outcome(start, EVICT_BATCH as nat);
                assert(evicted.metrics.records() == r.0);
                assert(evicted.metrics.spec_total_bytes() == r.1);
                assert(evicted.glyphs@ == with_metrics(start.glyphs@, r.0));
            }
            assert(inserted(start, glyph, *self));
            lemma_insert_room_step(start, *self);
        }
    }

    /// Whether `ch` has a glyph.
    pub fn contains(&self, ch: char) -> (b: bool)
        requires
            self.wf(),
        ensures
            b == (glyph_index(self.glyph_list(), GlyphId(ch as u32)) >= 0),
    {
        self.find(GlyphId(ch as u32)).is_some()
    }

    pub fn len(&self) -> (n: usize)
        ensures
            n == self.glyph_list().len(),
    {
        self.glyphs.len()
    }

    pub fn is_empty(&self) -> (b: bool)
        ensures
            b == (self.glyph_list().len() == 0),
    {
        self.glyphs.len() == 0
    }

    pub fn stats(&self) -> (s: &CacheStats)
        ensures
            *s == self.counters(),
    {
        &self.stats
    }

    /// The bytes of the glyph records plus the metrics account.
    pub fn memory_usage(&self) -> (n: usize)
        requires
            self.glyph_list().len() * size_of::<Glyph>() + self.metrics_cache().spec_total_bytes() <= usize::MAX,
        ensures
            n == self.glyph_list().len() * size_of::<Glyph>() + self.metrics_cache().spec_total_bytes(),
    {
        proof {
            vstd::arithmetic::mul::lemma_mul_nonnegative(self.glyphs@.len() as int, size_of::<Glyph>() as int);
        }
        self.glyphs.len() * core::mem::size_of::<Glyph>() + self.metrics.total_bytes()
    }

    /// Evicts metrics down to the budget share of `len - count` glyphs
    /// (least recently used first), then drops the glyphs left without
    /// metrics.
    pub fn evict(&mut self, count: usize)
        requires
            old(self).wf(),
            old(self).glyph_limit() > 0,
            old(self).byte_budget() * (if old(self).glyph_list().len() >= count {
                old(self).glyph_list().len() - count
            } else {
                0
            }) <= usize::MAX,
            old(self).counters().evictions + old(self).metrics_cache().records().len() <= u64::MAX,
        ensures
            final(self).wf(),
            final(self).glyph_limit() == old(self).glyph_limit(),
            final(self).byte_budget() == old(self).byte_budget(),
            final(self).age_limit() == old(self).age_limit(),
            ({
                let target: int = if old(self).glyph_list().len() >= count {
                    old(self).glyph_list().len() - count
                } else {
                    0
                };
                let target_bytes: int = (old(self).byte_budget() * target) / (old(self).glyph_limit() as int);
                let r = lru_evict(
                    old(self).metrics_cache().records(),
                    old(self).metrics_cache().spec_total_bytes(),
                    target_bytes as nat,
                );
                &&& final(self).metrics_cache().records() == r.0
                &&& final(self).metrics_cache().spec_total_bytes() == r.1
                &&& final(self).metrics_cache().spec_max_bytes() == old(self).metrics_cache().spec_max_bytes()
                &&& final(self).counters() == (CacheStats {
                    evictions: (old(self).counters().evictions + r.2) as u64,
                    ..old(self).counters()
                })
                &&& final(self).glyph_list() == with_metrics(old(self).glyph_list(), r.0)
            }),
    {
        let target = self.glyphs.len().saturating_sub(count);
        let target_bytes = self.max_bytes * target / self.max_glyphs;
        let ghost before = self.metrics;
        let evicted = self.metrics.evict_lru(target_bytes);
        proof {
            lemma_lru_evict_meets_target(before.records(), before.spec_total_bytes(), target_bytes as nat);
        }
        self.stats.evictions = self.stats.evictions + evicted as u64;
        let ghost old_glyphs = self.glyphs@;
        let ghost kept = self.metrics.records();
        let mut kept_glyphs: Vec<Glyph> = Vec::new();
        let mut i: usize = 0;
        while i < self.glyphs.len()
            invariant
                i <= self.glyphs@.len(),
                self.glyphs@ == old_glyphs,
                self.metrics.wf(),
                self.metrics.records() == kept,
                kept_glyphs@ == with_metrics(old_glyphs.subrange(0, i as int), kept),
            decreases self.glyphs@.len() - i,
        {
            let g = self.glyphs[i];
            proof {
                lemma_metrics_index(kept, g.id);
            }
            if self.metrics.contains(&g.id) {
                kept_glyphs.push(g);
            }
            proof {
                assert(old_glyphs.subrange(0, i + 1).drop_last() =~= old_glyphs.subrange(0, i as int));
            }
            i += 1;
        }
        assert(old_glyphs.subrange(0, i as int) =~= old_glyphs);
        self.glyphs = kept_glyphs;
        proof {
            lemma_with_metrics(old_glyphs, kept);
        }
    }

    /// Whether a glyph last used at `last` has expired at `now`.
    pub fn is_expired(now: u64, last: u64, max_age: u64) -> (b: bool)
        ensures
            b == (now > last && now - last > max_age),
    {
        now > last && now - last > max_age
    }

    /// Records an access on each glyph's metrics, in order, and drops the
    /// glyphs (and their metrics) whose metrics were then last used more
    /// than the maximum age before the clock reading taken first. The clock
    /// readings themselves are whatever the clock gave.
    pub fn evict_expired(&mut self)
        requires
            old(self).wf(),
            forall|i: int|
                0 <= i < old(self).metrics_cache().records().len()
                    ==> #[trigger] old(self).metrics_cache().records()[i].access_count < u64::MAX,
        ensures
            final(self).wf(),
            final(self).counters() == old(self).counters(),
            final(self).glyph_limit() == old(self).glyph_limit(),
            final(self).byte_budget() == old(self).byte_budget(),
            final(self).age_limit() == old(self).age_limit(),
            forall|g: Glyph| #[trigger] final(self).glyph_list().contains(g) ==> old(self).glyph_list().contains(g),
            exists|now: u64, stamps: Seq<Option<u64>>|
                evicted(
                    old(self).glyph_list(),
                    old(self).metrics_cache().records(),
                    old(self).age_limit(),
                    final(self).glyph_list(),
                    final(self).metrics_cache().records(),
                    now,
                    stamps,
                ),
    {
        let now = crate::clock::now_nanos();
        let max_age = self.max_age;
        let ghost old_glyphs = self.glyphs@;
        let ghost orig = self.metrics.records();
        let ghost mut stamps: Seq<Option<u64>> = Seq::empty();
        let mut kept: Vec<Glyph> = Vec::new();
        assert forall|j: int|
            0 <= j < self.metrics.records().len() && pending(old_glyphs, 0, self.metrics.records()[j].glyph_id)
                implies #[trigger] self.metrics.records()[j].access_count < u64::MAX by {
            assert(old(self).metrics_cache().records()[j] == self.metrics.records()[j]);
        }
        let mut i: usize = 0;
        while i < self.glyphs.len()
            invariant
                self.glyphs@ == old_glyphs,
                old(self).glyphs@ == old_glyphs,
                forall|a: int, b: int| 0 <= a < b < old_glyphs.len() ==> old_glyphs[a].id != old_glyphs[b].id,
                self.metrics.wf(),
                self.tables.wf(),
                self.stats == old(self).stats,
                self.stats.hits + self.stats.misses == self.stats.lookups,
                self.max_glyphs == old(self).max_glyphs,
                self.max_bytes == old(self).max_bytes,
                i <= old_glyphs.len(),
                forall|a: int, b: int| 0 <= a < b < kept@.len() ==> kept@[a].id != kept@[b].id,
                forall|x: Glyph| #[trigger] kept@.contains(x) ==> old_glyphs.subrange(0, i as int).contains(x),
                forall|j: int|
                    0 <= j < self.metrics.records().len() && pending(old_glyphs, i as int, self.metrics.records()[j].glyph_id)
                        ==> #[trigger] self.metrics.records()[j].access_count < u64::MAX,
                max_age == self.max_age,
                self.max_age == old(self).max_age,
                orig == old(self).metrics.records(),
                stamps.len() == i,
                forall|j: int| 0 <= j < i ==> (stamps[j] is Some <==> record_of(orig, #[trigger] old_glyphs[j].id) is Some),
                kept@ == unexpired(old_glyphs, stamps, i as nat, now, max_age),
                forall|j: int|
                    0 <= j < i ==> record_of(self.metrics.records(), #[trigger] old_glyphs[j].id) == record_after_eviction(
                        record_of(orig, old_glyphs[j].id),
                        stamps[j],
                        now,
                        max_age,
                    ),
                forall|id: GlyphId|
                    (forall|j: int| 0 <= j < i ==> old_glyphs[j].id != id) ==> #[trigger] record_of(self.metrics.records(), id)
                        == record_of(orig, id),
            decreases old_glyphs.len() - i,
        {
            let g = self.glyphs[i];
            let ghost before = self.metrics;
            proof {
                assert forall|j: int| 0 <= j < i implies old_glyphs[j].id != g.id by {
                    assert(old_glyphs[i as int].id == g.id);
                }
                assert(record_of(before.records(), g.id) == record_of(orig, g.id));
            }
            proof {
                assert forall|j: int|
                    0 <= j < before.records().len() && #[trigger] before.records()[j].glyph_id == g.id implies before.records()[j].access_count
                        < u64::MAX by {
                    assert(old_glyphs[i as int].id == g.id);
                    assert(pending(old_glyphs, i as int, before.records()[j].glyph_id));
                }
            }
            let last = match self.metrics.get(&g.id) {
                Some(m) => Some(m.last_accessed),
                None => None,
            };
            let ghost touched = self.metrics;
            proof {
                lemma_metrics_index(before.records(), g.id);
                assert forall|j: int|
                    0 <= j < touched.records().len() && pending(old_glyphs, i + 1, touched.records()[j].glyph_id)
                        implies #[trigger] touched.records()[j].access_count < u64::MAX by {
                    let k = metrics_index(before.records(), g.id);
                    if k >= 0 && j == k {
                        let q = choose|q: int| i + 1 <= q < old_glyphs.len() && old_glyphs[q].id == touched.records()[j].glyph_id;
                        assert(old_glyphs[i as int].id == old_glyphs[q].id);
                    } else {
                        assert(touched.records()[j] == before.records()[j]);
                        let q = choose|q: int| i + 1 <= q < old_glyphs.len() && old_glyphs[q].id == touched.records()[j].glyph_id;
                        assert(pending(old_glyphs, i as int, before.records()[j].glyph_id));
                    }
                }
            }
            proof {
                lemma_metrics_index(before.records(), g.id);
                let k = metrics_index(before.records(), g.id);
                if k >= 0 {
                    lemma_record_update(before.records(), k, touched.records()[k]);
                    lemma_record_of(before.records(), g.id);
                }
            }
            let expired = match last {
                Some(t) => Self::is_expired(now, t, max_age),
                None => false,
            };
            let ghost prev = kept@;
            let ghost stamps0 = stamps;
            proof {
                stamps = stamps.push(last);
                lemma_unexpired_prefix(old_glyphs, stamps0, stamps, i as nat, now, max_age);
                assert(stamp_expires(last, now, max_age) == expired);
            }
            if expired {
                let _ = self.metrics.remove(&g.id);
                proof {
                    lemma_metrics_index(touched.records(), g.id);
                    let k = metrics_index(touched.records(), g.id);
                    lemma_record_remove(touched.records(), k);
                    assert forall|j: int|
                        0 <= j < self.metrics.records().len() && pending(old_glyphs, i + 1, self.metrics.records()[j].glyph_id)
                            implies #[trigger] self.metrics.records()[j].access_count < u64::MAX by {
                        let oj = if j < k { j } else { j + 1 };
                        assert(self.metrics.records()[j] == touched.records()[oj]);
                    }
                }
            } else {
                proof {
                    assert forall|x: Glyph| kept@.contains(x) implies x.id != g.id by {
                        assert(old_glyphs.subrange(0, i as int).contains(x));
                        let q = choose|q: int| 0 <= q < i && old_glyphs.subrange(0, i as int)[q] == x;
                        assert(old_glyphs[q] == x);
                    }
                }
                kept.push(g);
                proof {
                    assert forall|a: int, b: int| 0 <= a < b < kept@.len() implies kept@[a].id != kept@[b].id by {
                        if b == kept@.len() - 1 {
                            assert(kept@[a] == prev[a]);
                            assert(prev.contains(prev[a]));
                        }
                    }
                }
            }
            proof {
                assert forall|x: Glyph| #[trigger] kept@.contains(x) implies old_glyphs.subrange(0, i + 1).contains(x) by {
                    let q = choose|q: int| 0 <= q < kept@.len() && kept@[q] == x;
                    if !expired && q == kept@.len() - 1 {
                        assert(old_glyphs.subrange(0, i + 1)[i as int] == x);
                    } else {
                        assert(prev[q] == x);
                        assert(prev.contains(x));
                        assert(old_glyphs.subrange(0, i as int).contains(x));
                        let r = choose|r: int| 0 <= r < i && old_glyphs.subrange(0, i as int)[r] == x;
                        assert(old_glyphs.subrange(0, i + 1)[r] == x);
                    }
                }
                assert forall|j: int| 0 <= j < i + 1 implies (stamps[j] is Some <==> record_of(orig, #[trigger] old_glyphs[j].id) is Some) by {
                    if j < i {
                        assert(stamps[j] == stamps0[j]);
                    }
                }
                assert(kept@ == unexpired(old_glyphs, stamps, (i + 1) as nat, now, max_age));
                assert forall|j: int|
                    0 <= j < i + 1 implies record_of(self.metrics.records(), #[trigger] old_glyphs[j].id) == record_after_eviction(
                        record_of(orig, old_glyphs[j].id),
                        stamps[j],
                        now,
                        max_age,
                    ) by {
                    if j < i {
                        assert(stamps[j] == stamps0[j]);
                        assert(old_glyphs[j].id != g.id);
                    }
                }
                assert forall|id: GlyphId|
                    (forall|j: int| 0 <= j < i + 1 ==> old_glyphs[j].id != id) implies #[trigger] record_of(self.metrics.records(), id)
                        == record_of(orig, id) by {
                    assert(old_glyphs[i as int].id != id);
                }
            }
            i += 1;
        }
        self.glyphs = kept;
        proof {
            assert(old_glyphs.subrange(0, i as int) =~= old_glyphs);
            assert(evicted(old_glyphs, orig, max_age, self.glyphs@, self.metrics.records(), now, stamps));
            assert(evicted(
                old(self).glyph_list(),
                old(self).metrics_cache().records(),
                old(self).age_limit(),
                self.glyph_list(),
                self.metrics_cache().records(),
                now,
                stamps,
            ));
        }
    }

    /// Drops every glyph and metric and zeroes the counters.
    pub fn clear(&mut self)
        requires
            old(self).wf(),
        ensures
            final(self).wf(),
            final(self).glyph_list().len() == 0,
            final(self).metrics_cache().records().len() == 0,
            final(self).metrics_cache().spec_total_bytes() == 0,
            final(self).counters() == CacheStats::default_spec(),
            final(self).glyph_limit() == old(self).glyph_limit(),
            final(self).byte_budget() == old(self).byte_budget(),
    {
        self.glyphs.clear();
        self.metrics.clear();
        self.stats = CacheStats::default();
    }

    fn create_glyph(&self, ch: char) -> (g: Glyph)
        requires
            self.wf(),
        ensures
            g == created_glyph(ch),
    {
        match self.tables.get_glyph(ch) {
            Some(g) => *g,
            None => {
                let category = GlyphCategory::from_char(ch);
                let width = category.width_hint();
                Glyph::new(ch).with_width(width).with_category(category)
            },
        }
    }

    /// Looks up (inserting when missing) the glyph of each character in
    /// `first ..= last` that exists, in order.
    fn preload_range(&mut self, first: u32, last: u32)
        requires
            old(self).wf(),
            first <= last < 0xD800,
            old(self).room((last - first + 1) as nat),
        ensures
            final(self).wf(),
            final(self).glyph_limit() == old(self).glyph_limit(),
            final(self).byte_budget() == old(self).byte_budget(),
            final(self).counters().lookups == old(self).counters().lookups + (last - first + 1),
            range_looked_up(*old(self), first as int, last as int, *final(self)),
            old(self).glyph_list().len() + (last - first + 1) <= old(self).glyph_limit() ==> forall|cp: u32|
                first <= cp <= last ==> #[trigger] glyph_index(final(self).glyph_list(), GlyphId(cp)) >= 0,
    {
        let ghost init = *self;
        let ghost mut chain: Seq<GlyphCache> = seq![init];
        let ghost n0 = old(self).glyphs@.len();
        let ghost no_evict = n0 + (last - first + 1) <= self.max_glyphs;
        assert(no_evict == (old(self).glyphs@.len() + (last - first + 1) <= old(self).max_glyphs));
        let mut cp = first;
        while cp <= last
            invariant
                self.wf(),
                first <= cp <= last + 1,
                last < 0xD800,
                self.room((last + 1 - cp) as nat),
                self.max_glyphs == old(self).max_glyphs,
                self.max_bytes == old(self).max_bytes,
                self.stats.lookups == old(self).stats.lookups + (cp - first),
                n0 == old(self).glyphs@.len(),
                no_evict == (n0 + (last - first + 1) <= old(self).max_glyphs),
                no_evict ==> self.glyphs@.len() <= n0 + (cp - first),
                no_evict ==> forall|c: u32| first <= c < cp ==> #[trigger] glyph_index(self.glyphs@, GlyphId(c)) >= 0,
                init == *old(self),
                lookup_chain(chain, init, first as int, cp - 1, *self),
            decreases last + 1 - cp,
        {
            let ghost state = *self;
            match char_from_u32(cp) {
                Some(ch) => {
                    let ghost before = self.glyphs@;
                    proof {
                        lemma_room_mono(*self, (last + 1 - cp) as nat, 1);
                    }
                    let _ = self.get_or_insert(ch);
                    proof {
                        assert(ch == cp as char);
                        assert(looked_up(state, (cp as int) as char, *self));
                        lemma_chain_extend(chain, init, first as int, cp - 1, state, *self);
                        let next = chain.push(*self);
                        chain = next;
                        if no_evict {
                            assert forall|c: u32| first <= c < cp + 1 implies #[trigger] glyph_index(self.glyphs@, GlyphId(c)) >= 0 by {
                                lemma_glyph_index(self.glyphs@, GlyphId(c));
                                lemma_glyph_index(before, GlyphId(c));
                                if c < cp {
                                    let k = glyph_index(before, GlyphId(c));
                                    assert(before.len() < self.max_glyphs);
                                    assert(before.contains(before[k]));
                                    assert(self.glyphs@.contains(before[k]));
                                    let q = choose|q: int| 0 <= q < self.glyphs@.len() && self.glyphs@[q] == before[k];
                                    assert(self.glyphs@[q].id == GlyphId(c));
                                } else {
                                    assert(ch as u32 == c);
                                }
                            }
                        }
                    }
                },
                None => {
                    assert(false);
                },
            }
            cp = cp + 1;
        }
        assert(lookup_chain(chain, init, first as int, last as int, *self));
    }

    /// Looks up (inserting when missing) the 128 ASCII glyphs.
    pub fn preload_ascii(&mut self)
        requires
            old(self).wf(),
            old(self).room(128),
        ensures
            final(self).wf(),
            final(self).counters().lookups == old(self).counters().lookups + 128,
            range_looked_up(*old(self), 0, 127, *final(self)),
            old(self).glyph_list().len() + 128 <= old(self).glyph_limit() ==> forall|cp: u32|
                cp < 128 ==> #[trigger] glyph_index(final(self).glyph_list(), GlyphId(cp)) >= 0,
    {
        self.preload_range(0, 127);
    }

    /// Looks up (inserting when missing) the glyphs of U+2500..=U+257F.
    pub fn preload_box_drawing(&mut self)
        requires
            old(self).wf(),
            old(self).room(128),
        ensures
            final(self).wf(),
            final(self).counters().lookups == old(self).counters().lookups + 128,
            range_looked_up(*old(self), BOX_DRAWING_FIRST as int, BOX_DRAWING_LAST as int, *final(self)),
            old(self).glyph_list().len() + 128 <= old(self).glyph_limit() ==> forall|cp: u32|
                BOX_DRAWING_FIRST <= cp <= BOX_DRAWING_LAST ==> #[trigger] glyph_index(final(self).glyph_list(), GlyphId(cp)) >= 0,
    {
        self.preload_range(BOX_DRAWING_FIRST, BOX_DRAWING_LAST);
    }

    /// Looks up (inserting when missing) the 256 Braille glyphs.
    pub fn preload_braille(&mut self)
        requires
            old(self).wf(),
            old(self).room(256),
        ensures
            final(self).wf(),
            final(self).counters().lookups == old(self).counters().lookups + 256,
            range_looked_up(*old(self), BRAILLE_FIRST as int, BRAILLE_LAST as int, *final(self)),
            old(self).glyph_list().len() + 256 <= old(self).glyph_limit() ==> forall|cp: u32|
                BRAILLE_FIRST <= cp <= BRAILLE_LAST ==> #[trigger] glyph_index(final(self).glyph_list(), GlyphId(cp))
                    >= 0,
    {
        self.preload_range(BRAILLE_FIRST, BRAILLE_LAST);
    }

    /// How many glyphs each category has, categories in order of first
    /// appearance.
    pub fn category_stats(&self) -> (counts: Vec<(GlyphCategory, usize)>)
        ensures
            counts@ == category_counts(self.glyph_list()),
    {
        let mut counts: Vec<(GlyphCategory, usize)> = Vec::new();
        let mut i: usize = 0;
        assert(self.glyphs@.subrange(0, 0) =~= Seq::<Glyph>::empty());
        assert(category_counts(Seq::<Glyph>::empty()) =~= Seq::<(GlyphCategory, usize)>::empty());
        while i < self.glyphs.len()
            invariant
                i <= self.glyphs@.len(),
                counts@ == category_counts(self.glyphs@.subrange(0, i as int)),
            decreases self.glyphs@.len() - i,
        {
            let c = self.glyphs[i].category;
            let ghost pre = self.glyphs@.subrange(0, i as int);
            let ghost post = self.glyphs@.subrange(0, i + 1);
            proof {
                assert(post.drop_last() =~= pre);
                lemma_category_counts(pre);
            }
            match find_category(&counts, c) {
                Some(k) => {
                    let ghost prev = counts@;
                    let (cat, n) = counts[k];
                    proof {
                        lemma_category_counts(pre);
                        assert(n == count_category(pre, c));
                    }
                    counts.set(k, (cat, n + 1));
                    proof {
                        assert(categories_in_order(pre)[k as int] == c);
                        assert(categories_in_order(pre).contains(c));
                        assert(post.last().category == c);
                        assert(categories_in_order(post) == categories_in_order(pre));
                        assert forall|c2: GlyphCategory| count_category(post, c2) == count_category(pre, c2) + if c2 == c {
                            1nat
                        } else {
                            0nat
                        } by {}
                        assert forall|j: int| 0 <= j < counts@.len() implies counts@[j] == category_counts(post)[j] by {
                            let cj = categories_in_order(pre)[j];
                            assert(count_category(post, cj) == count_category(pre, cj) + if cj == c {
                                1nat
                            } else {
                                0nat
                            });
                            assert(category_counts(post)[j] == (cj, count_category(post, cj) as usize));
                            if j == k {
                                assert(counts@[j] == (c, (n + 1) as usize));
                            } else {
                                assert(counts@[j] == prev[j]);
                                assert(prev[j] == (cj, count_category(pre, cj) as usize));
                                assert(cj != c) by {
                                    assert(categories_in_order(pre)[k as int] == c);
                                    lemma_categories_distinct(pre);
                                }
                            }
                        }
                        assert(counts@ =~= category_counts(post));
                    }
                },
                None => {
                    proof {
                        assert(!categories_in_order(pre).contains(c)) by {
                            if categories_in_order(pre).contains(c) {
                                let q = choose|q: int| 0 <= q < categories_in_order(pre).len() && categories_in_order(pre)[q] == c;
                                assert(counts@[q].0 == c);
                            }
                        }
                        lemma_count_absent(pre, c);
                    }
                    let ghost prev = counts@;
                    counts.push((c, 1));
                    proof {
                        assert(prev == category_counts(pre));
                        assert(post.last().category == c);
                        assert(categories_in_order(post) == categories_in_order(pre).push(c));
                        assert(prev.len() == categories_in_order(pre).len());
                        assert forall|j: int| 0 <= j < counts@.len() implies counts@[j] == category_counts(post)[j] by {
                            let cj = categories_in_order(post)[j];
                            assert(count_category(post, cj) == count_category(pre, cj) + if cj == c {
                                1nat
                            } else {
                                0nat
                            });
                            assert(category_counts(post)[j] == (cj, count_category(post, cj) as usize));
                            if j < counts@.len() - 1 {
                                assert(cj == categories_in_order(pre)[j]);
                                assert(cj != c);
                                assert(counts@[j] == prev[j]);
                                assert(prev[j] == (cj, count_category(pre, cj) as usize));
                                assert(count_category(post, cj) == count_category(pre, cj));
                                assert(counts@[j] == category_counts(post)[j]);
                            } else {
                                assert(cj == c);
                                assert(count_category(pre, c) == 0);
                                assert(counts@[j] == (c, 1usize));
                                assert(count_category(post, c) == 1);
                                assert(counts@[j] == category_counts(post)[j]);
                            }
                        }
                        assert(counts@ =~= category_counts(post));
                    }
                },
            }
            i += 1;
        }
        assert(self.glyphs@.subrange(0, i as int) =~= self.glyphs@);
        counts
    }
}

/// How many glyphs of `s` have category `c`.
pub open spec fn count_category(s: Seq<Glyph>, c: GlyphCategory) -> nat
    decreases s.len(),
{
    if s.len() == 0 {
        0
    } else {
        count_category(s.drop_last(), c) + if s.last().category == c {
            1nat
        } else {
            0nat
        }
    }
}

/// The categories of `s`, each once, in order of first appearance.
pub open spec fn categories_in_order(s: Seq<Glyph>) -> Seq<GlyphCategory>
    decreases s.len(),
{
    if s.len() == 0 {
        Seq::empty()
    } else {
        let r = categories_in_order(s.drop_last());
        if r.contains(s.last().category) {
            r
        } else {
            r.push(s.last().category)
        }
    }
}

/// Each category of `s` with its count, in order of first appearance.
pub open spec fn category_counts(s: Seq<Glyph>) -> Seq<(GlyphCategory, usize)> {
    categories_in_order(s).map_values(|c: GlyphCategory| (c, count_category(s, c) as usize))
}

proof fn lemma_category_counts(s: Seq<Glyph>)
    ensures
        forall|c: GlyphCategory| count_category(s, c) <= s.len(),
    decreases s.len(),
{
    if s.len() > 0 {
        lemma_category_counts(s.drop_last());
        assert forall|c: GlyphCategory| count_category(s, c) <= s.len() by {
            assert(count_category(s.drop_last(), c) <= s.drop_last().len());
        }
    }
}

proof fn lemma_count_absent(s: Seq<Glyph>, c: GlyphCategory)
    requires
        !categories_in_order(s).contains(c),
    ensures
        count_category(s, c) == 0,
    decreases s.len(),
{
    if s.len() > 0 {
        let r = categories_in_order(s.drop_last());
        if r.contains(c) {
            let q = choose|q: int| 0 <= q < r.len() && r[q] == c;
            if !r.contains(s.last().category) {
                assert(r.push(s.last().category)[q] == c);
            }
        }
        lemma_count_absent(s.drop_last(), c);
        if s.last().category == c {
            if r.contains(s.last().category) {
            } else {
                assert(categories_in_order(s)[r.len() as int] == c);
            }
        }
    }
}

proof fn lemma_categories_distinct(s: Seq<Glyph>)
    ensures
        forall|i: int, j: int|
            0 <= i < j < categories_in_order(s).len() ==> categories_in_order(s)[i] != categories_in_order(s)[j],
    decreases s.len(),
{
    if s.len() > 0 {
        lemma_categories_distinct(s.drop_last());
        let r = categories_in_order(s.drop_last());
        if !r.contains(s.last().category) {
            assert forall|i: int, j: int|
                0 <= i < j < categories_in_order(s).len() implies categories_in_order(s)[i] != categories_in_order(
                s,
            )[j] by {
                if j == r.len() {
                    assert(r[i] == categories_in_order(s)[i]);
                }
            }
        }
    }
}

fn find_category(counts: &Vec<(GlyphCategory, usize)>, c: GlyphCategory) -> (r: Option<usize>)
    ensures
        match r {
            Some(k) => k < counts@.len() && counts@[k as int].0 == c,
            None => forall|q: int| 0 <= q < counts@.len() ==> counts@[q].0 != c,
        },
{
    let mut k: usize = 0;
    while k < counts.len()
        invariant
            k <= counts@.len(),
            forall|q: int| 0 <= q < k ==> counts@[q].0 != c,
        decreases counts@.len() - k,
    {
        if counts[k].0 == c {
            return Some(k);
        }
        k += 1;
    }
    None
}

/// The glyphs of `s` that have a record in `kept`, in order.
pub open spec fn with_metrics(s: Seq<Glyph>, kept: Seq<GlyphMetrics>) -> Seq<Glyph>
    decreases s.len(),
{
    if s.len() == 0 {
        s
    } else {
        let r = with_metrics(s.drop_last(), kept);
        if metrics_index(kept, s.last().id) >= 0 {
            r.push(s.last())
        } else {
            r
        }
    }
}

proof fn lemma_with_metrics(s: Seq<Glyph>, kept: Seq<GlyphMetrics>)
    requires
        forall|i: int, j: int| 0 <= i < j < s.len() ==> s[i].id != s[j].id,
    ensures
        forall|x: Glyph| #[trigger] with_metrics(s, kept).contains(x) ==> s.contains(x),
        with_metrics(s, kept).len() <= s.len(),
        forall|i: int, j: int|
            0 <= i < j < with_metrics(s, kept).len() ==> with_metrics(s, kept)[i].id != with_metrics(s, kept)[j].id,
    decreases s.len(),
{
    if s.len() > 0 {
        let d = s.drop_last();
        lemma_with_metrics(d, kept);
        let r = with_metrics(d, kept);
        assert forall|x: Glyph| #[trigger] with_metrics(s, kept).contains(x) implies s.contains(x) by {
            if r.contains(x) {
                let q = choose|q: int| 0 <= q < d.len() && d[q] == x;
                assert(s[q] == x);
            } else {
                assert(x == s.last());
                assert(s[s.len() - 1] == x);
            }
        }
        if metrics_index(kept, s.last().id) >= 0 {
            let w = r.push(s.last());
            assert forall|i: int, j: int| 0 <= i < j < w.len() implies w[i].id != w[j].id by {
                if j == w.len() - 1 {
                    assert(r.contains(w[i]));
                    let q = choose|q: int| 0 <= q < d.len() && d[q] == w[i];
                    assert(s[q] == w[i]);
                }
            }
        }
    }
}

proof fn lemma_insert_room_step(a: GlyphCache, b: GlyphCache)
    requires
        b.counters().insertions <= a.counters().insertions + 1,
        b.counters().evictions + b.metrics_cache().records().len() <= a.counters().evictions
            + a.metrics_cache().records().len() + 1,
        b.metrics_cache().spec_total_bytes() <= a.metrics_cache().spec_total_bytes() + size_of::<GlyphMetrics>(),
        b.glyph_limit() == a.glyph_limit(),
        b.byte_budget() == a.byte_budget(),
        b.glyph_list().len() <= a.glyph_list().len() + 1,
    ensures
        forall|k: nat| a.insert_room(k + 1) ==> b.insert_room(k),
{
    assert forall|k: nat| a.insert_room(k + 1) implies b.insert_room(k) by {
        let s = size_of::<GlyphMetrics>();
        assert((k + 1) * s == k * s + s) by (nonlinear_arith);
        if k > 0 {
            let bb = a.byte_budget() as int;
            let lb = batch_target(b.glyph_list().len() + k - 1);
            let la = batch_target(a.glyph_list().len() + (k + 1) - 1);
            assert(bb * lb <= bb * la) by (nonlinear_arith)
                requires
                    0 <= lb <= la,
                    bb >= 0,
            ;
        }
    }
}

proof fn lemma_room_step(a: GlyphCache, b: GlyphCache)
    requires
        b.counters().lookups <= a.counters().lookups + 1,
        b.counters().insertions <= a.counters().insertions + 1,
        b.counters().evictions + b.metrics_cache().records().len() <= a.counters().evictions
            + a.metrics_cache().records().len() + 1,
        b.metrics_cache().spec_total_bytes() <= a.metrics_cache().spec_total_bytes() + size_of::<GlyphMetrics>(),
        b.glyph_limit() == a.glyph_limit(),
        b.byte_budget() == a.byte_budget(),
        b.glyph_list().len() <= a.glyph_list().len() + 1,
    ensures
        forall|k: nat| a.room(k + 1) ==> b.room(k),
{
    lemma_insert_room_step(a, b);
}

proof fn lemma_chain_extend(
    chain: Seq<GlyphCache>,
    a: GlyphCache,
    first: int,
    last: int,
    s: GlyphCache,
    b: GlyphCache,
)
    requires
        first - 1 <= last,
        lookup_chain(chain, a, first, last, s),
        looked_up(s, (last + 1) as char, b),
    ensures
        lookup_chain(chain.push(b), a, first, last + 1, b),
{
    let next = chain.push(b);
    assert(next[0] == a);
    assert(next.last() == b);
    assert forall|i: int| 0 <= i < next.len() - 1 implies looked_up(#[trigger] next[i], (first + i) as char, next[i + 1]) by {
        if i < next.len() - 2 {
            assert(next[i] == chain[i] && next[i + 1] == chain[i + 1]);
        } else {
            assert(next[i] == s);
        }
    }
}

proof fn lemma_room_mono(c: GlyphCache, n: nat, m: nat)
    requires
        m <= n,
        c.room(n),
    ensures
        c.room(m),
{
    let s = size_of::<GlyphMetrics>();
    assert(m * s <= n * s) by (nonlinear_arith)
        requires
            m <= n,
    ;
    if m > 0 {
        let bb = c.byte_budget() as int;
        let l = c.glyph_list().len();
        let tm = batch_target(l + m - 1);
        let tn = batch_target(l + n - 1);
        assert(bb * tm <= bb * tn) by (nonlinear_arith)
            requires
                0 <= tm <= tn,
                bb >= 0,
        ;
    }
}

/// Some glyph from position `i` on has `id`.
/// The record of `id`, if any.
pub open spec fn record_of(s: Seq<GlyphMetrics>, id: GlyphId) -> Option<GlyphMetrics> {
    let k = metrics_index(s, id);
    if k >= 0 {
        Some(s[k])
    } else {
        None
    }
}

/// A last access at `stamp` is more than `max_age` before `now`.
pub open spec fn stamp_expires(stamp: Option<u64>, now: u64, max_age: u64) -> bool {
    stamp matches Some(t) && now > t && now - t > max_age
}

/// The first `n` glyphs of `gs` that an eviction keeps, glyph `i` having
/// been last accessed at `stamps[i]`, in order.
pub open spec fn unexpired(gs: Seq<Glyph>, stamps: Seq<Option<u64>>, n: nat, now: u64, max_age: u64) -> Seq<Glyph>
    decreases n,
{
    if n == 0 {
        Seq::empty()
    } else {
        let r = unexpired(gs, stamps, (n - 1) as nat, now, max_age);
        if stamp_expires(stamps[n - 1], now, max_age) {
            r
        } else {
            r.push(gs[n - 1])
        }
    }
}

/// A glyph's record after an eviction pass that accessed it at `stamp`:
/// none when that expires it, else one more access, at `stamp`.
pub open spec fn record_after_eviction(
    old: Option<GlyphMetrics>,
    stamp: Option<u64>,
    now: u64,
    max_age: u64,
) -> Option<GlyphMetrics> {
    match old {
        None => None,
        Some(m) => if stamp_expires(stamp, now, max_age) {
            None
        } else {
            Some(
                GlyphMetrics {
                    last_accessed: stamp.unwrap(),
                    access_count: (m.access_count + 1) as u64,
                    ..m
                },
            )
        },
    }
}

/// An eviction pass over glyphs `gs` with records `rs`, with the clock
/// reading `now` and glyph `i` accessed at `stamps[i]` (none when it had no
/// record), left glyphs `gs2` and records `rs2`: the glyphs whose access
/// expired are dropped with their records, the others counted one more
/// access, and records of no glyph are as they were.
pub open spec fn evicted(
    gs: Seq<Glyph>,
    rs: Seq<GlyphMetrics>,
    max_age: u64,
    gs2: Seq<Glyph>,
    rs2: Seq<GlyphMetrics>,
    now: u64,
    stamps: Seq<Option<u64>>,
) -> bool {
    &&& stamps.len() == gs.len()
    &&& forall|i: int| 0 <= i < gs.len() ==> (stamps[i] is Some <==> record_of(rs, #[trigger] gs[i].id) is Some)
    &&& gs2 == unexpired(gs, stamps, gs.len(), now, max_age)
    &&& forall|i: int|
        0 <= i < gs.len() ==> record_of(rs2, #[trigger] gs[i].id) == record_after_eviction(
            record_of(rs, gs[i].id),
            stamps[i],
            now,
            max_age,
        )
    &&& forall|id: GlyphId|
        (forall|i: int| 0 <= i < gs.len() ==> gs[i].id != id) ==> #[trigger] record_of(rs2, id) == record_of(rs, id)
}

proof fn lemma_record_of(s: Seq<GlyphMetrics>, id: GlyphId)
    requires
        unique_ids(s),
    ensures
        record_of(s, id) is Some <==> exists|i: int| 0 <= i < s.len() && s[i].glyph_id == id,
        forall|i: int| 0 <= i < s.len() && s[i].glyph_id == id ==> record_of(s, id) == Some(s[i]),
{
    lemma_metrics_index(s, id);
    let k = metrics_index(s, id);
    if k >= 0 {
        assert(s[k].glyph_id == id);
    }
}

proof fn lemma_record_update(s: Seq<GlyphMetrics>, k: int, m: GlyphMetrics)
    requires
        unique_ids(s),
        0 <= k < s.len(),
        m.glyph_id == s[k].glyph_id,
    ensures
        unique_ids(s.update(k, m)),
        forall|id: GlyphId|
            #[trigger] record_of(s.update(k, m), id) == if id == m.glyph_id {
                Some(m)
            } else {
                record_of(s, id)
            },
{
    let u = s.update(k, m);
    assert forall|i: int, j: int| 0 <= i < j < u.len() implies u[i].glyph_id != u[j].glyph_id by {}
    assert forall|id: GlyphId| #[trigger] record_of(u, id) == if id == m.glyph_id {
        Some(m)
    } else {
        record_of(s, id)
    } by {
        lemma_record_of(s, id);
        lemma_record_of(u, id);
        if id == m.glyph_id {
            assert(u[k] == m);
        } else if record_of(s, id) is Some {
            let i = choose|i: int| 0 <= i < s.len() && s[i].glyph_id == id;
            assert(u[i] == s[i]);
        } else if record_of(u, id) is Some {
            let i = choose|i: int| 0 <= i < u.len() && u[i].glyph_id == id;
            assert(s[i] == u[i]);
        }
    }
}

proof fn lemma_record_remove(s: Seq<GlyphMetrics>, k: int)
    requires
        unique_ids(s),
        0 <= k < s.len(),
    ensures
        unique_ids(s.remove(k)),
        forall|id: GlyphId|
            #[trigger] record_of(s.remove(k), id) == if id == s[k].glyph_id {
                None
            } else {
                record_of(s, id)
            },
{
    let u = s.remove(k);
    assert forall|i: int, j: int| 0 <= i < j < u.len() implies u[i].glyph_id != u[j].glyph_id by {
        let i0 = if i < k { i } else { i + 1 };
        let j0 = if j < k { j } else { j + 1 };
        assert(u[i] == s[i0]);
        assert(u[j] == s[j0]);
    }
    assert forall|id: GlyphId| #[trigger] record_of(u, id) == if id == s[k].glyph_id {
        None
    } else {
        record_of(s, id)
    } by {
        lemma_record_of(s, id);
        lemma_record_of(u, id);
        if record_of(u, id) is Some {
            let i = choose|i: int| 0 <= i < u.len() && u[i].glyph_id == id;
            let i0 = if i < k { i } else { i + 1 };
            assert(u[i] == s[i0]);
        } else if id != s[k].glyph_id && record_of(s, id) is Some {
            let i = choose|i: int| 0 <= i < s.len() && s[i].glyph_id == id;
            assert(i != k);
            let i1 = if i < k { i } else { i - 1 };
            assert(u[i1] == s[i]);
        }
    }
}

proof fn lemma_unexpired_prefix(gs: Seq<Glyph>, s1: Seq<Option<u64>>, s2: Seq<Option<u64>>, n: nat, now: u64, max_age: u64)
    requires
        forall|j: int| 0 <= j < n ==> s1[j] == s2[j],
    ensures
        unexpired(gs, s1, n, now, max_age) == unexpired(gs, s2, n, now, max_age),
    decreases n,
{
    if n > 0 {
        lemma_unexpired_prefix(gs, s1, s2, (n - 1) as nat, now, max_age);
    }
}

pub open spec fn pending(s: Seq<Glyph>, i: int, id: GlyphId) -> bool {
    exists|q: int| i <= q < s.len() && #[trigger] s[q].id == id
}

impl CacheStats {
    /// All counters zero.
    pub open spec fn default_spec() -> CacheStats {
        CacheStats { hits: 0, misses: 0, evictions: 0, insertions: 0, lookups: 0 }
    }
}

} // verus!
