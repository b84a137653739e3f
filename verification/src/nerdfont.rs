//! Nerd Fonts: font and glyph records, validation of a font's glyph set,
//! local (bundled and installed) fonts, per-glyph cell metrics, and the
//! detector that gathers the fonts found.
//!
//! Finding fonts on disk and asking the system font list are done by the
//! caller; this module keeps what was found and decides what it means.

use vstd::prelude::*;
use vstd::layout::size_of;
use crate::text::{char_from_ascii, decimal, push_char, push_decimal, push_str, str_eq};

verus! {

// ============================================================================
// Font types
// ============================================================================

/// How a font was patched.
#[derive(Debug, Clone, Copy, PartialEq, Eq, Structural)]
pub enum NerdFontVariant {
    Complete,
    Mono,
    Propo,
    SeparatedMono,
    SeparatedPropo,
}

impl Default for NerdFontVariant {
    fn default() -> (v: NerdFontVariant)
        ensures
            v == NerdFontVariant::Complete,
    {
        NerdFontVariant::Complete
    }
}

impl NerdFontVariant {
    /// The variant's name, such as `"SeparatedMono"`.
    pub fn as_str(&self) -> (s: &'static str)
        ensures
            s@ == variant_name(*self),
    {
        match self {
            NerdFontVariant::Complete => "Complete",
            NerdFontVariant::Mono => "Mono",
            NerdFontVariant::Propo => "Propo",
            NerdFontVariant::SeparatedMono => "SeparatedMono",
            NerdFontVariant::SeparatedPropo => "SeparatedPropo",
        }
    }
}

/// The name of a variant.
pub open spec fn variant_name(v: NerdFontVariant) -> Seq<char> {
    match v {
        NerdFontVariant::Complete => "Complete"@,
        NerdFontVariant::Mono => "Mono"@,
        NerdFontVariant::Propo => "Propo"@,
        NerdFontVariant::SeparatedMono => "SeparatedMono"@,
        NerdFontVariant::SeparatedPropo => "SeparatedPropo"@,
    }
}

/// The icon set a Nerd Font glyph comes from.
#[derive(Debug, Clone, Copy, PartialEq, Eq, Structural)]
pub enum GlyphCategory {
    Powerline,
    Devicons,
    FontLogos,
    Octicons,
    Material,
    Weather,
    Pomicons,
    Clock,
    Hashes,
    FileType,
    Indicators,
    PowerSymbols,
    Custom,
}

/// The place of a category in the alphabetical order of the names.
pub open spec fn category_rank(c: GlyphCategory) -> nat {
    match c {
        GlyphCategory::Clock => 0,
        GlyphCategory::Custom => 1,
        GlyphCategory::Devicons => 2,
        GlyphCategory::FileType => 3,
        GlyphCategory::FontLogos => 4,
        GlyphCategory::Hashes => 5,
        GlyphCategory::Indicators => 6,
        GlyphCategory::Material => 7,
        GlyphCategory::Octicons => 8,
        GlyphCategory::Pomicons => 9,
        GlyphCategory::PowerSymbols => 10,
        GlyphCategory::Powerline => 11,
        GlyphCategory::Weather => 12,
    }
}

/// The category of each rank: the categories in alphabetical order of
/// their names.
pub open spec fn category_at_rank(r: nat) -> GlyphCategory {
    if r == 0 {
        GlyphCategory::Clock
    } else if r == 1 {
        GlyphCategory::Custom
    } else if r == 2 {
        GlyphCategory::Devicons
    } else if r == 3 {
        GlyphCategory::FileType
    } else if r == 4 {
        GlyphCategory::FontLogos
    } else if r == 5 {
        GlyphCategory::Hashes
    } else if r == 6 {
        GlyphCategory::Indicators
    } else if r == 7 {
        GlyphCategory::Material
    } else if r == 8 {
        GlyphCategory::Octicons
    } else if r == 9 {
        GlyphCategory::Pomicons
    } else if r == 10 {
        GlyphCategory::PowerSymbols
    } else if r == 11 {
        GlyphCategory::Powerline
    } else {
        GlyphCategory::Weather
    }
}

fn category_of_rank(r: u8) -> (c: GlyphCategory)
    requires
        r < 13,
    ensures
        c == category_at_rank(r as nat),
        category_rank(c) == r,
{
    match r {
        0 => GlyphCategory::Clock,
        1 => GlyphCategory::Custom,
        2 => GlyphCategory::Devicons,
        3 => GlyphCategory::FileType,
        4 => GlyphCategory::FontLogos,
        5 => GlyphCategory::Hashes,
        6 => GlyphCategory::Indicators,
        7 => GlyphCategory::Material,
        8 => GlyphCategory::Octicons,
        9 => GlyphCategory::Pomicons,
        10 => GlyphCategory::PowerSymbols,
        11 => GlyphCategory::Powerline,
        _ => GlyphCategory::Weather,
    }
}

impl GlyphCategory {
    /// The category's name, such as `"PowerSymbols"`.
    pub fn as_str(&self) -> (s: &'static str)
        ensures
            s@ == category_name(*self),
    {
        match self {
            GlyphCategory::Powerline => "Powerline",
            GlyphCategory::Devicons => "Devicons",
            GlyphCategory::FontLogos => "FontLogos",
            GlyphCategory::Octicons => "Octicons",
            GlyphCategory::Material => "Material",
            GlyphCategory::Weather => "Weather",
            GlyphCategory::Pomicons => "Pomicons",
            GlyphCategory::Clock => "Clock",
            GlyphCategory::Hashes => "Hashes",
            GlyphCategory::FileType => "FileType",
            GlyphCategory::Indicators => "Indicators",
            GlyphCategory::PowerSymbols => "PowerSymbols",
            GlyphCategory::Custom => "Custom",
        }
    }
}

/// The name of a category.
pub open spec fn category_name(c: GlyphCategory) -> Seq<char> {
    match c {
        GlyphCategory::Powerline => "Powerline"@,
        GlyphCategory::Devicons => "Devicons"@,
        GlyphCategory::FontLogos => "FontLogos"@,
        GlyphCategory::Octicons => "Octicons"@,
        GlyphCategory::Material => "Material"@,
        GlyphCategory::Weather => "Weather"@,
        GlyphCategory::Pomicons => "Pomicons"@,
        GlyphCategory::Clock => "Clock"@,
        GlyphCategory::Hashes => "Hashes"@,
        GlyphCategory::FileType => "FileType"@,
        GlyphCategory::Indicators => "Indicators"@,
        GlyphCategory::PowerSymbols => "PowerSymbols"@,
        GlyphCategory::Custom => "Custom"@,
    }
}

/// A glyph of a Nerd Font: its code point, name, icon set and cell width.
#[derive(Debug, Clone, Copy, PartialEq, Eq)]
pub struct NerdFontGlyph {
    pub codepoint: u32,
    pub name: &'static str,
    pub category: GlyphCategory,
    pub width: u8,
}

impl NerdFontGlyph {
    /// A glyph one cell wide.
    pub fn new(codepoint: u32, name: &'static str, category: GlyphCategory) -> (g: NerdFontGlyph)
        ensures
            g.codepoint == codepoint,
            g.name@ == name@,
            g.category == category,
            g.width == 1,
    {
        NerdFontGlyph { codepoint, name, category, width: 1 }
    }

    pub fn with_width(self, width: u8) -> (g: NerdFontGlyph)
        ensures
            g.codepoint == self.codepoint,
            g.name@ == self.name@,
            g.category == self.category,
            g.width == width,
    {
        NerdFontGlyph { width, ..self }
    }

    /// Wider than one cell.
    pub fn is_wide(&self) -> (b: bool)
        ensures
            b == (self.width > 1),
    {
        self.width > 1
    }

    pub fn is_powerline(&self) -> (b: bool)
        ensures
            b == (self.category == GlyphCategory::Powerline),
    {
        self.category == GlyphCategory::Powerline
    }

    pub fn is_devicon(&self) -> (b: bool)
        ensures
            b == (self.category == GlyphCategory::Devicons),
    {
        self.category == GlyphCategory::Devicons
    }
}

/// A Nerd Font: names, variant, glyphs and whether it is monospaced.
#[derive(Debug, Clone, PartialEq, Eq)]
pub struct NerdFont {
    pub name: String,
    pub family: String,
    pub variant: NerdFontVariant,
    pub glyphs: Vec<NerdFontGlyph>,
    pub is_monospace: bool,
}

/// The position of the first glyph with `codepoint`, or -1.
pub open spec fn glyph_position(gs: Seq<NerdFontGlyph>, codepoint: u32) -> int
    decreases gs.len(),
{
    if gs.len() == 0 {
        -1
    } else {
        let r = glyph_position(gs.drop_last(), codepoint);
        if r >= 0 {
            r
        } else if gs.last().codepoint == codepoint {
            gs.len() - 1
        } else {
            -1
        }
    }
}

/// The glyphs of a category, in order.
pub open spec fn glyphs_in(gs: Seq<NerdFontGlyph>, category: GlyphCategory) -> Seq<NerdFontGlyph>
    decreases gs.len(),
{
    if gs.len() == 0 {
        Seq::empty()
    } else {
        let r = glyphs_in(gs.drop_last(), category);
        if gs.last().category == category {
            r.push(gs.last())
        } else {
            r
        }
    }
}

/// Whether some glyph has the category.
pub open spec fn has_category(gs: Seq<NerdFontGlyph>, c: GlyphCategory) -> bool {
    exists|i: int| 0 <= i < gs.len() && #[trigger] gs[i].category == c
}

/// The categories present among the glyphs, each once, in alphabetical
/// order of their names.
pub open spec fn categories_of(gs: Seq<NerdFontGlyph>) -> Seq<GlyphCategory> {
    categories_from(gs, 0)
}

/// The present categories from rank `r` on.
pub open spec fn categories_from(gs: Seq<NerdFontGlyph>, r: nat) -> Seq<GlyphCategory>
    decreases 13 - r,
{
    if r >= 13 {
        Seq::empty()
    } else {
        let rest = categories_from(gs, r + 1);
        if has_category(gs, category_at_rank(r)) {
            seq![category_at_rank(r)] + rest
        } else {
            rest
        }
    }
}

/// Whether `cp` is a code point a glyph may have: nonzero, at most
/// `0x10FFFF`, and not a surrogate.
pub open spec fn valid_codepoint(cp: u32) -> bool {
    cp > 0 && cp <= 0x10FFFF && !(0xD800 <= cp <= 0xDFFF)
}

fn is_surrogate(cp: u32) -> (b: bool)
    ensures
        b == (0xD800 <= cp <= 0xDFFF),
{
    0xD800 <= cp && cp <= 0xDFFF
}

fn is_valid_codepoint(cp: u32) -> (b: bool)
    ensures
        b == valid_codepoint(cp),
{
    cp > 0 && cp <= 0x10FFFF && !is_surrogate(cp)
}

impl NerdFont {
    /// A complete, monospaced font named (and of the family) `name`, with no
    /// glyph.
    pub fn new(name: &str) -> (f: NerdFont)
        ensures
            f.name@ == name@,
            f.family@ == name@,
            f.variant == NerdFontVariant::Complete,
            f.glyphs@.len() == 0,
            f.is_monospace,
    {
        NerdFont {
            name: name.to_string(),
            family: name.to_string(),
            variant: NerdFontVariant::Complete,
            glyphs: Vec::new(),
            is_monospace: true,
        }
    }

    pub fn with_family(self, family: &str) -> (f: NerdFont)
        ensures
            f.name@ == self.name@,
            f.family@ == family@,
            f.variant == self.variant,
            f.glyphs@ == self.glyphs@,
            f.is_monospace == self.is_monospace,
    {
        NerdFont { family: family.to_string(), ..self }
    }

    pub fn with_variant(self, variant: NerdFontVariant) -> (f: NerdFont)
        ensures
            f.name@ == self.name@,
            f.family@ == self.family@,
            f.variant == variant,
            f.glyphs@ == self.glyphs@,
            f.is_monospace == self.is_monospace,
    {
        NerdFont { variant, ..self }
    }

    pub fn with_glyphs(self, glyphs: Vec<NerdFontGlyph>) -> (f: NerdFont)
        ensures
            f.name@ == self.name@,
            f.family@ == self.family@,
            f.variant == self.variant,
            f.glyphs@ == glyphs@,
            f.is_monospace == self.is_monospace,
    {
        NerdFont { glyphs, ..self }
    }

    pub fn with_monospace(self, is_monospace: bool) -> (f: NerdFont)
        ensures
            f.name@ == self.name@,
            f.family@ == self.family@,
            f.variant == self.variant,
            f.glyphs@ == self.glyphs@,
            f.is_monospace == is_monospace,
    {
        NerdFont { is_monospace, ..self }
    }

    pub fn glyph_count(&self) -> (n: usize)
        ensures
            n == self.glyphs@.len(),
    {
        self.glyphs.len()
    }

    fn find_glyph(&self, codepoint: u32) -> (r: Option<usize>)
        ensures
            match r {
                Some(k) => k < self.glyphs@.len() && k as int == glyph_position(self.glyphs@, codepoint),
                None => glyph_position(self.glyphs@, codepoint) == -1,
            },
    {
        proof {
            lemma_glyph_position(self.glyphs@, codepoint);
        }
        let mut i: usize = 0;
        while i < self.glyphs.len()
            invariant
                i <= self.glyphs@.len(),
                forall|j: int| 0 <= j < i ==> self.glyphs@[j].codepoint != codepoint,
            decreases self.glyphs@.len() - i,
        {
            if self.glyphs[i].codepoint == codepoint {
                proof {
                    lemma_glyph_position_first(self.glyphs@, codepoint, i as int);
                }
                return Some(i);
            }
            i += 1;
        }
        proof {
            lemma_glyph_position(self.glyphs@, codepoint);
        }
        None
    }

    /// Whether some glyph has the code point.
    pub fn has_glyph(&self, codepoint: u32) -> (b: bool)
        ensures
            b == (exists|i: int| 0 <= i < self.glyphs@.len() && self.glyphs@[i].codepoint == codepoint),
    {
        proof {
            lemma_glyph_position(self.glyphs@, codepoint);
        }
        self.find_glyph(codepoint).is_some()
    }

    /// The first glyph with the code point.
    pub fn get_glyph(&self, codepoint: u32) -> (r: Option<&NerdFontGlyph>)
        ensures
            r is Some <==> glyph_position(self.glyphs@, codepoint) >= 0,
            r matches Some(g) ==> *g == self.glyphs@[glyph_position(self.glyphs@, codepoint)],
    {
        match self.find_glyph(codepoint) {
            Some(k) => Some(&self.glyphs[k]),
            None => None,
        }
    }

    /// The glyphs of a category, in order.
    pub fn glyphs_by_category(&self, category: GlyphCategory) -> (r: Vec<&NerdFontGlyph>)
        ensures
            r@.len() == glyphs_in(self.glyphs@, category).len(),
            forall|i: int| 0 <= i < r@.len() ==> *r@[i] == glyphs_in(self.glyphs@, category)[i],
    {
        let mut r: Vec<&NerdFontGlyph> = Vec::new();
        let mut i: usize = 0;
        while i < self.glyphs.len()
            invariant
                i <= self.glyphs@.len(),
                r@.len() == glyphs_in(self.glyphs@.subrange(0, i as int), category).len(),
                forall|j: int|
                    0 <= j < r@.len() ==> *r@[j] == glyphs_in(self.glyphs@.subrange(0, i as int), category)[j],
            decreases self.glyphs@.len() - i,
        {
            proof {
                assert(self.glyphs@.subrange(0, i + 1).drop_last() =~= self.glyphs@.subrange(0, i as int));
            }
            if self.glyphs[i].category == category {
                r.push(&self.glyphs[i]);
            }
            i += 1;
        }
        assert(self.glyphs@.subrange(0, i as int) =~= self.glyphs@);
        r
    }

    /// The categories present, each once, in alphabetical order of their
    /// names.
    pub fn categories(&self) -> (cs: Vec<GlyphCategory>)
        ensures
            cs@ == categories_of(self.glyphs@),
    {
        let mut present: Vec<bool> = Vec::new();
        let mut r: u8 = 0;
        while r < 13
            invariant
                r <= 13,
                present@.len() == r,
                forall|q: int| 0 <= q < r ==> #[trigger] present@[q] == has_category(self.glyphs@, category_at_rank(q as nat)),
            decreases 13 - r,
        {
            let c = category_of_rank(r);
            let mut found = false;
            let mut i: usize = 0;
            while i < self.glyphs.len()
                invariant
                    i <= self.glyphs@.len(),
                    found == exists|j: int| 0 <= j < i && #[trigger] self.glyphs@[j].category == c,
                decreases self.glyphs@.len() - i,
            {
                if self.glyphs[i].category == c {
                    found = true;
                }
                i += 1;
            }
            present.push(found);
            r += 1;
        }
        let mut out: Vec<GlyphCategory> = Vec::new();
        let mut k: u8 = 13;
        assert(categories_from(self.glyphs@, 13) =~= Seq::<GlyphCategory>::empty());
        while k > 0
            invariant
                k <= 13,
                present@.len() == 13,
                forall|q: int| 0 <= q < 13 ==> #[trigger] present@[q] == has_category(self.glyphs@, category_at_rank(q as nat)),
                out@.reverse() == categories_from(self.glyphs@, k as nat),
            decreases k,
        {
            k -= 1;
            let ghost before = out@;
            if present[k as usize] {
                out.push(category_of_rank(k));
                assert(out@.reverse() =~= seq![category_at_rank(k as nat)] + before.reverse());
            }
        }
        let mut res: Vec<GlyphCategory> = Vec::new();
        let mut j: usize = out.len();
        while j > 0
            invariant
                j <= out@.len(),
                res@ == out@.subrange(j as int, out@.len() as int).reverse(),
            decreases j,
        {
            j -= 1;
            res.push(out[j]);
            assert(out@.subrange(j as int, out@.len() as int).reverse() =~= out@.subrange(j + 1, out@.len() as int).reverse().push(out@[j as int]));
        }
        assert(out@.subrange(0, out@.len() as int) =~= out@);
        res
    }
}

proof fn lemma_glyph_position(gs: Seq<NerdFontGlyph>, codepoint: u32)
    ensures
        -1 <= glyph_position(gs, codepoint) < gs.len(),
        glyph_position(gs, codepoint) >= 0 ==> gs[glyph_position(gs, codepoint)].codepoint == codepoint,
        forall|j: int| 0 <= j < glyph_position(gs, codepoint) ==> gs[j].codepoint != codepoint,
        glyph_position(gs, codepoint) < 0 ==> forall|j: int| 0 <= j < gs.len() ==> gs[j].codepoint != codepoint,
    decreases gs.len(),
{
    if gs.len() > 0 {
        lemma_glyph_position(gs.drop_last(), codepoint);
        assert forall|j: int| 0 <= j < gs.len() - 1 implies gs.drop_last()[j] == gs[j] by {}
    }
}

proof fn lemma_glyph_position_first(gs: Seq<NerdFontGlyph>, codepoint: u32, i: int)
    requires
        0 <= i < gs.len(),
        gs[i].codepoint == codepoint,
        forall|j: int| 0 <= j < i ==> gs[j].codepoint != codepoint,
    ensures
        glyph_position(gs, codepoint) == i,
{
    lemma_glyph_position(gs, codepoint);
}

// ============================================================================
// Validation
// ============================================================================

/// What kind of error a validation found.
#[derive(Debug, Clone, Copy, PartialEq, Eq, Structural)]
pub enum ErrorCode {
    MissingGlyphs,
    InvalidCodepoint,
    DuplicateCodepoint,
    InvalidWidth,
}

/// What kind of warning a validation found.
#[derive(Debug, Clone, Copy, PartialEq, Eq, Structural)]
pub enum WarningCode {
    DeprecatedGlyph,
    UnusualWidth,
    MissingName,
}

/// An error found in a font.
#[derive(Debug, Clone)]
pub struct ValidationError {
    pub code: ErrorCode,
    pub message: String,
    pub glyph: Option<u32>,
}

/// A warning found in a font.
#[derive(Debug, Clone)]
pub struct ValidationWarning {
    pub code: WarningCode,
    pub message: String,
    pub glyph: Option<u32>,
}

/// The outcome of validating a font.
#[derive(Debug, Clone)]
pub struct ValidationResult {
    pub valid: bool,
    pub errors: Vec<ValidationError>,
    pub warnings: Vec<ValidationWarning>,
    pub glyph_count: usize,
    pub valid_glyphs: usize,
}

/// An error as plain values.
pub open spec fn error_view(e: ValidationError) -> (ErrorCode, Seq<char>, Option<u32>) {
    (e.code, e.message@, e.glyph)
}

/// A warning as plain values.
pub open spec fn warning_view(w: ValidationWarning) -> (WarningCode, Seq<char>, Option<u32>) {
    (w.code, w.message@, w.glyph)
}

/// The uppercase hexadecimal digit of `d < 16`.
pub open spec fn hex_digit(d: nat) -> char {
    if d < 10 {
        ((d + 48) as u32) as char
    } else {
        ((d + 55) as u32) as char
    }
}

/// The uppercase hexadecimal digits of `n`.
pub open spec fn hex(n: nat) -> Seq<char>
    decreases n,
{
    if n < 16 {
        seq![hex_digit(n)]
    } else {
        hex(n / 16).push(hex_digit(n % 16))
    }
}

/// `n` in uppercase hexadecimal, zero-padded to at least four digits (as
/// `format!("{:04X}", n)`).
pub open spec fn hex4(n: nat) -> Seq<char> {
    let h = hex(n);
    if h.len() >= 4 {
        h
    } else {
        Seq::new((4 - h.len()) as nat, |i: int| '0') + h
    }
}

fn hex_chars(n: u32) -> (v: Vec<char>)
    ensures
        v@ == hex(n as nat),
        v@.len() >= 1,
    decreases n,
{
    let d = (n % 16) as u8;
    let c = if d < 10 {
        char_from_ascii(48 + d)
    } else {
        char_from_ascii(55 + d)
    };
    if n < 16 {
        let mut v: Vec<char> = Vec::new();
        v.push(c);
        assert(v@ =~= seq![hex_digit(n as nat)]);
        v
    } else {
        let mut v = hex_chars(n / 16);
        v.push(c);
        v
    }
}

fn push_hex4(s: &mut String, n: u32)
    ensures
        final(s)@ == old(s)@ + hex4(n as nat),
{
    let v = hex_chars(n);
    let mut pad: usize = v.len();
    let ghost start = s@;
    while pad < 4
        invariant
            v@ == hex(n as nat),
            v@.len() <= pad <= 4 || (pad == v@.len() && pad > 4),
            s@ == start + Seq::new((pad - v@.len()) as nat, |i: int| '0'),
        decreases 4 - pad,
    {
        push_char(s, '0');
        assert(Seq::new((pad + 1 - v@.len()) as nat, |i: int| '0') =~= Seq::new(
            (pad - v@.len()) as nat,
            |i: int| '0',
        ).push('0'));
        pad += 1;
    }
    let mut i: usize = 0;
    let ghost padded = s@;
    while i < v.len()
        invariant
            i <= v@.len(),
            s@ == padded + v@.subrange(0, i as int),
        decreases v@.len() - i,
    {
        push_char(s, v[i]);
        assert(padded + v@.subrange(0, i + 1) =~= (padded + v@.subrange(0, i as int)).push(v@[i as int]));
        i += 1;
    }
    proof {
        assert(v@.subrange(0, v@.len() as int) =~= v@);
        if v@.len() >= 4 {
            assert(Seq::new((pad - v@.len()) as nat, |i: int| '0') =~= Seq::<char>::empty());
            assert(s@ =~= old(s)@ + hex4(n as nat));
        } else {
            assert(s@ =~= old(s)@ + hex4(n as nat));
        }
    }
}

/// Whether a glyph before position `i` has the code point of glyph `i`.
pub open spec fn seen_before(gs: Seq<NerdFontGlyph>, i: int) -> bool {
    exists|j: int| 0 <= j < i && #[trigger] gs[j].codepoint == gs[i].codepoint
}

/// The errors of glyph `i`: a duplicate code point; then an invalid code
/// point, or else a zero width.
pub open spec fn glyph_errors(gs: Seq<NerdFontGlyph>, i: int) -> Seq<(ErrorCode, Seq<char>, Option<u32>)> {
    let g = gs[i];
    let cp = hex4(g.codepoint as nat);
    let dup = if seen_before(gs, i) {
        seq![(ErrorCode::DuplicateCodepoint, "Duplicate codepoint: U+"@ + cp, Some(g.codepoint))]
    } else {
        Seq::empty()
    };
    let bad = if !valid_codepoint(g.codepoint) {
        seq![(ErrorCode::InvalidCodepoint, "Invalid codepoint: U+"@ + cp, Some(g.codepoint))]
    } else if g.width == 0 {
        seq![(ErrorCode::InvalidWidth, "Zero width glyph: U+"@ + cp, Some(g.codepoint))]
    } else {
        Seq::empty()
    };
    dup + bad
}

/// The warnings of a glyph: a missing name, a width over two.
pub open spec fn glyph_warnings(g: NerdFontGlyph) -> Seq<(WarningCode, Seq<char>, Option<u32>)> {
    let cp = hex4(g.codepoint as nat);
    let unnamed = if g.name@.len() == 0 {
        seq![(WarningCode::MissingName, "Missing name for glyph: U+"@ + cp, Some(g.codepoint))]
    } else {
        Seq::empty()
    };
    let wide = if g.width > 2 {
        seq![
            (WarningCode::UnusualWidth, "Unusual width "@ + decimal(g.width as nat) + " for glyph: U+"@ + cp, Some(
                g.codepoint,
            )),
        ]
    } else {
        Seq::empty()
    };
    unnamed + wide
}

/// The errors of the first `k` glyphs, in order.
pub open spec fn errors_upto(gs: Seq<NerdFontGlyph>, k: nat) -> Seq<(ErrorCode, Seq<char>, Option<u32>)>
    decreases k,
{
    if k == 0 {
        Seq::empty()
    } else {
        errors_upto(gs, (k - 1) as nat) + glyph_errors(gs, k - 1)
    }
}

/// The warnings of the first `k` glyphs, in order.
pub open spec fn warnings_upto(gs: Seq<NerdFontGlyph>, k: nat) -> Seq<(WarningCode, Seq<char>, Option<u32>)>
    decreases k,
{
    if k == 0 {
        Seq::empty()
    } else {
        warnings_upto(gs, (k - 1) as nat) + glyph_warnings(gs[k - 1])
    }
}

/// How many of the first `k` glyphs have a valid code point and a nonzero
/// width.
pub open spec fn valid_upto(gs: Seq<NerdFontGlyph>, k: nat) -> nat
    decreases k,
{
    if k == 0 {
        0
    } else {
        valid_upto(gs, (k - 1) as nat) + if valid_codepoint(gs[k - 1].codepoint) && gs[k - 1].width != 0 {
            1nat
        } else {
            0nat
        }
    }
}

fn glyph_message(prefix: &str, codepoint: u32) -> (s: String)
    ensures
        s@ == prefix@ + hex4(codepoint as nat),
{
    let mut s = String::new();
    push_str(&mut s, prefix);
    push_hex4(&mut s, codepoint);
    s
}

fn push_views_error(errors: &mut Vec<ValidationError>, e: ValidationError)
    ensures
        final(errors)@.map_values(|x: ValidationError| error_view(x)) == old(errors)@.map_values(
            |x: ValidationError| error_view(x),
        ).push(error_view(e)),
{
    errors.push(e);
    assert(errors@.map_values(|x: ValidationError| error_view(x)) =~= old(errors)@.map_values(
        |x: ValidationError| error_view(x),
    ).push(error_view(e)));
}

fn push_views_warning(warnings: &mut Vec<ValidationWarning>, w: ValidationWarning)
    ensures
        final(warnings)@.map_values(|x: ValidationWarning| warning_view(x)) == old(warnings)@.map_values(
            |x: ValidationWarning| warning_view(x),
        ).push(warning_view(w)),
{
    warnings.push(w);
    assert(warnings@.map_values(|x: ValidationWarning| warning_view(x)) =~= old(warnings)@.map_values(
        |x: ValidationWarning| warning_view(x),
    ).push(warning_view(w)));
}

impl NerdFont {
    /// Checks each glyph in order: a code point seen before is an error;
    /// an invalid code point is an error, else a zero width is; a missing
    /// name and a width over two are warnings. The font is valid when no
    /// error was found.
    pub fn validate(&self) -> (r: ValidationResult)
        ensures
            r.errors@.map_values(|x: ValidationError| error_view(x)) == errors_upto(self.glyphs@, self.glyphs@.len()),
            r.warnings@.map_values(|x: ValidationWarning| warning_view(x)) == warnings_upto(
                self.glyphs@,
                self.glyphs@.len(),
            ),
            r.valid == (r.errors@.len() == 0),
            r.glyph_count == self.glyphs@.len(),
            r.valid_glyphs == valid_upto(self.glyphs@, self.glyphs@.len()),
    {
        let mut errors: Vec<ValidationError> = Vec::new();
        let mut warnings: Vec<ValidationWarning> = Vec::new();
        let mut valid_glyphs: usize = 0;
        let mut i: usize = 0;
        let ghost gs = self.glyphs@;
        assert(errors@.map_values(|x: ValidationError| error_view(x)) =~= errors_upto(gs, 0));
        assert(warnings@.map_values(|x: ValidationWarning| warning_view(x)) =~= warnings_upto(gs, 0));
        while i < self.glyphs.len()
            invariant
                i <= gs.len(),
                gs == self.glyphs@,
                valid_glyphs <= i,
                errors@.map_values(|x: ValidationError| error_view(x)) == errors_upto(gs, i as nat),
                warnings@.map_values(|x: ValidationWarning| warning_view(x)) == warnings_upto(gs, i as nat),
                valid_glyphs == valid_upto(gs, i as nat),
            decreases gs.len() - i,
        {
            let g = self.glyphs[i];
            proof {
                reveal_strlit("Duplicate codepoint: U+");
                reveal_strlit("Invalid codepoint: U+");
                reveal_strlit("Zero width glyph: U+");
                reveal_strlit("Missing name for glyph: U+");
                reveal_strlit("Unusual width ");
                reveal_strlit(" for glyph: U+");
            }
            let ghost e0 = errors@.map_values(|x: ValidationError| error_view(x));
            let mut seen = false;
            let mut j: usize = 0;
            while j < i
                invariant
                    j <= i < gs.len(),
                    gs == self.glyphs@,
                    g == gs[i as int],
                    seen == exists|q: int| 0 <= q < j && #[trigger] gs[q].codepoint == g.codepoint,
                decreases i - j,
            {
                if self.glyphs[j].codepoint == g.codepoint {
                    seen = true;
                }
                j += 1;
            }
            assert(seen == seen_before(gs, i as int));
            if seen {
                let m = glyph_message("Duplicate codepoint: U+", g.codepoint);
                push_views_error(&mut errors, ValidationError { code: ErrorCode::DuplicateCodepoint, message: m, glyph: Some(g.codepoint) });
            }
            let ghost e1 = errors@.map_values(|x: ValidationError| error_view(x));
            if !is_valid_codepoint(g.codepoint) {
                let m = glyph_message("Invalid codepoint: U+", g.codepoint);
                push_views_error(&mut errors, ValidationError { code: ErrorCode::InvalidCodepoint, message: m, glyph: Some(g.codepoint) });
            } else if g.width == 0 {
                let m = glyph_message("Zero width glyph: U+", g.codepoint);
                push_views_error(&mut errors, ValidationError { code: ErrorCode::InvalidWidth, message: m, glyph: Some(g.codepoint) });
            } else {
                valid_glyphs = valid_glyphs + 1;
            }
            proof {
                assert(errors@.map_values(|x: ValidationError| error_view(x)) =~= e0 + glyph_errors(gs, i as int));
            }
            let ghost w0 = warnings@.map_values(|x: ValidationWarning| warning_view(x));
            if crate::text::chars_of(g.name).len() == 0 {
                let m = glyph_message("Missing name for glyph: U+", g.codepoint);
                push_views_warning(&mut warnings, ValidationWarning { code: WarningCode::MissingName, message: m, glyph: Some(g.codepoint) });
            }
            if g.width > 2 {
                let mut m = String::new();
                push_str(&mut m, "Unusual width ");
                push_decimal(&mut m, g.width as u64);
                push_str(&mut m, " for glyph: U+");
                push_hex4(&mut m, g.codepoint);
                push_views_warning(&mut warnings, ValidationWarning { code: WarningCode::UnusualWidth, message: m, glyph: Some(g.codepoint) });
            }
            proof {
                assert(warnings@.map_values(|x: ValidationWarning| warning_view(x)) =~= w0 + glyph_warnings(gs[i as int]));
            }
            i += 1;
        }
        let glyph_count = self.glyphs.len();
        let valid = errors.len() == 0;
        ValidationResult { valid, errors, warnings, glyph_count, valid_glyphs }
    }
}

impl ValidationResult {
    /// Valid and without error.
    pub fn is_valid(&self) -> (b: bool)
        ensures
            b == (self.valid && self.errors@.len() == 0),
    {
        self.valid && self.errors.len() == 0
    }

    pub fn error_count(&self) -> (n: usize)
        ensures
            n == self.errors@.len(),
    {
        self.errors.len()
    }

    pub fn warning_count(&self) -> (n: usize)
        ensures
            n == self.warnings@.len(),
    {
        self.warnings.len()
    }
}

// ============================================================================
// Local fonts
// ============================================================================

/// The stem of the last component of a path, as `Path::file_stem` gives it
/// (none when the path has no file name or the stem is not valid UTF-8).
pub uninterp spec fn path_file_stem(path: Seq<char>) -> Option<Seq<char>>;

/// `Path::new(path).file_stem()`, as a string: named `path_file_stem`, a
/// function of the path alone. The splitting of the path into components
/// is not stated.
#[verifier::external_body]
fn file_stem(path: &str) -> (r: Option<String>)
    ensures
        crate::input::state::opt_view(r) == path_file_stem(path@),
{
    std::path::Path::new(path).file_stem().and_then(|s| s.to_str()).map(|s| s.to_string())
}

/// A font file, or the font bundled with the library.
#[derive(Debug)]
pub struct LocalFont {
    pub path: String,
    pub name: String,
    pub family: String,
    pub variant: NerdFontVariant,
    pub is_bundled: bool,
}

impl Clone for LocalFont {
    fn clone(&self) -> (r: LocalFont)
        ensures
            r == *self,
    {
        LocalFont {
            path: self.path.clone(),
            name: self.name.clone(),
            family: self.family.clone(),
            variant: self.variant,
            is_bundled: self.is_bundled,
        }
    }
}

/// The path that stands for the bundled font.
pub open spec fn bundled_path() -> Seq<char> {
    "bundled://DroidSansMNerdFont-Regular.otf"@
}

/// The name of the bundled font.
pub open spec fn bundled_name() -> Seq<char> {
    "DroidSansMNerdFont"@
}

/// The bundled font.
pub open spec fn is_bundled_font(f: LocalFont) -> bool {
    &&& f.path@ == bundled_path()
    &&& f.name@ == bundled_name()
    &&& f.family@ == "Droid Sans Mono"@
    &&& f.variant == NerdFontVariant::Complete
    &&& f.is_bundled
}

impl LocalFont {
    /// The font file at `path`, named (and of the family) after the file's
    /// stem, or `Unknown` when the path has none.
    pub fn new(path: String) -> (f: LocalFont)
        ensures
            f.path@ == path@,
            f.name@ == (match path_file_stem(path@) {
                Some(stem) => stem,
                None => "Unknown"@,
            }),
            f.family@ == f.name@,
            f.variant == NerdFontVariant::Complete,
            !f.is_bundled,
    {
        let name = match file_stem(path.as_str()) {
            Some(stem) => stem,
            None => "Unknown".to_string(),
        };
        let family = name.clone();
        LocalFont { path, name, family, variant: NerdFontVariant::Complete, is_bundled: false }
    }

    /// The font bundled with the library: Droid Sans Mono.
    pub fn bundled() -> (f: LocalFont)
        ensures
            is_bundled_font(f),
    {
        LocalFont {
            path: "bundled://DroidSansMNerdFont-Regular.otf".to_string(),
            name: "DroidSansMNerdFont".to_string(),
            family: "Droid Sans Mono".to_string(),
            variant: NerdFontVariant::Complete,
            is_bundled: true,
        }
    }
}

/// Whether a file with extension `ext` and stem `stem` is a Nerd Font: an
/// OpenType, TrueType or web font (extension compared in lowercase) whose
/// stem holds `NerdFont` or `nerd-font`.
pub open spec fn is_nerd_font_file(ext: Seq<char>, stem: Seq<char>) -> bool {
    let e = crate::text::lowercase(ext);
    (e == "otf"@ || e == "ttf"@ || e == "woff"@ || e == "woff2"@) && (crate::text::has_substring(
        stem,
        "NerdFont"@,
    ) || crate::text::has_substring(stem, "nerd-font"@))
}

/// Finds the bundled font and the Nerd Fonts installed in font
/// directories.
pub struct LocalFontDetector {
    bundled_font: LocalFont,
    system_fonts: Vec<LocalFont>,
    search_paths: Option<Vec<String>>,
}

impl LocalFontDetector {
    /// The bundled font.
    pub closed spec fn bundled_view(&self) -> LocalFont {
        self.bundled_font
    }

    /// The fonts found installed.
    pub closed spec fn system_view(&self) -> Seq<LocalFont> {
        self.system_fonts@
    }

    /// The directories to search; none for the default ones.
    pub closed spec fn paths_view(&self) -> Option<Seq<String>> {
        match self.search_paths {
            Some(p) => Some(p@),
            None => None,
        }
    }

    /// The bundled font is the one it holds.
    pub closed spec fn wf(&self) -> bool {
        is_bundled_font(self.bundled_font)
    }

    /// A detector over the default font directories (under the home
    /// directory and the system font directories), nothing found yet.
    pub fn new() -> (d: LocalFontDetector)
        ensures
            d.wf(),
            d.system_view().len() == 0,
            d.paths_view() is None,
    {
        LocalFontDetector { bundled_font: LocalFont::bundled(), system_fonts: Vec::new(), search_paths: None }
    }

    /// A detector over the given directories, nothing found yet.
    pub fn with_search_paths(paths: Vec<String>) -> (d: LocalFontDetector)
        ensures
            d.wf(),
            d.system_view().len() == 0,
            d.paths_view() == Some(paths@),
    {
        LocalFontDetector { bundled_font: LocalFont::bundled(), system_fonts: Vec::new(), search_paths: Some(paths) }
    }

    /// The directories to search, when they were given.
    pub fn search_paths(&self) -> (r: Option<&Vec<String>>)
        ensures
            match r {
                Some(p) => self.paths_view() == Some(p@),
                None => self.paths_view() is None,
            },
    {
        match &self.search_paths {
            Some(p) => Some(p),
            None => None,
        }
    }

    /// Whether a file with extension `ext` and stem `stem` counts as a Nerd
    /// Font.
    pub fn is_font_file(ext: &str, stem: &str) -> (b: bool)
        ensures
            b == is_nerd_font_file(ext@, stem@),
    {
        let e = crate::text::to_lowercase(ext);
        let known = str_eq(e.as_str(), "otf") || str_eq(e.as_str(), "ttf") || str_eq(e.as_str(), "woff") || str_eq(
            e.as_str(),
            "woff2",
        );
        known && (crate::text::contains_str(stem, "NerdFont") || crate::text::contains_str(stem, "nerd-font"))
    }

    /// Records the fonts a scan of the directories found, in place of the
    /// earlier ones; returns them.
    pub fn detect(&mut self, found: Vec<LocalFont>) -> (r: Vec<LocalFont>)
        requires
            old(self).wf(),
        ensures
            final(self).wf(),
            final(self).system_view() == found@,
            final(self).paths_view() == old(self).paths_view(),
            r@ == found@,
    {
        self.system_fonts = found;
        let r = self.system_fonts.clone();
        assert forall|i: int| 0 <= i < r@.len() implies r@[i] == found@[i] by {
            assert(cloned::<LocalFont>(self.system_fonts[i], r[i]));
        }
        assert(r@ =~= found@);
        r
    }

    /// There always is the bundled font.
    pub fn has_bundled_font(&self) -> (b: bool)
        ensures
            b,
    {
        true
    }

    pub fn bundled_font(&self) -> (f: &LocalFont)
        requires
            self.wf(),
        ensures
            is_bundled_font(*f),
    {
        &self.bundled_font
    }

    pub fn system_fonts(&self) -> (fs: &[LocalFont])
        ensures
            fs@ == self.system_view(),
    {
        self.system_fonts.as_slice()
    }

    /// The bundled font when its name holds `name`, else the first found
    /// font whose name holds it.
    pub fn find_font(&self, name: &str) -> (r: Option<&LocalFont>)
        requires
            self.wf(),
        ensures
            crate::text::has_substring(bundled_name(), name@) ==> (r matches Some(f) && *f == self.bundled_view()),
            !crate::text::has_substring(bundled_name(), name@) ==> match r {
                Some(f) => exists|k: int|
                    0 <= k < self.system_view().len() && self.system_view()[k] == *f && crate::text::has_substring(
                        f.name@,
                        name@,
                    ) && forall|q: int|
                        0 <= q < k ==> !crate::text::has_substring(#[trigger] self.system_view()[q].name@, name@),
                None => forall|q: int|
                    0 <= q < self.system_view().len() ==> !crate::text::has_substring(
                        #[trigger] self.system_view()[q].name@,
                        name@,
                    ),
            },
    {
        if crate::text::contains_str(self.bundled_font.name.as_str(), name) {
            return Some(&self.bundled_font);
        }
        let mut i: usize = 0;
        while i < self.system_fonts.len()
            invariant
                self.wf(),
                !crate::text::has_substring(bundled_name(), name@),
                i <= self.system_fonts@.len(),
                forall|q: int|
                    0 <= q < i ==> !crate::text::has_substring(#[trigger] self.system_fonts@[q].name@, name@),
            decreases self.system_fonts@.len() - i,
        {
            if crate::text::contains_str(self.system_fonts[i].name.as_str(), name) {
                return Some(&self.system_fonts[i]);
            }
            i += 1;
        }
        None
    }

    /// A font is always available: the bundled one.
    pub fn any_font_available(&self) -> (b: bool)
        requires
            self.wf(),
        ensures
            b,
    {
        self.bundled_font.is_bundled || self.system_fonts.len() > 0
    }

    /// The font to use: the bundled one, which always exists.
    pub fn best_font(&self) -> (f: &LocalFont)
        requires
            self.wf(),
        ensures
            is_bundled_font(*f),
    {
        &self.bundled_font
    }
}

impl Default for LocalFontDetector {
    fn default() -> (d: LocalFontDetector)
        ensures
            d.wf(),
            d.system_view().len() == 0,
    {
        LocalFontDetector::new()
    }
}

// ============================================================================
// Glyph metrics
// ============================================================================

/// The cell geometry of a glyph.
#[derive(Debug, Clone, Copy, PartialEq, Eq, Structural)]
pub struct GlyphMetrics {
    pub width: u16,
    pub height: u16,
    pub bearing_x: i16,
    pub bearing_y: i16,
    pub advance_x: u16,
    pub advance_y: u16,
    pub is_monospace: bool,
}

/// Zero metrics of a monospaced glyph.
pub open spec fn zero_metrics() -> GlyphMetrics {
    GlyphMetrics {
        width: 0,
        height: 0,
        bearing_x: 0,
        bearing_y: 0,
        advance_x: 0,
        advance_y: 0,
        is_monospace: true,
    }
}

impl Default for GlyphMetrics {
    fn default() -> (m: GlyphMetrics)
        ensures
            m == zero_metrics(),
    {
        GlyphMetrics::new()
    }
}

impl GlyphMetrics {
    /// Zero metrics of a monospaced glyph.
    pub fn new() -> (m: GlyphMetrics)
        ensures
            m == zero_metrics(),
    {
        GlyphMetrics {
            width: 0,
            height: 0,
            bearing_x: 0,
            bearing_y: 0,
            advance_x: 0,
            advance_y: 0,
            is_monospace: true,
        }
    }

    pub fn with_dimensions(self, width: u16, height: u16) -> (m: GlyphMetrics)
        ensures
            m == (GlyphMetrics { width, height, ..self }),
    {
        GlyphMetrics { width, height, ..self }
    }

    pub fn with_bearing(self, x: i16, y: i16) -> (m: GlyphMetrics)
        ensures
            m == (GlyphMetrics { bearing_x: x, bearing_y: y, ..self }),
    {
        GlyphMetrics { bearing_x: x, bearing_y: y, ..self }
    }

    pub fn with_advance(self, x: u16, y: u16) -> (m: GlyphMetrics)
        ensures
            m == (GlyphMetrics { advance_x: x, advance_y: y, ..self }),
    {
        GlyphMetrics { advance_x: x, advance_y: y, ..self }
    }

    pub fn with_monospace(self, is_monospace: bool) -> (m: GlyphMetrics)
        ensures
            m == (GlyphMetrics { is_monospace, ..self }),
    {
        GlyphMetrics { is_monospace, ..self }
    }

    /// The width in pixels: the cell width for a monospaced glyph, else its
    /// advance.
    pub fn cell_width(&self, cell_width: u16) -> (w: u16)
        ensures
            w == (if self.is_monospace {
                cell_width
            } else {
                self.advance_x
            }),
    {
        if self.is_monospace {
            cell_width
        } else {
            self.advance_x
        }
    }

    /// Advancing more than one cell.
    pub fn is_wide(&self) -> (b: bool)
        ensures
            b == (self.advance_x > 1),
    {
        self.advance_x > 1
    }
}

/// The metrics a cache measures for a glyph: its cells wide by one cell
/// high, advancing its width in cells, monospaced.
pub open spec fn measured(g: NerdFontGlyph, cell_width: u16, cell_height: u16) -> GlyphMetrics {
    GlyphMetrics {
        width: (g.width * cell_width) as u16,
        height: cell_height,
        advance_x: g.width as u16,
        advance_y: 1,
        is_monospace: true,
        ..zero_metrics()
    }
}

/// The position of the entry of `cp`, or -1.
pub open spec fn entry_index(s: Seq<(u32, GlyphMetrics)>, cp: u32) -> int
    decreases s.len(),
{
    if s.len() == 0 {
        -1
    } else if s.last().0 == cp {
        s.len() - 1
    } else {
        entry_index(s.drop_last(), cp)
    }
}

/// The entries after storing `m` for `cp`: in place of its entry, or last.
pub open spec fn stored(s: Seq<(u32, GlyphMetrics)>, cp: u32, m: GlyphMetrics) -> Seq<(u32, GlyphMetrics)> {
    let k = entry_index(s, cp);
    if k < 0 {
        s.push((cp, m))
    } else {
        s.update(k, (cp, m))
    }
}

proof fn lemma_entry_index(s: Seq<(u32, GlyphMetrics)>, cp: u32)
    ensures
        -1 <= entry_index(s, cp) < s.len(),
        entry_index(s, cp) >= 0 ==> s[entry_index(s, cp)].0 == cp,
        entry_index(s, cp) < 0 ==> forall|i: int| 0 <= i < s.len() ==> s[i].0 != cp,
        forall|i: int| entry_index(s, cp) < i < s.len() ==> s[i].0 != cp,
    decreases s.len(),
{
    if s.len() > 0 {
        lemma_entry_index(s.drop_last(), cp);
        assert forall|i: int| 0 <= i < s.len() - 1 implies s.drop_last()[i] == s[i] by {}
    }
}

/// Cell metrics of Nerd Font glyphs, by code point, for a cell size.
#[derive(Debug, Clone)]
pub struct MetricsCache {
    metrics: Vec<(u32, GlyphMetrics)>,
    cell_width: u16,
    cell_height: u16,
}

impl MetricsCache {
    /// The entries, by code point, in the order they came in.
    pub closed spec fn entries(&self) -> Seq<(u32, GlyphMetrics)> {
        self.metrics@
    }

    pub closed spec fn cell_size(&self) -> (u16, u16) {
        (self.cell_width, self.cell_height)
    }

    /// One entry per code point.
    pub closed spec fn wf(&self) -> bool {
        forall|i: int, j: int| 0 <= i < j < self.metrics@.len() ==> self.metrics@[i].0 != self.metrics@[j].0
    }

    /// No entry, for cells of `cell_width` by `cell_height`.
    pub fn new(cell_width: u16, cell_height: u16) -> (c: MetricsCache)
        ensures
            c.wf(),
            c.entries().len() == 0,
            c.cell_size() == (cell_width, cell_height),
    {
        MetricsCache { metrics: Vec::new(), cell_width, cell_height }
    }

    fn find(&self, codepoint: u32) -> (r: Option<usize>)
        ensures
            match r {
                Some(k) => k as int == entry_index(self.entries(), codepoint) && k < self.entries().len(),
                None => entry_index(self.entries(), codepoint) == -1,
            },
    {
        proof {
            lemma_entry_index(self.metrics@, codepoint);
        }
        let mut i: usize = self.metrics.len();
        while i > 0
            invariant
                i <= self.metrics@.len(),
                forall|j: int| i <= j < self.metrics@.len() ==> self.metrics@[j].0 != codepoint,
                -1 <= entry_index(self.metrics@, codepoint) < self.metrics@.len(),
                entry_index(self.metrics@, codepoint) >= 0 ==> self.metrics@[entry_index(self.metrics@, codepoint)].0
                    == codepoint,
                forall|j: int| entry_index(self.metrics@, codepoint) < j < self.metrics@.len() ==> self.metrics@[j].0 != codepoint,
            decreases i,
        {
            i -= 1;
            if self.metrics[i].0 == codepoint {
                return Some(i);
            }
        }
        None
    }

    /// The metrics of a code point.
    pub fn get(&self, codepoint: u32) -> (r: Option<&GlyphMetrics>)
        ensures
            r is Some <==> entry_index(self.entries(), codepoint) >= 0,
            r matches Some(m) ==> *m == self.entries()[entry_index(self.entries(), codepoint)].1,
    {
        match self.find(codepoint) {
            Some(k) => Some(&self.metrics[k].1),
            None => None,
        }
    }

    /// The metrics of a code point, measured from `glyph` and stored first
    /// when missing.
    pub fn get_or_create(&mut self, codepoint: u32, glyph: &NerdFontGlyph) -> (r: &GlyphMetrics)
        requires
            old(self).wf(),
            glyph.width * old(self).cell_size().0 <= u16::MAX,
        ensures
            final(self).wf(),
            final(self).cell_size() == old(self).cell_size(),
            entry_index(old(self).entries(), codepoint) >= 0 ==> final(self).entries() == old(self).entries()
                && *r == old(self).entries()[entry_index(old(self).entries(), codepoint)].1,
            entry_index(old(self).entries(), codepoint) < 0 ==> final(self).entries() == old(self).entries().push(
                (codepoint, measured(*glyph, old(self).cell_size().0, old(self).cell_size().1)),
            ) && *r == measured(*glyph, old(self).cell_size().0, old(self).cell_size().1),
    {
        match self.find(codepoint) {
            Some(k) => &self.metrics[k].1,
            None => {
                let m = self.measure_glyph(glyph);
                proof {
                    lemma_entry_index(self.metrics@, codepoint);
                }
                self.metrics.push((codepoint, m));
                let last = self.metrics.len() - 1;
                &self.metrics[last].1
            },
        }
    }

    /// Stores metrics for a code point, replacing its entry.
    pub fn insert(&mut self, codepoint: u32, metrics: GlyphMetrics)
        requires
            old(self).wf(),
        ensures
            final(self).wf(),
            final(self).cell_size() == old(self).cell_size(),
            final(self).entries() == stored(old(self).entries(), codepoint, metrics),
    {
        proof {
            lemma_entry_index(self.metrics@, codepoint);
        }
        match self.find(codepoint) {
            Some(k) => {
                self.metrics.set(k, (codepoint, metrics));
                proof {
                    assert forall|i: int, j: int| 0 <= i < j < self.metrics@.len() implies self.metrics@[i].0
                        != self.metrics@[j].0 by {
                        if i != k && j != k {
                            assert(old(self).metrics@[i].0 != old(self).metrics@[j].0);
                        } else if i == k {
                            assert(old(self).metrics@[j].0 != codepoint);
                        } else {
                            assert(old(self).metrics@[i].0 != old(self).metrics@[k as int].0);
                        }
                    }
                }
            },
            None => {
                self.metrics.push((codepoint, metrics));
            },
        }
    }

    /// Whether a code point has metrics.
    pub fn contains(&self, codepoint: u32) -> (b: bool)
        ensures
            b == (entry_index(self.entries(), codepoint) >= 0),
    {
        self.find(codepoint).is_some()
    }

    pub fn len(&self) -> (n: usize)
        ensures
            n == self.entries().len(),
    {
        self.metrics.len()
    }

    pub fn is_empty(&self) -> (b: bool)
        ensures
            b == (self.entries().len() == 0),
    {
        self.metrics.len() == 0
    }

    /// Drops every entry.
    pub fn clear(&mut self)
        ensures
            final(self).wf(),
            final(self).entries().len() == 0,
            final(self).cell_size() == old(self).cell_size(),
    {
        self.metrics.clear();
    }

    pub fn cell_width(&self) -> (w: u16)
        ensures
            w == self.cell_size().0,
    {
        self.cell_width
    }

    pub fn cell_height(&self) -> (h: u16)
        ensures
            h == self.cell_size().1,
    {
        self.cell_height
    }

    /// Sets the cell size used for later measurements.
    pub fn set_cell_size(&mut self, width: u16, height: u16)
        ensures
            final(self).cell_size() == (width, height),
            final(self).entries() == old(self).entries(),
            final(self).wf() == old(self).wf(),
    {
        self.cell_width = width;
        self.cell_height = height;
    }

    fn measure_glyph(&self, glyph: &NerdFontGlyph) -> (m: GlyphMetrics)
        requires
            glyph.width * self.cell_width <= u16::MAX,
        ensures
            m == measured(*glyph, self.cell_width, self.cell_height),
    {
        let width = glyph.width as u16 * self.cell_width;
        let height = self.cell_height;
        GlyphMetrics::new().with_dimensions(width, height).with_advance(glyph.width as u16, 1).with_monospace(true)
    }

    /// Measures and stores every glyph of the font, in order.
    pub fn measure_all(&mut self, font: &NerdFont)
        requires
            old(self).wf(),
            forall|i: int| 0 <= i < font.glyphs@.len() ==> #[trigger] font.glyphs@[i].width * old(self).cell_size().0 <= u16::MAX,
        ensures
            final(self).wf(),
            final(self).cell_size() == old(self).cell_size(),
            final(self).entries() == measured_all(old(self).entries(), font.glyphs@, font.glyphs@.len(), old(self).cell_size().0, old(self).cell_size().1),
    {
        let mut i: usize = 0;
        while i < font.glyphs.len()
            invariant
                i <= font.glyphs@.len(),
                self.wf(),
                self.cell_size() == old(self).cell_size(),
                forall|j: int| 0 <= j < font.glyphs@.len() ==> #[trigger] font.glyphs@[j].width * old(self).cell_size().0 <= u16::MAX,
                self.entries() == measured_all(old(self).entries(), font.glyphs@, i as nat, old(self).cell_size().0, old(self).cell_size().1),
            decreases font.glyphs@.len() - i,
        {
            let g = &font.glyphs[i];
            assert(g.width * self.cell_width <= u16::MAX);
            let m = self.measure_glyph(g);
            self.insert(g.codepoint, m);
            i += 1;
        }
    }

    /// The bytes the entries take.
    pub fn total_memory(&self) -> (n: usize)
        requires
            self.entries().len() * size_of::<GlyphMetrics>() <= usize::MAX,
        ensures
            n == self.entries().len() * size_of::<GlyphMetrics>(),
    {
        self.metrics.len() * core::mem::size_of::<GlyphMetrics>()
    }
}

impl Default for MetricsCache {
    fn default() -> (c: MetricsCache)
        ensures
            c.wf(),
            c.entries().len() == 0,
            c.cell_size() == (0u16, 0u16),
    {
        MetricsCache::new(0, 0)
    }
}

/// The entries after measuring and storing the first `k` glyphs.
pub open spec fn measured_all(
    s: Seq<(u32, GlyphMetrics)>,
    gs: Seq<NerdFontGlyph>,
    k: nat,
    cw: u16,
    ch: u16,
) -> Seq<(u32, GlyphMetrics)>
    decreases k,
{
    if k == 0 {
        s
    } else {
        let prev = measured_all(s, gs, (k - 1) as nat, cw, ch);
        stored(prev, gs[k - 1].codepoint, measured(gs[k - 1], cw, ch))
    }
}

// ============================================================================
// Detection
// ============================================================================

/// The font families a detection looks for, in order.
pub open spec fn nerd_font_families() -> Seq<Seq<char>> {
    seq![
        "3270NerdFont"@,
        "AgaveNerdFont"@,
        "AnonymiceProNerdFont"@,
        "ArimoNerdFont"@,
        "BlexMonoNerdFont"@,
        "CaskaydiaCoveNerdFont"@,
        "CodeNewRomanNerdFont"@,
        "CousineNerdFont"@,
        "DaddyTimeMonoNerdFont"@,
        "DejaVuSansMonoNerdFont"@,
        "DroidSansMonoNerdFont"@,
        "FiraCodeNerdFont"@,
        "FiraMonoNerdFont"@,
        "GeistMonoNerdFont"@,
        "GoMonoNerdFont"@,
        "GohuNerdFont"@,
        "HackNerdFont"@,
        "HaskligNerdFont"@,
        "HeavyDataMonoNerdFont"@,
        "HermitNerdFont"@,
        "iAWriterMonoNerdFont"@,
        "iAWriterQuattroNerdFont"@,
        "IBMPlexMonoNerdFont"@,
        "InconsolataGoNerdFont"@,
        "InconsolataLGCNerdFont"@,
        "JetBrainsMonoNerdFont"@,
        "LektonNerdFont"@,
        "LiberationMonoNerdFont"@,
        "MesloLGDNerdFont"@,
        "MesloLGLNerdFont"@,
        "MesloLGMNerdFont"@,
        "MesloLGSNerdFont"@,
        "MonaspiceNerdFont"@,
        "MonaspaceArgonNerdFont"@,
        "MonaspiceKryptonNerdFont"@,
        "MonaspiceNeonNerdFont"@,
        "MonaspiceRadonNerdFont"@,
        "MonaspiceXenonNerdFont"@,
        "MonofurNerdFont"@,
        "MonoidNerdFont"@,
        "MononokiNerdFont"@,
        "MPLUS1CodeNerdFont"@,
        "NotoNerdFont"@,
        "OpenDyslexicNerdFont"@,
        "OverpassNerdFont"@,
        "ProFontNerdFont"@,
        "ProggyCleanNerdFont"@,
        "RobotoMonoNerdFont"@,
        "ShareTechMonoNerdFont"@,
        "SpaceMonoNerdFont"@,
        "TerminessNerdFont"@,
        "TinosNerdFont"@,
        "UbuntuMonoNerdFont"@,
        "VictorMonoNerdFont"@,
        "ZapFleetNerdFont"@,
        "ZapFinoNerdFont"@,
    ]
}

/// The names of the devicon glyphs of a detected font, from U+E700 on.
pub open spec fn devicon_glyph_names() -> Seq<Seq<char>> {
    seq![
        "devicon-file-type-js"@,
        "devicon-file-type-ts"@,
        "devicon-file-type-jsx"@,
        "devicon-file-type-tsx"@,
        "devicon-file-type-vue"@,
        "devicon-file-type-python"@,
        "devicon-file-type-rust"@,
        "devicon-file-type-go"@,
        "devicon-file-type-ruby"@,
        "devicon-file-type-java"@,
        "devicon-file-type-c"@,
        "devicon-file-type-cpp"@,
        "devicon-file-type-csharp"@,
        "devicon-file-type-php"@,
        "devicon-file-type-swift"@,
        "devicon-file-type-kotlin"@,
        "devicon-file-type-dart"@,
        "devicon-file-type-html"@,
        "devicon-file-type-css"@,
        "devicon-file-type-sass"@,
        "devicon-file-type-less"@,
        "devicon-file-type-markdown"@,
        "devicon-file-type-docker"@,
        "devicon-file-type-shell"@,
        "devicon-file-type-vim"@,
        "devicon-file-type-lua"@,
        "devicon-file-type-perl"@,
        "devicon-file-type-r"@,
        "devicon-file-type-haskell"@,
        "devicon-file-type-elixir"@,
        "devicon-file-type-clojure"@,
        "devicon-file-type-erlang"@,
        "devicon-file-type-coffee"@,
        "devicon-file-type-elm"@,
        "devicon-file-type-purescript"@,
        "devicon-file-type-scala"@,
        "devicon-file-type-scheme"@,
        "devicon-file-type-lisp"@,
        "devicon-file-type-julia"@,
        "devicon-file-type-matlab"@,
        "devicon-file-type-photoshop"@,
        "devicon-file-type-illustrator"@,
        "devicon-file-type-sketch"@,
        "devicon-file-type-figma"@,
        "devicon-file-type-blender"@,
        "devicon-file-type-unity"@,
        "devicon-file-type-aws"@,
        "devicon-file-type-azure"@,
        "devicon-file-type-gcp"@,
        "devicon-file-type-graphql"@,
        "devicon-file-type-mongodb"@,
        "devicon-file-type-postgresql"@,
        "devicon-file-type-mysql"@,
        "devicon-file-type-redis"@,
        "devicon-file-type-elasticsearch"@,
        "devicon-file-type-kubernetes"@,
        "devicon-file-type-terraform"@,
        "devicon-file-type-ansible"@,
        "devicon-file-type-jenkins"@,
        "devicon-file-type-git"@,
        "devicon-file-type-github"@,
        "devicon-file-type-gitlab"@,
        "devicon-file-type-bitbucket"@,
        "devicon-file-type-linux"@,
        "devicon-file-type-apple"@,
        "devicon-file-type-windows"@,
        "devicon-file-type-android"@,
        "devicon-file-type-chrome"@,
        "devicon-file-type-firefox"@,
        "devicon-file-type-edge"@,
        "devicon-file-type-safari"@,
        "devicon-file-type-opera"@,
        "devicon-file-type-vscode"@,
        "devicon-file-type-vim"@,
        "devicon-file-type-emacs"@,
        "devicon-file-type-sublime"@,
        "devicon-file-type-atom"@,
        "devicon-file-type-notepadpp"@,
        "devicon-file-type-intellij"@,
        "devicon-file-type-pycharm"@,
        "devicon-file-type-webstorm"@,
        "devicon-file-type-clion"@,
        "devicon-file-type-rider"@,
        "devicon-file-type-datagrip"@,
        "devicon-file-type-appcode"@,
        "devicon-file-type-phpstorm"@,
        "devicon-file-type-rubymine"@,
        "devicon-file-type-goland"@,
        "devicon-file-type-studio3"@,
        "devicon-file-type-androidstudio"@,
        "devicon-file-type-xcode"@,
        "devicon-file-type-visualstudio"@,
        "devicon-file-type-visualstudiocode"@,
    ]
}

/// The names of the Powerline glyphs of a detected font.
pub open spec fn powerline_glyph_names() -> Seq<Seq<char>> {
    seq![
        "powerline-branch"@,
        "powerline-line"@,
        "powerline-pipe"@,
        "right-pointing-triangle"@,
        "right-pointing-triangle-thin"@,
        "left-pointing-triangle"@,
        "left-pointing-triangle-thin"@,
    ]
}

/// The font families a detection looks for.
pub fn nerd_font_names() -> (v: Vec<&'static str>)
    ensures
        v@.map_values(|n: &str| n@) == nerd_font_families(),
{
    let mut v: Vec<&'static str> = Vec::new();
    v.push("3270NerdFont");
    v.push("AgaveNerdFont");
    v.push("AnonymiceProNerdFont");
    v.push("ArimoNerdFont");
    v.push("BlexMonoNerdFont");
    v.push("CaskaydiaCoveNerdFont");
    v.push("CodeNewRomanNerdFont");
    v.push("CousineNerdFont");
    v.push("DaddyTimeMonoNerdFont");
    v.push("DejaVuSansMonoNerdFont");
    v.push("DroidSansMonoNerdFont");
    v.push("FiraCodeNerdFont");
    v.push("FiraMonoNerdFont");
    v.push("GeistMonoNerdFont");
    v.push("GoMonoNerdFont");
    v.push("GohuNerdFont");
    v.push("HackNerdFont");
    v.push("HaskligNerdFont");
    v.push("HeavyDataMonoNerdFont");
    v.push("HermitNerdFont");
    v.push("iAWriterMonoNerdFont");
    v.push("iAWriterQuattroNerdFont");
    v.push("IBMPlexMonoNerdFont");
    v.push("InconsolataGoNerdFont");
    v.push("InconsolataLGCNerdFont");
    v.push("JetBrainsMonoNerdFont");
    v.push("LektonNerdFont");
    v.push("LiberationMonoNerdFont");
    v.push("MesloLGDNerdFont");
    v.push("MesloLGLNerdFont");
    v.push("MesloLGMNerdFont");
    v.push("MesloLGSNerdFont");
    v.push("MonaspiceNerdFont");
    v.push("MonaspaceArgonNerdFont");
    v.push("MonaspiceKryptonNerdFont");
    v.push("MonaspiceNeonNerdFont");
    v.push("MonaspiceRadonNerdFont");
    v.push("MonaspiceXenonNerdFont");
    v.push("MonofurNerdFont");
    v.push("MonoidNerdFont");
    v.push("MononokiNerdFont");
    v.push("MPLUS1CodeNerdFont");
    v.push("NotoNerdFont");
    v.push("OpenDyslexicNerdFont");
    v.push("OverpassNerdFont");
    v.push("ProFontNerdFont");
    v.push("ProggyCleanNerdFont");
    v.push("RobotoMonoNerdFont");
    v.push("ShareTechMonoNerdFont");
    v.push("SpaceMonoNerdFont");
    v.push("TerminessNerdFont");
    v.push("TinosNerdFont");
    v.push("UbuntuMonoNerdFont");
    v.push("VictorMonoNerdFont");
    v.push("ZapFleetNerdFont");
    v.push("ZapFinoNerdFont");
    assert(v@.map_values(|n: &str| n@) =~= nerd_font_families());
    v
}

/// The names of the devicon glyphs, from U+E700 on.
fn devicon_names() -> (v: Vec<&'static str>)
    ensures
        v@.map_values(|n: &str| n@) == devicon_glyph_names(),
{
    let mut v: Vec<&'static str> = Vec::new();
    v.push("devicon-file-type-js");
    v.push("devicon-file-type-ts");
    v.push("devicon-file-type-jsx");
    v.push("devicon-file-type-tsx");
    v.push("devicon-file-type-vue");
    v.push("devicon-file-type-python");
    v.push("devicon-file-type-rust");
    v.push("devicon-file-type-go");
    v.push("devicon-file-type-ruby");
    v.push("devicon-file-type-java");
    v.push("devicon-file-type-c");
    v.push("devicon-file-type-cpp");
    v.push("devicon-file-type-csharp");
    v.push("devicon-file-type-php");
    v.push("devicon-file-type-swift");
    v.push("devicon-file-type-kotlin");
    v.push("devicon-file-type-dart");
    v.push("devicon-file-type-html");
    v.push("devicon-file-type-css");
    v.push("devicon-file-type-sass");
    v.push("devicon-file-type-less");
    v.push("devicon-file-type-markdown");
    v.push("devicon-file-type-docker");
    v.push("devicon-file-type-shell");
    v.push("devicon-file-type-vim");
    v.push("devicon-file-type-lua");
    v.push("devicon-file-type-perl");
    v.push("devicon-file-type-r");
    v.push("devicon-file-type-haskell");
    v.push("devicon-file-type-elixir");
    v.push("devicon-file-type-clojure");
    v.push("devicon-file-type-erlang");
    v.push("devicon-file-type-coffee");
    v.push("devicon-file-type-elm");
    v.push("devicon-file-type-purescript");
    v.push("devicon-file-type-scala");
    v.push("devicon-file-type-scheme");
    v.push("devicon-file-type-lisp");
    v.push("devicon-file-type-julia");
    v.push("devicon-file-type-matlab");
    v.push("devicon-file-type-photoshop");
    v.push("devicon-file-type-illustrator");
    v.push("devicon-file-type-sketch");
    v.push("devicon-file-type-figma");
    v.push("devicon-file-type-blender");
    v.push("devicon-file-type-unity");
    v.push("devicon-file-type-aws");
    v.push("devicon-file-type-azure");
    v.push("devicon-file-type-gcp");
    v.push("devicon-file-type-graphql");
    v.push("devicon-file-type-mongodb");
    v.push("devicon-file-type-postgresql");
    v.push("devicon-file-type-mysql");
    v.push("devicon-file-type-redis");
    v.push("devicon-file-type-elasticsearch");
    v.push("devicon-file-type-kubernetes");
    v.push("devicon-file-type-terraform");
    v.push("devicon-file-type-ansible");
    v.push("devicon-file-type-jenkins");
    v.push("devicon-file-type-git");
    v.push("devicon-file-type-github");
    v.push("devicon-file-type-gitlab");
    v.push("devicon-file-type-bitbucket");
    v.push("devicon-file-type-linux");
    v.push("devicon-file-type-apple");
    v.push("devicon-file-type-windows");
    v.push("devicon-file-type-android");
    v.push("devicon-file-type-chrome");
    v.push("devicon-file-type-firefox");
    v.push("devicon-file-type-edge");
    v.push("devicon-file-type-safari");
    v.push("devicon-file-type-opera");
    v.push("devicon-file-type-vscode");
    v.push("devicon-file-type-vim");
    v.push("devicon-file-type-emacs");
    v.push("devicon-file-type-sublime");
    v.push("devicon-file-type-atom");
    v.push("devicon-file-type-notepadpp");
    v.push("devicon-file-type-intellij");
    v.push("devicon-file-type-pycharm");
    v.push("devicon-file-type-webstorm");
    v.push("devicon-file-type-clion");
    v.push("devicon-file-type-rider");
    v.push("devicon-file-type-datagrip");
    v.push("devicon-file-type-appcode");
    v.push("devicon-file-type-phpstorm");
    v.push("devicon-file-type-rubymine");
    v.push("devicon-file-type-goland");
    v.push("devicon-file-type-studio3");
    v.push("devicon-file-type-androidstudio");
    v.push("devicon-file-type-xcode");
    v.push("devicon-file-type-visualstudio");
    v.push("devicon-file-type-visualstudiocode");
    assert(v@.map_values(|n: &str| n@) =~= devicon_glyph_names());
    v
}

/// The Powerline glyphs of a detected font.
pub open spec fn powerline_codepoints() -> Seq<u32> {
    seq![0xE0A0u32, 0xE0A1u32, 0xE0A2u32, 0xE0B0u32, 0xE0B1u32, 0xE0B2u32, 0xE0B3u32]
}

/// Glyph `i` of a detected font: one of the seven Powerline glyphs, then
/// the devicons from U+E700 on; all one cell wide.
pub open spec fn detected_glyph_at(g: NerdFontGlyph, i: int) -> bool {
    &&& g.width == 1
    &&& if i < 7 {
        &&& g.codepoint == powerline_codepoints()[i]
        &&& g.name@ == powerline_glyph_names()[i]
        &&& g.category == GlyphCategory::Powerline
    } else {
        &&& g.codepoint == 0xE700 + (i - 7)
        &&& g.name@ == devicon_glyph_names()[i - 7]
        &&& g.category == GlyphCategory::Devicons
    }
}

/// The glyph set of a detected font: the seven Powerline glyphs, then the
/// devicons U+E700..=U+E75C.
pub open spec fn detected_glyphs(gs: Seq<NerdFontGlyph>) -> bool {
    &&& gs.len() == 100
    &&& forall|i: int| 0 <= i < 100 ==> detected_glyph_at(#[trigger] gs[i], i)
}

/// The position of the font named `name`, or -1.
pub open spec fn font_index(fs: Seq<NerdFont>, name: Seq<char>) -> int
    decreases fs.len(),
{
    if fs.len() == 0 {
        -1
    } else if fs.last().name@ == name {
        fs.len() - 1
    } else {
        font_index(fs.drop_last(), name)
    }
}

proof fn lemma_font_index(fs: Seq<NerdFont>, name: Seq<char>)
    ensures
        -1 <= font_index(fs, name) < fs.len(),
        font_index(fs, name) >= 0 ==> fs[font_index(fs, name)].name@ == name,
        font_index(fs, name) < 0 ==> forall|i: int| 0 <= i < fs.len() ==> fs[i].name@ != name,
        forall|i: int| font_index(fs, name) < i < fs.len() ==> fs[i].name@ != name,
    decreases fs.len(),
{
    if fs.len() > 0 {
        lemma_font_index(fs.drop_last(), name);
        assert forall|i: int| 0 <= i < fs.len() - 1 implies fs.drop_last()[i] == fs[i] by {}
    }
}

/// Gathers the Nerd Fonts found installed or bundled.
pub struct NerdFontDetector {
    fonts: Vec<NerdFont>,
    available_fonts: Vec<String>,
    local_detector: LocalFontDetector,
    local_fonts: Vec<LocalFont>,
}

impl NerdFontDetector {
    /// The fonts gathered, one per name, in the order they came in.
    pub closed spec fn fonts_view(&self) -> Seq<NerdFont> {
        self.fonts@
    }

    /// The names found available by the last detection.
    pub closed spec fn available_view(&self) -> Seq<Seq<char>> {
        self.available_fonts@.map_values(|s: String| s@)
    }

    pub closed spec fn local_view(&self) -> LocalFontDetector {
        self.local_detector
    }

    pub closed spec fn local_fonts_view(&self) -> Seq<LocalFont> {
        self.local_fonts@
    }

    /// One font per name and a consistent local detector.
    pub closed spec fn wf(&self) -> bool {
        &&& forall|i: int, j: int| 0 <= i < j < self.fonts@.len() ==> self.fonts@[i].name@ != self.fonts@[j].name@
        &&& self.local_detector.wf()
    }

    /// Nothing detected yet.
    pub fn new() -> (d: NerdFontDetector)
        ensures
            d.wf(),
            d.fonts_view().len() == 0,
            d.available_view().len() == 0,
            d.local_fonts_view().len() == 0,
            d.local_view().system_view().len() == 0,
            d.local_view().paths_view() is None,
    {
        let d = NerdFontDetector {
            fonts: Vec::new(),
            available_fonts: Vec::new(),
            local_detector: LocalFontDetector::new(),
            local_fonts: Vec::new(),
        };
        assert(d.available_view() =~= Seq::<Seq<char>>::empty());
        d
    }

    /// Records a detection: the installed fonts a directory scan found, and
    /// for each candidate family whether the system font list has it. A
    /// candidate the system has, or whose name a local font's name holds,
    /// becomes available and gets a font. Returns the available names.
    pub fn detect(&mut self, found: Vec<LocalFont>, candidates: &[&str], installed: &[bool]) -> (r: Vec<String>)
        requires
            old(self).wf(),
            candidates@.len() == installed@.len(),
        ensures
            final(self).wf(),
            final(self).local_view().system_view() == found@,
            final(self).local_fonts_view() == found@,
            r@.map_values(|s: String| s@) == final(self).available_view(),
            final(self).available_view() == available_names(
                final(self).local_view(),
                candidates@.map_values(|c: &str| c@),
                installed@,
                candidates@.len() as nat,
            ),
            forall|k: int|
                0 <= k < candidates@.len() && (installed@[k] || local_has(final(self).local_view(), #[trigger] candidates@[k]@))
                    ==> font_index(final(self).fonts_view(), candidates@[k]@) >= 0,
    {
        self.available_fonts.clear();
        self.local_fonts.clear();
        self.local_fonts = self.local_detector.detect(found);
        let ghost names = candidates@.map_values(|c: &str| c@);
        let mut k: usize = 0;
        assert(self.available_view() =~= available_names(self.local_detector, names, installed@, 0));
        while k < candidates.len()
            invariant
                self.wf(),
                k <= candidates@.len(),
                candidates@.len() == installed@.len(),
                names == candidates@.map_values(|c: &str| c@),
                self.local_detector.system_view() == found@,
                self.local_fonts@ == found@,
                self.available_view() == available_names(self.local_detector, names, installed@, k as nat),
                forall|q: int|
                    0 <= q < k && (installed@[q] || local_has(self.local_detector, #[trigger] candidates@[q]@))
                        ==> font_index(self.fonts@, candidates@[q]@) >= 0,
            decreases candidates@.len() - k,
        {
            let name = candidates[k];
            let local = self.has_local_font(name);
            if installed[k] || local {
                self.available_fonts.push(name.to_string());
                let font = self.create_font(name);
                let ghost before = self.fonts@;
                proof {
                    lemma_font_index(before, name@);
                }
                self.insert_font(name.to_string(), font);
                proof {
                    let kk = font_index(before, name@);
                    lemma_font_index(self.fonts@, name@);
                    if kk < 0 {
                        assert(self.fonts@[before.len() as int].name@ == name@);
                    } else {
                        assert(self.fonts@[kk].name@ == name@);
                    }
                    assert forall|q: int|
                        0 <= q < k + 1 && (installed@[q] || local_has(self.local_detector, #[trigger] candidates@[q]@))
                            implies font_index(self.fonts@, candidates@[q]@) >= 0 by {
                        let cq = candidates@[q]@;
                        lemma_font_index(self.fonts@, cq);
                        if q < k {
                            lemma_font_index(before, cq);
                            let b = font_index(before, cq);
                            if kk < 0 {
                                assert(self.fonts@[b] == before[b]);
                            } else if b == kk {
                                assert(self.fonts@[b].name@ == name@);
                            } else {
                                assert(self.fonts@[b] == before[b]);
                            }
                        } else {
                            assert(cq == name@);
                        }
                    }
                }
            }
            proof {
                assert(names[k as int] == name@);
            }
            k += 1;
            assert(self.available_view() =~= available_names(self.local_detector, names, installed@, k as nat));
        }
        let r = self.available_fonts.clone();
        assert(r@.map_values(|s: String| s@) =~= self.available_view());
        r
    }

    /// Whether a local font's name holds `name`.
    pub fn has_local_font(&self, name: &str) -> (b: bool)
        requires
            self.wf(),
        ensures
            b == local_has(self.local_view(), name@),
    {
        self.local_detector.find_font(name).is_some()
    }

    pub fn local_detector(&self) -> (d: &LocalFontDetector)
        ensures
            *d == self.local_view(),
    {
        &self.local_detector
    }

    pub fn local_fonts(&self) -> (fs: &[LocalFont])
        ensures
            fs@ == self.local_fonts_view(),
    {
        self.local_fonts.as_slice()
    }

    /// The font a detection makes for a family: named `name`, complete,
    /// with the Powerline glyphs and the devicons.
    pub fn create_font(&self, name: &str) -> (f: NerdFont)
        ensures
            f.name@ == name@,
            f.family@ == name@,
            f.variant == NerdFontVariant::Complete,
            f.is_monospace,
            detected_glyphs(f.glyphs@),
    {
        let mut glyphs: Vec<NerdFontGlyph> = Vec::new();
        glyphs.push(NerdFontGlyph::new(0xE0A0, "powerline-branch", GlyphCategory::Powerline));
        glyphs.push(NerdFontGlyph::new(0xE0A1, "powerline-line", GlyphCategory::Powerline));
        glyphs.push(NerdFontGlyph::new(0xE0A2, "powerline-pipe", GlyphCategory::Powerline));
        glyphs.push(NerdFontGlyph::new(0xE0B0, "right-pointing-triangle", GlyphCategory::Powerline));
        glyphs.push(NerdFontGlyph::new(0xE0B1, "right-pointing-triangle-thin", GlyphCategory::Powerline));
        glyphs.push(NerdFontGlyph::new(0xE0B2, "left-pointing-triangle", GlyphCategory::Powerline));
        glyphs.push(NerdFontGlyph::new(0xE0B3, "left-pointing-triangle-thin", GlyphCategory::Powerline));
        let names = devicon_names();
        assert(devicon_glyph_names().len() == 93);
        assert(names@.len() == names@.map_values(|n: &str| n@).len());
        assert forall|j: int| 0 <= j < 7 implies detected_glyph_at(#[trigger] glyphs@[j], j) by {}
        let mut i: usize = 0;
        while i < names.len()
            invariant
                names@.len() == 93,
                names@.map_values(|n: &str| n@) == devicon_glyph_names(),
                i <= 93,
                glyphs@.len() == 7 + i,
                forall|j: int| 0 <= j < 7 + i ==> detected_glyph_at(#[trigger] glyphs@[j], j),
            decreases 93 - i,
        {
            let ghost before = glyphs@;
            glyphs.push(NerdFontGlyph::new(0xE700 + (i as u32), names[i], GlyphCategory::Devicons));
            proof {
                assert forall|j: int| 0 <= j < 7 + i + 1 implies detected_glyph_at(#[trigger] glyphs@[j], j) by {
                    if j < 7 + i {
                        assert(glyphs@[j] == before[j]);
                    }
                }
            }
            i += 1;
        }
        NerdFont::new(name).with_variant(NerdFontVariant::Complete).with_glyphs(glyphs)
    }

    /// Stores a font under `name`, replacing the font of that name.
    pub fn insert_font(&mut self, name: String, font: NerdFont)
        requires
            old(self).wf(),
            font.name@ == name@,
        ensures
            final(self).wf(),
            final(self).local_view() == old(self).local_view(),
            final(self).local_fonts_view() == old(self).local_fonts_view(),
            final(self).available_view() == old(self).available_view(),
            ({
                let k = font_index(old(self).fonts_view(), name@);
                if k < 0 {
                    final(self).fonts_view() == old(self).fonts_view().push(font)
                } else {
                    final(self).fonts_view() == old(self).fonts_view().update(k, font)
                }
            }),
    {
        proof {
            lemma_font_index(self.fonts@, name@);
        }
        match self.find_font(name.as_str()) {
            Some(k) => {
                self.fonts.set(k, font);
                proof {
                    assert forall|i: int, j: int| 0 <= i < j < self.fonts@.len() implies self.fonts@[i].name@
                        != self.fonts@[j].name@ by {
                        if i != k && j != k {
                            assert(old(self).fonts@[i].name@ != old(self).fonts@[j].name@);
                        } else if i == k {
                            assert(old(self).fonts@[j].name@ != name@);
                        } else {
                            assert(old(self).fonts@[i].name@ != old(self).fonts@[k as int].name@);
                        }
                    }
                }
            },
            None => {
                self.fonts.push(font);
            },
        }
    }

    fn find_font(&self, name: &str) -> (r: Option<usize>)
        ensures
            match r {
                Some(k) => k as int == font_index(self.fonts@, name@) && k < self.fonts@.len(),
                None => font_index(self.fonts@, name@) == -1,
            },
    {
        proof {
            lemma_font_index(self.fonts@, name@);
        }
        let mut i: usize = self.fonts.len();
        while i > 0
            invariant
                i <= self.fonts@.len(),
                forall|j: int| i <= j < self.fonts@.len() ==> self.fonts@[j].name@ != name@,
                -1 <= font_index(self.fonts@, name@) < self.fonts@.len(),
                font_index(self.fonts@, name@) >= 0 ==> self.fonts@[font_index(self.fonts@, name@)].name@ == name@,
                forall|j: int| font_index(self.fonts@, name@) < j < self.fonts@.len() ==> self.fonts@[j].name@ != name@,
            decreases i,
        {
            i -= 1;
            if str_eq(self.fonts[i].name.as_str(), name) {
                return Some(i);
            }
        }
        None
    }

    /// The names found available by the last detection.
    pub fn available_fonts(&self) -> (r: &[String])
        ensures
            r@.map_values(|s: String| s@) == self.available_view(),
    {
        self.available_fonts.as_slice()
    }

    /// The font named `name`.
    pub fn get_font(&self, name: &str) -> (r: Option<&NerdFont>)
        ensures
            r is Some <==> font_index(self.fonts_view(), name@) >= 0,
            r matches Some(f) ==> *f == self.fonts_view()[font_index(self.fonts_view(), name@)],
    {
        match self.find_font(name) {
            Some(k) => Some(&self.fonts[k]),
            None => None,
        }
    }

    /// Whether a font is named `name`.
    pub fn has_font(&self, name: &str) -> (b: bool)
        ensures
            b == (font_index(self.fonts_view(), name@) >= 0),
    {
        self.find_font(name).is_some()
    }

    pub fn font_count(&self) -> (n: usize)
        ensures
            n == self.fonts_view().len(),
    {
        self.fonts.len()
    }
}

impl Default for NerdFontDetector {
    fn default() -> (d: NerdFontDetector)
        ensures
            d.wf(),
            d.fonts_view().len() == 0,
    {
        NerdFontDetector::new()
    }
}

/// Whether a local font's name holds `name`: the bundled font's, or an
/// installed one's.
pub open spec fn local_has(d: LocalFontDetector, name: Seq<char>) -> bool {
    crate::text::has_substring(bundled_name(), name) || exists|q: int|
        0 <= q < d.system_view().len() && crate::text::has_substring(#[trigger] d.system_view()[q].name@, name)
}

/// The candidates among the first `k` that the system has or a local font
/// holds the name of, in order.
pub open spec fn available_names(d: LocalFontDetector, names: Seq<Seq<char>>, installed: Seq<bool>, k: nat) -> Seq<
    Seq<char>,
>
    decreases k,
{
    if k == 0 {
        Seq::empty()
    } else {
        let prev = available_names(d, names, installed, (k - 1) as nat);
        if installed[k - 1] || local_has(d, names[k - 1]) {
            prev.push(names[k - 1])
        } else {
            prev
        }
    }
}

} // verus!
