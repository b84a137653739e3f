//! Frame buffer: a double-buffered 2D grid of terminal cells with diff
//! computation between the front and back buffers.
//!
//! The buffer is row-major: cell `(x, y)` is stored at index `y * width + x`.

use vstd::prelude::*;
use crate::tree::Color;
use crate::text;

verus! {

// ---------------------------------------------------------------------------
// CellAttributes
// ---------------------------------------------------------------------------

/// Text attributes of a cell, as a set of bit flags.
#[derive(Debug, Clone, Copy, PartialEq, Eq, Hash, Structural)]
pub struct CellAttributes {
    pub bits: u8,
}

impl CellAttributes {
    /// The attribute set with no flag.
    pub fn empty() -> (a: CellAttributes)
        ensures
            a.bits == 0,
    {
        CellAttributes { bits: 0 }
    }

    /// The attribute set holding every defined flag.
    pub fn all() -> (a: CellAttributes)
        ensures
            a.bits == 0x7f,
    {
        CellAttributes { bits: 0x7f }
    }

    /// Bold text.
    #[allow(non_snake_case)]
    pub fn BOLD() -> (a: CellAttributes)
        ensures
            a.bits == 0x01,
    {
        CellAttributes { bits: 0x01 }
    }

    /// Italic text.
    #[allow(non_snake_case)]
    pub fn ITALIC() -> (a: CellAttributes)
        ensures
            a.bits == 0x02,
    {
        CellAttributes { bits: 0x02 }
    }

    /// Underlined text.
    #[allow(non_snake_case)]
    pub fn UNDERLINE() -> (a: CellAttributes)
        ensures
            a.bits == 0x04,
    {
        CellAttributes { bits: 0x04 }
    }

    /// Dim text.
    #[allow(non_snake_case)]
    pub fn DIM() -> (a: CellAttributes)
        ensures
            a.bits == 0x08,
    {
        CellAttributes { bits: 0x08 }
    }

    /// Struck-through text.
    #[allow(non_snake_case)]
    pub fn STRIKETHROUGH() -> (a: CellAttributes)
        ensures
            a.bits == 0x10,
    {
        CellAttributes { bits: 0x10 }
    }

    /// Inverse video.
    #[allow(non_snake_case)]
    pub fn INVERSE() -> (a: CellAttributes)
        ensures
            a.bits == 0x20,
    {
        CellAttributes { bits: 0x20 }
    }

    /// Hidden text.
    #[allow(non_snake_case)]
    pub fn HIDDEN() -> (a: CellAttributes)
        ensures
            a.bits == 0x40,
    {
        CellAttributes { bits: 0x40 }
    }

    /// The raw flag bits.
    pub fn bits(&self) -> (b: u8)
        ensures
            b == self.bits,
    {
        self.bits
    }

    /// `true` when no flag is set.
    pub fn is_empty(&self) -> (b: bool)
        ensures
            b == (self.bits == 0),
    {
        self.bits == 0
    }

    /// `true` when every flag of `other` is set in `self`.
    pub fn contains(&self, other: CellAttributes) -> (b: bool)
        ensures
            b == (self.bits & other.bits == other.bits),
    {
        self.bits & other.bits == other.bits
    }

    /// The union of two flag sets.
    pub fn union(self, other: CellAttributes) -> (a: CellAttributes)
        ensures
            a.bits == self.bits | other.bits,
    {
        CellAttributes { bits: self.bits | other.bits }
    }

    /// Sets every flag of `other`.
    pub fn insert(&mut self, other: CellAttributes)
        ensures
            final(self).bits == old(self).bits | other.bits,
    {
        self.bits = self.bits | other.bits;
    }

    /// Clears every flag of `other`.
    pub fn remove(&mut self, other: CellAttributes)
        ensures
            final(self).bits == old(self).bits & !other.bits,
    {
        self.bits = self.bits & !other.bits;
    }
}

impl core::ops::BitOr for CellAttributes {
    type Output = CellAttributes;

    fn bitor(self, rhs: CellAttributes) -> (r: CellAttributes) {
        CellAttributes { bits: self.bits | rhs.bits }
    }
}

impl vstd::std_specs::ops::BitOrSpecImpl for CellAttributes {
    open spec fn obeys_bitor_spec() -> bool {
        true
    }

    open spec fn bitor_req(self, rhs: CellAttributes) -> bool {
        true
    }

    open spec fn bitor_spec(self, rhs: CellAttributes) -> CellAttributes {
        CellAttributes { bits: self.bits | rhs.bits }
    }
}

impl Default for CellAttributes {
    fn default() -> (a: CellAttributes)
        ensures
            a.bits == 0,
    {
        CellAttributes { bits: 0 }
    }
}

// ---------------------------------------------------------------------------
// Cell
// ---------------------------------------------------------------------------

/// A single terminal cell: a character, colors and attributes.
#[derive(Debug, Clone, Copy, PartialEq, Eq, Structural)]
pub struct Cell {
    pub ch: char,
    pub fg: Color,
    pub bg: Color,
    pub underline_color: Color,
    pub attributes: CellAttributes,
}

/// The cell holding `ch` with default colors and no attribute.
pub open spec fn plain_cell(ch: char) -> Cell {
    Cell {
        ch,
        fg: Color::Default,
        bg: Color::Default,
        underline_color: Color::Default,
        attributes: CellAttributes { bits: 0 },
    }
}

/// The default (blank) cell.
pub open spec fn blank_cell() -> Cell {
    plain_cell(' ')
}

/// The cell holding `ch` with the given foreground and background.
pub open spec fn styled_cell(ch: char, fg: Color, bg: Color) -> Cell {
    Cell { fg, bg, ..plain_cell(ch) }
}

impl Cell {
    /// A cell holding `ch` with default colors and no attribute.
    pub fn new(ch: char) -> (c: Cell)
        ensures
            c == plain_cell(ch),
    {
        Cell {
            ch,
            fg: Color::Default,
            bg: Color::Default,
            underline_color: Color::Default,
            attributes: CellAttributes::empty(),
        }
    }

    /// This cell with foreground `fg`.
    pub fn with_fg(self, fg: Color) -> (c: Cell)
        ensures
            c == (Cell { fg, ..self }),
    {
        let mut c = self;
        c.fg = fg;
        c
    }

    /// This cell with background `bg`.
    pub fn with_bg(self, bg: Color) -> (c: Cell)
        ensures
            c == (Cell { bg, ..self }),
    {
        let mut c = self;
        c.bg = bg;
        c
    }

    /// This cell with attributes `attrs`.
    pub fn with_attrs(self, attrs: CellAttributes) -> (c: Cell)
        ensures
            c == (Cell { attributes: attrs, ..self }),
    {
        let mut c = self;
        c.attributes = attrs;
        c
    }

    /// `true` when the cell is in its default state: a space with default
    /// colors (the underline color too) and no attribute.
    pub fn is_empty(&self) -> (b: bool)
        ensures
            b == (*self == blank_cell()),
    {
        self.ch == ' ' && self.fg == Color::Default && self.bg == Color::Default
            && self.underline_color == Color::Default && self.attributes.is_empty()
    }

    /// Resets the cell to the blank cell.
    pub fn clear(&mut self)
        ensures
            *final(self) == blank_cell(),
    {
        self.ch = ' ';
        self.fg = Color::Default;
        self.bg = Color::Default;
        self.underline_color = Color::Default;
        self.attributes = CellAttributes::empty();
    }
}

impl Default for Cell {
    fn default() -> (c: Cell)
        ensures
            c == blank_cell(),
    {
        Cell::new(' ')
    }
}

impl From<char> for Cell {
    fn from(ch: char) -> (c: Cell) {
        Cell::new(ch)
    }
}

impl vstd::std_specs::convert::FromSpecImpl<char> for Cell {
    open spec fn obeys_from_spec() -> bool {
        true
    }

    open spec fn from_spec(ch: char) -> Cell {
        plain_cell(ch)
    }
}

// ---------------------------------------------------------------------------
// FrameBuffer
// ---------------------------------------------------------------------------

/// The abstract state of a frame buffer: its dimensions and the front and
/// back cell grids in row-major order.
pub struct FrameView {
    pub width: u16,
    pub height: u16,
    pub front: Seq<Cell>,
    pub back: Seq<Cell>,
}

impl FrameView {
    /// `true` when `(x, y)` lies inside the grid.
    pub open spec fn in_bounds(self, x: int, y: int) -> bool {
        0 <= x < self.width && 0 <= y < self.height
    }

    /// Row-major index of `(x, y)`.
    pub open spec fn index(self, x: int, y: int) -> int {
        y * self.width + x
    }

    /// The front cell at `(x, y)`.
    pub open spec fn at(self, x: int, y: int) -> Cell {
        self.front[self.index(x, y)]
    }

    /// The back cell at `(x, y)`.
    pub open spec fn back_at(self, x: int, y: int) -> Cell {
        self.back[self.index(x, y)]
    }

    /// What `get` returns at `(x, y)`: the front cell, or blank outside the grid.
    pub open spec fn get(self, x: int, y: int) -> Cell {
        if self.in_bounds(x, y) {
            self.at(x, y)
        } else {
            blank_cell()
        }
    }

    /// Both grids hold exactly `width * height` cells.
    pub open spec fn wf(self) -> bool {
        &&& self.front.len() == self.width * self.height
        &&& self.back.len() == self.width * self.height
    }

    /// `true` when `(x, y)` differs between the front and back grids.
    pub open spec fn differs(self, x: int, y: int) -> bool {
        self.at(x, y) != self.back_at(x, y)
    }

    /// The same grids with front and back exchanged.
    pub open spec fn swapped(self) -> FrameView {
        FrameView { width: self.width, height: self.height, front: self.back, back: self.front }
    }
}

/// `d` lists every cell of `v` whose front and back values differ, and no
/// other, in row-major order (so each once).
pub open spec fn is_diff_of(d: Seq<(u16, u16)>, v: FrameView) -> bool {
    &&& forall|k: int|
        0 <= k < d.len() ==> v.in_bounds(d[k].0 as int, d[k].1 as int) && v.differs(
            d[k].0 as int,
            d[k].1 as int,
        )
    &&& forall|px: int, py: int|
        v.in_bounds(px, py) && v.differs(px, py) ==> exists|k: int|
            0 <= k < d.len() && d[k] == (px as u16, py as u16)
    &&& forall|k1: int, k2: int|
        0 <= k1 < k2 < d.len() ==> v.index(d[k1].0 as int, d[k1].1 as int) < v.index(
            d[k2].0 as int,
            d[k2].1 as int,
        )
}

/// Swapping twice gives back the grids one started from, and a swap keeps
/// the size.
pub proof fn lemma_swap_twice(v: FrameView)
    ensures
        v.swapped().swapped() == v,
        v.swapped().width == v.width,
        v.swapped().height == v.height,
        v.swapped().wf() == v.wf(),
{
}

/// A swap changes no cell's status: a cell differs between the grids after
/// the swap exactly when it did before.
pub proof fn lemma_swap_keeps_differs(v: FrameView, x: int, y: int)
    ensures
        v.swapped().differs(x, y) == v.differs(x, y),
{
}

/// Two cells inside the grid with the same row-major index are the same cell.
proof fn lemma_index_injective(v: FrameView, a: (u16, u16), b: (u16, u16))
    requires
        v.in_bounds(a.0 as int, a.1 as int),
        v.in_bounds(b.0 as int, b.1 as int),
        v.index(a.0 as int, a.1 as int) == v.index(b.0 as int, b.1 as int),
    ensures
        a == b,
{
    let w = v.width as int;
    let (ax, ay) = (a.0 as int, a.1 as int);
    let (bx, by) = (b.0 as int, b.1 as int);
    if ay < by {
        assert(ay * w + ax < by * w + bx) by (nonlinear_arith)
            requires
                0 <= ax < w,
                0 <= bx,
                ay < by,
        ;
    } else if by < ay {
        assert(by * w + bx < ay * w + ax) by (nonlinear_arith)
            requires
                0 <= bx < w,
                0 <= ax,
                by < ay,
        ;
    }
}

/// The cells of `d` from position `i` on: inside the grid, differing,
/// strictly increasing in row-major index, and every differing cell whose
/// index is at least `lo` among them.
spec fn diff_tail(d: Seq<(u16, u16)>, v: FrameView, i: int, lo: int) -> bool {
    &&& 0 <= i <= d.len()
    &&& forall|k: int|
        i <= k < d.len() ==> v.in_bounds(d[k].0 as int, d[k].1 as int) && v.differs(
            d[k].0 as int,
            d[k].1 as int,
        ) && v.index(d[k].0 as int, d[k].1 as int) >= lo
    &&& forall|px: int, py: int|
        v.in_bounds(px, py) && v.differs(px, py) && v.index(px, py) >= lo ==> exists|k: int|
            i <= k < d.len() && d[k] == (px as u16, py as u16)
    &&& forall|k1: int, k2: int|
        i <= k1 < k2 < d.len() ==> v.index(d[k1].0 as int, d[k1].1 as int) < v.index(
            d[k2].0 as int,
            d[k2].1 as int,
        )
}

proof fn lemma_diff_tail_unique(d1: Seq<(u16, u16)>, d2: Seq<(u16, u16)>, v: FrameView, i: int, j: int, lo: int)
    requires
        diff_tail(d1, v, i, lo),
        diff_tail(d2, v, j, lo),
    ensures
        d1.len() - i == d2.len() - j,
        forall|k: int| i <= k < d1.len() ==> #[trigger] d1[k] == d2[k - i + j],
    decreases d1.len() - i + d2.len() - j,
{
    if i < d1.len() {
        let a = d1[i];
        let (ax, ay) = (a.0 as int, a.1 as int);
        assert(v.in_bounds(ax, ay) && v.differs(ax, ay) && v.index(ax, ay) >= lo);
        let ka = choose|k: int| j <= k < d2.len() && d2[k] == (ax as u16, ay as u16);
        assert(j < d2.len());
        let b = d2[j];
        let (bx, by) = (b.0 as int, b.1 as int);
        assert(v.in_bounds(bx, by) && v.differs(bx, by) && v.index(bx, by) >= lo);
        let kb = choose|k: int| i <= k < d1.len() && d1[k] == (bx as u16, by as u16);
        assert(d2[ka] == a);
        assert(d1[kb] == b);
        assert(v.index(bx, by) <= v.index(ax, ay)) by {
            if ka > j {
                assert(v.index(d2[j].0 as int, d2[j].1 as int) < v.index(d2[ka].0 as int, d2[ka].1 as int));
            }
        }
        assert(v.index(ax, ay) <= v.index(bx, by)) by {
            if kb > i {
                assert(v.index(d1[i].0 as int, d1[i].1 as int) < v.index(d1[kb].0 as int, d1[kb].1 as int));
            }
        }
        lemma_index_injective(v, a, b);
        let nlo = v.index(ax, ay) + 1;
        assert(diff_tail(d1, v, i + 1, nlo)) by {
            assert forall|px: int, py: int|
                v.in_bounds(px, py) && v.differs(px, py) && v.index(px, py) >= nlo implies exists|k: int|
                i + 1 <= k < d1.len() && d1[k] == (px as u16, py as u16) by {
                let k = choose|k: int| i <= k < d1.len() && d1[k] == (px as u16, py as u16);
                if k == i {
                    assert(px as u16 == a.0 && py as u16 == a.1);
                    assert(px == ax && py == ay);
                }
            }
        }
        assert(diff_tail(d2, v, j + 1, nlo)) by {
            assert forall|px: int, py: int|
                v.in_bounds(px, py) && v.differs(px, py) && v.index(px, py) >= nlo implies exists|k: int|
                j + 1 <= k < d2.len() && d2[k] == (px as u16, py as u16) by {
                let k = choose|k: int| j <= k < d2.len() && d2[k] == (px as u16, py as u16);
                if k == j {
                    assert(px as u16 == b.0 && py as u16 == b.1);
                    assert(px == bx && py == by);
                }
            }
        }
        lemma_diff_tail_unique(d1, d2, v, i + 1, j + 1, nlo);
        assert forall|k: int| i <= k < d1.len() implies #[trigger] d1[k] == d2[k - i + j] by {
            if k > i {
                assert(d1[k] == d2[k - (i + 1) + (j + 1)]);
            }
        }
    } else if j < d2.len() {
        let b = d2[j];
        let (bx, by) = (b.0 as int, b.1 as int);
        assert(v.in_bounds(bx, by) && v.differs(bx, by) && v.index(bx, by) >= lo);
        let kb = choose|k: int| i <= k < d1.len() && d1[k] == (bx as u16, by as u16);
    }
}

/// At most one list meets `is_diff_of`: two lists that both give the
/// differing cells of `v` in row-major order are equal.
pub proof fn lemma_diff_unique(v: FrameView, d1: Seq<(u16, u16)>, d2: Seq<(u16, u16)>)
    requires
        is_diff_of(d1, v),
        is_diff_of(d2, v),
    ensures
        d1 == d2,
{
    assert(v.width * 0 + 0 >= 0);
    assert(diff_tail(d1, v, 0, 0)) by {
        assert forall|k: int| 0 <= k < d1.len() implies v.index(d1[k].0 as int, d1[k].1 as int) >= 0 by {
            lemma_index_nonneg(v, d1[k].0 as int, d1[k].1 as int);
        }
    }
    assert(diff_tail(d2, v, 0, 0)) by {
        assert forall|k: int| 0 <= k < d2.len() implies v.index(d2[k].0 as int, d2[k].1 as int) >= 0 by {
            lemma_index_nonneg(v, d2[k].0 as int, d2[k].1 as int);
        }
        assert forall|px: int, py: int|
            v.in_bounds(px, py) && v.differs(px, py) && v.index(px, py) >= 0 implies exists|k: int|
            0 <= k < d2.len() && d2[k] == (px as u16, py as u16) by {
        }
    }
    lemma_diff_tail_unique(d1, d2, v, 0, 0, 0);
    assert(d1 =~= d2) by {
        assert forall|k: int| 0 <= k < d1.len() implies d1[k] == d2[k] by {
            assert(d1[k] == d2[k - 0 + 0]);
        }
    }
}

proof fn lemma_index_nonneg(v: FrameView, x: int, y: int)
    requires
        v.in_bounds(x, y),
    ensures
        v.index(x, y) >= 0,
{
    assert(y * (v.width as int) >= 0) by (nonlinear_arith)
        requires
            y >= 0,
            v.width >= 0,
    ;
}

/// After a swap, `diff` gives the very list it gave before: the cells whose
/// front and back values differ are the same ones, in the same order.
pub proof fn lemma_swap_keeps_diff(v: FrameView, before: Seq<(u16, u16)>, after: Seq<(u16, u16)>)
    requires
        is_diff_of(before, v),
        is_diff_of(after, v.swapped()),
    ensures
        after == before,
{
    assert(is_diff_of(before, v.swapped())) by {
        assert forall|px: int, py: int|
            v.swapped().in_bounds(px, py) && v.swapped().differs(px, py) implies exists|k: int|
            0 <= k < before.len() && before[k] == (px as u16, py as u16) by {
            assert(v.in_bounds(px, py) && v.differs(px, py));
        }
    }
    lemma_diff_unique(v.swapped(), before, after);
}

/// Every cell inside the grid satisfies: inside the rectangle `[x, x+w) x [y, y+h)`
/// it equals `inside`, elsewhere it is unchanged from `before`.
pub open spec fn rect_written(
    before: FrameView,
    after: FrameView,
    x: int,
    y: int,
    w: int,
    h: int,
    inside: Cell,
) -> bool {
    &&& after.width == before.width
    &&& after.height == before.height
    &&& after.back == before.back
    &&& after.wf()
    &&& forall|px: int, py: int|
        #![trigger after.at(px, py)]
        before.in_bounds(px, py) ==> after.at(px, py) == (if x <= px < x + w && y <= py < y + h {
            inside
        } else {
            before.at(px, py)
        })
}

/// The view after writing `cell` at `(x, y)`; unchanged outside the grid.
pub open spec fn put_cell(v: FrameView, x: int, y: int, cell: Cell) -> FrameView {
    if v.in_bounds(x, y) {
        FrameView { front: v.front.update(v.index(x, y), cell), ..v }
    } else {
        v
    }
}

/// The effect of writing a run of graphemes, each given as its first character
/// and its display width, starting at column `col` of row `y`: writing stops
/// once the column reaches the right edge; a grapheme of width 2 also blanks
/// the following cell when it is inside the grid.
pub open spec fn write_effect(
    v: FrameView,
    col: int,
    y: int,
    gs: Seq<(Option<char>, usize)>,
    fg: Color,
    bg: Color,
) -> FrameView
    decreases gs.len(),
{
    if gs.len() == 0 || col >= v.width {
        v
    } else {
        let w = (gs[0].1 as u16) as int;
        let v1 = match gs[0].0 {
            Some(ch) => {
                let a = put_cell(v, col, y, styled_cell(ch, fg, bg));
                if w == 2 && col + 1 < v.width {
                    put_cell(a, col + 1, y, styled_cell(' ', fg, bg))
                } else {
                    a
                }
            },
            None => v,
        };
        write_effect(v1, col + w, y, gs.drop_first(), fg, bg)
    }
}

/// The column at which item `i` of `gs` goes when writing starts at column
/// `x`: `x` plus the widths of the items before it.
pub open spec fn item_column(x: int, gs: Seq<(Option<char>, usize)>, i: int) -> int
    decreases i,
{
    if i <= 0 || gs.len() == 0 {
        x
    } else {
        item_column(x + (gs[0].1 as u16) as int, gs.drop_first(), i - 1)
    }
}

proof fn lemma_put_cell_cell(v: FrameView, x: int, y: int, c: Cell, px: int, py: int)
    requires
        v.wf(),
        v.in_bounds(px, py),
    ensures
        put_cell(v, x, y, c).wf(),
        put_cell(v, x, y, c).width == v.width,
        put_cell(v, x, y, c).height == v.height,
        put_cell(v, x, y, c).at(px, py) == (if x == px && y == py {
            c
        } else {
            v.at(px, py)
        }),
{
    if v.in_bounds(x, y) {
        lemma_index_bounds(v.width as int, v.height as int, x, y);
        lemma_index_bounds(v.width as int, v.height as int, px, py);
        if v.index(px, py) == v.index(x, y) {
            lemma_index_unique(v.width as int, px, py, x, y);
        }
    }
}

proof fn lemma_put_cell_shape(v: FrameView, x: int, y: int, c: Cell)
    requires
        v.wf(),
    ensures
        put_cell(v, x, y, c).wf(),
        put_cell(v, x, y, c).width == v.width,
        put_cell(v, x, y, c).height == v.height,
{
    if v.in_bounds(x, y) {
        lemma_index_bounds(v.width as int, v.height as int, x, y);
    }
}

/// The first step of `write_effect`: the cells the first item writes.
spec fn write_step(v: FrameView, col: int, y: int, g: (Option<char>, usize), fg: Color, bg: Color) -> FrameView {
    let w = (g.1 as u16) as int;
    match g.0 {
        Some(ch) => {
            let a = put_cell(v, col, y, styled_cell(ch, fg, bg));
            if w == 2 && col + 1 < v.width {
                put_cell(a, col + 1, y, styled_cell(' ', fg, bg))
            } else {
                a
            }
        },
        None => v,
    }
}

proof fn lemma_write_step(v: FrameView, col: int, y: int, g: (Option<char>, usize), fg: Color, bg: Color, px: int, py: int)
    requires
        v.wf(),
        v.in_bounds(px, py),
    ensures
        write_step(v, col, y, g, fg, bg).wf(),
        write_step(v, col, y, g, fg, bg).width == v.width,
        write_step(v, col, y, g, fg, bg).height == v.height,
        px < col ==> write_step(v, col, y, g, fg, bg).at(px, py) == v.at(px, py),
        g.0 matches Some(ch) ==> (py == y && px == col ==> write_step(v, col, y, g, fg, bg).at(px, py)
            == styled_cell(ch, fg, bg)),
        g.0 is Some && (g.1 as u16) == 2 ==> (py == y && px == col + 1 ==> write_step(v, col, y, g, fg, bg).at(
            px,
            py,
        ) == styled_cell(' ', fg, bg)),
{
    match g.0 {
        Some(ch) => {
            let a = put_cell(v, col, y, styled_cell(ch, fg, bg));
            lemma_put_cell_cell(v, col, y, styled_cell(ch, fg, bg), px, py);
            if (g.1 as u16) as int == 2 && col + 1 < v.width {
                lemma_put_cell_cell(a, col + 1, y, styled_cell(' ', fg, bg), px, py);
            }
        },
        None => {},
    }
}

proof fn lemma_write_shape(v: FrameView, col: int, y: int, gs: Seq<(Option<char>, usize)>, fg: Color, bg: Color)
    requires
        v.wf(),
    ensures
        write_effect(v, col, y, gs, fg, bg).wf(),
        write_effect(v, col, y, gs, fg, bg).width == v.width,
        write_effect(v, col, y, gs, fg, bg).height == v.height,
    decreases gs.len(),
{
    if !(gs.len() == 0 || col >= v.width) {
        let v1 = write_step(v, col, y, gs[0], fg, bg);
        match gs[0].0 {
            Some(ch) => {
                let a = put_cell(v, col, y, styled_cell(ch, fg, bg));
                lemma_put_cell_shape(v, col, y, styled_cell(ch, fg, bg));
                lemma_put_cell_shape(a, col + 1, y, styled_cell(' ', fg, bg));
            },
            None => {},
        }
        assert(write_effect(v, col, y, gs, fg, bg) == write_effect(
            v1,
            col + (gs[0].1 as u16) as int,
            y,
            gs.drop_first(),
            fg,
            bg,
        ));
        lemma_write_shape(v1, col + (gs[0].1 as u16) as int, y, gs.drop_first(), fg, bg);
    }
}

/// Writing from column `col` leaves every cell left of `col` alone.
proof fn lemma_write_frame(
    v: FrameView,
    col: int,
    y: int,
    gs: Seq<(Option<char>, usize)>,
    fg: Color,
    bg: Color,
    px: int,
    py: int,
)
    requires
        v.wf(),
        v.in_bounds(px, py),
        px < col,
    ensures
        write_effect(v, col, y, gs, fg, bg).at(px, py) == v.at(px, py),
    decreases gs.len(),
{
    if !(gs.len() == 0 || col >= v.width) {
        let v1 = write_step(v, col, y, gs[0], fg, bg);
        lemma_write_step(v, col, y, gs[0], fg, bg, px, py);
        assert(write_effect(v, col, y, gs, fg, bg) == write_effect(
            v1,
            col + (gs[0].1 as u16) as int,
            y,
            gs.drop_first(),
            fg,
            bg,
        ));
        lemma_write_frame(v1, col + (gs[0].1 as u16) as int, y, gs.drop_first(), fg, bg, px, py);
    }
}

/// What writing a run of graphemes leaves in the row, cell by cell: a
/// grapheme with a first character and a width of at least one, whose
/// column (the start column plus the widths before it) lies inside the
/// grid, shows that character in the given colors; when its width is two
/// and the next cell is inside the grid, that cell is a blank in the given
/// colors, so no stale character stays under a wide one.
pub proof fn lemma_write_cells(
    v: FrameView,
    x: int,
    y: int,
    gs: Seq<(Option<char>, usize)>,
    fg: Color,
    bg: Color,
    i: int,
)
    requires
        v.wf(),
        0 <= x,
        0 <= y < v.height,
        0 <= i < gs.len(),
        gs[i].0 is Some,
        (gs[i].1 as u16) >= 1,
        item_column(x, gs, i) < v.width,
    ensures
        write_effect(v, x, y, gs, fg, bg).at(item_column(x, gs, i), y) == styled_cell(gs[i].0->0, fg, bg),
        (gs[i].1 as u16) == 2 && item_column(x, gs, i) + 1 < v.width ==> write_effect(v, x, y, gs, fg, bg).at(
            item_column(x, gs, i) + 1,
            y,
        ) == styled_cell(' ', fg, bg),
    decreases i,
{
    let c = item_column(x, gs, i);
    lemma_item_column_ge(x, gs, i);
    let w0 = (gs[0].1 as u16) as int;
    let v1 = write_step(v, x, y, gs[0], fg, bg);
    assert(x < v.width);
    assert(write_effect(v, x, y, gs, fg, bg) == write_effect(v1, x + w0, y, gs.drop_first(), fg, bg));
    if i == 0 {
        assert(c == x);
        lemma_write_step(v, x, y, gs[0], fg, bg, c, y);
        lemma_write_frame(v1, x + w0, y, gs.drop_first(), fg, bg, c, y);
        if w0 == 2 && c + 1 < v.width {
            lemma_write_step(v, x, y, gs[0], fg, bg, c + 1, y);
            lemma_write_frame(v1, x + w0, y, gs.drop_first(), fg, bg, c + 1, y);
        }
    } else {
        lemma_write_step(v, x, y, gs[0], fg, bg, 0, y);
        assert(gs.drop_first()[i - 1] == gs[i]);
        assert(item_column(x + w0, gs.drop_first(), i - 1) == c);
        lemma_write_cells(v1, x + w0, y, gs.drop_first(), fg, bg, i - 1);
    }
}

proof fn lemma_item_column_ge(x: int, gs: Seq<(Option<char>, usize)>, i: int)
    ensures
        item_column(x, gs, i) >= x,
    decreases i,
{
    if !(i <= 0 || gs.len() == 0) {
        lemma_item_column_ge(x + (gs[0].1 as u16) as int, gs.drop_first(), i - 1);
    }
}

/// Each grapheme as its first character (if any) and its display width.
pub open spec fn grapheme_items(gs: Seq<Seq<char>>) -> Seq<(Option<char>, usize)> {
    gs.map_values(
        |g: Seq<char>|
            (if g.len() > 0 {
                Some(g[0])
            } else {
                None
            }, text::display_width(g) as usize),
    )
}

/// A double-buffered 2D grid of cells.
#[derive(Debug, Clone)]
pub struct FrameBuffer {
    width: u16,
    height: u16,
    cells: Vec<Cell>,
    back: Vec<Cell>,
}

pub(crate) proof fn lemma_index_bounds(w: int, h: int, x: int, y: int)
    requires
        0 <= x < w,
        0 <= y < h,
    ensures
        0 <= y * w + x < w * h,
{
    assert(0 <= y * w) by (nonlinear_arith)
        requires
            0 <= y,
            0 <= w,
    ;
    assert(y * w + x < w * h) by (nonlinear_arith)
        requires
            0 <= x < w,
            0 <= y < h,
    ;
}

pub(crate) proof fn lemma_index_unique(w: int, x1: int, y1: int, x2: int, y2: int)
    requires
        0 <= x1 < w,
        0 <= x2 < w,
        0 <= y1,
        0 <= y2,
        y1 * w + x1 == y2 * w + x2,
    ensures
        x1 == x2,
        y1 == y2,
{
    if y1 < y2 {
        assert(y1 * w + x1 < y2 * w + x2) by (nonlinear_arith)
            requires
                0 <= x1 < w,
                0 <= x2,
                y1 < y2,
        ;
    } else if y2 < y1 {
        assert(y2 * w + x2 < y1 * w + x1) by (nonlinear_arith)
            requires
                0 <= x2 < w,
                0 <= x1,
                y2 < y1,
        ;
    }
}

proof fn lemma_index_fits(w: u16, h: u16, x: u16, y: u16)
    ensures
        (y as int) * (w as int) + (x as int) <= 0xffff * 0xffff + 0xffff,
        (w as int) * (h as int) <= 0xffff * 0xffff,
{
    assert((y as int) * (w as int) <= 0xffff * 0xffff) by (nonlinear_arith)
        requires
            0 <= y <= 0xffff,
            0 <= w <= 0xffff,
    ;
    assert((w as int) * (h as int) <= 0xffff * 0xffff) by (nonlinear_arith)
        requires
            0 <= h <= 0xffff,
            0 <= w <= 0xffff,
    ;
}

/// A vector of `n` blank cells.
fn blank_cells(n: usize) -> (v: Vec<Cell>)
    ensures
        v@.len() == n,
        forall|i: int| 0 <= i < n ==> v@[i] == blank_cell(),
{
    let mut v: Vec<Cell> = Vec::new();
    let mut i: usize = 0;
    while i < n
        invariant
            i <= n,
            v@.len() == i,
            forall|j: int| 0 <= j < i ==> v@[j] == blank_cell(),
        decreases n - i,
    {
        v.push(Cell::new(' '));
        i += 1;
    }
    v
}

/// Resizes `v` to `n` cells as `Vec::resize` does: truncates, or pads with blank cells.
fn resize_cells(v: &mut Vec<Cell>, n: usize)
    ensures
        final(v)@.len() == n,
        forall|i: int|
            0 <= i < n ==> final(v)@[i] == (if i < old(v)@.len() {
                old(v)@[i]
            } else {
                blank_cell()
            }),
{
    if n <= v.len() {
        v.truncate(n);
    } else {
        while v.len() < n
            invariant
                v@.len() <= n,
                old(v)@.len() <= v@.len(),
                forall|i: int|
                    0 <= i < v@.len() ==> v@[i] == (if i < old(v)@.len() {
                        old(v)@[i]
                    } else {
                        blank_cell()
                    }),
            decreases n - v@.len(),
        {
            v.push(Cell::new(' '));
        }
    }
}

impl View for FrameBuffer {
    type V = FrameView;

    closed spec fn view(&self) -> FrameView {
        FrameView { width: self.width, height: self.height, front: self.cells@, back: self.back@ }
    }
}

impl Default for FrameBuffer {
    fn default() -> (fb: FrameBuffer)
        ensures
            fb@.wf(),
            fb@.width == 0,
            fb@.height == 0,
    {
        FrameBuffer::new(0, 0)
    }
}

impl FrameBuffer {
    /// A `width x height` buffer whose front and back cells are all blank.
    pub fn new(width: u16, height: u16) -> (fb: FrameBuffer)
        ensures
            fb@.wf(),
            fb@.width == width,
            fb@.height == height,
            forall|i: int| 0 <= i < width * height ==> fb@.front[i] == blank_cell(),
            forall|i: int| 0 <= i < width * height ==> fb@.back[i] == blank_cell(),
    {
        proof {
            lemma_index_fits(width, height, 0, 0);
        }
        let size = (width as usize) * (height as usize);
        FrameBuffer { width, height, cells: blank_cells(size), back: blank_cells(size) }
    }

    /// The width in cells.
    pub fn width(&self) -> (w: u16)
        ensures
            w == self@.width,
    {
        self.width
    }

    /// The height in cells.
    pub fn height(&self) -> (h: u16)
        ensures
            h == self@.height,
    {
        self.height
    }

    /// Resizes to `width x height`. Every front cell becomes blank; the back
    /// grid keeps its first cells (row-major) and is padded with blank cells.
    pub fn resize(&mut self, width: u16, height: u16)
        requires
            old(self)@.wf(),
        ensures
            final(self)@.wf(),
            final(self)@.width == width,
            final(self)@.height == height,
            forall|i: int| 0 <= i < width * height ==> final(self)@.front[i] == blank_cell(),
            forall|i: int|
                0 <= i < width * height ==> final(self)@.back[i] == (if i < old(self)@.back.len() {
                    old(self)@.back[i]
                } else {
                    blank_cell()
                }),
    {
        proof {
            lemma_index_fits(width, height, 0, 0);
        }
        let size = (width as usize) * (height as usize);
        self.width = width;
        self.height = height;
        resize_cells(&mut self.cells, size);
        resize_cells(&mut self.back, size);
        self.clear();
    }

    /// Resets every front cell to blank; the back grid is unchanged.
    pub fn clear(&mut self)
        requires
            old(self)@.front.len() == old(self)@.width * old(self)@.height,
        ensures
            final(self)@.width == old(self)@.width,
            final(self)@.height == old(self)@.height,
            final(self)@.back == old(self)@.back,
            final(self)@.front.len() == old(self)@.front.len(),
            forall|i: int| 0 <= i < final(self)@.front.len() ==> final(self)@.front[i] == blank_cell(),
    {
        let n = self.cells.len();
        let mut i: usize = 0;
        while i < n
            invariant
                n == self.cells@.len(),
                i <= n,
                self.width == old(self).width,
                self.height == old(self).height,
                self.back@ == old(self).back@,
                n == old(self).cells@.len(),
                forall|j: int| 0 <= j < i ==> self.cells@[j] == blank_cell(),
            decreases n - i,
        {
            self.cells.set(i, Cell::new(' '));
            i += 1;
        }
    }

    /// Row-major index of `(x, y)`; bounds are not checked.
    pub fn index(&self, x: u16, y: u16) -> (i: usize)
        ensures
            i as int == self@.index(x as int, y as int),
    {
        proof {
            lemma_index_fits(self.width, self.height, x, y);
        }
        (y as usize) * (self.width as usize) + (x as usize)
    }

    /// `true` when `(x, y)` lies inside the grid.
    pub fn in_bounds(&self, x: u16, y: u16) -> (b: bool)
        ensures
            b == self@.in_bounds(x as int, y as int),
    {
        x < self.width && y < self.height
    }

    /// The front cell at `(x, y)`, or a blank cell outside the grid.
    pub fn get(&self, x: u16, y: u16) -> (c: Cell)
        requires
            self@.wf(),
        ensures
            c == self@.get(x as int, y as int),
    {
        if self.in_bounds(x, y) {
            proof {
                lemma_index_bounds(self.width as int, self.height as int, x as int, y as int);
            }
            let idx = self.index(x, y);
            self.cells[idx]
        } else {
            Cell::new(' ')
        }
    }

    /// Writes the front cell at `(x, y)`; no effect outside the grid.
    pub fn set(&mut self, x: u16, y: u16, cell: Cell)
        requires
            old(self)@.wf(),
        ensures
            rect_written(old(self)@, final(self)@, x as int, y as int, 1, 1, cell),
            final(self)@ == put_cell(old(self)@, x as int, y as int, cell),
    {
        if self.in_bounds(x, y) {
            proof {
                lemma_index_bounds(self.width as int, self.height as int, x as int, y as int);
            }
            let idx = self.index(x, y);
            self.cells.set(idx, cell);
            proof {
                assert(self@.front =~= old(self)@.front.update(idx as int, cell));
                let v = self@;
                assert forall|px: int, py: int| #![trigger v.at(px, py)] old(self)@.in_bounds(px, py)
                    implies v.at(px, py) == (if x <= px < x + 1 && y <= py < y + 1 {
                    cell
                } else {
                    old(self)@.at(px, py)
                }) by {
                    lemma_index_bounds(self.width as int, self.height as int, px, py);
                    if v.index(px, py) == idx as int {
                        lemma_index_unique(self.width as int, px, py, x as int, y as int);
                    }
                }
            }
        }
    }

    /// Fills the part of the rectangle `[x, x+width) x [y, y+height)` that lies
    /// inside the grid with `cell`; every other cell is unchanged.
    pub fn fill_rect(&mut self, x: u16, y: u16, width: u16, height: u16, cell: Cell)
        requires
            old(self)@.wf(),
        ensures
            rect_written(old(self)@, final(self)@, x as int, y as int, width as int, height as int, cell),
    {
        self.write_rect(x, y, width, height, cell);
    }

    /// Resets the part of the rectangle that lies inside the grid to blank cells.
    pub fn clear_rect(&mut self, x: u16, y: u16, width: u16, height: u16)
        requires
            old(self)@.wf(),
        ensures
            rect_written(old(self)@, final(self)@, x as int, y as int, width as int, height as int, blank_cell()),
    {
        self.write_rect(x, y, width, height, Cell::new(' '));
    }

    fn write_rect(&mut self, x: u16, y: u16, w: u16, h: u16, cell: Cell)
        requires
            old(self)@.wf(),
        ensures
            rect_written(old(self)@, final(self)@, x as int, y as int, w as int, h as int, cell),
    {
        let ghost before = self@;
        let end_row: u32 = if (y as u32) + (h as u32) < (self.height as u32) {
            (y as u32) + (h as u32)
        } else {
            self.height as u32
        };
        let end_col: u32 = if (x as u32) + (w as u32) < (self.width as u32) {
            (x as u32) + (w as u32)
        } else {
            self.width as u32
        };
        let mut row: u32 = y as u32;
        while row < end_row
            invariant
                y <= row,
                end_row <= before.height,
                end_row <= y + h,
                end_col <= before.width,
                end_col <= x + w,
                end_row == before.height || end_row == y + h,
                end_col == before.width || end_col == x + w,
                row <= end_row || row == y,
                rect_written(before, self@, x as int, y as int, w as int, (row - y) as int, cell),
            decreases end_row - row,
        {
            let mut col: u32 = x as u32;
            while col < end_col
                invariant
                    y <= row < end_row,
                    x <= col,
                    col <= end_col || col == x,
                    end_row <= before.height,
                    end_row <= y + h,
                    end_col <= before.width,
                    end_col <= x + w,
                    end_col == before.width || end_col == x + w,
                    self@.width == before.width,
                    self@.height == before.height,
                    self@.back == before.back,
                    self@.wf(),
                    forall|px: int, py: int|
                        #![trigger self@.at(px, py)]
                        before.in_bounds(px, py) ==> self@.at(px, py) == (if (x <= px < x + w && y
                            <= py < row) || (x <= px < col && py == row) {
                            cell
                        } else {
                            before.at(px, py)
                        }),
                decreases end_col - col,
            {
                self.set(col as u16, row as u16, cell);
                col += 1;
            }
            proof {
                let v = self@;
                assert forall|px: int, py: int| #![trigger v.at(px, py)] before.in_bounds(px, py)
                    implies v.at(px, py) == (if x <= px < x + w && y <= py < row + 1 {
                    cell
                } else {
                    before.at(px, py)
                }) by {
                    if py == row && x <= px < x + w && px >= col {
                        assert(col == end_col || col == x);
                    }
                }
            }
            row += 1;
        }
        proof {
            let v = self@;
            assert forall|px: int, py: int| #![trigger v.at(px, py)] before.in_bounds(px, py)
                implies v.at(px, py) == (if x <= px < x + w && y <= py < y + h {
                cell
            } else {
                before.at(px, py)
            }) by {
                if y <= py < y + h && py >= row {
                    assert(row == end_row || row == y);
                }
            }
        }
    }

    /// Writes a run of graphemes, each given as its first character and its
    /// display width, at `(x, y)`, with the given colors.
    pub fn write_graphemes(
        &mut self,
        x: u16,
        y: u16,
        gs: &[(Option<char>, usize)],
        fg: Color,
        bg: Color,
    )
        requires
            old(self)@.wf(),
        ensures
            final(self)@ == write_effect(old(self)@, x as int, y as int, gs@, fg, bg),
            final(self)@.wf(),
    {
        let mut col: u32 = x as u32;
        let mut i: usize = 0;
        assert(gs@.skip(0) =~= gs@);
        while i < gs.len() && col < self.width as u32
            invariant
                i <= gs@.len(),
                self@.wf(),
                self@.width == old(self)@.width,
                self@.height == old(self)@.height,
                col <= 0x2ffff,
                write_effect(old(self)@, x as int, y as int, gs@, fg, bg) == write_effect(
                    self@,
                    col as int,
                    y as int,
                    gs@.skip(i as int),
                    fg,
                    bg,
                ),
            decreases gs@.len() - i,
        {
            let (c, w) = gs[i];
            let w16 = w as u16;
            match c {
                Some(ch) => {
                    self.set(col as u16, y, Cell::new(ch).with_fg(fg).with_bg(bg));
                    if w16 == 2 && col + 1 < self.width as u32 {
                        self.set((col + 1) as u16, y, Cell::new(' ').with_fg(fg).with_bg(bg));
                    }
                },
                None => {},
            }
            assert(gs@.skip(i as int).drop_first() =~= gs@.skip(i + 1));
            assert(gs@.skip(i as int)[0] == gs@[i as int]);
            col = col + w16 as u32;
            i += 1;
        }
        assert(gs@.skip(i as int).len() == 0 || col >= self@.width);
    }

    /// Writes `s` at `(x, y)` with the given colors, one grapheme cluster at a
    /// time: each cluster puts its first character in its column and advances
    /// by its display width; wide clusters blank the cell after them.
    pub fn write_str(&mut self, x: u16, y: u16, s: &str, fg: Color, bg: Color)
        requires
            old(self)@.wf(),
        ensures
            final(self)@ == write_effect(
                old(self)@,
                x as int,
                y as int,
                grapheme_items(text::grapheme_split(s@)),
                fg,
                bg,
            ),
            final(self)@.wf(),
            text::grapheme_split(s@).flatten() == s@,
            forall|i: int|
                0 <= i < text::grapheme_split(s@).len() ==> #[trigger] text::grapheme_split(s@)[i].len() > 0,
    {
        let gs = text::graphemes(s);
        let mut items: Vec<(Option<char>, usize)> = Vec::new();
        let mut i: usize = 0;
        while i < gs.len()
            invariant
                i <= gs@.len(),
                gs.deep_view() == text::grapheme_split(s@),
                items@ == grapheme_items(gs.deep_view()).subrange(0, i as int),
            decreases gs@.len() - i,
        {
            let g = gs[i].as_str();
            let first = if g.unicode_len() > 0 {
                Some(g.get_char(0))
            } else {
                None
            };
            let w = text::str_width(g);
            items.push((first, w));
            proof {
                assert(gs.deep_view()[i as int] == gs@[i as int]@);
                assert(items@ =~= grapheme_items(gs.deep_view()).subrange(0, i + 1));
            }
            i += 1;
        }
        assert(items@ =~= grapheme_items(gs.deep_view()));
        self.write_graphemes(x, y, items.as_slice(), fg, bg);
    }

    /// Replaces each cell of the rectangle `[x, x+w) x [y, y+h)` that lies
    /// inside the grid, row by row, by what `f` makes of its position and
    /// its current value; every other cell is unchanged.
    pub fn process_region<F: Fn(u16, u16, Cell) -> Cell>(&mut self, x: u16, y: u16, w: u16, h: u16, f: F)
        requires
            old(self)@.wf(),
            forall|px: u16, py: u16, c: Cell| f.requires((px, py, c)),
        ensures
            final(self)@.width == old(self)@.width,
            final(self)@.height == old(self)@.height,
            final(self)@.back == old(self)@.back,
            final(self)@.wf(),
            forall|px: int, py: int|
                #![trigger final(self)@.at(px, py)]
                old(self)@.in_bounds(px, py) ==> if x <= px < x + w && y <= py < y + h {
                    f.ensures((px as u16, py as u16, old(self)@.at(px, py)), final(self)@.at(px, py))
                } else {
                    final(self)@.at(px, py) == old(self)@.at(px, py)
                },
    {
        let ghost before = self@;
        let end_row: u32 = if (y as u32) + (h as u32) < (self.height as u32) {
            (y as u32) + (h as u32)
        } else {
            self.height as u32
        };
        let end_col: u32 = if (x as u32) + (w as u32) < (self.width as u32) {
            (x as u32) + (w as u32)
        } else {
            self.width as u32
        };
        let mut row: u32 = y as u32;
        while row < end_row
            invariant
                y <= row,
                end_row <= before.height,
                end_row <= y + h,
                end_col <= before.width,
                end_col <= x + w,
                end_row == before.height || end_row == y + h,
                end_col == before.width || end_col == x + w,
                row <= end_row || row == y,
                forall|px: u16, py: u16, c: Cell| f.requires((px, py, c)),
                self@.width == before.width,
                self@.height == before.height,
                self@.back == before.back,
                self@.wf(),
                forall|px: int, py: int|
                    #![trigger self@.at(px, py)]
                    before.in_bounds(px, py) ==> if x <= px < x + w && y <= py < row {
                        f.ensures((px as u16, py as u16, before.at(px, py)), self@.at(px, py))
                    } else {
                        self@.at(px, py) == before.at(px, py)
                    },
            decreases end_row - row,
        {
            let mut col: u32 = x as u32;
            while col < end_col
                invariant
                    y <= row < end_row,
                    x <= col,
                    col <= end_col || col == x,
                    end_row <= before.height,
                    end_row <= y + h,
                    end_col <= before.width,
                    end_col <= x + w,
                    end_col == before.width || end_col == x + w,
                    forall|px: u16, py: u16, c: Cell| f.requires((px, py, c)),
                    self@.width == before.width,
                    self@.height == before.height,
                    self@.back == before.back,
                    self@.wf(),
                    forall|px: int, py: int|
                        #![trigger self@.at(px, py)]
                        before.in_bounds(px, py) ==> if (x <= px < x + w && y <= py < row) || (x <= px < col && py
                            == row) {
                            f.ensures((px as u16, py as u16, before.at(px, py)), self@.at(px, py))
                        } else {
                            self@.at(px, py) == before.at(px, py)
                        },
                decreases end_col - col,
            {
                let c = self.get(col as u16, row as u16);
                assert(c == before.at(col as int, row as int));
                let c2 = f(col as u16, row as u16, c);
                self.set(col as u16, row as u16, c2);
                col += 1;
            }
            proof {
                let v = self@;
                assert forall|px: int, py: int| #![trigger v.at(px, py)] before.in_bounds(px, py) implies if x <= px
                    < x + w && y <= py < row + 1 {
                    f.ensures((px as u16, py as u16, before.at(px, py)), v.at(px, py))
                } else {
                    v.at(px, py) == before.at(px, py)
                } by {
                    if py == row && x <= px < x + w && px >= col {
                        assert(col == end_col || col == x);
                    }
                }
            }
            row += 1;
        }
        proof {
            let v = self@;
            assert forall|px: int, py: int| #![trigger v.at(px, py)] before.in_bounds(px, py) implies if x <= px < x
                + w && y <= py < y + h {
                f.ensures((px as u16, py as u16, before.at(px, py)), v.at(px, py))
            } else {
                v.at(px, py) == before.at(px, py)
            } by {
                if y <= py < y + h && py >= row {
                    assert(row == end_row || row == y);
                }
            }
        }
    }

    /// Replaces every cell, row by row, by what `f` makes of its position
    /// and its current value.
    pub fn process_cells<F: Fn(u16, u16, Cell) -> Cell>(&mut self, f: F)
        requires
            old(self)@.wf(),
            forall|px: u16, py: u16, c: Cell| f.requires((px, py, c)),
        ensures
            final(self)@.width == old(self)@.width,
            final(self)@.height == old(self)@.height,
            final(self)@.back == old(self)@.back,
            final(self)@.wf(),
            forall|px: int, py: int|
                #![trigger final(self)@.at(px, py)]
                old(self)@.in_bounds(px, py) ==> f.ensures(
                    (px as u16, py as u16, old(self)@.at(px, py)),
                    final(self)@.at(px, py),
                ),
    {
        let w = self.width;
        let h = self.height;
        self.process_region(0, 0, w, h, f);
    }

    /// Replaces every cell's foreground color by what `f` makes of the
    /// position and the color.
    pub fn process_fg_colors<F: Fn(u16, u16, Color) -> Color>(&mut self, f: F)
        requires
            old(self)@.wf(),
            forall|px: u16, py: u16, c: Color| f.requires((px, py, c)),
        ensures
            final(self)@.width == old(self)@.width,
            final(self)@.height == old(self)@.height,
            final(self)@.back == old(self)@.back,
            final(self)@.wf(),
            forall|px: int, py: int|
                #![trigger final(self)@.at(px, py)]
                old(self)@.in_bounds(px, py) ==> f.ensures(
                    (px as u16, py as u16, old(self)@.at(px, py).fg),
                    final(self)@.at(px, py).fg,
                ) && final(self)@.at(px, py) == (Cell { fg: final(self)@.at(px, py).fg, ..old(self)@.at(px, py) }),
    {
        let fr = &f;
        let g = |px: u16, py: u16, c: Cell| -> (r: Cell)
            requires
                fr.requires((px, py, c.fg)),
            ensures
                fr.ensures((px, py, c.fg), r.fg),
                r == (Cell { fg: r.fg, ..c }),
            { Cell { fg: fr(px, py, c.fg), ..c } };
        self.process_cells(g);
    }

    /// Replaces every cell's background color by what `f` makes of the
    /// position and the color.
    pub fn process_bg_colors<F: Fn(u16, u16, Color) -> Color>(&mut self, f: F)
        requires
            old(self)@.wf(),
            forall|px: u16, py: u16, c: Color| f.requires((px, py, c)),
        ensures
            final(self)@.width == old(self)@.width,
            final(self)@.height == old(self)@.height,
            final(self)@.back == old(self)@.back,
            final(self)@.wf(),
            forall|px: int, py: int|
                #![trigger final(self)@.at(px, py)]
                old(self)@.in_bounds(px, py) ==> f.ensures(
                    (px as u16, py as u16, old(self)@.at(px, py).bg),
                    final(self)@.at(px, py).bg,
                ) && final(self)@.at(px, py) == (Cell { bg: final(self)@.at(px, py).bg, ..old(self)@.at(px, py) }),
    {
        let fr = &f;
        let g = |px: u16, py: u16, c: Cell| -> (r: Cell)
            requires
                fr.requires((px, py, c.bg)),
            ensures
                fr.ensures((px, py, c.bg), r.bg),
                r == (Cell { bg: r.bg, ..c }),
            { Cell { bg: fr(px, py, c.bg), ..c } };
        self.process_cells(g);
    }

    /// Swaps the front and back grids.
    pub fn swap(&mut self)
        ensures
            final(self)@ == old(self)@.swapped(),
    {
        std::mem::swap(&mut self.cells, &mut self.back);
    }

    /// Copies the front cells of `other` that lie inside both grids, each to
    /// the same position; sizes may differ, and every other cell is kept.
    pub fn copy_from(&mut self, other: &FrameBuffer)
        requires
            old(self)@.wf(),
            other@.wf(),
        ensures
            final(self)@.width == old(self)@.width,
            final(self)@.height == old(self)@.height,
            final(self)@.back == old(self)@.back,
            final(self)@.wf(),
            forall|px: int, py: int|
                #![trigger final(self)@.at(px, py)]
                old(self)@.in_bounds(px, py) ==> final(self)@.at(px, py) == (if other@.in_bounds(px, py) {
                    other@.at(px, py)
                } else {
                    old(self)@.at(px, py)
                }),
    {
        let ghost before = self@;
        let end_row: u16 = if self.height < other.height {
            self.height
        } else {
            other.height
        };
        let end_col: u16 = if self.width < other.width {
            self.width
        } else {
            other.width
        };
        let mut row: u16 = 0;
        while row < end_row
            invariant
                end_row <= before.height,
                end_row <= other@.height,
                end_row == before.height || end_row == other@.height,
                end_col <= before.width,
                end_col <= other@.width,
                end_col == before.width || end_col == other@.width,
                row <= end_row,
                other@.wf(),
                self@.width == before.width,
                self@.height == before.height,
                self@.back == before.back,
                self@.wf(),
                forall|px: int, py: int|
                    #![trigger self@.at(px, py)]
                    before.in_bounds(px, py) ==> self@.at(px, py) == (if other@.in_bounds(px, py) && py < row {
                        other@.at(px, py)
                    } else {
                        before.at(px, py)
                    }),
            decreases end_row - row,
        {
            let mut col: u16 = 0;
            while col < end_col
                invariant
                    row < end_row,
                    end_row <= before.height,
                    end_row <= other@.height,
                    end_col <= before.width,
                    end_col <= other@.width,
                    end_col == before.width || end_col == other@.width,
                    col <= end_col,
                    other@.wf(),
                    self@.width == before.width,
                    self@.height == before.height,
                    self@.back == before.back,
                    self@.wf(),
                    forall|px: int, py: int|
                        #![trigger self@.at(px, py)]
                        before.in_bounds(px, py) ==> self@.at(px, py) == (if other@.in_bounds(px, py) && (py
                            < row || (py == row && px < col)) {
                            other@.at(px, py)
                        } else {
                            before.at(px, py)
                        }),
                decreases end_col - col,
            {
                let c = other.get(col, row);
                self.set(col, row, c);
                col += 1;
            }
            proof {
                let v = self@;
                assert forall|px: int, py: int| #![trigger v.at(px, py)] before.in_bounds(px, py)
                    implies v.at(px, py) == (if other@.in_bounds(px, py) && py < row + 1 {
                    other@.at(px, py)
                } else {
                    before.at(px, py)
                }) by {
                    if py == row && other@.in_bounds(px, py) {
                        assert(px < col);
                    }
                }
            }
            row += 1;
        }
        proof {
            let v = self@;
            assert forall|px: int, py: int| #![trigger v.at(px, py)] before.in_bounds(px, py)
                implies v.at(px, py) == (if other@.in_bounds(px, py) {
                other@.at(px, py)
            } else {
                before.at(px, py)
            }) by {
                if other@.in_bounds(px, py) {
                    assert(py < row);
                }
            }
        }
    }

    /// The coordinates of every cell whose front and back values differ, in
    /// row-major order.
    pub fn diff(&self) -> (dirty: Vec<(u16, u16)>)
        requires
            self@.wf(),
        ensures
            is_diff_of(dirty@, self@),
    {
        let ghost v = self@;
        let mut dirty: Vec<(u16, u16)> = Vec::new();
        let mut y: u16 = 0;
        while y < self.height
            invariant
                v == self@,
                v.wf(),
                y <= v.height,
                forall|k: int|
                    0 <= k < dirty@.len() ==> v.in_bounds(dirty@[k].0 as int, dirty@[k].1 as int)
                        && v.differs(dirty@[k].0 as int, dirty@[k].1 as int) && dirty@[k].1 < y,
                forall|px: int, py: int|
                    v.in_bounds(px, py) && py < y && v.differs(px, py) ==> exists|k: int|
                        0 <= k < dirty@.len() && dirty@[k] == (px as u16, py as u16),
                forall|k1: int, k2: int|
                    0 <= k1 < k2 < dirty@.len() ==> v.index(dirty@[k1].0 as int, dirty@[k1].1 as int)
                        < v.index(dirty@[k2].0 as int, dirty@[k2].1 as int),
            decreases v.height - y,
        {
            let mut x: u16 = 0;
            while x < self.width
                invariant
                    v == self@,
                    v.wf(),
                    y < v.height,
                    x <= v.width,
                    forall|k: int|
                        0 <= k < dirty@.len() ==> v.in_bounds(dirty@[k].0 as int, dirty@[k].1 as int)
                            && v.differs(dirty@[k].0 as int, dirty@[k].1 as int) && (dirty@[k].1
                            < y || (dirty@[k].1 == y && dirty@[k].0 < x)),
                    forall|px: int, py: int|
                        v.in_bounds(px, py) && (py < y || (py == y && px < x)) && v.differs(px, py)
                            ==> exists|k: int|
                            0 <= k < dirty@.len() && dirty@[k] == (px as u16, py as u16),
                    forall|k1: int, k2: int|
                        0 <= k1 < k2 < dirty@.len() ==> v.index(
                            dirty@[k1].0 as int,
                            dirty@[k1].1 as int,
                        ) < v.index(dirty@[k2].0 as int, dirty@[k2].1 as int),
                decreases v.width - x,
            {
                proof {
                    lemma_index_bounds(v.width as int, v.height as int, x as int, y as int);
                }
                let idx = self.index(x, y);
                let ghost old_dirty = dirty@;
                if self.cells[idx] != self.back[idx] {
                    proof {
                        assert forall|k: int| 0 <= k < dirty@.len() implies v.index(
                            dirty@[k].0 as int,
                            dirty@[k].1 as int,
                        ) < v.index(x as int, y as int) by {
                            let (a, b) = dirty@[k];
                            if b < y {
                                assert((b as int) * (v.width as int) + (a as int) < (y as int) * (
                                v.width as int)) by (nonlinear_arith)
                                    requires
                                        0 <= a < v.width,
                                        b < y,
                                ;
                            }
                        }
                    }
                    dirty.push((x, y));
                }
                proof {
                    assert forall|px: int, py: int|
                        v.in_bounds(px, py) && (py < y || (py == y && px < x + 1)) && v.differs(
                            px,
                            py,
                        ) implies exists|k: int|
                        0 <= k < dirty@.len() && dirty@[k] == (px as u16, py as u16) by {
                        if py == y && px == x {
                            assert(dirty@[dirty@.len() - 1] == (px as u16, py as u16));
                        } else {
                            let k = choose|k: int|
                                0 <= k < old_dirty.len() && old_dirty[k] == (px as u16, py as u16);
                            assert(dirty@[k] == old_dirty[k]);
                        }
                    }
                }
                x += 1;
            }
            y += 1;
        }
        dirty
    }

    /// All front cells in row-major order.
    pub fn cells(&self) -> (cs: Vec<Cell>)
        requires
            self@.wf(),
        ensures
            cs@ == self@.front,
    {
        self.cells.clone()
    }

    /// `true` when every front cell holds a space character.
    pub fn is_empty(&self) -> (b: bool)
        ensures
            b == (forall|i: int| 0 <= i < self@.front.len() ==> self@.front[i].ch == ' '),
    {
        let mut i: usize = 0;
        while i < self.cells.len()
            invariant
                i <= self.cells@.len(),
                forall|j: int| 0 <= j < i ==> self.cells@[j].ch == ' ',
            decreases self.cells@.len() - i,
        {
            if self.cells[i].ch != ' ' {
                return false;
            }
            i += 1;
        }
        true
    }
}

} // verus!
