//! Drawing on a frame buffer: points, rectangles, draw styles, and a
//! graphics context with characters, strings, lines, outlines, filled
//! rectangles and box-drawing frames.

use vstd::prelude::*;
use crate::framebuffer::{Cell, CellAttributes, FrameBuffer, FrameView, blank_cell, plain_cell, put_cell, rect_written};
use crate::text::chars_of;
use crate::tree::Color;
use crate::framebuffer::{lemma_index_bounds, lemma_index_unique};

verus! {

/// A cell position.
#[derive(Debug, Clone, Copy, PartialEq, Eq, Structural)]
pub struct Point {
    pub x: u16,
    pub y: u16,
}

impl Point {
    /// The point `(x, y)`.
    pub fn new(x: u16, y: u16) -> (p: Point)
        ensures
            p == (Point { x, y }),
    {
        Point { x, y }
    }
}

/// `a + b`, or the largest `u16` when that overflows.
pub open spec fn sat_add(a: u16, b: int) -> u16 {
    if a + b > u16::MAX {
        u16::MAX
    } else {
        (a + b) as u16
    }
}

/// A rectangle of cells.
#[derive(Debug, Clone, Copy, PartialEq, Eq, Structural)]
pub struct Rect {
    pub x: u16,
    pub y: u16,
    pub width: u16,
    pub height: u16,
}

impl Rect {
    /// The rectangle at `(x, y)` of `width x height`.
    pub fn new(x: u16, y: u16, width: u16, height: u16) -> (r: Rect)
        ensures
            r == (Rect { x, y, width, height }),
    {
        Rect { x, y, width, height }
    }

    /// Whether `point` lies inside (edges saturating at `u16::MAX`).
    pub fn contains(&self, point: Point) -> (b: bool)
        ensures
            b == (self.x <= point.x < sat_add(self.x, self.width as int) && self.y <= point.y < sat_add(
                self.y,
                self.height as int,
            )),
    {
        point.x >= self.x && point.x < self.x.saturating_add(self.width) && point.y >= self.y && point.y
            < self.y.saturating_add(self.height)
    }

    /// The column just right of the rectangle, saturating.
    pub fn right(&self) -> (r: u16)
        ensures
            r == sat_add(self.x, self.width as int),
    {
        self.x.saturating_add(self.width)
    }

    /// The row just below the rectangle, saturating.
    pub fn bottom(&self) -> (b: u16)
        ensures
            b == sat_add(self.y, self.height as int),
    {
        self.y.saturating_add(self.height)
    }
}

/// Colors and attributes to draw with.
#[derive(Debug, Clone, Copy, PartialEq, Eq, Structural)]
pub struct DrawStyle {
    pub fg: Option<Color>,
    pub bg: Option<Color>,
    pub attributes: CellAttributes,
}

/// No color and no attribute.
pub open spec fn plain_style() -> DrawStyle {
    DrawStyle { fg: None, bg: None, attributes: CellAttributes { bits: 0 } }
}

impl DrawStyle {
    /// No color and no attribute.
    pub fn new() -> (s: DrawStyle)
        ensures
            s == plain_style(),
    {
        DrawStyle { fg: None, bg: None, attributes: CellAttributes::empty() }
    }

    /// This style with foreground `color`.
    pub fn fg(self, color: Color) -> (s: DrawStyle)
        ensures
            s == (DrawStyle { fg: Some(color), ..self }),
    {
        let mut s = self;
        s.fg = Some(color);
        s
    }

    /// This style with background `color`.
    pub fn bg(self, color: Color) -> (s: DrawStyle)
        ensures
            s == (DrawStyle { bg: Some(color), ..self }),
    {
        let mut s = self;
        s.bg = Some(color);
        s
    }

    /// This style, bold.
    pub fn bold(self) -> (s: DrawStyle)
        ensures
            s == (DrawStyle { attributes: CellAttributes { bits: self.attributes.bits | 0x01 }, ..self }),
    {
        let mut s = self;
        s.attributes = s.attributes.union(CellAttributes::BOLD());
        s
    }

    /// This style, italic.
    pub fn italic(self) -> (s: DrawStyle)
        ensures
            s == (DrawStyle { attributes: CellAttributes { bits: self.attributes.bits | 0x02 }, ..self }),
    {
        let mut s = self;
        s.attributes = s.attributes.union(CellAttributes::ITALIC());
        s
    }

    /// This style, underlined.
    pub fn underline(self) -> (s: DrawStyle)
        ensures
            s == (DrawStyle { attributes: CellAttributes { bits: self.attributes.bits | 0x04 }, ..self }),
    {
        let mut s = self;
        s.attributes = s.attributes.union(CellAttributes::UNDERLINE());
        s
    }
}

impl Default for DrawStyle {
    fn default() -> (s: DrawStyle)
        ensures
            s == plain_style(),
    {
        DrawStyle::new()
    }
}

/// The cell drawn for `ch` in style `s`: the style's colors where it has
/// them, and its attributes.
pub open spec fn style_cell(ch: char, s: DrawStyle) -> Cell {
    let c0 = plain_cell(ch);
    let c1 = match s.fg {
        Some(f) => Cell { fg: f, ..c0 },
        None => c0,
    };
    let c2 = match s.bg {
        Some(b) => Cell { bg: b, ..c1 },
        None => c1,
    };
    Cell { attributes: s.attributes, ..c2 }
}

/// Drawing the characters `cs` from position `i` on, the `k`-th at column
/// `x + k` (saturating) of row `y`, until the right edge of the buffer.
pub open spec fn run_from(v: FrameView, x: u16, y: u16, cs: Seq<char>, st: DrawStyle, i: int) -> FrameView
    decreases cs.len() - i,
{
    if i < 0 || i >= cs.len() || sat_add(x, i) >= v.width {
        v
    } else {
        run_from(put_cell(v, sat_add(x, i) as int, y as int, style_cell(cs[i], st)), x, y, cs, st, i + 1)
    }
}

/// Drawing `ch` at columns `x + i .. x + n` (saturating) of row `y`, until
/// the right edge of the buffer.
pub open spec fn hline_from(v: FrameView, x: u16, y: u16, n: u16, ch: char, st: DrawStyle, i: int) -> FrameView
    decreases n - i,
{
    if i < 0 || i >= n || sat_add(x, i) >= v.width {
        v
    } else {
        hline_from(put_cell(v, sat_add(x, i) as int, y as int, style_cell(ch, st)), x, y, n, ch, st, i + 1)
    }
}

/// Drawing `ch` at rows `y + i .. y + n` (saturating) of column `x`, until
/// the bottom edge of the buffer.
pub open spec fn vline_from(v: FrameView, x: u16, y: u16, n: u16, ch: char, st: DrawStyle, i: int) -> FrameView
    decreases n - i,
{
    if i < 0 || i >= n || sat_add(y, i) >= v.height {
        v
    } else {
        vline_from(put_cell(v, x as int, sat_add(y, i) as int, style_cell(ch, st)), x, y, n, ch, st, i + 1)
    }
}

/// The drawing steps of `draw_rect`: the top and bottom edges, the left and
/// right edges, then the four corners (edges saturating).
spec fn outline_steps(v: FrameView, r: Rect, st: DrawStyle) -> FrameView {
    if r.width == 0 || r.height == 0 {
        v
    } else {
        let rx = sat_add(r.x, r.width - 1);
        let by = sat_add(r.y, r.height - 1);
        let a = hline_from(v, r.x, r.y, r.width, '-', st, 0);
        let b = hline_from(a, r.x, by, r.width, '-', st, 0);
        let c = vline_from(b, r.x, r.y, r.height, '|', st, 0);
        let d = vline_from(c, rx, r.y, r.height, '|', st, 0);
        let e = put_cell(d, r.x as int, r.y as int, style_cell('+', st));
        let f = put_cell(e, rx as int, r.y as int, style_cell('+', st));
        let g = put_cell(f, r.x as int, by as int, style_cell('+', st));
        put_cell(g, rx as int, by as int, style_cell('+', st))
    }
}

/// The drawing steps of `draw_box`: the top corners and edge, the bottom
/// corners and edge, then the two sides.
spec fn box_steps(v: FrameView, r: Rect, st: DrawStyle) -> FrameView {
    if r.width < 2 || r.height < 2 {
        v
    } else {
        let rx = r.x + r.width - 1;
        let by = r.y + r.height - 1;
        let a = put_cell(v, r.x as int, r.y as int, style_cell('\u{250C}', st));
        let b = hline_from(a, (r.x + 1) as u16, r.y, (r.width - 2) as u16, '\u{2500}', st, 0);
        let c = put_cell(b, rx, r.y as int, style_cell('\u{2510}', st));
        let d = put_cell(c, r.x as int, by, style_cell('\u{2514}', st));
        let e = hline_from(d, (r.x + 1) as u16, by as u16, (r.width - 2) as u16, '\u{2500}', st, 0);
        let f = put_cell(e, rx, by, style_cell('\u{2518}', st));
        let g = vline_from(f, r.x, (r.y + 1) as u16, (r.height - 2) as u16, '\u{2502}', st, 0);
        vline_from(g, rx as u16, (r.y + 1) as u16, (r.height - 2) as u16, '\u{2502}', st, 0)
    }
}

/// The cell at `(px, py)` once the outline of `r` is drawn over `v`: `+` at
/// the corners, `|` on the left and right columns, `-` on the top and bottom
/// rows, the old cell elsewhere. The right column and bottom row are
/// `r.x + r.width - 1` and `r.y + r.height - 1`, saturating; nothing is
/// drawn for an empty `r`.
pub open spec fn outline_cell(v: FrameView, r: Rect, st: DrawStyle, px: int, py: int) -> Cell {
    let rx = sat_add(r.x, r.width - 1) as int;
    let by = sat_add(r.y, r.height - 1) as int;
    let on_col = px == r.x || px == rx;
    let on_row = py == r.y || py == by;
    if r.width == 0 || r.height == 0 {
        v.at(px, py)
    } else if on_col && on_row {
        style_cell('+', st)
    } else if on_col && r.y <= py < r.y + r.height {
        style_cell('|', st)
    } else if on_row && r.x <= px < r.x + r.width {
        style_cell('-', st)
    } else {
        v.at(px, py)
    }
}

/// The cell at `(px, py)` once a box is drawn around `r` over `v`: the four
/// corner characters at the corners, `─` between them on the top and bottom
/// rows, `│` between them on the left and right columns, the old cell
/// elsewhere; nothing is drawn when `r` is narrower or lower than two cells.
pub open spec fn box_cell(v: FrameView, r: Rect, st: DrawStyle, px: int, py: int) -> Cell {
    let rx = r.x + r.width - 1;
    let by = r.y + r.height - 1;
    if r.width < 2 || r.height < 2 {
        v.at(px, py)
    } else if px == r.x && py == r.y {
        style_cell('\u{250C}', st)
    } else if px == rx && py == r.y {
        style_cell('\u{2510}', st)
    } else if px == r.x && py == by {
        style_cell('\u{2514}', st)
    } else if px == rx && py == by {
        style_cell('\u{2518}', st)
    } else if (py == r.y || py == by) && r.x < px < rx {
        style_cell('\u{2500}', st)
    } else if (px == r.x || px == rx) && r.y < py < by {
        style_cell('\u{2502}', st)
    } else {
        v.at(px, py)
    }
}

/// `w` is `v` with every cell inside the grid given by `f`, the back grid
/// and the size unchanged.
pub open spec fn drawn_over(v: FrameView, w: FrameView, f: spec_fn(int, int) -> Cell) -> bool {
    &&& w.wf()
    &&& w.width == v.width
    &&& w.height == v.height
    &&& w.back == v.back
    &&& forall|px: int, py: int| #![trigger w.at(px, py)] v.in_bounds(px, py) ==> w.at(px, py) == f(px, py)
}

/// A drawing surface over a frame buffer.
pub struct GraphicsContext {
    buffer: FrameBuffer,
}

impl GraphicsContext {
    /// The frame drawn on.
    pub closed spec fn frame(&self) -> FrameView {
        self.buffer@
    }

    /// A context drawing on `buffer`.
    pub fn new(buffer: FrameBuffer) -> (g: GraphicsContext)
        ensures
            g.frame() == buffer@,
    {
        GraphicsContext { buffer }
    }

    /// The frame buffer drawn on, given back.
    pub fn into_buffer(self) -> (b: FrameBuffer)
        ensures
            b@ == self.frame(),
    {
        self.buffer
    }

    /// Blanks every cell.
    pub fn clear(&mut self)
        requires
            old(self).frame().wf(),
        ensures
            final(self).frame().wf(),
            final(self).frame().width == old(self).frame().width,
            final(self).frame().height == old(self).frame().height,
            final(self).frame().back == old(self).frame().back,
            forall|i: int| 0 <= i < final(self).frame().front.len() ==> final(self).frame().front[i] == blank_cell(),
    {
        self.buffer.clear();
    }

    /// Blanks the cells of `rect` inside the buffer.
    pub fn clear_rect(&mut self, rect: Rect)
        requires
            old(self).frame().wf(),
        ensures
            rect_written(
                old(self).frame(),
                final(self).frame(),
                rect.x as int,
                rect.y as int,
                rect.width as int,
                rect.height as int,
                blank_cell(),
            ),
    {
        self.buffer.clear_rect(rect.x, rect.y, rect.width, rect.height);
    }

    /// Writes `cell` at `(x, y)` when it is inside the buffer.
    pub fn set_cell(&mut self, x: u16, y: u16, cell: Cell)
        requires
            old(self).frame().wf(),
        ensures
            final(self).frame() == put_cell(old(self).frame(), x as int, y as int, cell),
            final(self).frame().wf(),
    {
        if x < self.buffer.width() && y < self.buffer.height() {
            self.buffer.set(x, y, cell);
        }
    }

    /// Draws `ch` at `(x, y)` in `style`.
    pub fn draw_char(&mut self, x: u16, y: u16, ch: char, style: &DrawStyle)
        requires
            old(self).frame().wf(),
        ensures
            final(self).frame() == put_cell(old(self).frame(), x as int, y as int, style_cell(ch, *style)),
            final(self).frame().wf(),
    {
        let mut cell = Cell::new(ch);
        match &style.fg {
            Some(fg) => {
                cell = cell.with_fg(*fg);
            },
            None => {},
        }
        match &style.bg {
            Some(bg) => {
                cell = cell.with_bg(*bg);
            },
            None => {},
        }
        cell = cell.with_attrs(style.attributes);
        self.set_cell(x, y, cell);
    }

    /// Draws the characters of `text` from `(x, y)` rightwards, up to the
    /// right edge of the buffer.
    pub fn draw_str(&mut self, x: u16, y: u16, text: &str, style: &DrawStyle)
        requires
            old(self).frame().wf(),
        ensures
            final(self).frame() == run_from(old(self).frame(), x, y, text@, *style, 0),
            final(self).frame().wf(),
    {
        let cs = chars_of(text);
        let mut i: usize = 0;
        while i < cs.len()
            invariant
                i <= cs@.len(),
                cs@ == text@,
                self.frame().wf(),
                self.frame().width == old(self).frame().width,
                i > 0 ==> x + i - 1 < self.frame().width,
                run_from(old(self).frame(), x, y, text@, *style, 0) == run_from(self.frame(), x, y, text@, *style, i as int),
            decreases cs@.len() - i,
        {
            let px = x.saturating_add(i as u16);
            if px >= self.buffer.width() {
                return;
            }
            self.draw_char(px, y, cs[i], style);
            i += 1;
        }
    }

    /// Draws `width` copies of `ch` from `(x, y)` rightwards, up to the
    /// right edge of the buffer.
    pub fn draw_hline(&mut self, x: u16, y: u16, width: u16, ch: char, style: &DrawStyle)
        requires
            old(self).frame().wf(),
        ensures
            final(self).frame() == hline_from(old(self).frame(), x, y, width, ch, *style, 0),
            final(self).frame().wf(),
    {
        let mut i: u16 = 0;
        while i < width
            invariant
                i <= width,
                self.frame().wf(),
                self.frame().width == old(self).frame().width,
                hline_from(old(self).frame(), x, y, width, ch, *style, 0) == hline_from(
                    self.frame(),
                    x,
                    y,
                    width,
                    ch,
                    *style,
                    i as int,
                ),
            decreases width - i,
        {
            let px = x.saturating_add(i);
            if px >= self.buffer.width() {
                return;
            }
            self.draw_char(px, y, ch, style);
            i += 1;
        }
    }

    /// Draws `height` copies of `ch` from `(x, y)` downwards, up to the
    /// bottom edge of the buffer.
    pub fn draw_vline(&mut self, x: u16, y: u16, height: u16, ch: char, style: &DrawStyle)
        requires
            old(self).frame().wf(),
        ensures
            final(self).frame() == vline_from(old(self).frame(), x, y, height, ch, *style, 0),
            final(self).frame().wf(),
    {
        let mut i: u16 = 0;
        while i < height
            invariant
                i <= height,
                self.frame().wf(),
                self.frame().height == old(self).frame().height,
                vline_from(old(self).frame(), x, y, height, ch, *style, 0) == vline_from(
                    self.frame(),
                    x,
                    y,
                    height,
                    ch,
                    *style,
                    i as int,
                ),
            decreases height - i,
        {
            let py = y.saturating_add(i);
            if py >= self.buffer.height() {
                return;
            }
            self.draw_char(x, py, ch, style);
            i += 1;
        }
    }

    /// Draws the outline of `rect` (see `outline_cell`).
    pub fn draw_rect(&mut self, rect: Rect, style: &DrawStyle)
        requires
            old(self).frame().wf(),
        ensures
            drawn_over(
                old(self).frame(),
                final(self).frame(),
                |px: int, py: int| outline_cell(old(self).frame(), rect, *style, px, py),
            ),
    {
        proof {
            lemma_outline_steps(self.frame(), rect, *style);
        }
        if rect.width == 0 || rect.height == 0 {
            return;
        }
        let rx = rect.x.saturating_add(rect.width - 1);
        let by = rect.y.saturating_add(rect.height - 1);
        self.draw_hline(rect.x, rect.y, rect.width, '-', style);
        self.draw_hline(rect.x, by, rect.width, '-', style);
        self.draw_vline(rect.x, rect.y, rect.height, '|', style);
        self.draw_vline(rx, rect.y, rect.height, '|', style);
        self.draw_char(rect.x, rect.y, '+', style);
        self.draw_char(rx, rect.y, '+', style);
        self.draw_char(rect.x, by, '+', style);
        self.draw_char(rx, by, '+', style);
    }

    /// Fills the cells of `rect` inside the buffer with `ch` in `style`.
    pub fn fill_rect(&mut self, rect: Rect, ch: char, style: &DrawStyle)
        requires
            old(self).frame().wf(),
        ensures
            rect_written(
                old(self).frame(),
                final(self).frame(),
                rect.x as int,
                rect.y as int,
                rect.width as int,
                rect.height as int,
                style_cell(ch, *style),
            ),
    {
        let mut cell = Cell::new(ch);
        match &style.fg {
            Some(fg) => {
                cell = cell.with_fg(*fg);
            },
            None => {},
        }
        match &style.bg {
            Some(bg) => {
                cell = cell.with_bg(*bg);
            },
            None => {},
        }
        cell = cell.with_attrs(style.attributes);
        self.buffer.fill_rect(rect.x, rect.y, rect.width, rect.height, cell);
    }

    /// Draws a frame of box-drawing characters around `rect` (see
    /// `box_cell`); nothing when it is narrower or lower than two cells.
    pub fn draw_box(&mut self, rect: Rect, style: &DrawStyle)
        requires
            old(self).frame().wf(),
            rect.width >= 2 && rect.height >= 2 ==> rect.x + rect.width <= u16::MAX && rect.y + rect.height
                <= u16::MAX,
        ensures
            drawn_over(
                old(self).frame(),
                final(self).frame(),
                |px: int, py: int| box_cell(old(self).frame(), rect, *style, px, py),
            ),
    {
        proof {
            lemma_box_steps(self.frame(), rect, *style);
        }
        if rect.width < 2 || rect.height < 2 {
            return;
        }
        let rx = rect.x + rect.width - 1;
        let by = rect.y + rect.height - 1;
        self.draw_char(rect.x, rect.y, '\u{250C}', style);
        self.draw_hline(rect.x + 1, rect.y, rect.width - 2, '\u{2500}', style);
        self.draw_char(rx, rect.y, '\u{2510}', style);
        self.draw_char(rect.x, by, '\u{2514}', style);
        self.draw_hline(rect.x + 1, by, rect.width - 2, '\u{2500}', style);
        self.draw_char(rx, by, '\u{2518}', style);
        self.draw_vline(rect.x, rect.y + 1, rect.height - 2, '\u{2502}', style);
        self.draw_vline(rx, rect.y + 1, rect.height - 2, '\u{2502}', style);
    }

    /// The frame buffer drawn on.
    pub fn buffer(&self) -> (b: &FrameBuffer)
        ensures
            b@ == self.frame(),
    {
        &self.buffer
    }

    /// The frame buffer drawn on, to change directly.
    pub fn buffer_mut(&mut self) -> (b: &mut FrameBuffer)
        ensures
            (*b)@ == old(self).frame(),
            final(self).frame() == (*final(b))@,
    {
        &mut self.buffer
    }
}

// ---------------------------------------------------------------------------
// Laws
// ---------------------------------------------------------------------------

proof fn lemma_put_cell_at(v: FrameView, x: int, y: int, c: Cell, px: int, py: int)
    requires
        v.wf(),
        v.in_bounds(px, py),
    ensures
        put_cell(v, x, y, c).wf(),
        put_cell(v, x, y, c).at(px, py) == (if x == px && y == py {
            c
        } else {
            v.at(px, py)
        }),
{
    if v.in_bounds(x, y) {
        lemma_index_bounds(v.width as int, v.height as int, x, y);
        lemma_index_bounds(v.width as int, v.height as int, px, py);
        if v.index(px, py) == v.index(x, y) {
            lemma_index_unique(v.width as int, px, py, x, y);
        }
    }
}

proof fn lemma_put_cell_wf(v: FrameView, x: int, y: int, c: Cell)
    requires
        v.wf(),
    ensures
        put_cell(v, x, y, c).wf(),
        put_cell(v, x, y, c).width == v.width,
        put_cell(v, x, y, c).height == v.height,
{
    if v.in_bounds(x, y) {
        lemma_index_bounds(v.width as int, v.height as int, x, y);
    }
}

proof fn lemma_hline_wf(v: FrameView, x: u16, y: u16, n: u16, ch: char, st: DrawStyle, i: int)
    requires
        v.wf(),
    ensures
        hline_from(v, x, y, n, ch, st, i).wf(),
        hline_from(v, x, y, n, ch, st, i).width == v.width,
        hline_from(v, x, y, n, ch, st, i).height == v.height,
    decreases n - i,
{
    if !(i < 0 || i >= n || sat_add(x, i) >= v.width) {
        lemma_put_cell_wf(v, sat_add(x, i) as int, y as int, style_cell(ch, st));
        lemma_hline_wf(put_cell(v, sat_add(x, i) as int, y as int, style_cell(ch, st)), x, y, n, ch, st, i + 1);
    }
}

proof fn lemma_vline_wf(v: FrameView, x: u16, y: u16, n: u16, ch: char, st: DrawStyle, i: int)
    requires
        v.wf(),
    ensures
        vline_from(v, x, y, n, ch, st, i).wf(),
        vline_from(v, x, y, n, ch, st, i).width == v.width,
        vline_from(v, x, y, n, ch, st, i).height == v.height,
    decreases n - i,
{
    if !(i < 0 || i >= n || sat_add(y, i) >= v.height) {
        lemma_put_cell_wf(v, x as int, sat_add(y, i) as int, style_cell(ch, st));
        lemma_vline_wf(put_cell(v, x as int, sat_add(y, i) as int, style_cell(ch, st)), x, y, n, ch, st, i + 1);
    }
}

/// A horizontal line writes `ch` at every column it covers inside the
/// buffer, `x .. x + n`, and leaves every other cell alone.
pub proof fn lemma_hline_cells(v: FrameView, x: u16, y: u16, n: u16, ch: char, st: DrawStyle, i: int, px: int, py: int)
    requires
        v.wf(),
        0 <= i,
        v.in_bounds(px, py),
    ensures
        hline_from(v, x, y, n, ch, st, i).at(px, py) == (if py == y && x + i <= px < x + n {
            style_cell(ch, st)
        } else {
            v.at(px, py)
        }),
    decreases n - i,
{
    if !(i >= n || sat_add(x, i) >= v.width) {
        let c = style_cell(ch, st);
        let v1 = put_cell(v, sat_add(x, i) as int, y as int, c);
        lemma_put_cell_at(v, sat_add(x, i) as int, y as int, c, px, py);
        lemma_hline_cells(v1, x, y, n, ch, st, i + 1, px, py);
    }
}

/// A vertical line writes `ch` at every row it covers inside the buffer,
/// `y .. y + n`, and leaves every other cell alone.
proof fn lemma_vline_cells(v: FrameView, x: u16, y: u16, n: u16, ch: char, st: DrawStyle, i: int, px: int, py: int)
    requires
        v.wf(),
        0 <= i,
        v.in_bounds(px, py),
    ensures
        vline_from(v, x, y, n, ch, st, i).at(px, py) == (if px == x && y + i <= py < y + n {
            style_cell(ch, st)
        } else {
            v.at(px, py)
        }),
    decreases n - i,
{
    if !(i >= n || sat_add(y, i) >= v.height) {
        let c = style_cell(ch, st);
        let v1 = put_cell(v, x as int, sat_add(y, i) as int, c);
        lemma_put_cell_at(v, x as int, sat_add(y, i) as int, c, px, py);
        lemma_vline_cells(v1, x, y, n, ch, st, i + 1, px, py);
    }
}

proof fn lemma_put_cell_back(v: FrameView, x: int, y: int, c: Cell)
    ensures
        put_cell(v, x, y, c).back == v.back,
{
}

proof fn lemma_hline_back(v: FrameView, x: u16, y: u16, n: u16, ch: char, st: DrawStyle, i: int)
    ensures
        hline_from(v, x, y, n, ch, st, i).back == v.back,
    decreases n - i,
{
    if !(i < 0 || i >= n || sat_add(x, i) >= v.width) {
        lemma_hline_back(put_cell(v, sat_add(x, i) as int, y as int, style_cell(ch, st)), x, y, n, ch, st, i + 1);
    }
}

proof fn lemma_vline_back(v: FrameView, x: u16, y: u16, n: u16, ch: char, st: DrawStyle, i: int)
    ensures
        vline_from(v, x, y, n, ch, st, i).back == v.back,
    decreases n - i,
{
    if !(i < 0 || i >= n || sat_add(y, i) >= v.height) {
        lemma_vline_back(put_cell(v, x as int, sat_add(y, i) as int, style_cell(ch, st)), x, y, n, ch, st, i + 1);
    }
}

/// The steps of `draw_rect` draw the outline cell by cell.
proof fn lemma_outline_steps(v: FrameView, r: Rect, st: DrawStyle)
    requires
        v.wf(),
    ensures
        drawn_over(v, outline_steps(v, r, st), |px: int, py: int| outline_cell(v, r, st, px, py)),
{
    if r.width == 0 || r.height == 0 {
        return;
    }
    let rx = sat_add(r.x, r.width - 1);
    let by = sat_add(r.y, r.height - 1);
    let plus = style_cell('+', st);
    let a = hline_from(v, r.x, r.y, r.width, '-', st, 0);
    lemma_hline_wf(v, r.x, r.y, r.width, '-', st, 0);
    lemma_hline_back(v, r.x, r.y, r.width, '-', st, 0);
    let b = hline_from(a, r.x, by, r.width, '-', st, 0);
    lemma_hline_wf(a, r.x, by, r.width, '-', st, 0);
    lemma_hline_back(a, r.x, by, r.width, '-', st, 0);
    let c = vline_from(b, r.x, r.y, r.height, '|', st, 0);
    lemma_vline_wf(b, r.x, r.y, r.height, '|', st, 0);
    lemma_vline_back(b, r.x, r.y, r.height, '|', st, 0);
    let d = vline_from(c, rx, r.y, r.height, '|', st, 0);
    lemma_vline_wf(c, rx, r.y, r.height, '|', st, 0);
    lemma_vline_back(c, rx, r.y, r.height, '|', st, 0);
    let e = put_cell(d, r.x as int, r.y as int, plus);
    lemma_put_cell_wf(d, r.x as int, r.y as int, plus);
    let f = put_cell(e, rx as int, r.y as int, plus);
    lemma_put_cell_wf(e, rx as int, r.y as int, plus);
    let g = put_cell(f, r.x as int, by as int, plus);
    lemma_put_cell_wf(f, r.x as int, by as int, plus);
    let w = put_cell(g, rx as int, by as int, plus);
    lemma_put_cell_wf(g, rx as int, by as int, plus);
    assert(w == outline_steps(v, r, st));
    assert forall|px: int, py: int| #![trigger w.at(px, py)] v.in_bounds(px, py) implies w.at(px, py)
        == outline_cell(v, r, st, px, py) by {
        lemma_hline_cells(v, r.x, r.y, r.width, '-', st, 0, px, py);
        lemma_hline_cells(a, r.x, by, r.width, '-', st, 0, px, py);
        lemma_vline_cells(b, r.x, r.y, r.height, '|', st, 0, px, py);
        lemma_vline_cells(c, rx, r.y, r.height, '|', st, 0, px, py);
        lemma_put_cell_at(d, r.x as int, r.y as int, plus, px, py);
        lemma_put_cell_at(e, rx as int, r.y as int, plus, px, py);
        lemma_put_cell_at(f, r.x as int, by as int, plus, px, py);
        lemma_put_cell_at(g, rx as int, by as int, plus, px, py);
        if px == rx && rx as int != r.x + r.width - 1 {
            assert(rx == u16::MAX);
        }
        if py == by && by as int != r.y + r.height - 1 {
            assert(by == u16::MAX);
        }
    }
}

/// The steps of `draw_box` draw the box cell by cell.
proof fn lemma_box_steps(v: FrameView, r: Rect, st: DrawStyle)
    requires
        v.wf(),
        r.width >= 2 && r.height >= 2 ==> r.x + r.width <= u16::MAX && r.y + r.height <= u16::MAX,
    ensures
        drawn_over(v, box_steps(v, r, st), |px: int, py: int| box_cell(v, r, st, px, py)),
{
    if r.width < 2 || r.height < 2 {
        return;
    }
    let rx = r.x + r.width - 1;
    let by = r.y + r.height - 1;
    let tl = style_cell('\u{250C}', st);
    let tr = style_cell('\u{2510}', st);
    let bl = style_cell('\u{2514}', st);
    let br = style_cell('\u{2518}', st);
    let a = put_cell(v, r.x as int, r.y as int, tl);
    lemma_put_cell_wf(v, r.x as int, r.y as int, tl);
    let b = hline_from(a, (r.x + 1) as u16, r.y, (r.width - 2) as u16, '\u{2500}', st, 0);
    lemma_hline_wf(a, (r.x + 1) as u16, r.y, (r.width - 2) as u16, '\u{2500}', st, 0);
    lemma_hline_back(a, (r.x + 1) as u16, r.y, (r.width - 2) as u16, '\u{2500}', st, 0);
    let c = put_cell(b, rx, r.y as int, tr);
    lemma_put_cell_wf(b, rx, r.y as int, tr);
    let d = put_cell(c, r.x as int, by, bl);
    lemma_put_cell_wf(c, r.x as int, by, bl);
    let e = hline_from(d, (r.x + 1) as u16, by as u16, (r.width - 2) as u16, '\u{2500}', st, 0);
    lemma_hline_wf(d, (r.x + 1) as u16, by as u16, (r.width - 2) as u16, '\u{2500}', st, 0);
    lemma_hline_back(d, (r.x + 1) as u16, by as u16, (r.width - 2) as u16, '\u{2500}', st, 0);
    let f = put_cell(e, rx, by, br);
    lemma_put_cell_wf(e, rx, by, br);
    let g = vline_from(f, r.x, (r.y + 1) as u16, (r.height - 2) as u16, '\u{2502}', st, 0);
    lemma_vline_wf(f, r.x, (r.y + 1) as u16, (r.height - 2) as u16, '\u{2502}', st, 0);
    lemma_vline_back(f, r.x, (r.y + 1) as u16, (r.height - 2) as u16, '\u{2502}', st, 0);
    let w = vline_from(g, rx as u16, (r.y + 1) as u16, (r.height - 2) as u16, '\u{2502}', st, 0);
    lemma_vline_wf(g, rx as u16, (r.y + 1) as u16, (r.height - 2) as u16, '\u{2502}', st, 0);
    lemma_vline_back(g, rx as u16, (r.y + 1) as u16, (r.height - 2) as u16, '\u{2502}', st, 0);
    assert(w == box_steps(v, r, st));
    assert forall|px: int, py: int| #![trigger w.at(px, py)] v.in_bounds(px, py) implies w.at(px, py)
        == box_cell(v, r, st, px, py) by {
        lemma_put_cell_at(v, r.x as int, r.y as int, tl, px, py);
        lemma_hline_cells(a, (r.x + 1) as u16, r.y, (r.width - 2) as u16, '\u{2500}', st, 0, px, py);
        lemma_put_cell_at(b, rx, r.y as int, tr, px, py);
        lemma_put_cell_at(c, r.x as int, by, bl, px, py);
        lemma_hline_cells(d, (r.x + 1) as u16, by as u16, (r.width - 2) as u16, '\u{2500}', st, 0, px, py);
        lemma_put_cell_at(e, rx, by, br, px, py);
        lemma_vline_cells(f, r.x, (r.y + 1) as u16, (r.height - 2) as u16, '\u{2502}', st, 0, px, py);
        lemma_vline_cells(g, rx as u16, (r.y + 1) as u16, (r.height - 2) as u16, '\u{2502}', st, 0, px, py);
    }
}

} // verus!
