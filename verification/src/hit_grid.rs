//! A screen-sized hit grid for constant-time mouse targeting: each cell
//! holds the id of the renderable drawn there. It is double-buffered (the
//! current grid answers queries while the next one is built) and clips
//! what is added to a stack of scissor rectangles.

use vstd::prelude::*;
use crate::framebuffer::{lemma_index_bounds, lemma_index_unique};

verus! {

/// The id of a cell where nothing was drawn.
pub const HIT_EMPTY: u64 = 0;

/// An axis-aligned rectangle.
#[derive(Debug, Clone, Copy, PartialEq, Eq, Structural)]
pub struct ClipRect {
    pub x: i32,
    pub y: i32,
    pub width: u32,
    pub height: u32,
}

/// `w` read as a signed 32-bit integer (as `w as i32`).
pub open spec fn as_signed(w: u32) -> int {
    if w <= 0x7fff_ffff {
        w as int
    } else {
        w as int - 0x1_0000_0000
    }
}

/// The column just right of `r`.
pub open spec fn right(r: ClipRect) -> int {
    r.x + as_signed(r.width)
}

/// The row just below `r`.
pub open spec fn bottom(r: ClipRect) -> int {
    r.y + as_signed(r.height)
}

/// The right and bottom edges of `r` fit in 32 signed bits.
pub open spec fn edges_fit(r: ClipRect) -> bool {
    &&& i32::MIN <= right(r) <= i32::MAX
    &&& i32::MIN <= bottom(r) <= i32::MAX
}

/// `(px, py)` lies in `r`.
pub open spec fn in_rect(r: ClipRect, px: int, py: int) -> bool {
    r.x <= px < right(r) && r.y <= py < bottom(r)
}

/// The larger of two integers.
pub open spec fn max_int(a: int, b: int) -> int {
    if a >= b {
        a
    } else {
        b
    }
}

/// The smaller of two integers.
pub open spec fn min_int(a: int, b: int) -> int {
    if a <= b {
        a
    } else {
        b
    }
}

/// The overlap of two rectangles, or nothing when they do not overlap.
pub open spec fn intersection(a: ClipRect, b: ClipRect) -> Option<ClipRect> {
    let x = max_int(a.x as int, b.x as int);
    let y = max_int(a.y as int, b.y as int);
    let ex = min_int(right(a), right(b));
    let ey = min_int(bottom(a), bottom(b));
    if x >= ex || y >= ey {
        None
    } else {
        Some(ClipRect { x: x as i32, y: y as i32, width: (ex - x) as u32, height: (ey - y) as u32 })
    }
}

/// `w` as a signed 32-bit integer, exactly as `w as i32` gives it.
fn to_signed(w: u32) -> (r: i32)
    ensures
        r as int == as_signed(w),
{
    if w <= 0x7fff_ffff {
        w as i32
    } else {
        let low = (w - 0x8000_0000) as i32;
        low - 0x7fff_ffff - 1
    }
}

/// The overlap of two rectangles.
fn intersect_clip_rect(a: &ClipRect, b: &ClipRect) -> (r: Option<ClipRect>)
    requires
        edges_fit(*a),
        edges_fit(*b),
    ensures
        r == intersection(*a, *b),
{
    let x = if a.x >= b.x {
        a.x
    } else {
        b.x
    };
    let y = if a.y >= b.y {
        a.y
    } else {
        b.y
    };
    let ar = a.x + to_signed(a.width);
    let br = b.x + to_signed(b.width);
    let ab = a.y + to_signed(a.height);
    let bb = b.y + to_signed(b.height);
    let end_x = if ar <= br {
        ar
    } else {
        br
    };
    let end_y = if ab <= bb {
        ab
    } else {
        bb
    };
    if x >= end_x || y >= end_y {
        return None;
    }
    Some(ClipRect { x, y, width: (end_x - x) as u32, height: (end_y - y) as u32 })
}

/// The abstract state of a hit grid.
pub struct HitView {
    pub width: u32,
    pub height: u32,
    pub current: Seq<u64>,
    pub next: Seq<u64>,
    pub scissors: Seq<ClipRect>,
    pub dirty: bool,
    pub invalidated: bool,
}

/// `n` empty cells.
pub open spec fn empty_cells(n: nat) -> Seq<u64> {
    Seq::new(n, |i: int| HIT_EMPTY)
}

/// The window of grid cells a clipped rectangle `c` covers:
/// `(start_x, end_x, start_y, end_y)`. The grid's edges are read as signed
/// 32-bit integers, so a dimension past `i32::MAX` gives a negative end.
pub open spec fn window(width: u32, height: u32, c: ClipRect) -> (int, int, int, int) {
    (
        max_int(c.x as int, 0),
        min_int(right(c), as_signed(width)),
        max_int(c.y as int, 0),
        min_int(bottom(c), as_signed(height)),
    )
}

/// Writing the window of `c` stays inside the grid: either the window is
/// empty along an axis on which its end is not negative, or both of its
/// ends are not negative.
pub open spec fn window_ok(width: u32, height: u32, c: ClipRect) -> bool {
    let (sx, ex, sy, ey) = window(width, height, c);
    ||| ex >= 0 && sx >= ex
    ||| ey >= 0 && sy >= ey
    ||| ex >= 0 && ey >= 0
}

impl HitView {
    /// `(x, y)` lies inside the grid.
    pub open spec fn in_bounds(self, x: int, y: int) -> bool {
        0 <= x < self.width && 0 <= y < self.height
    }

    /// Row-major index of `(x, y)`.
    pub open spec fn index(self, x: int, y: int) -> int {
        y * self.width + x
    }

    /// The id in the current grid at `(x, y)`.
    pub open spec fn current_at(self, x: int, y: int) -> u64 {
        self.current[self.index(x, y)]
    }

    /// The id in the next grid at `(x, y)`.
    pub open spec fn next_at(self, x: int, y: int) -> u64 {
        self.next[self.index(x, y)]
    }

    /// What a hit test at `(x, y)` answers: the current id, or empty outside the grid.
    pub open spec fn hit(self, x: int, y: int) -> u64 {
        if self.in_bounds(x, y) {
            self.current_at(x, y)
        } else {
            HIT_EMPTY
        }
    }

    /// Both grids hold `width * height` cells, which fits 32 bits.
    pub open spec fn wf(self) -> bool {
        &&& self.current.len() == self.width * self.height
        &&& self.next.len() == self.width * self.height
        &&& self.width * self.height <= u32::MAX
    }

    /// `r` clipped to the innermost scissor.
    pub open spec fn clip(self, r: ClipRect) -> Option<ClipRect> {
        if self.scissors.len() == 0 {
            Some(r)
        } else {
            intersection(self.scissors.last(), r)
        }
    }

    /// `r` can be added: its edges, and those of the innermost scissor, fit
    /// 32 bits, and the window it covers stays inside the grid.
    pub open spec fn add_ok(self, r: ClipRect) -> bool {
        &&& edges_fit(r)
        &&& self.scissors.len() > 0 ==> edges_fit(self.scissors.last())
        &&& match self.clip(r) {
            Some(c) => window_ok(self.width, self.height, c),
            None => true,
        }
    }

    /// Adding `r` writes the grid cell `(px, py)`.
    pub open spec fn covers(self, r: ClipRect, px: int, py: int) -> bool {
        match self.clip(r) {
            Some(c) => in_rect(c, px, py),
            None => false,
        }
    }
}

/// `after` is `before` with every cell of the grid that adding `r` covers
/// set to `id`.
pub open spec fn cells_added(v: HitView, before: Seq<u64>, after: Seq<u64>, r: ClipRect, id: u64) -> bool {
    &&& after.len() == before.len()
    &&& forall|px: int, py: int|
        #![trigger after[v.index(px, py)]]
        v.in_bounds(px, py) ==> after[v.index(px, py)] == (if v.covers(r, px, py) {
            id
        } else {
            before[v.index(px, py)]
        })
}

/// A double-buffered hit grid with a scissor stack.
#[derive(Debug, Clone)]
pub struct HitGrid {
    current: Vec<u64>,
    next: Vec<u64>,
    width: u32,
    height: u32,
    scissor_stack: Vec<ClipRect>,
    dirty: bool,
    resize_invalidated: bool,
}

impl View for HitGrid {
    type V = HitView;

    closed spec fn view(&self) -> HitView {
        HitView {
            width: self.width,
            height: self.height,
            current: self.current@,
            next: self.next@,
            scissors: self.scissor_stack@,
            dirty: self.dirty,
            invalidated: self.resize_invalidated,
        }
    }
}

/// `n` empty cells.
fn empty_vec(n: usize) -> (v: Vec<u64>)
    ensures
        v@ == empty_cells(n as nat),
{
    let mut v: Vec<u64> = Vec::new();
    let mut i: usize = 0;
    while i < n
        invariant
            i <= n,
            v@ == empty_cells(i as nat),
        decreases n - i,
    {
        v.push(HIT_EMPTY);
        assert(v@ =~= empty_cells((i + 1) as nat));
        i += 1;
    }
    v
}

/// Sets the cells of the window `[sx, ex) x [sy, ey)` of a row-major grid
/// `width` cells wide to `id`.
fn fill_window(cells: &mut Vec<u64>, width: u32, height: u32, sx: u32, ex: u32, sy: u32, ey: u32, id: u64)
    requires
        old(cells)@.len() == width * height,
        width * height <= u32::MAX,
        sx <= ex <= width,
        sy <= ey <= height,
    ensures
        final(cells)@.len() == old(cells)@.len(),
        forall|px: int, py: int|
            #![trigger final(cells)@[py * width + px]]
            0 <= px < width && 0 <= py < height ==> final(cells)@[py * width + px] == (if sx <= px < ex
                && sy <= py < ey {
                id
            } else {
                old(cells)@[py * width + px]
            }),
{
    let ghost before = cells@;
    let mut row: u32 = sy;
    while row < ey
        invariant
            sy <= row <= ey <= height,
            sx <= ex <= width,
            width * height <= u32::MAX,
            cells@.len() == before.len(),
            before.len() == width * height,
            forall|px: int, py: int|
                #![trigger cells@[py * width + px]]
                0 <= px < width && 0 <= py < height ==> cells@[py * width + px] == (if sx <= px < ex
                    && sy <= py < row {
                    id
                } else {
                    before[py * width + px]
                }),
        decreases ey - row,
    {
        let mut col: u32 = sx;
        while col < ex
            invariant
                sy <= row < ey <= height,
                sx <= col <= ex <= width,
                width * height <= u32::MAX,
                cells@.len() == before.len(),
                before.len() == width * height,
                forall|px: int, py: int|
                    #![trigger cells@[py * width + px]]
                    0 <= px < width && 0 <= py < height ==> cells@[py * width + px] == (if (sx <= px
                        < ex && sy <= py < row) || (sx <= px < col && py == row) {
                        id
                    } else {
                        before[py * width + px]
                    }),
            decreases ex - col,
        {
            proof {
                lemma_index_bounds(width as int, height as int, col as int, row as int);
            }
            let idx = (row * width + col) as usize;
            let ghost prev = cells@;
            cells.set(idx, id);
            proof {
                assert forall|px: int, py: int|
                    0 <= px < width && 0 <= py < height implies #[trigger] cells@[py * width + px] == (
                    if (sx <= px < ex && sy <= py < row) || (sx <= px < col + 1 && py == row) {
                        id
                    } else {
                        before[py * width + px]
                    }) by {
                    lemma_index_bounds(width as int, height as int, px, py);
                    if py * width + px == idx as int {
                        lemma_index_unique(width as int, px, py, col as int, row as int);
                    } else {
                        assert(cells@[py * width + px] == prev[py * width + px]);
                        if px == col && py == row {
                            assert(py * width + px == idx as int);
                        }
                    }
                }
            }
            col += 1;
        }
        row += 1;
    }
}

impl HitGrid {
    /// An empty grid of `width x height` cells with no scissor, clean.
    pub fn new(width: u32, height: u32) -> (g: HitGrid)
        requires
            width * height <= u32::MAX,
        ensures
            g@.wf(),
            g@.width == width,
            g@.height == height,
            g@.current == empty_cells((width * height) as nat),
            g@.next == empty_cells((width * height) as nat),
            g@.scissors.len() == 0,
            !g@.dirty,
            !g@.invalidated,
    {
        let size = (width * height) as usize;
        HitGrid {
            current: empty_vec(size),
            next: empty_vec(size),
            width,
            height,
            scissor_stack: Vec::new(),
            dirty: false,
            resize_invalidated: false,
        }
    }

    /// Resizes to `width x height`, empties both grids and marks the grid
    /// invalidated and dirty.
    pub fn resize(&mut self, width: u32, height: u32)
        requires
            width * height <= u32::MAX,
        ensures
            final(self)@.wf(),
            final(self)@.width == width,
            final(self)@.height == height,
            final(self)@.current == empty_cells((width * height) as nat),
            final(self)@.next == empty_cells((width * height) as nat),
            final(self)@.scissors == old(self)@.scissors,
            final(self)@.dirty,
            final(self)@.invalidated,
    {
        let size = (width * height) as usize;
        self.current = empty_vec(size);
        self.next = empty_vec(size);
        self.width = width;
        self.height = height;
        self.resize_invalidated = true;
        self.dirty = true;
    }

    /// Empties the next grid.
    pub fn clear_next(&mut self)
        ensures
            final(self)@ == (HitView { next: empty_cells(old(self)@.next.len()), ..old(self)@ }),
    {
        self.next = empty_vec(self.next.len());
    }

    /// Empties the current grid.
    pub fn clear_current(&mut self)
        ensures
            final(self)@ == (HitView { current: empty_cells(old(self)@.current.len()), ..old(self)@ }),
    {
        self.current = empty_vec(self.current.len());
    }

    /// `(x, y, width, height)` clipped to the innermost scissor, with the
    /// window of grid cells it covers.
    fn clipped_window(&self, x: i32, y: i32, width: u32, height: u32) -> (r: Option<(u32, u32, u32, u32)>)
        requires
            self@.wf(),
            self@.add_ok(ClipRect { x, y, width, height }),
        ensures
            match r {
                Some((sx, ex, sy, ey)) => {
                    &&& sx <= ex <= self@.width
                    &&& sy <= ey <= self@.height
                    &&& forall|px: int, py: int|
                        self@.in_bounds(px, py) ==> (#[trigger] self@.covers(
                            ClipRect { x, y, width, height },
                            px,
                            py,
                        ) <==> sx <= px < ex && sy <= py < ey)
                },
                None => forall|px: int, py: int|
                    self@.in_bounds(px, py) ==> !#[trigger] self@.covers(ClipRect { x, y, width, height }, px, py),
            },
    {
        let rect = ClipRect { x, y, width, height };
        let n = self.scissor_stack.len();
        let clipped = if n == 0 {
            Some(rect)
        } else {
            intersect_clip_rect(&self.scissor_stack[n - 1], &rect)
        };
        let c = match clipped {
            Some(c) => c,
            None => {
                return None;
            },
        };
        let start_x: i32 = if c.x >= 0 {
            c.x
        } else {
            0
        };
        let start_y: i32 = if c.y >= 0 {
            c.y
        } else {
            0
        };
        let cr = c.x + to_signed(c.width);
        let cb = c.y + to_signed(c.height);
        let sw = to_signed(self.width);
        let sh = to_signed(self.height);
        let end_x: i32 = if cr <= sw {
            cr
        } else {
            sw
        };
        let end_y: i32 = if cb <= sh {
            cb
        } else {
            sh
        };
        if (end_x >= 0 && start_x >= end_x) || (end_y >= 0 && start_y >= end_y) {
            return None;
        }
        Some((start_x as u32, end_x as u32, start_y as u32, end_y as u32))
    }

    /// Writes `id` into the next grid over the rectangle clipped to the
    /// innermost scissor and to the grid; later additions overwrite earlier ones.
    pub fn add(&mut self, x: i32, y: i32, width: u32, height: u32, id: u64)
        requires
            old(self)@.wf(),
            old(self)@.add_ok(ClipRect { x, y, width, height }),
        ensures
            final(self)@ == (HitView { next: final(self)@.next, ..old(self)@ }),
            cells_added(old(self)@, old(self)@.next, final(self)@.next, ClipRect { x, y, width, height }, id),
    {
        match self.clipped_window(x, y, width, height) {
            Some((sx, ex, sy, ey)) => {
                fill_window(&mut self.next, self.width, self.height, sx, ex, sy, ey, id);
            },
            None => {},
        }
    }

    /// Writes `id` into the current grid at once, clipped as `add` clips.
    pub fn add_current(&mut self, x: i32, y: i32, width: u32, height: u32, id: u64)
        requires
            old(self)@.wf(),
            old(self)@.add_ok(ClipRect { x, y, width, height }),
        ensures
            final(self)@ == (HitView { current: final(self)@.current, ..old(self)@ }),
            cells_added(old(self)@, old(self)@.current, final(self)@.current, ClipRect { x, y, width, height }, id),
    {
        match self.clipped_window(x, y, width, height) {
            Some((sx, ex, sy, ey)) => {
                fill_window(&mut self.current, self.width, self.height, sx, ex, sy, ey, id);
            },
            None => {},
        }
    }

    /// The id in the current grid at `(x, y)`; empty outside the grid.
    pub fn check(&self, x: u32, y: u32) -> (id: u64)
        requires
            self@.wf(),
        ensures
            id == self@.hit(x as int, y as int),
    {
        if x >= self.width || y >= self.height {
            return HIT_EMPTY;
        }
        proof {
            lemma_index_bounds(self.width as int, self.height as int, x as int, y as int);
        }
        let idx = (y * self.width + x) as usize;
        self.current[idx]
    }

    /// Makes the next grid current and empties the next one. Returns (and
    /// records as the dirty flag) whether the grid changed: after a resize,
    /// or when the two grids differed.
    pub fn swap(&mut self) -> (changed: bool)
        requires
            old(self)@.wf(),
        ensures
            changed == (old(self)@.invalidated || old(self)@.current != old(self)@.next),
            final(self)@ == (HitView {
                current: old(self)@.next,
                next: empty_cells(old(self)@.current.len()),
                dirty: changed,
                invalidated: false,
                ..old(self)@
            }),
    {
        let mut same = true;
        let mut i: usize = 0;
        while i < self.current.len()
            invariant
                i <= self.current@.len(),
                self.current@.len() == self.next@.len(),
                same == (forall|j: int| 0 <= j < i ==> self.current@[j] == self.next@[j]),
            decreases self.current@.len() - i,
        {
            if self.current[i] != self.next[i] {
                same = false;
            }
            i += 1;
        }
        proof {
            if same {
                assert(self.current@ =~= self.next@);
            }
        }
        self.dirty = self.resize_invalidated || !same;
        std::mem::swap(&mut self.current, &mut self.next);
        self.next = empty_vec(self.next.len());
        self.resize_invalidated = false;
        self.dirty
    }

    /// Whether the last swap changed the grid (or it was marked so).
    pub fn is_dirty(&self) -> (d: bool)
        ensures
            d == self@.dirty,
    {
        self.dirty
    }

    /// Sets the dirty flag.
    pub fn set_dirty(&mut self, dirty: bool)
        ensures
            final(self)@ == (HitView { dirty, ..old(self)@ }),
    {
        self.dirty = dirty;
    }

    /// Pushes a scissor: the rectangle itself on an empty stack, else its
    /// overlap with the innermost scissor (an empty rectangle at the origin
    /// when they do not overlap).
    pub fn push_scissor(&mut self, x: i32, y: i32, width: u32, height: u32)
        requires
            old(self)@.scissors.len() > 0 ==> edges_fit(old(self)@.scissors.last()) && edges_fit(
                ClipRect { x, y, width, height },
            ),
        ensures
            final(self)@ == (HitView {
                scissors: old(self)@.scissors.push(
                    if old(self)@.scissors.len() == 0 {
                        ClipRect { x, y, width, height }
                    } else {
                        match intersection(old(self)@.scissors.last(), ClipRect { x, y, width, height }) {
                            Some(c) => c,
                            None => ClipRect { x: 0, y: 0, width: 0, height: 0 },
                        }
                    },
                ),
                ..old(self)@
            }),
    {
        let rect = ClipRect { x, y, width, height };
        let n = self.scissor_stack.len();
        let effective = if n == 0 {
            rect
        } else {
            match intersect_clip_rect(&self.scissor_stack[n - 1], &rect) {
                Some(c) => c,
                None => ClipRect { x: 0, y: 0, width: 0, height: 0 },
            }
        };
        self.scissor_stack.push(effective);
    }

    /// Pops the innermost scissor, if any.
    pub fn pop_scissor(&mut self)
        ensures
            final(self)@ == (HitView {
                scissors: if old(self)@.scissors.len() > 0 {
                    old(self)@.scissors.drop_last()
                } else {
                    old(self)@.scissors
                },
                ..old(self)@
            }),
    {
        let _ = self.scissor_stack.pop();
    }

    /// Removes every scissor.
    pub fn clear_scissors(&mut self)
        ensures
            final(self)@ == (HitView { scissors: Seq::empty(), ..old(self)@ }),
    {
        self.scissor_stack.clear();
    }

    /// `(width, height)`.
    pub fn dimensions(&self) -> (d: (u32, u32))
        ensures
            d == (self@.width, self@.height),
    {
        (self.width, self.height)
    }
}


/// What is added lands inside the rectangle added and inside the innermost
/// scissor: clipping never writes outside either.
pub proof fn lemma_added_cells_are_clipped(v: HitView, r: ClipRect, px: int, py: int)
    requires
        v.covers(r, px, py),
    ensures
        in_rect(r, px, py),
        v.scissors.len() > 0 ==> in_rect(v.scissors.last(), px, py),
{
}

/// After adding `r` with `id` and swapping, a hit test inside the grid
/// answers `id` where the addition reached and what the next grid held
/// before elsewhere.
pub proof fn lemma_hit_after_add_and_swap(
    v0: HitView,
    v1: HitView,
    v2: HitView,
    r: ClipRect,
    id: u64,
    x: int,
    y: int,
)
    requires
        v0.wf(),
        v1 == (HitView { next: v1.next, ..v0 }),
        cells_added(v0, v0.next, v1.next, r, id),
        v2.current == v1.next,
        v2.width == v1.width,
        v2.height == v1.height,
        v0.in_bounds(x, y),
    ensures
        v2.hit(x, y) == (if v0.covers(r, x, y) {
            id
        } else {
            v0.next_at(x, y)
        }),
{
    assert(v1.next[v0.index(x, y)] == (if v0.covers(r, x, y) {
        id
    } else {
        v0.next[v0.index(x, y)]
    }));
}

} // verus!
