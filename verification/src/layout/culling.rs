//! Viewport culling for large scrollable lists: the children that meet
//! the viewport along the container's primary axis. A padding keeps
//! children just outside the viewport, so that they do not pop in while
//! scrolling; for long lists sorted by start, bisection skips the children
//! past the viewport.

use vstd::prelude::*;
use crate::tree::NodeId;

verus! {

/// A visible rectangle.
#[derive(Debug, Clone, Copy, PartialEq, Eq, Structural)]
pub struct Viewport {
    pub x: u16,
    pub y: u16,
    pub width: u16,
    pub height: u16,
}

/// `a + b`, or the largest `u16` when that overflows.
pub open spec fn sat_add(a: u16, b: u16) -> u16 {
    if a + b > u16::MAX {
        u16::MAX
    } else {
        (a + b) as u16
    }
}

/// `a - b`, or zero when that underflows.
pub open spec fn sat_sub(a: u16, b: u16) -> u16 {
    if a < b {
        0
    } else {
        (a - b) as u16
    }
}

/// The viewport grown by `p` on every side, saturating.
pub open spec fn padded(v: Viewport, p: u16) -> Viewport {
    Viewport {
        x: sat_sub(v.x, p),
        y: sat_sub(v.y, p),
        width: sat_add(v.width, sat_add(p, p)),
        height: sat_add(v.height, sat_add(p, p)),
    }
}

impl Viewport {
    /// The viewport at `(x, y)` of `width x height`.
    pub fn new(x: u16, y: u16, width: u16, height: u16) -> (v: Viewport)
        ensures
            v == (Viewport { x, y, width, height }),
    {
        Viewport { x, y, width, height }
    }

    /// The viewport grown by `p` on every side: the origin moves up and left
    /// by `p` (not below zero), the size grows by `2p` (not past `u16::MAX`).
    pub fn with_padding(&self, p: u16) -> (v: Viewport)
        ensures
            v == padded(*self, p),
    {
        Viewport {
            x: self.x.saturating_sub(p),
            y: self.y.saturating_sub(p),
            width: self.width.saturating_add(p.saturating_add(p)),
            height: self.height.saturating_add(p.saturating_add(p)),
        }
    }

    /// The column just right of the viewport, saturating.
    pub fn right(&self) -> (r: u16)
        ensures
            r == sat_add(self.x, self.width),
    {
        self.x.saturating_add(self.width)
    }

    /// The row just below the viewport, saturating.
    pub fn bottom(&self) -> (b: u16)
        ensures
            b == sat_add(self.y, self.height),
    {
        self.y.saturating_add(self.height)
    }
}

/// A child placed along the primary axis of its container.
#[derive(Debug, Clone, Copy, PartialEq, Eq, Structural)]
pub struct PositionedChild {
    pub id: NodeId,
    /// Start along the primary axis.
    pub start: u16,
    /// Size along the primary axis.
    pub size: u16,
}

/// The primary axis of a container.
#[derive(Debug, Clone, Copy, PartialEq, Eq, Structural)]
pub enum PrimaryAxis {
    /// Children stacked vertically: positions are rows.
    Column,
    /// Children laid out horizontally: positions are columns.
    Row,
}

/// Padding added around the viewport before culling.
pub const CULLING_PADDING: u16 = 5;

/// Where the viewport starts along `axis`.
pub open spec fn vp_start(v: Viewport, axis: PrimaryAxis) -> u16 {
    match axis {
        PrimaryAxis::Column => v.y,
        PrimaryAxis::Row => v.x,
    }
}

/// Where the viewport ends along `axis`.
pub open spec fn vp_end(v: Viewport, axis: PrimaryAxis) -> u16 {
    match axis {
        PrimaryAxis::Column => sat_add(v.y, v.height),
        PrimaryAxis::Row => sat_add(v.x, v.width),
    }
}

/// Where a child ends, saturating.
pub open spec fn child_end(c: PositionedChild) -> u16 {
    sat_add(c.start, c.size)
}

/// The child meets the span `[s, e)`.
pub open spec fn overlaps(c: PositionedChild, s: u16, e: u16) -> bool {
    child_end(c) > s && c.start < e
}

/// The ids of the children that meet `[s, e)`, in order.
pub open spec fn visible_ids(cs: Seq<PositionedChild>, s: u16, e: u16) -> Seq<NodeId>
    decreases cs.len(),
{
    if cs.len() == 0 {
        Seq::empty()
    } else {
        let r = visible_ids(cs.drop_last(), s, e);
        if overlaps(cs.last(), s, e) {
            r.push(cs.last().id)
        } else {
            r
        }
    }
}

/// The children of a scroll container that meet the padded viewport
/// `vp`, in order: nothing for an empty list or an empty viewport.
pub open spec fn objects_in_viewport(vp: Viewport, cs: Seq<PositionedChild>, axis: PrimaryAxis) -> Seq<NodeId> {
    if cs.len() == 0 || vp.width == 0 || vp.height == 0 {
        Seq::empty()
    } else {
        let p = padded(vp, CULLING_PADDING);
        visible_ids(cs, vp_start(p, axis), vp_end(p, axis))
    }
}

/// The children are sorted by start.
pub open spec fn sorted_by_start(cs: Seq<PositionedChild>) -> bool {
    forall|i: int, j: int| 0 <= i <= j < cs.len() ==> cs[i].start <= cs[j].start
}

fn viewport_start(vp: &Viewport, axis: PrimaryAxis) -> (r: u16)
    ensures
        r == vp_start(*vp, axis),
{
    match axis {
        PrimaryAxis::Column => vp.y,
        PrimaryAxis::Row => vp.x,
    }
}

fn viewport_end(vp: &Viewport, axis: PrimaryAxis) -> (r: u16)
    ensures
        r == vp_end(*vp, axis),
{
    match axis {
        PrimaryAxis::Column => vp.bottom(),
        PrimaryAxis::Row => vp.right(),
    }
}

/// The ids of `children[from..to]` that meet `[s, e)`, in order.
fn collect_visible(children: &[PositionedChild], from: usize, to: usize, s: u16, e: u16) -> (r: Vec<NodeId>)
    requires
        from <= to <= children@.len(),
    ensures
        r@ == visible_ids(children@.subrange(from as int, to as int), s, e),
{
    let mut r: Vec<NodeId> = Vec::new();
    let mut i = from;
    assert(children@.subrange(from as int, from as int) =~= Seq::<PositionedChild>::empty());
    while i < to
        invariant
            from <= i <= to <= children@.len(),
            r@ == visible_ids(children@.subrange(from as int, i as int), s, e),
        decreases to - i,
    {
        let c = children[i];
        assert(children@.subrange(from as int, i + 1).drop_last() =~= children@.subrange(from as int, i as int));
        if c.start.saturating_add(c.size) > s && c.start < e {
            r.push(c.id);
        }
        i += 1;
    }
    r
}

/// The first position whose child starts at or after `e`, found
/// by bisection; for children sorted by start, every child before it
/// starts before `e` and every child from it on starts at or after `e`.
fn first_start_at_or_after(children: &[PositionedChild], e: u16) -> (k: usize)
    ensures
        k <= children@.len(),
        sorted_by_start(children@) ==> forall|i: int| 0 <= i < children@.len() ==> (children@[i].start < e <==> i < k),
{
    let mut lo: usize = 0;
    let mut hi: usize = children.len();
    while lo < hi
        invariant
            lo <= hi <= children@.len(),
            sorted_by_start(children@) ==> forall|i: int| 0 <= i < lo ==> children@[i].start < e,
            sorted_by_start(children@) ==> forall|i: int| hi <= i < children@.len() ==> children@[i].start >= e,
        decreases hi - lo,
    {
        let mid = lo + (hi - lo) / 2;
        if children[mid].start < e {
            lo = mid + 1;
        } else {
            hi = mid;
        }
    }
    lo
}

/// The children of a scroll container to paint for `viewport`: those
/// whose span along `primary_axis` meets the viewport grown by
/// `CULLING_PADDING`, in order. For a list of 16 children or more, which
/// must be sorted by start, a bisection first skips the children that start
/// after the padded viewport.
pub fn get_objects_in_viewport(viewport: &Viewport, children: &[PositionedChild], primary_axis: PrimaryAxis) -> (r: Vec<NodeId>)
    ensures
        children@.len() < 16 || sorted_by_start(children@) ==> r@ == objects_in_viewport(
            *viewport,
            children@,
            primary_axis,
        ),
        viewport.width == 0 || viewport.height == 0 ==> r@.len() == 0,
        exists|k: int|
            0 <= k <= children@.len() && r@ == objects_in_viewport(
                *viewport,
                children@.subrange(0, k),
                primary_axis,
            ),
{
    let n = children.len();
    if n == 0 || viewport.width == 0 || viewport.height == 0 {
        proof {
            assert(children@.subrange(0, 0) =~= Seq::<PositionedChild>::empty());
            assert(objects_in_viewport(*viewport, children@.subrange(0, 0), primary_axis).len() == 0);
        }
        return Vec::new();
    }
    let vp_padded = viewport.with_padding(CULLING_PADDING);
    let vs = viewport_start(&vp_padded, primary_axis);
    let ve = viewport_end(&vp_padded, primary_axis);
    let k = if n < 16 {
        n
    } else {
        first_start_at_or_after(children, ve)
    };
    let r = collect_visible(children, 0, k, vs, ve);
    proof {
        let sub = children@.subrange(0, k as int);
        if k > 0 {
            assert(objects_in_viewport(*viewport, sub, primary_axis) == visible_ids(sub, vs, ve));
        } else {
            assert(sub =~= Seq::<PositionedChild>::empty());
        }
        if n < 16 || sorted_by_start(children@) {
            if k == n {
                assert(sub =~= children@);
            } else {
                lemma_visible_ids_prefix(children@, vs, ve, k as int);
            }
        }
    }
    r
}

/// When no child from position `k` on starts before `e`, only the children
/// before `k` can meet `[s, e)`.
proof fn lemma_visible_ids_prefix(cs: Seq<PositionedChild>, s: u16, e: u16, k: int)
    requires
        0 <= k <= cs.len(),
        forall|i: int| k <= i < cs.len() ==> cs[i].start >= e,
    ensures
        visible_ids(cs, s, e) == visible_ids(cs.subrange(0, k), s, e),
    decreases cs.len(),
{
    if cs.len() == k {
        assert(cs.subrange(0, k) =~= cs);
    } else {
        assert(cs.drop_last().subrange(0, k) =~= cs.subrange(0, k));
        lemma_visible_ids_prefix(cs.drop_last(), s, e, k);
    }
}

// ---------------------------------------------------------------------------
// Laws
// ---------------------------------------------------------------------------

proof fn lemma_visible_ids_sound(cs: Seq<PositionedChild>, s: u16, e: u16, k: int)
    requires
        0 <= k < visible_ids(cs, s, e).len(),
    ensures
        exists|i: int| 0 <= i < cs.len() && cs[i].id == visible_ids(cs, s, e)[k] && overlaps(cs[i], s, e),
    decreases cs.len(),
{
    let r = visible_ids(cs.drop_last(), s, e);
    if k < r.len() {
        lemma_visible_ids_sound(cs.drop_last(), s, e, k);
        let i = choose|i: int| 0 <= i < cs.drop_last().len() && cs.drop_last()[i].id == r[k] && overlaps(cs.drop_last()[i], s, e);
        assert(cs[i] == cs.drop_last()[i]);
    } else {
        assert(cs[cs.len() - 1] == cs.last());
    }
}

/// Every child kept meets the padded viewport, and for sorted children
/// every child that meets it is kept.
pub proof fn lemma_culling_keeps_exactly_visible(vp: Viewport, cs: Seq<PositionedChild>, axis: PrimaryAxis, k: int)
    requires
        vp.width > 0,
        vp.height > 0,
        0 <= k < objects_in_viewport(vp, cs, axis).len(),
    ensures
        exists|i: int|
            0 <= i < cs.len() && cs[i].id == objects_in_viewport(vp, cs, axis)[k] && overlaps(
                cs[i],
                vp_start(padded(vp, CULLING_PADDING), axis),
                vp_end(padded(vp, CULLING_PADDING), axis),
            ),
{
    let p = padded(vp, CULLING_PADDING);
    lemma_visible_ids_sound(cs, vp_start(p, axis), vp_end(p, axis), k);
}

/// A child that meets `[s, e)` is among the ids kept.
pub proof fn lemma_visible_ids_complete(cs: Seq<PositionedChild>, s: u16, e: u16, i: int)
    requires
        0 <= i < cs.len(),
        overlaps(cs[i], s, e),
    ensures
        visible_ids(cs, s, e).contains(cs[i].id),
    decreases cs.len(),
{
    let r = visible_ids(cs.drop_last(), s, e);
    if i < cs.len() - 1 {
        lemma_visible_ids_complete(cs.drop_last(), s, e, i);
        assert(cs.drop_last()[i] == cs[i]);
        let j = choose|j: int| 0 <= j < r.len() && r[j] == cs[i].id;
        if overlaps(cs.last(), s, e) {
            assert(r.push(cs.last().id)[j] == cs[i].id);
        }
    } else {
        assert(r.push(cs.last().id)[r.len() as int] == cs[i].id);
    }
}

} // verus!
