//! The painter: owner of the frame buffer that render passes draw into.

use vstd::prelude::*;
use crate::framebuffer::{FrameBuffer, FrameView, blank_cell};

verus! {

/// Holds the frame buffer that rendering paints into.
pub struct Painter {
    buffer: FrameBuffer,
}

impl Painter {
    /// The frame buffer's state.
    pub closed spec fn frame(&self) -> FrameView {
        self.buffer@
    }

    /// A painter with a blank `width` by `height` buffer.
    pub fn new(width: u16, height: u16) -> (p: Painter)
        ensures
            p.frame().wf(),
            p.frame().width == width,
            p.frame().height == height,
            forall|i: int| 0 <= i < width * height ==> p.frame().front[i] == blank_cell(),
            forall|i: int| 0 <= i < width * height ==> p.frame().back[i] == blank_cell(),
    {
        Painter { buffer: FrameBuffer::new(width, height) }
    }

    /// Resizes the buffer; the front becomes blank.
    pub fn resize(&mut self, width: u16, height: u16)
        requires
            old(self).frame().wf(),
        ensures
            final(self).frame().wf(),
            final(self).frame().width == width,
            final(self).frame().height == height,
            forall|i: int| 0 <= i < width * height ==> final(self).frame().front[i] == blank_cell(),
            forall|i: int|
                0 <= i < width * height ==> final(self).frame().back[i] == (if i < old(self).frame().back.len() {
                    old(self).frame().back[i]
                } else {
                    blank_cell()
                }),
    {
        self.buffer.resize(width, height);
    }

    pub fn buffer(&self) -> (b: &FrameBuffer)
        ensures
            b@ == self.frame(),
    {
        &self.buffer
    }

    pub fn buffer_mut(&mut self) -> (b: &mut FrameBuffer)
        ensures
            b@ == old(self).frame(),
            final(self).frame() == final(b)@,
    {
        &mut self.buffer
    }

    /// Swaps the buffer's front and back grids.
    pub fn swap(&mut self)
        ensures
            final(self).frame().width == old(self).frame().width,
            final(self).frame().height == old(self).frame().height,
            final(self).frame().front == old(self).frame().back,
            final(self).frame().back == old(self).frame().front,
    {
        self.buffer.swap();
    }

    /// The cells whose front and back differ, in row-major order.
    pub fn diff(&self) -> (dirty: Vec<(u16, u16)>)
        requires
            self.frame().wf(),
        ensures
            forall|k: int|
                0 <= k < dirty@.len() ==> self.frame().in_bounds(dirty@[k].0 as int, dirty@[k].1 as int)
                    && self.frame().differs(dirty@[k].0 as int, dirty@[k].1 as int),
            forall|px: int, py: int|
                self.frame().in_bounds(px, py) && self.frame().differs(px, py) ==> exists|k: int|
                    0 <= k < dirty@.len() && dirty@[k] == (px as u16, py as u16),
            forall|k1: int, k2: int|
                0 <= k1 < k2 < dirty@.len() ==> self.frame().index(dirty@[k1].0 as int, dirty@[k1].1 as int)
                    < self.frame().index(dirty@[k2].0 as int, dirty@[k2].1 as int),
    {
        self.buffer.diff()
    }
}

impl Default for Painter {
    fn default() -> (p: Painter)
        ensures
            p.frame().wf(),
            p.frame().width == 0,
            p.frame().height == 0,
    {
        Painter::new(0, 0)
    }
}

} // verus!
