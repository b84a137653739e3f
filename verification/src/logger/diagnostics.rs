//! The rolling window of recent frame times behind the frame-time and FPS
//! diagnostics: it keeps the most recent `MAX_FRAME_SAMPLES` frames.

use vstd::prelude::*;
use std::collections::VecDeque;

verus! {

/// How many recent frames the window keeps.
pub const MAX_FRAME_SAMPLES: usize = 60;

/// The sum of some frame times.
pub open spec fn total(s: Seq<u64>) -> nat
    decreases s.len(),
{
    if s.len() == 0 {
        0
    } else {
        total(s.drop_last()) + s.last() as nat
    }
}

/// The window after recording frame time `t`: `t` at the end, and the
/// oldest frame dropped when the window was full.
pub open spec fn recorded(s: Seq<u64>, t: u64) -> Seq<u64> {
    if s.len() >= MAX_FRAME_SAMPLES {
        s.drop_first().push(t)
    } else {
        s.push(t)
    }
}

/// Recent frame times, in nanoseconds, oldest first.
#[derive(Debug, Clone)]
pub struct FrameWindow {
    samples: VecDeque<u64>,
}

impl FrameWindow {
    /// The frame times held, oldest first.
    pub closed spec fn samples(&self) -> Seq<u64> {
        self.samples@
    }

    /// An empty window.
    pub fn new() -> (w: FrameWindow)
        ensures
            w.samples() == Seq::<u64>::empty(),
    {
        FrameWindow { samples: VecDeque::new() }
    }

    /// Records the time of one frame, dropping the oldest when the window
    /// is full.
    pub fn record(&mut self, nanos: u64)
        requires
            old(self).samples().len() <= MAX_FRAME_SAMPLES,
        ensures
            final(self).samples() == recorded(old(self).samples(), nanos),
            final(self).samples().len() <= MAX_FRAME_SAMPLES,
    {
        if self.samples.len() >= MAX_FRAME_SAMPLES {
            let _ = self.samples.pop_front();
        }
        self.samples.push_back(nanos);
    }

    /// How many frames the window holds.
    pub fn len(&self) -> (n: usize)
        ensures
            n == self.samples().len(),
    {
        self.samples.len()
    }

    /// Whether no frame was recorded.
    pub fn is_empty(&self) -> (b: bool)
        ensures
            b == (self.samples().len() == 0),
    {
        self.samples.len() == 0
    }

    /// The sum of the frame times held, in nanoseconds.
    pub fn total_nanos(&self) -> (t: u128)
        requires
            self.samples().len() <= MAX_FRAME_SAMPLES,
        ensures
            t == total(self.samples()),
    {
        let mut sum: u128 = 0;
        let mut i: usize = 0;
        while i < self.samples.len()
            invariant
                self.samples@.len() <= MAX_FRAME_SAMPLES,
                i <= self.samples@.len(),
                sum == total(self.samples@.take(i as int)),
                sum <= i * 0xffff_ffff_ffff_ffffu128,
            decreases self.samples@.len() - i,
        {
            proof {
                assert(self.samples@.take(i + 1).drop_last() =~= self.samples@.take(i as int));
            }
            sum = sum + self.samples[i] as u128;
            i = i + 1;
        }
        proof {
            assert(self.samples@.take(self.samples@.len() as int) =~= self.samples@);
        }
        sum
    }

    /// Forgets every frame.
    pub fn clear(&mut self)
        ensures
            final(self).samples() == Seq::<u64>::empty(),
    {
        self.samples.clear();
    }
}

impl Default for FrameWindow {
    fn default() -> (w: FrameWindow)
        ensures
            w.samples() == Seq::<u64>::empty(),
    {
        FrameWindow::new()
    }
}

/// However many frames are recorded, the window never holds more than
/// `MAX_FRAME_SAMPLES`, and once full it holds the most recent ones.
pub proof fn lemma_window_bounded(s: Seq<u64>, t: u64)
    requires
        s.len() <= MAX_FRAME_SAMPLES,
    ensures
        recorded(s, t).len() <= MAX_FRAME_SAMPLES,
        recorded(s, t).last() == t,
        s.len() == MAX_FRAME_SAMPLES ==> recorded(s, t).len() == MAX_FRAME_SAMPLES
            && recorded(s, t).take(MAX_FRAME_SAMPLES - 1) == s.skip(1),
{
    if s.len() == MAX_FRAME_SAMPLES {
        assert(recorded(s, t).take(MAX_FRAME_SAMPLES - 1) =~= s.skip(1));
    }
}

} // verus!
