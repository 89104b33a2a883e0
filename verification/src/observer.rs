//! The observer's sequential state across frames — the stack of rendered
//! frames used for temporal accumulation — and the pixel layout of the ray
//! fan the observer casts.

use vstd::prelude::*;
use crate::frame::{Frame, is_accumulation_of};

verus! {

/// The frames rendered since accumulation mode was switched on. While the
/// mode is on, every rendered frame is pushed and the displayed result is
/// the per-pixel running average over the whole stack; switching the mode
/// off clears the stack at once.
pub struct FrameStack {
    pub accumulation_mode: bool,
    frames: Vec<Frame>,
}

impl FrameStack {
    /// The stored frames, oldest first.
    pub closed spec fn frame_seq(self) -> Seq<Frame> {
        self.frames@
    }

    /// Whether accumulation mode is on.
    pub closed spec fn is_accumulating(self) -> bool {
        self.accumulation_mode
    }

    /// The stack is empty whenever accumulation mode is off, and holds only
    /// well-formed frames.
    pub open spec fn wf(self) -> bool {
        &&& !self.is_accumulating() ==> self.frame_seq().len() == 0
        &&& forall|i: int| 0 <= i < self.frame_seq().len() ==> (#[trigger] self.frame_seq()[i]).wf()
    }

    /// An empty stack with accumulation off.
    pub fn new() -> (s: FrameStack)
        ensures
            s.wf(),
            !s.is_accumulating(),
            s.frame_seq().len() == 0,
    {
        FrameStack { accumulation_mode: false, frames: Vec::new() }
    }

    /// How many frames the stack currently holds.
    pub fn frame_count(&self) -> (n: usize)
        ensures
            n == self.frame_seq().len(),
    {
        self.frames.len()
    }

    /// Toggles accumulation mode; leaving the mode discards the stored
    /// frames, and entering it starts from the empty stack.
    pub fn switch_accumulation_mode(&mut self)
        requires
            old(self).wf(),
        ensures
            final(self).wf(),
            final(self).is_accumulating() == !old(self).is_accumulating(),
            final(self).frame_seq().len() == 0,
    {
        self.accumulation_mode = !self.accumulation_mode;
        if !self.accumulation_mode {
            self.frames = Vec::new();
        }
    }

    /// Takes the frame just rendered and yields the frame to display: the
    /// rendered frame itself while accumulation is off, else the per-pixel
    /// running average over every frame rendered since the mode came on.
    pub fn get_next_frame(&mut self, frame: Frame) -> (display: Frame)
        requires
            old(self).wf(),
            frame.wf(),
            255 * (old(self).frame_seq().len() + 1) <= u64::MAX,
        ensures
            final(self).wf(),
            final(self).is_accumulating() == old(self).is_accumulating(),
            !old(self).is_accumulating() ==> final(self).frame_seq()
                == old(self).frame_seq() && display == frame,
            old(self).is_accumulating() ==> final(self).frame_seq() == old(
                self,
            ).frame_seq().push(frame) && is_accumulation_of(display, final(self).frame_seq()),
    {
        if self.accumulation_mode {
            self.frames.push(frame);
            Frame::accumulate_frames(&self.frames)
        } else {
            frame
        }
    }
}

/// One ray of the observer's fan: the two screen-plane offsets of the point
/// the ray is aimed at, and the frame pixel this ray is responsible for.
#[derive(Clone, Copy, Debug, PartialEq, Eq, Structural)]
pub struct RayTarget {
    pub hor_offset: i64,
    pub ver_offset: i64,
    pub pixel_x: i64,
    pub pixel_y: i64,
}

/// The pixel layout of the ray fan: one ray per integer offset pair within
/// the horizontal and vertical bounds, in row-major order (all vertical
/// offsets of the first horizontal offset first), each ray responsible for
/// the pixel its offsets have relative to the lower bounds.
pub fn generate_ray_grid(min_hor: i64, max_hor: i64, min_ver: i64, max_ver: i64) -> (grid: Vec<
    RayTarget,
>)
    requires
        min_hor <= max_hor,
        min_ver <= max_ver,
        max_hor - min_hor <= i64::MAX,
        max_ver - min_ver <= i64::MAX,
        (max_hor - min_hor) * (max_ver - min_ver) <= usize::MAX,
    ensures
        grid@.len() == (max_hor - min_hor) * (max_ver - min_ver),
        forall|k: int|
            0 <= k < grid@.len() ==> grid@[k] == (RayTarget {
                hor_offset: (min_hor + k / (max_ver - min_ver)) as i64,
                ver_offset: (min_ver + k % (max_ver - min_ver)) as i64,
                pixel_x: (k / (max_ver - min_ver)) as i64,
                pixel_y: (k % (max_ver - min_ver)) as i64,
            }),
{
    let ghost height = (max_ver - min_ver) as int;
    let mut grid: Vec<RayTarget> = Vec::new();
    let mut x: i64 = min_hor;
    while x < max_hor
        invariant
            min_hor <= x <= max_hor,
            min_ver <= max_ver,
            max_hor - min_hor <= i64::MAX,
            max_ver - min_ver <= i64::MAX,
            (max_hor - min_hor) * height <= usize::MAX,
            height == max_ver - min_ver,
            grid@.len() == (x - min_hor) * height,
            forall|k: int|
                0 <= k < grid@.len() ==> grid@[k] == (RayTarget {
                    hor_offset: (min_hor + k / height) as i64,
                    ver_offset: (min_ver + k % height) as i64,
                    pixel_x: (k / height) as i64,
                    pixel_y: (k % height) as i64,
                }),
        decreases max_hor - x,
    {
        proof {
            assert((x - min_hor) * height <= (max_hor - min_hor) * height && (x + 1 - min_hor)
                * height <= (max_hor - min_hor) * height && (x - min_hor) * height + height == (x
                + 1 - min_hor) * height && (x - min_hor) * height >= 0) by (nonlinear_arith)
                requires
                    min_hor <= x < max_hor,
                    height >= 0,
            ;
        }
        let mut y: i64 = min_ver;
        while y < max_ver
            invariant
                min_hor <= x < max_hor,
                min_ver <= y <= max_ver,
                max_hor - min_hor <= i64::MAX,
                max_ver - min_ver <= i64::MAX,
                height == max_ver - min_ver,
                (x - min_hor) * height + height <= usize::MAX,
                (x - min_hor) * height >= 0,
                grid@.len() == (x - min_hor) * height + (y - min_ver),
                forall|k: int|
                    0 <= k < grid@.len() ==> grid@[k] == (RayTarget {
                        hor_offset: (min_hor + k / height) as i64,
                        ver_offset: (min_ver + k % height) as i64,
                        pixel_x: (k / height) as i64,
                        pixel_y: (k % height) as i64,
                    }),
            decreases max_ver - y,
        {
            proof {
                let k = grid@.len() as int;
                vstd::arithmetic::div_mod::lemma_fundamental_div_mod_converse_div(
                    k,
                    height,
                    (x - min_hor) as int,
                    (y - min_ver) as int,
                );
                vstd::arithmetic::div_mod::lemma_fundamental_div_mod_converse_mod(
                    k,
                    height,
                    (x - min_hor) as int,
                    (y - min_ver) as int,
                );
            }
            grid.push(
                RayTarget {
                    hor_offset: x,
                    ver_offset: y,
                    pixel_x: x - min_hor,
                    pixel_y: y - min_ver,
                },
            );
            y = y + 1;
        }
        x = x + 1;
    }
    grid
}

} // verus!
