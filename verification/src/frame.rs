//! A frame maps integer pixel coordinates to colors, one entry per traced
//! ray. A stack of frames can be averaged per pixel for temporal
//! accumulation.

use vstd::prelude::*;
use crate::color::Color;

verus! {

/// One pixel of a frame: the coordinate a ray was responsible for, and the
/// color its trace produced.
#[derive(Clone, Copy, Debug, PartialEq, Eq, Structural)]
pub struct FrameEntry {
    pub x: i64,
    pub y: i64,
    pub color: Color,
}

/// Whether some entry of `entries` lies at pixel `(x, y)`.
pub open spec fn entries_contain(entries: Seq<FrameEntry>, x: int, y: int) -> bool {
    exists|i: int| 0 <= i < entries.len() && entries[i].x == x && entries[i].y == y
}

/// A mapping from pixel coordinates to colors, built fresh for every render
/// call. No two entries share a pixel.
pub struct Frame {
    entries: Vec<FrameEntry>,
}

impl Frame {
    /// The entries of the map, in insertion order.
    pub closed spec fn entry_seq(self) -> Seq<FrameEntry> {
        self.entries@
    }

    /// Each pixel coordinate appears at most once.
    pub open spec fn wf(self) -> bool {
        forall|i: int, j: int|
            0 <= i < j < self.entry_seq().len() ==> !(self.entry_seq()[i].x == self.entry_seq()[j].x
                && self.entry_seq()[i].y == self.entry_seq()[j].y)
    }

    /// Whether the frame maps pixel `(x, y)`.
    pub open spec fn contains_pixel(self, x: int, y: int) -> bool {
        entries_contain(self.entry_seq(), x, y)
    }

    /// The color the frame maps pixel `(x, y)` to; meaningful only when
    /// `contains_pixel(x, y)` holds.
    pub open spec fn color_at(self, x: int, y: int) -> Color {
        self.entry_seq()[choose|i: int|
            0 <= i < self.entry_seq().len() && self.entry_seq()[i].x == x
                && self.entry_seq()[i].y == y].color
    }

    /// In a well-formed frame, the entry at index `i` is the one and only
    /// entry at its pixel.
    proof fn lemma_entry_is_color_at(self, i: int)
        requires
            self.wf(),
            0 <= i < self.entry_seq().len(),
        ensures
            self.contains_pixel(self.entry_seq()[i].x as int, self.entry_seq()[i].y as int),
            self.color_at(self.entry_seq()[i].x as int, self.entry_seq()[i].y as int)
                == self.entry_seq()[i].color,
    {
        let x = self.entry_seq()[i].x as int;
        let y = self.entry_seq()[i].y as int;
        assert(self.contains_pixel(x, y));
        let j = choose|j: int|
            0 <= j < self.entry_seq().len() && self.entry_seq()[j].x == x
                && self.entry_seq()[j].y == y;
        assert(i == j);
    }

    /// An empty frame.
    pub fn new() -> (frame: Frame)
        ensures
            frame.wf(),
            frame.entry_seq().len() == 0,
            forall|x: int, y: int| !frame.contains_pixel(x, y),
    {
        Frame { entries: Vec::new() }
    }

    /// The index of the entry at `(x, y)`, if the frame maps that pixel.
    fn find_entry(&self, x: i64, y: i64) -> (idx: Option<usize>)
        ensures
            match idx {
                Some(i) => i < self.entry_seq().len() && self.entry_seq()[i as int].x == x
                    && self.entry_seq()[i as int].y == y,
                None => !self.contains_pixel(x as int, y as int),
            },
    {
        let mut i: usize = 0;
        while i < self.entries.len()
            invariant
                i <= self.entry_seq().len(),
                forall|k: int|
                    0 <= k < i ==> !(self.entry_seq()[k].x == x && self.entry_seq()[k].y == y),
            decreases self.entry_seq().len() - i,
        {
            if self.entries[i].x == x && self.entries[i].y == y {
                return Some(i);
            }
            i = i + 1;
        }
        None
    }

    /// The color at pixel `(x, y)`, or `None` where the frame has no entry.
    pub fn get_color(&self, x: i64, y: i64) -> (c: Option<Color>)
        requires
            self.wf(),
        ensures
            match c {
                Some(color) => self.contains_pixel(x as int, y as int) && color == self.color_at(
                    x as int,
                    y as int,
                ),
                None => !self.contains_pixel(x as int, y as int),
            },
    {
        match self.find_entry(x, y) {
            Some(i) => {
                proof {
                    self.lemma_entry_is_color_at(i as int);
                }
                Some(self.entries[i].color)
            },
            None => None,
        }
    }

    /// Maps pixel `(x, y)` to `color`, replacing any earlier entry at that
    /// pixel; every other pixel keeps its mapping.
    pub fn set_pixel(&mut self, x: i64, y: i64, color: Color)
        requires
            old(self).wf(),
        ensures
            final(self).wf(),
            final(self).contains_pixel(x as int, y as int),
            final(self).color_at(x as int, y as int) == color,
            forall|px: int, py: int|
                !(px == x as int && py == y as int) ==> (final(self).contains_pixel(px, py)
                    <==> old(self).contains_pixel(px, py)),
            forall|px: int, py: int|
                !(px == x as int && py == y as int) && old(self).contains_pixel(px, py)
                    ==> final(self).color_at(px, py) == old(self).color_at(px, py),
    {
        let ghost pre = *self;
        match self.find_entry(x, y) {
            Some(i) => {
                self.entries.remove(i);
                proof {
                    assert forall|px: int, py: int|
                        !(px == x as int && py == y as int) implies (self.contains_pixel(px, py)
                        <==> pre.contains_pixel(px, py)) by {
                        if pre.contains_pixel(px, py) {
                            let k = choose|k: int|
                                0 <= k < pre.entry_seq().len() && pre.entry_seq()[k].x == px
                                    && pre.entry_seq()[k].y == py;
                            if k < i {
                                assert(self.entry_seq()[k] == pre.entry_seq()[k]);
                            } else {
                                assert(k > i);
                                assert(self.entry_seq()[k - 1] == pre.entry_seq()[k]);
                            }
                        }
                        if self.contains_pixel(px, py) {
                            let k = choose|k: int|
                                0 <= k < self.entry_seq().len() && self.entry_seq()[k].x == px
                                    && self.entry_seq()[k].y == py;
                            if k < i {
                                assert(pre.entry_seq()[k] == self.entry_seq()[k]);
                            } else {
                                assert(pre.entry_seq()[k + 1] == self.entry_seq()[k]);
                            }
                        }
                    }
                    assert forall|px: int, py: int|
                        !(px == x as int && py == y as int) && pre.contains_pixel(px, py)
                        implies #[trigger] self.color_at(px, py) == pre.color_at(px, py) by {
                        let k = choose|k: int|
                            0 <= k < self.entry_seq().len() && self.entry_seq()[k].x == px
                                && self.entry_seq()[k].y == py;
                        if k < i {
                            assert(pre.entry_seq()[k] == self.entry_seq()[k]);
                            pre.lemma_entry_is_color_at(k);
                        } else {
                            assert(pre.entry_seq()[k + 1] == self.entry_seq()[k]);
                            pre.lemma_entry_is_color_at(k + 1);
                        }
                        self.lemma_entry_is_color_at(k);
                    }
                    assert(!self.contains_pixel(x as int, y as int));
                }
                let ghost removed = *self;
                self.entries.push(FrameEntry { x, y, color });
                proof {
                    self.lemma_push_keeps_map(removed, FrameEntry { x, y, color });
                }
            },
            None => {
                self.entries.push(FrameEntry { x, y, color });
                proof {
                    self.lemma_push_keeps_map(pre, FrameEntry { x, y, color });
                }
            },
        }
    }

    /// Pushing an entry at a fresh pixel adds exactly that mapping.
    proof fn lemma_push_keeps_map(self, pre: Frame, e: FrameEntry)
        requires
            pre.wf(),
            !pre.contains_pixel(e.x as int, e.y as int),
            self.entry_seq() == pre.entry_seq().push(e),
        ensures
            self.wf(),
            self.contains_pixel(e.x as int, e.y as int),
            self.color_at(e.x as int, e.y as int) == e.color,
            forall|px: int, py: int|
                !(px == e.x as int && py == e.y as int) ==> (self.contains_pixel(px, py)
                    <==> pre.contains_pixel(px, py)),
            forall|px: int, py: int|
                !(px == e.x as int && py == e.y as int) && pre.contains_pixel(px, py)
                    ==> self.color_at(px, py) == pre.color_at(px, py),
    {
        let n = pre.entry_seq().len() as int;
        assert forall|i: int, j: int|
            0 <= i < j < self.entry_seq().len() implies !(self.entry_seq()[i].x
            == self.entry_seq()[j].x && self.entry_seq()[i].y == self.entry_seq()[j].y) by {
            if j == n {
                assert(self.entry_seq()[i] == pre.entry_seq()[i]);
            }
        }
        assert(self.entry_seq()[n] == e);
        self.lemma_entry_is_color_at(n);
        assert forall|px: int, py: int|
            !(px == e.x as int && py == e.y as int) implies (self.contains_pixel(px, py)
            <==> pre.contains_pixel(px, py)) by {
            if pre.contains_pixel(px, py) {
                let k = choose|k: int|
                    0 <= k < pre.entry_seq().len() && pre.entry_seq()[k].x == px
                        && pre.entry_seq()[k].y == py;
                assert(self.entry_seq()[k] == pre.entry_seq()[k]);
            }
            if self.contains_pixel(px, py) {
                let k = choose|k: int|
                    0 <= k < self.entry_seq().len() && self.entry_seq()[k].x == px
                        && self.entry_seq()[k].y == py;
                assert(k < n);
                assert(pre.entry_seq()[k] == self.entry_seq()[k]);
            }
        }
        assert forall|px: int, py: int|
            !(px == e.x as int && py == e.y as int) && pre.contains_pixel(px, py)
            implies #[trigger] self.color_at(px, py) == pre.color_at(px, py) by {
            let k = choose|k: int|
                0 <= k < pre.entry_seq().len() && pre.entry_seq()[k].x == px
                    && pre.entry_seq()[k].y == py;
            assert(self.entry_seq()[k] == pre.entry_seq()[k]);
            pre.lemma_entry_is_color_at(k);
            self.lemma_entry_is_color_at(k);
        }
    }

    /// The frame holding one entry per traced pixel: each ray's pixel gets
    /// the color its trace produced, and where two traces name the same
    /// pixel, the later one wins.
    pub fn create_from_ray_trace(traces: &Vec<FrameEntry>) -> (frame: Frame)
        ensures
            frame.wf(),
            forall|x: int, y: int|
                frame.contains_pixel(x, y) <==> entries_contain(traces@, x, y),
            forall|x: int, y: int|
                entries_contain(traces@, x, y) ==> frame.color_at(x, y) == last_entry_color(
                    traces@,
                    x,
                    y,
                ),
    {
        let mut frame = Frame::new();
        let mut i: usize = 0;
        while i < traces.len()
            invariant
                i <= traces@.len(),
                frame.wf(),
                forall|x: int, y: int|
                    frame.contains_pixel(x, y) <==> entries_contain(
                        traces@.subrange(0, i as int),
                        x,
                        y,
                    ),
                forall|x: int, y: int|
                    entries_contain(traces@.subrange(0, i as int), x, y)
                        ==> frame.color_at(x, y) == last_entry_color(
                        traces@.subrange(0, i as int),
                        x,
                        y,
                    ),
            decreases traces@.len() - i,
        {
            let e = traces[i];
            frame.set_pixel(e.x, e.y, e.color);
            proof {
                let pre = traces@.subrange(0, i as int);
                let cur = traces@.subrange(0, i + 1);
                assert(cur.drop_last() =~= pre);
                assert(cur.last() == traces@[i as int]);
                assert forall|x: int, y: int|
                    frame.contains_pixel(x, y) <==> entries_contain(cur, x, y) by {
                    if entries_contain(pre, x, y) {
                        let k = choose|k: int|
                            0 <= k < pre.len() && pre[k].x == x && pre[k].y == y;
                        assert(cur[k] == pre[k]);
                    }
                    if entries_contain(cur, x, y) && !(x == e.x as int && y == e.y as int) {
                        let k = choose|k: int|
                            0 <= k < cur.len() && cur[k].x == x && cur[k].y == y;
                        assert(k < pre.len());
                        assert(pre[k] == cur[k]);
                    }
                    if x == e.x as int && y == e.y as int {
                        assert(cur[i as int].x == x && cur[i as int].y == y);
                    }
                }
            }
            i = i + 1;
        }
        proof {
            assert(traces@.subrange(0, i as int) =~= traces@);
        }
        frame
    }

    /// The per-pixel running average over a stack of frames: exactly the
    /// pixels that some frame maps appear, and every channel is the
    /// truncated mean of that channel over the frames mapping the pixel.
    pub fn accumulate_frames(frames: &Vec<Frame>) -> (display: Frame)
        requires
            forall|i: int| 0 <= i < frames@.len() ==> (#[trigger] frames@[i]).wf(),
            255 * frames@.len() <= u64::MAX,
        ensures
            is_accumulation_of(display, frames@),
    {
        // First gather every pixel that any frame of the stack maps.
        let mut keys: Vec<(i64, i64)> = Vec::new();
        let mut fi: usize = 0;
        while fi < frames.len()
            invariant
                fi <= frames@.len(),
                forall|i: int| 0 <= i < frames@.len() ==> (#[trigger] frames@[i]).wf(),
                forall|x: int, y: int|
                    keys_contain(keys@, x, y) <==> stack_count(
                        frames@.subrange(0, fi as int),
                        x,
                        y,
                    ) > 0,
            decreases frames@.len() - fi,
        {
            let ghost pre_stack = frames@.subrange(0, fi as int);
            let f = &frames[fi];
            let mut j: usize = 0;
            while j < f.entries.len()
                invariant
                    fi < frames@.len(),
                    f == &frames@[fi as int],
                    pre_stack == frames@.subrange(0, fi as int),
                    j <= f.entry_seq().len(),
                    forall|x: int, y: int|
                        keys_contain(keys@, x, y) <==> (stack_count(pre_stack, x, y) > 0
                            || entries_contain(f.entry_seq().subrange(0, j as int), x, y)),
                decreases f.entry_seq().len() - j,
            {
                let e = f.entries[j];
                let ghost pre_keys = keys@;
                if !key_present(&keys, e.x, e.y) {
                    keys.push((e.x, e.y));
                }
                proof {
                    let pre_entries = f.entry_seq().subrange(0, j as int);
                    let cur_entries = f.entry_seq().subrange(0, j + 1);
                    assert(cur_entries[j as int] == e);
                    assert(keys_contain(keys@, e.x as int, e.y as int)) by {
                        if keys@.len() > pre_keys.len() {
                            assert(keys@[pre_keys.len() as int] == (e.x, e.y));
                        }
                    }
                    assert forall|x: int, y: int| #![trigger keys_contain(keys@, x, y)]
                        keys_contain(keys@, x, y) <==> (stack_count(pre_stack, x, y) > 0
                            || entries_contain(cur_entries, x, y)) by {
                        if keys_contain(keys@, x, y) {
                            let k = choose|k: int|
                                0 <= k < keys@.len() && keys@[k].0 == x && keys@[k].1 == y;
                            if k < pre_keys.len() {
                                assert(pre_keys[k] == keys@[k]);
                                assert(keys_contain(pre_keys, x, y));
                                if entries_contain(pre_entries, x, y) {
                                    let m = choose|m: int|
                                        0 <= m < pre_entries.len() && pre_entries[m].x == x
                                            && pre_entries[m].y == y;
                                    assert(cur_entries[m] == pre_entries[m]);
                                }
                            } else {
                                assert(keys@[k] == (e.x, e.y));
                                assert(cur_entries[j as int].x == x && cur_entries[j as int].y
                                    == y);
                            }
                        }
                        if stack_count(pre_stack, x, y) > 0 {
                            assert(keys_contain(pre_keys, x, y));
                            let k = choose|k: int|
                                0 <= k < pre_keys.len() && pre_keys[k].0 == x && pre_keys[k].1
                                    == y;
                            assert(keys@[k] == pre_keys[k]);
                        } else if entries_contain(cur_entries, x, y) {
                            let m = choose|m: int|
                                0 <= m < cur_entries.len() && cur_entries[m].x == x
                                    && cur_entries[m].y == y;
                            if m < j {
                                assert(pre_entries[m] == cur_entries[m]);
                                assert(entries_contain(pre_entries, x, y));
                                assert(keys_contain(pre_keys, x, y));
                                let k = choose|k: int|
                                    0 <= k < pre_keys.len() && pre_keys[k].0 == x && pre_keys[k].1
                                        == y;
                                assert(keys@[k] == pre_keys[k]);
                            } else {
                                assert(cur_entries[m] == e);
                            }
                        }
                    }
                }
                j = j + 1;
            }
            proof {
                let cur_stack = frames@.subrange(0, fi + 1);
                assert(f.entry_seq().subrange(0, j as int) =~= f.entry_seq());
                assert(cur_stack.drop_last() =~= pre_stack);
                assert(cur_stack.last() == frames@[fi as int]);
            }
            fi = fi + 1;
        }
        proof {
            assert(frames@.subrange(0, fi as int) =~= frames@);
        }
        // Then average each gathered pixel over the frames that map it.
        let mut display = Frame::new();
        let mut ki: usize = 0;
        while ki < keys.len()
            invariant
                ki <= keys@.len(),
                forall|i: int| 0 <= i < frames@.len() ==> (#[trigger] frames@[i]).wf(),
                255 * frames@.len() <= u64::MAX,
                forall|x: int, y: int|
                    keys_contain(keys@, x, y) <==> stack_count(frames@, x, y) > 0,
                display.wf(),
                forall|x: int, y: int|
                    display.contains_pixel(x, y) <==> keys_contain(
                        keys@.subrange(0, ki as int),
                        x,
                        y,
                    ),
                forall|x: int, y: int, k: int|
                    display.contains_pixel(x, y) && 0 <= k < 4 ==> channel(
                        display.color_at(x, y),
                        k,
                    ) == stack_sum(frames@, x, y, k) / stack_count(frames@, x, y),
            decreases keys@.len() - ki,
        {
            let (kx, ky) = keys[ki];
            let mut acc = PixelAccumulator { r: 0, g: 0, b: 0, a: 0, count: 0 };
            let mut fi: usize = 0;
            while fi < frames.len()
                invariant
                    fi <= frames@.len(),
                    forall|i: int| 0 <= i < frames@.len() ==> (#[trigger] frames@[i]).wf(),
                    255 * frames@.len() <= u64::MAX,
                    acc.count as nat == stack_count(
                        frames@.subrange(0, fi as int),
                        kx as int,
                        ky as int,
                    ),
                    acc.r as nat == stack_sum(
                        frames@.subrange(0, fi as int),
                        kx as int,
                        ky as int,
                        0,
                    ),
                    acc.g as nat == stack_sum(
                        frames@.subrange(0, fi as int),
                        kx as int,
                        ky as int,
                        1,
                    ),
                    acc.b as nat == stack_sum(
                        frames@.subrange(0, fi as int),
                        kx as int,
                        ky as int,
                        2,
                    ),
                    acc.a as nat == stack_sum(
                        frames@.subrange(0, fi as int),
                        kx as int,
                        ky as int,
                        3,
                    ),
                    acc.count <= fi,
                    acc.r <= 255 * acc.count,
                    acc.g <= 255 * acc.count,
                    acc.b <= 255 * acc.count,
                    acc.a <= 255 * acc.count,
                decreases frames@.len() - fi,
            {
                proof {
                    let cur_stack = frames@.subrange(0, fi + 1);
                    assert(cur_stack.drop_last() =~= frames@.subrange(0, fi as int));
                    assert(cur_stack.last() == frames@[fi as int]);
                }
                match frames[fi].get_color(kx, ky) {
                    Some(c) => {
                        acc.r = acc.r + c.r as u64;
                        acc.g = acc.g + c.g as u64;
                        acc.b = acc.b + c.b as u64;
                        acc.a = acc.a + c.a as u64;
                        acc.count = acc.count + 1;
                    },
                    None => {},
                }
                fi = fi + 1;
            }
            proof {
                assert(frames@.subrange(0, fi as int) =~= frames@);
                assert(keys_contain(keys@, kx as int, ky as int));
                assert(acc.count > 0);
            }
            let c = acc.get_color();
            proof {
                vstd::arithmetic::div_mod::lemma_multiply_divide_le(
                    acc.r as int,
                    acc.count as int,
                    255,
                );
                vstd::arithmetic::div_mod::lemma_multiply_divide_le(
                    acc.g as int,
                    acc.count as int,
                    255,
                );
                vstd::arithmetic::div_mod::lemma_multiply_divide_le(
                    acc.b as int,
                    acc.count as int,
                    255,
                );
                vstd::arithmetic::div_mod::lemma_multiply_divide_le(
                    acc.a as int,
                    acc.count as int,
                    255,
                );
            }
            let ghost pre_display = display;
            display.set_pixel(kx, ky, c);
            proof {
                assert forall|x: int, y: int|
                    display.contains_pixel(x, y) <==> keys_contain(
                        keys@.subrange(0, ki + 1),
                        x,
                        y,
                    ) by {
                    let pre_keys = keys@.subrange(0, ki as int);
                    let cur_keys = keys@.subrange(0, ki + 1);
                    if keys_contain(pre_keys, x, y) {
                        let k = choose|k: int|
                            0 <= k < pre_keys.len() && pre_keys[k].0 == x && pre_keys[k].1 == y;
                        assert(cur_keys[k] == pre_keys[k]);
                    }
                    if keys_contain(cur_keys, x, y) && !(x == kx as int && y == ky as int) {
                        let k = choose|k: int|
                            0 <= k < cur_keys.len() && cur_keys[k].0 == x && cur_keys[k].1 == y;
                        assert(k < ki);
                        assert(pre_keys[k] == cur_keys[k]);
                    }
                    if x == kx as int && y == ky as int {
                        assert(cur_keys[ki as int].0 == x && cur_keys[ki as int].1 == y);
                    }
                }
                assert forall|x: int, y: int, k: int|
                    display.contains_pixel(x, y) && 0 <= k < 4 implies channel(
                    display.color_at(x, y),
                    k,
                ) == stack_sum(frames@, x, y, k) / stack_count(frames@, x, y) by {
                    if x == kx as int && y == ky as int {
                        assert(display.color_at(x, y) == c);
                    } else {
                        assert(pre_display.contains_pixel(x, y));
                        assert(display.color_at(x, y) == pre_display.color_at(x, y));
                    }
                }
            }
            ki = ki + 1;
        }
        proof {
            assert(keys@.subrange(0, ki as int) =~= keys@);
        }
        display
    }
}

/// Whether some element of `keys` is the pixel `(x, y)`.
spec fn keys_contain(keys: Seq<(i64, i64)>, x: int, y: int) -> bool {
    exists|i: int| 0 <= i < keys.len() && keys[i].0 == x && keys[i].1 == y
}

/// Whether `keys` holds the pixel `(x, y)`.
fn key_present(keys: &Vec<(i64, i64)>, x: i64, y: i64) -> (r: bool)
    ensures
        r == keys_contain(keys@, x as int, y as int),
{
    let mut i: usize = 0;
    while i < keys.len()
        invariant
            i <= keys@.len(),
            forall|k: int| 0 <= k < i ==> !(keys@[k].0 == x && keys@[k].1 == y),
        decreases keys@.len() - i,
    {
        if keys[i].0 == x && keys[i].1 == y {
            return true;
        }
        i = i + 1;
    }
    false
}

/// Per-pixel running sums of the channel values over a stack of frames,
/// together with how many frames mapped the pixel.
#[derive(Clone, Copy, Debug)]
pub struct PixelAccumulator {
    pub r: u64,
    pub g: u64,
    pub b: u64,
    pub a: u64,
    pub count: u64,
}

impl PixelAccumulator {
    /// The per-channel average of the accumulated sums, truncated to the
    /// channel width.
    pub fn get_color(&self) -> (c: Color)
        requires
            self.count > 0,
        ensures
            c.r == (self.r / self.count) as u8,
            c.g == (self.g / self.count) as u8,
            c.b == (self.b / self.count) as u8,
            c.a == (self.a / self.count) as u8,
    {
        Color {
            r: #[verifier::truncate] ((self.r / self.count) as u8),
            g: #[verifier::truncate] ((self.g / self.count) as u8),
            b: #[verifier::truncate] ((self.b / self.count) as u8),
            a: #[verifier::truncate] ((self.a / self.count) as u8),
        }
    }
}

/// Channel `k` of a color as a mathematical integer: red, green, blue, alpha
/// in that order.
pub open spec fn channel(c: Color, k: int) -> nat {
    if k == 0 {
        c.r as nat
    } else if k == 1 {
        c.g as nat
    } else if k == 2 {
        c.b as nat
    } else {
        c.a as nat
    }
}

/// How many frames of the stack map pixel `(x, y)`.
pub open spec fn stack_count(frames: Seq<Frame>, x: int, y: int) -> nat
    decreases frames.len(),
{
    if frames.len() == 0 {
        0
    } else {
        stack_count(frames.drop_last(), x, y) + (if frames.last().contains_pixel(x, y) {
            1nat
        } else {
            0nat
        })
    }
}

/// The sum of channel `k` at pixel `(x, y)` over the frames of the stack
/// that map the pixel.
pub open spec fn stack_sum(frames: Seq<Frame>, x: int, y: int, k: int) -> nat
    decreases frames.len(),
{
    if frames.len() == 0 {
        0
    } else {
        stack_sum(frames.drop_last(), x, y, k) + (if frames.last().contains_pixel(x, y) {
            channel(frames.last().color_at(x, y), k)
        } else {
            0nat
        })
    }
}

/// What the displayed frame of a stack holds: exactly the pixels some frame
/// maps, each with the per-channel running average over the frames mapping
/// it.
pub open spec fn is_accumulation_of(display: Frame, frames: Seq<Frame>) -> bool {
    &&& display.wf()
    &&& forall|x: int, y: int| display.contains_pixel(x, y) <==> stack_count(frames, x, y) > 0
    &&& forall|x: int, y: int, k: int|
        stack_count(frames, x, y) > 0 && 0 <= k < 4 ==> channel(display.color_at(x, y), k)
            == stack_sum(frames, x, y, k) / stack_count(frames, x, y)
}

/// Over a stack whose frames all equal `f`, a pixel is counted once per
/// frame, and each channel sum is the count times the channel value.
proof fn lemma_stack_constant(frames: Seq<Frame>, f: Frame, x: int, y: int)
    requires
        forall|i: int| 0 <= i < frames.len() ==> frames[i] == f,
    ensures
        stack_count(frames, x, y) == if f.contains_pixel(x, y) {
            frames.len()
        } else {
            0nat
        },
        forall|k: int|
            #[trigger] stack_sum(frames, x, y, k) == stack_count(frames, x, y) * channel(
                f.color_at(x, y),
                k,
            ),
    decreases frames.len(),
{
    if frames.len() > 0 {
        lemma_stack_constant(frames.drop_last(), f, x, y);
        assert(frames.last() == f);
        assert forall|k: int|
            #[trigger] stack_sum(frames, x, y, k) == stack_count(frames, x, y) * channel(
                f.color_at(x, y),
                k,
            ) by {
            let c = stack_count(frames.drop_last(), x, y);
            let ch = channel(f.color_at(x, y), k);
            assert(stack_sum(frames.drop_last(), x, y, k) == c * ch);
            if f.contains_pixel(x, y) {
                assert(stack_sum(frames, x, y, k) == c * ch + ch);
                assert(stack_count(frames, x, y) == c + 1);
                assert((c + 1) * ch == c * ch + ch) by (nonlinear_arith);
            } else {
                assert(stack_sum(frames, x, y, k) == c * ch);
                assert(stack_count(frames, x, y) == c);
            }
        }
    } else {
        assert forall|k: int|
            #[trigger] stack_sum(frames, x, y, k) == stack_count(frames, x, y) * channel(
                f.color_at(x, y),
                k,
            ) by {
            assert(stack_sum(frames, x, y, k) == 0);
            assert(stack_count(frames, x, y) == 0);
            assert(0 * channel(f.color_at(x, y), k) == 0) by (nonlinear_arith);
        }
    }
}

/// Temporal accumulation of identical frames reproduces the frame: the
/// displayed average over a stack of equal frames maps the same pixels to
/// the same colors as any one of them.
pub proof fn lemma_accumulate_identical(display: Frame, frames: Seq<Frame>, f: Frame)
    requires
        frames.len() > 0,
        forall|i: int| 0 <= i < frames.len() ==> frames[i] == f,
        is_accumulation_of(display, frames),
    ensures
        forall|x: int, y: int| display.contains_pixel(x, y) <==> f.contains_pixel(x, y),
        forall|x: int, y: int|
            #[trigger] f.contains_pixel(x, y) ==> display.color_at(x, y) == f.color_at(x, y),
{
    assert forall|x: int, y: int|
        display.contains_pixel(x, y) <==> f.contains_pixel(x, y) by {
        lemma_stack_constant(frames, f, x, y);
    }
    assert forall|x: int, y: int|
        #[trigger] f.contains_pixel(x, y) implies display.color_at(x, y) == f.color_at(x, y) by {
        lemma_stack_constant(frames, f, x, y);
        let n = frames.len() as int;
        let c = f.color_at(x, y);
        let d = display.color_at(x, y);
        assert(stack_count(frames, x, y) == n);
        assert forall|k: int| 0 <= k < 4 implies channel(d, k) == channel(c, k) by {
            assert(channel(d, k) == stack_sum(frames, x, y, k) / stack_count(frames, x, y));
            assert(stack_sum(frames, x, y, k) == n * channel(c, k));
            vstd::arithmetic::div_mod::lemma_div_multiples_vanish(channel(c, k) as int, n);
        }
        assert(channel(d, 0) == channel(c, 0) && channel(d, 1) == channel(c, 1) && channel(d, 2)
            == channel(c, 2) && channel(d, 3) == channel(c, 3));
        assert(d == c);
    }
}

/// The color of the last entry of `entries` at pixel `(x, y)`; black where
/// there is none.
pub open spec fn last_entry_color(entries: Seq<FrameEntry>, x: int, y: int) -> Color
    decreases entries.len(),
{
    if entries.len() == 0 {
        Color { r: 0, g: 0, b: 0, a: 0 }
    } else if entries.last().x == x && entries.last().y == y {
        entries.last().color
    } else {
        last_entry_color(entries.drop_last(), x, y)
    }
}

} // verus!
