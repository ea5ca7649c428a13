//! The render target: a grid of colors, held by an `RgbBuffer`, and a depth
//! buffer of the same size. Pixel `(x, y)` sits at index `y * width + x` of both.
use crate::color::Color;
use crate::pixels::{rgb_height, rgb_pixels, rgb_width, RgbBuffer};
use vstd::arithmetic::div_mod::{
    lemma_fundamental_div_mod,
    lemma_fundamental_div_mod_converse,
    lemma_mod_pos_bound,
    lemma_div_pos_is_pos,
};
use vstd::prelude::*;

verus! {

/// The depth of a pixel that nothing has been drawn on: below every other depth.
pub const DEPTH_UNSET: i64 = i64::MIN;

/// What a framebuffer holds: its size, the color of each pixel and the depth
/// of what was drawn there, row by row.
pub struct FrameView {
    pub width: nat,
    pub height: nat,
    pub colors: Seq<(u8, u8, u8)>,
    pub depths: Seq<i64>,
}

impl FrameView {
    pub open spec fn wf(self) -> bool {
        &&& 1 <= self.width <= u32::MAX
        &&& 1 <= self.height <= u32::MAX
        &&& 3 * self.width * self.height <= usize::MAX
        &&& self.colors.len() == self.width * self.height
        &&& self.depths.len() == self.width * self.height
    }

    pub open spec fn index(self, x: int, y: int) -> int {
        y * self.width + x
    }

    pub open spec fn contains(self, x: int, y: int) -> bool {
        0 <= x < self.width && 0 <= y < self.height
    }
}

/// `s`, a `w` x `h` grid held row by row, with its rows in reverse order.
pub open spec fn rows_reversed<T>(s: Seq<T>, w: nat, h: nat) -> Seq<T> {
    Seq::new(s.len(), |i: int| s[(h - 1 - i / (w as int)) * w + i % (w as int)])
}

/// Pixel `i` of a grid `w` wide lies in column `i % w` of row `i / w`.
pub proof fn lemma_index_split(i: int, w: int, h: int)
    requires
        0 <= i < w * h,
        w > 0,
    ensures
        0 <= i % w < w,
        0 <= i / w < h,
        i == (i / w) * w + i % w,
{
    lemma_fundamental_div_mod(i, w);
    lemma_mod_pos_bound(i, w);
    lemma_div_pos_is_pos(i, w);
    assert(w * (i / w) == (i / w) * w) by (nonlinear_arith);
    assert(i / w < h) by (nonlinear_arith)
        requires
            i == (i / w) * w + i % w,
            i % w >= 0,
            i < w * h,
            w > 0,
    ;
}

/// Column `x` of row `y` in a `w` x `h` grid is pixel `y * w + x`.
pub proof fn lemma_index_join(x: int, y: int, w: int, h: int)
    requires
        0 <= x < w,
        0 <= y < h,
    ensures
        0 <= y * w + x < w * h,
        (y * w + x) / w == y,
        (y * w + x) % w == x,
{
    lemma_fundamental_div_mod_converse(y * w + x, w, y, x);
    assert(0 <= y * w + x < w * h) by (nonlinear_arith)
        requires
            0 <= x < w,
            0 <= y < h,
    ;
}

/// The pixel count of a framebuffer fits a `usize`.
pub proof fn lemma_size_bound(w: int, h: int)
    requires
        0 <= w,
        0 <= h,
        3 * w * h <= usize::MAX,
    ensures
        0 <= w * h <= usize::MAX,
{
    assert(0 <= w * h <= 3 * w * h) by (nonlinear_arith)
        requires
            0 <= w,
            0 <= h,
    ;
}

/// Reversing the rows twice gives back the grid.
pub proof fn lemma_rows_reversed_twice<T>(s: Seq<T>, w: nat, h: nat)
    requires
        w > 0,
        s.len() == w * h,
    ensures
        rows_reversed(rows_reversed(s, w, h), w, h) == s,
{
    let once = rows_reversed(s, w, h);
    let twice = rows_reversed(once, w, h);
    assert forall|i: int| 0 <= i < s.len() implies #[trigger] twice[i] == s[i] by {
        lemma_index_split(i, w as int, h as int);
        let (x, y) = (i % w as int, i / w as int);
        let j = (h - 1 - y) * w + x;
        lemma_index_join(x, h - 1 - y, w as int, h as int);
        lemma_index_join(x, y, w as int, h as int);
    }
    assert(twice =~= s);
}

/// A framebuffer: colors and depths of a `width` x `height` grid of pixels.
pub struct Framebuffer {
    target: RgbBuffer,
    depth: Vec<i64>,
}

impl View for Framebuffer {
    type V = FrameView;

    closed spec fn view(&self) -> FrameView {
        FrameView {
            width: rgb_width(self.target),
            height: rgb_height(self.target),
            colors: rgb_pixels(self.target),
            depths: self.depth@,
        }
    }
}

impl Framebuffer {
    pub open spec fn wf(&self) -> bool {
        self@.wf()
    }

    /// A `width` x `height` framebuffer painted with `background`, with nothing
    /// drawn yet.
    pub fn new(width: u32, height: u32, background: Color) -> (r: Framebuffer)
        requires
            1 <= width,
            1 <= height,
            3 * width * height <= usize::MAX,
        ensures
            r.wf(),
            r@.width == width,
            r@.height == height,
            r@.colors == Seq::new((width * height) as nat, |i: int| background.channels()),
            r@.depths == Seq::new((width * height) as nat, |i: int| DEPTH_UNSET),
    {
        proof {
            lemma_size_bound(width as int, height as int);
        }
        let target = RgbBuffer::filled(width, height, background);
        let n = (width as usize) * (height as usize);
        let depth = vec![DEPTH_UNSET; n];
        let r = Framebuffer { target, depth };
        assert(r@.colors =~= Seq::new((width * height) as nat, |i: int| background.channels()));
        assert(r@.depths =~= Seq::new((width * height) as nat, |i: int| DEPTH_UNSET));
        r
    }

    pub fn width(&self) -> (r: u32)
        requires
            self.wf(),
        ensures
            r == self@.width,
    {
        self.target.width()
    }

    pub fn height(&self) -> (r: u32)
        requires
            self.wf(),
        ensures
            r == self@.height,
    {
        self.target.height()
    }

    /// The color of pixel `(x, y)`.
    pub fn get(&self, x: u32, y: u32) -> (r: Color)
        requires
            self.wf(),
            self@.contains(x as int, y as int),
        ensures
            r.channels() == self@.colors[self@.index(x as int, y as int)],
    {
        self.target.get(x, y)
    }

    /// The depth of what was drawn at pixel `(x, y)`.
    pub fn depth_at(&self, x: u32, y: u32) -> (r: i64)
        requires
            self.wf(),
            self@.contains(x as int, y as int),
        ensures
            r == self@.depths[self@.index(x as int, y as int)],
    {
        proof {
            lemma_index_join(x as int, y as int, self@.width as int, self@.height as int);
            lemma_size_bound(self@.width as int, self@.height as int);
        }
        let w = self.target.width() as usize;
        self.depth[(y as usize) * w + x as usize]
    }

    /// Overwrites the color of pixel `(x, y)`; its depth is left as it is.
    pub fn set(&mut self, x: u32, y: u32, color: Color)
        requires
            old(self).wf(),
            old(self)@.contains(x as int, y as int),
        ensures
            final(self).wf(),
            final(self)@ == (FrameView {
                colors: old(self)@.colors.update(old(self)@.index(x as int, y as int), color.channels()),
                ..old(self)@
            }),
    {
        proof {
            lemma_index_join(x as int, y as int, self@.width as int, self@.height as int);
        }
        self.target.put(x, y, color);
    }

    /// Records a drawn fragment at pixel `(x, y)`: its depth and its color.
    pub fn write_fragment(&mut self, x: u32, y: u32, depth: i64, color: Color)
        requires
            old(self).wf(),
            old(self)@.contains(x as int, y as int),
        ensures
            final(self).wf(),
            final(self)@ == (FrameView {
                colors: old(self)@.colors.update(old(self)@.index(x as int, y as int), color.channels()),
                depths: old(self)@.depths.update(old(self)@.index(x as int, y as int), depth),
                ..old(self)@
            }),
    {
        proof {
            lemma_index_join(x as int, y as int, self@.width as int, self@.height as int);
            lemma_size_bound(self@.width as int, self@.height as int);
        }
        let w = self.target.width() as usize;
        self.depth.set((y as usize) * w + x as usize, depth);
        self.target.put(x, y, color);
    }

    /// Reverses the order of the rows, of colors and depths alike.
    pub fn flip_vertically(&mut self)
        requires
            old(self).wf(),
        ensures
            final(self).wf(),
            final(self)@ == (FrameView {
                colors: rows_reversed(old(self)@.colors, old(self)@.width, old(self)@.height),
                depths: rows_reversed(old(self)@.depths, old(self)@.width, old(self)@.height),
                ..old(self)@
            }),
    {
        let ghost before = self@;
        let w = self.target.width() as usize;
        let h = self.target.height() as usize;
        proof {
            lemma_size_bound(w as int, h as int);
        }
        let n = w * h;
        let mut depth: Vec<i64> = Vec::with_capacity(n);
        let mut i: usize = 0;
        while i < n
            invariant
                before.wf(),
                w == before.width,
                h == before.height,
                n == w * h,
                self@ == before,
                i <= n,
                depth@ =~= rows_reversed(before.depths, before.width, before.height).take(i as int),
            decreases n - i,
        {
            proof {
                lemma_index_split(i as int, w as int, h as int);
                lemma_index_join((i % w) as int, (h - 1 - i / w) as int, w as int, h as int);
            }
            let j = (h - 1 - i / w) * w + i % w;
            depth.push(self.depth[j]);
            i = i + 1;
        }
        assert(depth@ =~= rows_reversed(before.depths, before.width, before.height));
        self.target.flip_vertical();
        self.depth = depth;
        proof {
            let w = before.width;
            let h = before.height;
            assert forall|i: int| 0 <= i < before.colors.len() implies #[trigger] self@.colors[i]
                == rows_reversed(before.colors, w, h)[i] by {
                lemma_index_split(i, w as int, h as int);
            }
            assert(self@.colors =~= rows_reversed(before.colors, w, h));
        }
    }

    /// The colors, three bytes per pixel, row by row.
    pub fn into_rgb_bytes(self) -> (r: Vec<u8>)
        requires
            self.wf(),
        ensures
            r@.len() >= 3 * self@.colors.len(),
            forall|i: int|
                0 <= i < self@.colors.len() ==> (r@[3 * i], r@[3 * i + 1], r@[3 * i + 2])
                    == #[trigger] self@.colors[i],
    {
        let r = self.target.into_raw();
        proof {
            assert forall|i: int| 0 <= i < self@.colors.len() implies (r@[3 * i], r@[3 * i + 1], r@[3
                * i + 2]) == #[trigger] self@.colors[i] by {
                assert(crate::pixels::packed_pixel(r@, i) == self@.colors[i]);
            }
        }
        r
    }
}

/// Flipping a framebuffer twice restores it exactly.
pub proof fn lemma_flip_twice(f: FrameView)
    requires
        f.wf(),
    ensures
        (FrameView {
            colors: rows_reversed(rows_reversed(f.colors, f.width, f.height), f.width, f.height),
            depths: rows_reversed(rows_reversed(f.depths, f.width, f.height), f.width, f.height),
            ..f
        }) == f,
{
    lemma_rows_reversed_twice(f.colors, f.width, f.height);
    lemma_rows_reversed_twice(f.depths, f.width, f.height);
}

} // verus!
