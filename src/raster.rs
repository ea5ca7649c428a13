//! Triangle rasterization: every pixel whose center lies in a triangle gets a
//! fragment, which is kept where it passes the depth test.
//!
//! Depth convention: a larger depth is closer. A fragment is kept when the
//! depth stored at its pixel is less than or equal to its own, so at equal
//! depth the later triangle wins. Depth is the barycentric mean of the
//! vertex depths, rounded down.
use crate::color::Color;
use crate::framebuffer::{lemma_index_join, lemma_index_split, FrameView, Framebuffer};
use crate::geometry::{
    barycentric,
    bary_a,
    bary_b,
    bary_c,
    bary_total,
    covers,
    lemma_covered_in_box,
    lemma_weights_sum,
    max3,
    min3,
    Barycentric,
    Point2,
    ScreenPoint,
    COORD_LIMIT,
    WEIGHT_LIMIT,
};
use crate::shading::{gamma_level, gamma_shade, Intensity};
use crate::texture::{Texture, TextureView};
use vstd::arithmetic::div_mod::{lemma_fundamental_div_mod, lemma_mod_pos_bound};
use vstd::prelude::*;

verus! {

/// Texture coordinates are fixed-point numbers: `TEX_UNIT` stands for 1.
pub const TEX_UNIT: u32 = 65536;

/// A texture coordinate `(u / TEX_UNIT, v / TEX_UNIT)`, in `[0, 1]` on each axis.
#[derive(Clone, Copy, Debug, PartialEq, Eq, Structural)]
pub struct TexCoord {
    pub u: u32,
    pub v: u32,
}

impl TexCoord {
    pub open spec fn wf(self) -> bool {
        self.u <= TEX_UNIT && self.v <= TEX_UNIT
    }
}

/// A triangle in screen space.
#[derive(Clone, Copy, Debug, PartialEq, Eq, Structural)]
pub struct Triangle {
    pub a: ScreenPoint,
    pub b: ScreenPoint,
    pub c: ScreenPoint,
}

/// The center of pixel `(x, y)`.
pub open spec fn pixel_point(x: int, y: int) -> Point2 {
    Point2 { x: x as i64, y: y as i64 }
}

impl Triangle {
    pub open spec fn wf(self) -> bool {
        self.a.wf() && self.b.wf() && self.c.wf()
    }

    /// The barycentric weights of pixel `(x, y)`.
    pub open spec fn weights_at(self, x: int, y: int) -> Barycentric {
        Barycentric::of(self.a.xy(), self.b.xy(), self.c.xy(), pixel_point(x, y))
    }

    /// The center of pixel `(x, y)` lies in the triangle.
    pub open spec fn covers_pixel(self, x: int, y: int) -> bool {
        covers(self.a.xy(), self.b.xy(), self.c.xy(), pixel_point(x, y))
    }

    /// The depth of the triangle at a point of weights `w`: the weighted mean
    /// of the vertex depths, rounded down.
    pub open spec fn depth_at(self, w: Barycentric) -> int {
        (w.wa * self.a.z + w.wb * self.b.z + w.wc * self.c.z) / (w.total as int)
    }
}

/// How a triangle's pixels are colored.
#[derive(Clone, Copy, Debug, PartialEq, Eq, Structural)]
pub enum Fill {
    /// One color for the whole triangle.
    Flat(Color),
    /// A texture, sampled at the interpolated texture coordinates of the
    /// vertices, each channel scaled by the gamma-corrected intensity.
    Textured { uv0: TexCoord, uv1: TexCoord, uv2: TexCoord, intensity: Intensity },
}

impl Fill {
    pub open spec fn wf(self) -> bool {
        match self {
            Fill::Flat(_) => true,
            Fill::Textured { uv0, uv1, uv2, intensity } => uv0.wf() && uv1.wf() && uv2.wf()
                && intensity.wf(),
        }
    }
}

/// `num / den` rounded to the nearest integer, halves up.
pub open spec fn round_div(num: int, den: int) -> int {
    (2 * num + den) / (2 * den)
}

/// The texel index, along an axis of `size` texels, of the point of weights
/// `w` when the vertices have coordinates `t0, t1, t2` on that axis: each
/// coordinate is mapped to `t * (size - 1)` texels, the mapped values are
/// interpolated, and the mean is rounded to the nearest texel.
pub open spec fn texel_index(w: Barycentric, t0: int, t1: int, t2: int, size: nat) -> int {
    round_div((w.wa * t0 + w.wb * t1 + w.wc * t2) * (size - 1), w.total * TEX_UNIT)
}

/// The color of the fragment of weights `w`.
pub open spec fn fragment_color(fill: Fill, tex: Option<TextureView>, w: Barycentric) -> (u8, u8, u8) {
    match fill {
        Fill::Flat(c) => c.channels(),
        Fill::Textured { uv0, uv1, uv2, intensity } => {
            let t = tex.unwrap();
            let x = texel_index(w, uv0.u as int, uv1.u as int, uv2.u as int, t.width);
            let y = texel_index(w, uv0.v as int, uv1.v as int, uv2.v as int, t.height);
            let p = t.texels[y * t.width + x];
            (gamma_level(p.0, intensity), gamma_level(p.1, intensity), gamma_level(p.2, intensity))
        },
    }
}

pub open spec fn texture_view(tex: Option<&Texture>) -> Option<TextureView> {
    match tex {
        Some(t) => Some(t@),
        None => None,
    }
}

/// The fragment at pixel `(x, y)` is kept: the pixel is covered, and the depth
/// stored there is not above the fragment's.
pub open spec fn fragment_kept(f: FrameView, t: Triangle, x: int, y: int) -> bool {
    t.covers_pixel(x, y) && f.depths[f.index(x, y)] <= t.depth_at(t.weights_at(x, y))
}

/// The framebuffer `f` after triangle `t` is drawn on it with `fill`.
pub open spec fn triangle_drawn(f: FrameView, t: Triangle, fill: Fill, tex: Option<TextureView>) -> FrameView {
    let w = f.width as int;
    FrameView {
        colors: Seq::new(
            f.colors.len(),
            |i: int|
                if fragment_kept(f, t, i % w, i / w) {
                    fragment_color(fill, tex, t.weights_at(i % w, i / w))
                } else {
                    f.colors[i]
                },
        ),
        depths: Seq::new(
            f.depths.len(),
            |i: int|
                if fragment_kept(f, t, i % w, i / w) {
                    t.depth_at(t.weights_at(i % w, i / w)) as i64
                } else {
                    f.depths[i]
                },
        ),
        ..f
    }
}

/// Drawing the same triangle twice, with the same fill, leaves the
/// framebuffer as drawing it once does.
pub proof fn lemma_draw_twice(f: FrameView, t: Triangle, fill: Fill, tex: Option<TextureView>)
    requires
        f.wf(),
        t.wf(),
    ensures
        triangle_drawn(triangle_drawn(f, t, fill, tex), t, fill, tex) == triangle_drawn(f, t, fill, tex),
{
    let once = triangle_drawn(f, t, fill, tex);
    let twice = triangle_drawn(once, t, fill, tex);
    let w = f.width as int;
    assert forall|i: int| 0 <= i < f.depths.len() implies #[trigger] twice.depths[i]
        == once.depths[i] by {
        lemma_index_split(i, w, f.height as int);
        let (x, y) = (i % w, i / w);
        lemma_index_join(x, y, w, f.height as int);
        if fragment_kept(f, t, x, y) {
            lemma_depth_in_range(t, x, y);
        }
    }
    assert forall|i: int| 0 <= i < f.colors.len() implies #[trigger] twice.colors[i]
        == once.colors[i] by {
        lemma_index_split(i, w, f.height as int);
        let (x, y) = (i % w, i / w);
        lemma_index_join(x, y, w, f.height as int);
        if fragment_kept(f, t, x, y) {
            lemma_depth_in_range(t, x, y);
            assert(fragment_kept(once, t, x, y));
        }
    }
    assert(twice.depths =~= once.depths);
    assert(twice.colors =~= once.colors);
}

/// The depth of a covered pixel lies between the vertex depths.
proof fn lemma_depth_in_range(t: Triangle, x: int, y: int)
    requires
        t.wf(),
        0 <= x <= COORD_LIMIT,
        0 <= y <= COORD_LIMIT,
        t.covers_pixel(x, y),
    ensures
        -COORD_LIMIT <= t.depth_at(t.weights_at(x, y)) <= COORD_LIMIT,
{
    let (a, b, c, p) = (t.a.xy(), t.b.xy(), t.c.xy(), pixel_point(x, y));
    lemma_weights_sum(a, b, c, p);
    lemma_bary_fits(a, b, c, p);
    let w = t.weights_at(x, y);
    let num = w.wa * t.a.z + w.wb * t.b.z + w.wc * t.c.z;
    let tot = w.total as int;
    crate::geometry::lemma_bary_bounds(a, b, c, p);
    lemma_mean_bounds(w, t);
    lemma_div_between(num, tot, -COORD_LIMIT, COORD_LIMIT as int);
}

/// The weights of a covered pixel fit their machine integers.
proof fn lemma_bary_fits(a: Point2, b: Point2, c: Point2, p: Point2)
    requires
        a.wf(),
        b.wf(),
        c.wf(),
        p.wf(),
    ensures
        Barycentric::of(a, b, c, p).wa == bary_a(a, b, c, p),
        Barycentric::of(a, b, c, p).wb == bary_b(a, b, c, p),
        Barycentric::of(a, b, c, p).wc == bary_c(a, b, c, p),
        Barycentric::of(a, b, c, p).total == bary_total(a, b, c),
{
    crate::geometry::lemma_bary_bounds(a, b, c, p);
}

/// `lo <= num / d <= hi` when `lo * d <= num <= hi * d`.
proof fn lemma_div_between(num: int, d: int, lo: int, hi: int)
    requires
        d > 0,
        lo * d <= num <= hi * d,
    ensures
        lo <= num / d <= hi,
{
    lemma_fundamental_div_mod(num, d);
    assert(0 <= num % d < d);
    let q = num / d;
    let r = num % d;
    assert(lo <= q <= hi) by (nonlinear_arith)
        requires
            num == d * q + r,
            0 <= r < d,
            lo * d <= num <= hi * d,
            d > 0,
    ;
}

/// `x / d < k` when `0 <= x < k * d`.
proof fn lemma_div_below(x: int, d: int, k: int)
    requires
        d > 0,
        0 <= x < k * d,
    ensures
        0 <= x / d < k,
{
    lemma_fundamental_div_mod(x, d);
    lemma_mod_pos_bound(x, d);
    let q = x / d;
    let r = x % d;
    assert(0 <= q < k) by (nonlinear_arith)
        requires
            x == d * q + r,
            0 <= r < d,
            0 <= x < k * d,
            d > 0,
    ;
}

/// The texel index along an axis of `size` texels; see `texel_index`.
fn texel_along(w: Barycentric, t0: u32, t1: u32, t2: u32, size: u32) -> (r: u32)
    requires
        w.is_inside(),
        w.sums_to_total(),
        w.total <= WEIGHT_LIMIT,
        t0 <= TEX_UNIT,
        t1 <= TEX_UNIT,
        t2 <= TEX_UNIT,
        size >= 1,
    ensures
        r == texel_index(w, t0 as int, t1 as int, t2 as int, size as nat),
        r < size,
{
    let unit = TEX_UNIT as u128;
    proof {
        lemma_mul_between_nat(w.wa as int, t0 as int, unit as int);
        lemma_mul_between_nat(w.wb as int, t1 as int, unit as int);
        lemma_mul_between_nat(w.wc as int, t2 as int, unit as int);
        assert(w.wa * unit + w.wb * unit + w.wc * unit == w.total * unit) by (nonlinear_arith)
            requires
                w.wa + w.wb + w.wc == w.total,
        ;
        assert(w.total * unit <= WEIGHT_LIMIT * 65536) by (nonlinear_arith)
            requires
                w.total <= WEIGHT_LIMIT,
                unit == 65536,
        ;
    }
    let s = (w.wa as u128) * (t0 as u128) + (w.wb as u128) * (t1 as u128) + (w.wc as u128) * (
    t2 as u128);
    let m = (size - 1) as u128;
    proof {
        assert(s * m <= (w.total * unit) * m) by (nonlinear_arith)
            requires
                s <= w.total * unit,
                m >= 0,
        ;
        assert((w.total * unit) * m <= WEIGHT_LIMIT * 65536 * 0xffff_ffff) by (nonlinear_arith)
            requires
                w.total * unit <= WEIGHT_LIMIT * 65536,
                w.total >= 0,
                0 <= m <= 0xffff_ffff,
        ;
    }
    let num = s * m;
    let den = (w.total as u128) * unit;
    proof {
        let k = size as int;
        assert(2 * num + den < k * (2 * den)) by (nonlinear_arith)
            requires
                num <= den * m,
                m == k - 1,
                den > 0,
        ;
        lemma_div_below(2 * num + den, 2 * den, k);
    }
    ((2 * num + den) / (2 * den)) as u32
}

proof fn lemma_mul_between_nat(w: int, v: int, hi: int)
    requires
        w >= 0,
        0 <= v <= hi,
    ensures
        0 <= w * v <= w * hi,
{
    assert(0 <= w * v <= w * hi) by (nonlinear_arith)
        requires
            w >= 0,
            0 <= v <= hi,
    ;
}

/// The color of the fragment of weights `w`.
fn fragment(fill: &Fill, tex: Option<&Texture>, w: Barycentric) -> (r: Color)
    requires
        fill.wf(),
        w.is_inside(),
        w.sums_to_total(),
        w.total <= WEIGHT_LIMIT,
        fill is Textured ==> (tex matches Some(t) && t.wf()),
    ensures
        r.channels() == fragment_color(*fill, texture_view(tex), w),
{
    match fill {
        Fill::Flat(c) => *c,
        Fill::Textured { uv0, uv1, uv2, intensity } => {
            let t = tex.unwrap();
            let tw = t.width();
            let th = t.height();
            let x = texel_along(w, uv0.u, uv1.u, uv2.u, tw);
            let y = texel_along(w, uv0.v, uv1.v, uv2.v, th);
            let p = t.texel(x, y);
            Color {
                r: gamma_shade(p.r, *intensity),
                g: gamma_shade(p.g, *intensity),
                b: gamma_shade(p.b, *intensity),
            }
        },
    }
}

/// The depth of triangle `t` at the point of weights `w`; see `Triangle::depth_at`.
fn depth_at(t: &Triangle, w: Barycentric) -> (r: i64)
    requires
        t.wf(),
        w.is_inside(),
        w.sums_to_total(),
        w.total <= WEIGHT_LIMIT,
    ensures
        r == t.depth_at(w),
{
    let (za, zb, zc) = (t.a.z as i128, t.b.z as i128, t.c.z as i128);
    let ghost tot = w.total as int;
    proof {
        lemma_mean_bounds(w, *t);
    }
    let num = w.wa * za + w.wb * zb + w.wc * zc;
    proof {
        lemma_div_between(num as int, tot, -COORD_LIMIT, COORD_LIMIT as int);
    }
    match num.checked_div_euclid(w.total) {
        Some(z) => z as i64,
        None => 0,
    }
}

/// The weighted sum of the vertex depths lies between `-COORD_LIMIT` and
/// `COORD_LIMIT` times the total.
proof fn lemma_mean_bounds(w: Barycentric, t: Triangle)
    requires
        t.wf(),
        w.is_inside(),
        w.sums_to_total(),
        w.total <= WEIGHT_LIMIT,
    ensures
        -COORD_LIMIT * w.total <= w.wa * t.a.z + w.wb * t.b.z + w.wc * t.c.z <= COORD_LIMIT * w.total,
        -COORD_LIMIT * WEIGHT_LIMIT <= w.wa * t.a.z + w.wb * t.b.z + w.wc * t.c.z <= COORD_LIMIT
            * WEIGHT_LIMIT,
        -COORD_LIMIT * WEIGHT_LIMIT <= w.wa * t.a.z <= COORD_LIMIT * WEIGHT_LIMIT,
        -COORD_LIMIT * WEIGHT_LIMIT <= w.wb * t.b.z <= COORD_LIMIT * WEIGHT_LIMIT,
        -COORD_LIMIT * WEIGHT_LIMIT <= w.wc * t.c.z <= COORD_LIMIT * WEIGHT_LIMIT,
{
    let (lw, lz) = (WEIGHT_LIMIT as int, COORD_LIMIT as int);
    crate::geometry::lemma_mul_abs_bound(w.wa as int, t.a.z as int, lw, lz);
    crate::geometry::lemma_mul_abs_bound(w.wb as int, t.b.z as int, lw, lz);
    crate::geometry::lemma_mul_abs_bound(w.wc as int, t.c.z as int, lw, lz);
    assert(lw * lz == lz * lw) by (nonlinear_arith);
    let num = w.wa * t.a.z + w.wb * t.b.z + w.wc * t.c.z;
    assert(-COORD_LIMIT * w.total <= num <= COORD_LIMIT * w.total) by (nonlinear_arith)
        requires
            w.wa >= 0,
            w.wb >= 0,
            w.wc >= 0,
            w.wa + w.wb + w.wc == w.total,
            num == w.wa * t.a.z + w.wb * t.b.z + w.wc * t.c.z,
            -COORD_LIMIT <= t.a.z <= COORD_LIMIT,
            -COORD_LIMIT <= t.b.z <= COORD_LIMIT,
            -COORD_LIMIT <= t.c.z <= COORD_LIMIT,
    ;
    assert(COORD_LIMIT * w.total <= COORD_LIMIT * WEIGHT_LIMIT) by (nonlinear_arith)
        requires
            w.total <= WEIGHT_LIMIT,
    ;
}

pub fn min3_i64(u: i64, v: i64, w: i64) -> (r: i64)
    ensures
        r == min3(u as int, v as int, w as int),
{
    if u <= v && u <= w {
        u
    } else if v <= w {
        v
    } else {
        w
    }
}

pub fn max3_i64(u: i64, v: i64, w: i64) -> (r: i64)
    ensures
        r == max3(u as int, v as int, w as int),
{
    if u >= v && u >= w {
        u
    } else if v >= w {
        v
    } else {
        w
    }
}

/// Pixel `i` of a framebuffer `w` wide is already visited by the scan of box
/// `[x_lo, x_hi] x [y_lo, ..]` that has reached column `x` of row `y`.
pub open spec fn scanned(w: int, x_lo: int, x_hi: int, y_lo: int, x: int, y: int, i: int) -> bool {
    let (col, row) = (i % w, i / w);
    x_lo <= col <= x_hi && y_lo <= row && (row < y || (row == y && col < x))
}

impl Framebuffer {
    /// Draws triangle `t` with `fill`: each pixel whose center lies in the
    /// triangle gets a fragment, kept where it passes the depth test.
    /// A degenerate (zero-area) triangle draws nothing. A textured fill samples
    /// `tex`.
    pub fn draw_triangle(&mut self, t: &Triangle, fill: &Fill, tex: Option<&Texture>)
        requires
            old(self).wf(),
            t.wf(),
            fill.wf(),
            fill is Textured ==> (tex matches Some(x) && x.wf()),
        ensures
            final(self).wf(),
            final(self)@ == triangle_drawn(old(self)@, *t, *fill, texture_view(tex)),
    {
        let ghost before = self@;
        let ghost goal = triangle_drawn(before, *t, *fill, texture_view(tex));
        let a = t.a.truncate();
        let b = t.b.truncate();
        let c = t.c.truncate();
        let whole = barycentric(a, b, c, a);
        if whole.total == 0 {
            assert(self@.colors =~= goal.colors);
            assert(self@.depths =~= goal.depths);
            return;
        }
        let w = self.width();
        let h = self.height();
        let ghost wi = w as int;
        let ghost hi = h as int;
        // the bounding box, clipped to the framebuffer
        let box_x0 = min3_i64(a.x, b.x, c.x);
        let box_x1 = max3_i64(a.x, b.x, c.x);
        let box_y0 = min3_i64(a.y, b.y, c.y);
        let box_y1 = max3_i64(a.y, b.y, c.y);
        let x_lo: i64 = if box_x0 < 0 { 0 } else { box_x0 };
        let x_hi: i64 = if box_x1 > (w - 1) as i64 { (w - 1) as i64 } else { box_x1 };
        let y_lo: i64 = if box_y0 < 0 { 0 } else { box_y0 };
        let y_hi: i64 = if box_y1 > (h - 1) as i64 { (h - 1) as i64 } else { box_y1 };
        let mut y: i64 = y_lo;
        while y <= y_hi
            invariant
                before.wf(),
                self.wf(),
                self@.width == before.width,
                self@.height == before.height,
                w == before.width,
                h == before.height,
                wi == w,
                hi == h,
                goal == triangle_drawn(before, *t, *fill, texture_view(tex)),
                t.wf(),
                fill.wf(),
                fill is Textured ==> (tex matches Some(x) && x.wf()),
                a == t.a.xy(),
                b == t.b.xy(),
                c == t.c.xy(),
                bary_total(a, b, c) > 0,
                box_x0 == min3(a.x as int, b.x as int, c.x as int),
                box_x1 == max3(a.x as int, b.x as int, c.x as int),
                box_y0 == min3(a.y as int, b.y as int, c.y as int),
                box_y1 == max3(a.y as int, b.y as int, c.y as int),
                x_lo == if box_x0 < 0 { 0 } else { box_x0 },
                x_hi == if box_x1 > w - 1 { w - 1 } else { box_x1 as int },
                y_lo == if box_y0 < 0 { 0 } else { box_y0 },
                y_hi == if box_y1 > h - 1 { h - 1 } else { box_y1 as int },
                y_lo <= y,
                y <= y_hi + 1 || y == y_lo,
                forall|i: int|
                    0 <= i < self@.colors.len() ==> #[trigger] self@.colors[i] == if scanned(
                        wi,
                        x_lo as int,
                        x_hi as int,
                        y_lo as int,
                        x_lo as int,
                        y as int,
                        i,
                    ) {
                        goal.colors[i]
                    } else {
                        before.colors[i]
                    },
                forall|i: int|
                    0 <= i < self@.depths.len() ==> #[trigger] self@.depths[i] == if scanned(
                        wi,
                        x_lo as int,
                        x_hi as int,
                        y_lo as int,
                        x_lo as int,
                        y as int,
                        i,
                    ) {
                        goal.depths[i]
                    } else {
                        before.depths[i]
                    },
            decreases y_hi + 1 - y,
        {
            let mut x: i64 = x_lo;
            while x <= x_hi
                invariant
                    before.wf(),
                    self.wf(),
                    self@.width == before.width,
                    self@.height == before.height,
                    w == before.width,
                    h == before.height,
                    wi == w,
                    hi == h,
                    goal == triangle_drawn(before, *t, *fill, texture_view(tex)),
                    t.wf(),
                    fill.wf(),
                    fill is Textured ==> (tex matches Some(x) && x.wf()),
                    a == t.a.xy(),
                    b == t.b.xy(),
                    c == t.c.xy(),
                    bary_total(a, b, c) > 0,
                    0 <= x_lo,
                    x_hi <= w - 1,
                    0 <= y_lo <= y <= y_hi,
                    y_hi <= h - 1,
                    x_lo <= x,
                    x <= x_hi + 1 || x == x_lo,
                    forall|i: int|
                        0 <= i < self@.colors.len() ==> #[trigger] self@.colors[i] == if scanned(
                            wi,
                            x_lo as int,
                            x_hi as int,
                            y_lo as int,
                            x as int,
                            y as int,
                            i,
                        ) {
                            goal.colors[i]
                        } else {
                            before.colors[i]
                        },
                    forall|i: int|
                        0 <= i < self@.depths.len() ==> #[trigger] self@.depths[i] == if scanned(
                            wi,
                            x_lo as int,
                            x_hi as int,
                            y_lo as int,
                            x as int,
                            y as int,
                            i,
                        ) {
                            goal.depths[i]
                        } else {
                            before.depths[i]
                        },
                decreases x_hi + 1 - x,
            {
                let ghost cur = self@;
                let ghost k = y * wi + x;
                proof {
                    lemma_index_join(x as int, y as int, wi, hi);
                    crate::framebuffer::lemma_size_bound(wi, hi);
                }
                let p = Point2 { x, y };
                let bc = barycentric(a, b, c, p);
                if bc.wa >= 0 && bc.wb >= 0 && bc.wc >= 0 {
                    let z = depth_at(t, bc);
                    let stored = self.depth_at(x as u32, y as u32);
                    if stored <= z {
                        let col = fragment(fill, tex, bc);
                        self.write_fragment(x as u32, y as u32, z, col);
                    }
                }
                proof {
                    assert(p == pixel_point(x as int, y as int));
                    assert(bc == t.weights_at(x as int, y as int));
                    assert forall|i: int|
                        #![trigger self@.colors[i]]
                        #![trigger self@.depths[i]]
                        0 <= i < self@.colors.len() implies self@.colors[i]
                        == if scanned(wi, x_lo as int, x_hi as int, y_lo as int, x + 1, y as int, i) {
                        goal.colors[i]
                    } else {
                        before.colors[i]
                    } && self@.depths[i] == if scanned(
                        wi,
                        x_lo as int,
                        x_hi as int,
                        y_lo as int,
                        x + 1,
                        y as int,
                        i,
                    ) {
                        goal.depths[i]
                    } else {
                        before.depths[i]
                    } by {
                        lemma_index_split(i, wi, hi);
                        if i != k {
                            assert(cur.colors[i] == self@.colors[i]);
                            assert(cur.depths[i] == self@.depths[i]);
                        }
                    }
                }
                x = x + 1;
            }
            y = y + 1;
        }
        proof {
            assert forall|i: int|
                #![trigger self@.colors[i]]
                #![trigger self@.depths[i]]
                0 <= i < before.colors.len() implies self@.colors[i] == goal.colors[i]
                    && self@.depths[i] == goal.depths[i] by {
                lemma_index_split(i, wi, hi);
                let (px, py) = (i % wi, i / wi);
                lemma_index_join(px, py, wi, hi);
                if t.covers_pixel(px, py) {
                    lemma_covered_in_box(a, b, c, pixel_point(px, py));
                }
            }
            assert(self@.colors =~= goal.colors);
            assert(self@.depths =~= goal.depths);
        }
    }
}

} // verus!
