//! Integer screen-space geometry: points, signed areas and barycentric weights.
use vstd::prelude::*;

verus! {

/// Bound on the magnitude of every screen-space coordinate, depth included:
/// `2^32`, so that every pixel of a framebuffer lies in range.
pub const COORD_LIMIT: i64 = 0x1_0000_0000;

/// Bound on the magnitude of a barycentric weight, and of the total, for
/// points in range: `2^67`.
pub const WEIGHT_LIMIT: i128 = 0x8_0000_0000_0000_0000;

/// A point of the screen plane, in pixel units.
#[derive(Clone, Copy, Debug, PartialEq, Eq, Structural)]
pub struct Point2 {
    pub x: i64,
    pub y: i64,
}

/// A vertex after the model-to-screen transform: pixel coordinates and a depth
/// used only to order surfaces (larger is closer).
#[derive(Clone, Copy, Debug, PartialEq, Eq, Structural)]
pub struct ScreenPoint {
    pub x: i64,
    pub y: i64,
    pub z: i64,
}

pub open spec fn in_coord_range(v: int) -> bool {
    -COORD_LIMIT <= v <= COORD_LIMIT
}

impl Point2 {
    pub open spec fn wf(self) -> bool {
        in_coord_range(self.x as int) && in_coord_range(self.y as int)
    }
}

impl ScreenPoint {
    pub open spec fn wf(self) -> bool {
        in_coord_range(self.x as int) && in_coord_range(self.y as int) && in_coord_range(
            self.z as int,
        )
    }

    pub open spec fn xy(self) -> Point2 {
        Point2 { x: self.x, y: self.y }
    }

    /// The point's position in the screen plane, its depth dropped.
    pub fn truncate(&self) -> (r: Point2)
        ensures
            r == self.xy(),
    {
        Point2 { x: self.x, y: self.y }
    }
}

/// Twice the signed area of triangle `abc`: positive when `a, b, c` turn
/// counter-clockwise (with y up), zero when they are collinear.
pub open spec fn orient(a: Point2, b: Point2, c: Point2) -> int {
    (b.x - a.x) * (c.y - a.y) - (b.y - a.y) * (c.x - a.x)
}

/// `v` with the sign flipped when `abc` is clockwise, so that weights and
/// total taken with respect to `abc` share the orientation of the triangle.
pub open spec fn oriented(a: Point2, b: Point2, c: Point2, v: int) -> int {
    if orient(a, b, c) < 0 {
        -v
    } else {
        v
    }
}

/// The common denominator of the barycentric weights: twice the unsigned area.
pub open spec fn bary_total(a: Point2, b: Point2, c: Point2) -> int {
    oriented(a, b, c, orient(a, b, c))
}

/// Weight of vertex `a` at `p`, scaled by `bary_total`: the area of `pbc` over the area of `abc`.
pub open spec fn bary_a(a: Point2, b: Point2, c: Point2, p: Point2) -> int {
    oriented(a, b, c, orient(p, b, c))
}

/// Weight of vertex `b` at `p`, scaled by `bary_total`: the area of `apc` over the area of `abc`.
pub open spec fn bary_b(a: Point2, b: Point2, c: Point2, p: Point2) -> int {
    oriented(a, b, c, orient(a, p, c))
}

/// Weight of vertex `c` at `p`, scaled by `bary_total`: the area of `abp` over the area of `abc`.
pub open spec fn bary_c(a: Point2, b: Point2, c: Point2, p: Point2) -> int {
    oriented(a, b, c, orient(a, b, p))
}

/// Barycentric weights `(wa, wb, wc) / total` of a point with respect to a triangle.
/// The total is never negative; it is zero exactly for a degenerate triangle.
#[derive(Clone, Copy, Debug, PartialEq, Eq, Structural)]
pub struct Barycentric {
    pub wa: i128,
    pub wb: i128,
    pub wc: i128,
    pub total: i128,
}

impl Barycentric {
    /// The weights of `p` with respect to `abc`.
    pub open spec fn of(a: Point2, b: Point2, c: Point2, p: Point2) -> Barycentric {
        Barycentric {
            wa: bary_a(a, b, c, p) as i128,
            wb: bary_b(a, b, c, p) as i128,
            wc: bary_c(a, b, c, p) as i128,
            total: bary_total(a, b, c) as i128,
        }
    }

    /// The point lies in the closed triangle: a real triangle, and no weight negative.
    pub open spec fn is_inside(self) -> bool {
        self.total > 0 && self.wa >= 0 && self.wb >= 0 && self.wc >= 0
    }

    pub open spec fn sums_to_total(self) -> bool {
        self.wa + self.wb + self.wc == self.total
    }
}

/// `p` lies in the closed, non-degenerate triangle `abc`: no weight is negative.
pub open spec fn covers(a: Point2, b: Point2, c: Point2, p: Point2) -> bool {
    bary_total(a, b, c) > 0 && bary_a(a, b, c, p) >= 0 && bary_b(a, b, c, p) >= 0 && bary_c(
        a,
        b,
        c,
        p,
    ) >= 0
}

pub open spec fn min3(u: int, v: int, w: int) -> int {
    if u <= v && u <= w {
        u
    } else if v <= w {
        v
    } else {
        w
    }
}

pub open spec fn max3(u: int, v: int, w: int) -> int {
    if u >= v && u >= w {
        u
    } else if v >= w {
        v
    } else {
        w
    }
}

/// `la, lb, lc` are weights that make `p` their weighted mean of `a, b, c`.
pub open spec fn is_weighted_mean(
    a: Point2,
    b: Point2,
    c: Point2,
    p: Point2,
    la: int,
    lb: int,
    lc: int,
) -> bool {
    &&& la * a.x + lb * b.x + lc * c.x == (la + lb + lc) * p.x
    &&& la * a.y + lb * b.y + lc * c.y == (la + lb + lc) * p.y
}

/// `p` lies in the interior of triangle `abc`: a mean of the vertices with
/// positive weights.
pub open spec fn strictly_inside(a: Point2, b: Point2, c: Point2, p: Point2) -> bool {
    exists|la: int, lb: int, lc: int|
        la > 0 && lb > 0 && lc > 0 && #[trigger] is_weighted_mean(a, b, c, p, la, lb, lc)
}

/// `p` lies in the convex hull of `a, b, c`: a mean of the vertices with
/// weights that are not negative and not all zero.
pub open spec fn in_hull(a: Point2, b: Point2, c: Point2, p: Point2) -> bool {
    exists|la: int, lb: int, lc: int|
        la >= 0 && lb >= 0 && lc >= 0 && la + lb + lc > 0 && #[trigger] is_weighted_mean(
            a,
            b,
            c,
            p,
            la,
            lb,
            lc,
        )
}

/// The barycentric weights of `p` with respect to `abc`, from one cross
/// product: of the edge vectors `(ac, ab)` and the vector `pa`, taken in x and
/// in y. The weights come out scaled by the common total; a zero total marks a
/// degenerate triangle, for which no weight is meaningful.
pub fn barycentric(a: Point2, b: Point2, c: Point2, p: Point2) -> (r: Barycentric)
    requires
        a.wf(),
        b.wf(),
        c.wf(),
        p.wf(),
    ensures
        r == Barycentric::of(a, b, c, p),
        r.wa == bary_a(a, b, c, p),
        r.wb == bary_b(a, b, c, p),
        r.wc == bary_c(a, b, c, p),
        r.total == bary_total(a, b, c),
        r.total >= 0,
        -WEIGHT_LIMIT <= r.wa <= WEIGHT_LIMIT,
        -WEIGHT_LIMIT <= r.wb <= WEIGHT_LIMIT,
        -WEIGHT_LIMIT <= r.wc <= WEIGHT_LIMIT,
        r.total <= WEIGHT_LIMIT,
        r.sums_to_total(),
{
    let (ax, ay, bx, by) = (a.x as i128, a.y as i128, b.x as i128, b.y as i128);
    let (cx, cy, px, py) = (c.x as i128, c.y as i128, p.x as i128, p.y as i128);
    let xs = (cx - ax, bx - ax, ax - px);
    let ys = (cy - ay, by - ay, ay - py);
    proof {
        lemma_bary_bounds(a, b, c, p);
        let lim = 2 * COORD_LIMIT as int;
        lemma_mul_abs_bound(xs.1 as int, ys.2 as int, lim, lim);
        lemma_mul_abs_bound(xs.2 as int, ys.1 as int, lim, lim);
        lemma_mul_abs_bound(xs.2 as int, ys.0 as int, lim, lim);
        lemma_mul_abs_bound(xs.0 as int, ys.2 as int, lim, lim);
        lemma_mul_abs_bound(xs.0 as int, ys.1 as int, lim, lim);
        lemma_mul_abs_bound(xs.1 as int, ys.0 as int, lim, lim);
        lemma_cross_is_areas(a, b, c, p);
        lemma_cut_areas(a, b, c, p);
        lemma_weights_sum(a, b, c, p);
    }
    let ux = xs.1 * ys.2 - xs.2 * ys.1;
    let uy = xs.2 * ys.0 - xs.0 * ys.2;
    let uz = xs.0 * ys.1 - xs.1 * ys.0;
    // (uy / uz, ux / uz) are the coordinates of p in the basis (ab, ac) at a
    if uz > 0 {
        Barycentric { wa: uz - ux - uy, wb: uy, wc: ux, total: uz }
    } else {
        Barycentric { wa: ux + uy - uz, wb: -uy, wc: -ux, total: -uz }
    }
}

/// The cross product computed by `barycentric` holds the negated sub-areas.
proof fn lemma_cross_is_areas(a: Point2, b: Point2, c: Point2, p: Point2)
    ensures
        (b.x - a.x) * (a.y - p.y) - (a.x - p.x) * (b.y - a.y) == -orient(a, b, p),
        (a.x - p.x) * (c.y - a.y) - (c.x - a.x) * (a.y - p.y) == -orient(a, p, c),
        (c.x - a.x) * (b.y - a.y) - (b.x - a.x) * (c.y - a.y) == -orient(a, b, c),
{
    lemma_swapped_area(a.x as int, a.y as int, b.x as int, b.y as int, p.x as int, p.y as int);
    lemma_swapped_area(a.x as int, a.y as int, p.x as int, p.y as int, c.x as int, c.y as int);
    lemma_swapped_area(a.x as int, a.y as int, b.x as int, b.y as int, c.x as int, c.y as int);
}

proof fn lemma_swapped_area(ax: int, ay: int, bx: int, by: int, cx: int, cy: int)
    ensures
        (bx - ax) * (ay - cy) - (ax - cx) * (by - ay) == -((bx - ax) * (cy - ay) - (by - ay) * (cx
            - ax)),
        (ax - bx) * (cy - ay) - (cx - ax) * (ay - by) == -((bx - ax) * (cy - ay) - (by - ay) * (cx
            - ax)),
        (cx - ax) * (by - ay) - (bx - ax) * (cy - ay) == -((bx - ax) * (cy - ay) - (by - ay) * (cx
            - ax)),
{
    assert((bx - ax) * (ay - cy) - (ax - cx) * (by - ay) == -((bx - ax) * (cy - ay) - (by - ay)
        * (cx - ax))) by (nonlinear_arith);
    assert((ax - bx) * (cy - ay) - (cx - ax) * (ay - by) == -((bx - ax) * (cy - ay) - (by - ay)
        * (cx - ax))) by (nonlinear_arith);
    assert((cx - ax) * (by - ay) - (bx - ax) * (cy - ay) == -((bx - ax) * (cy - ay) - (by - ay)
        * (cx - ax))) by (nonlinear_arith);
}

/// A covered point lies in the triangle's bounding box.
pub proof fn lemma_covered_in_box(a: Point2, b: Point2, c: Point2, p: Point2)
    requires
        covers(a, b, c, p),
    ensures
        min3(a.x as int, b.x as int, c.x as int) <= p.x <= max3(a.x as int, b.x as int, c.x as int),
        min3(a.y as int, b.y as int, c.y as int) <= p.y <= max3(a.y as int, b.y as int, c.y as int),
{
    lemma_weights_sum(a, b, c, p);
    lemma_weights_reproduce_point(a, b, c, p);
    let (wa, wb, wc, t) = (bary_a(a, b, c, p), bary_b(a, b, c, p), bary_c(a, b, c, p), bary_total(a, b, c));
    lemma_mean_in_range(wa, wb, wc, t, a.x as int, b.x as int, c.x as int, p.x as int);
    lemma_mean_in_range(wa, wb, wc, t, a.y as int, b.y as int, c.y as int, p.y as int);
}

/// A mean with non-negative weights lies between the least and the greatest value.
pub proof fn lemma_mean_in_range(wa: int, wb: int, wc: int, t: int, va: int, vb: int, vc: int, p: int)
    requires
        wa >= 0,
        wb >= 0,
        wc >= 0,
        t > 0,
        wa + wb + wc == t,
        wa * va + wb * vb + wc * vc == t * p,
    ensures
        min3(va, vb, vc) <= p <= max3(va, vb, vc),
{
    let lo = min3(va, vb, vc);
    let hi = max3(va, vb, vc);
    lemma_mul_between(wa, lo, va, hi);
    lemma_mul_between(wb, lo, vb, hi);
    lemma_mul_between(wc, lo, vc, hi);
    assert(t * lo == wa * lo + wb * lo + wc * lo) by (nonlinear_arith)
        requires
            wa + wb + wc == t,
    ;
    assert(t * hi == wa * hi + wb * hi + wc * hi) by (nonlinear_arith)
        requires
            wa + wb + wc == t,
    ;
    assert(lo <= p <= hi) by (nonlinear_arith)
        requires
            t > 0,
            t * lo <= t * p <= t * hi,
    ;
}

proof fn lemma_mul_between(w: int, lo: int, v: int, hi: int)
    requires
        w >= 0,
        lo <= v <= hi,
    ensures
        w * lo <= w * v <= w * hi,
{
    assert(w * lo <= w * v <= w * hi) by (nonlinear_arith)
        requires
            w >= 0,
            lo <= v <= hi,
    ;
}

/// For points in range, the weights and their total are at most `2^67` in magnitude.
pub proof fn lemma_bary_bounds(a: Point2, b: Point2, c: Point2, p: Point2)
    requires
        a.wf(),
        b.wf(),
        c.wf(),
        p.wf(),
    ensures
        -WEIGHT_LIMIT <= bary_a(a, b, c, p) <= WEIGHT_LIMIT,
        -WEIGHT_LIMIT <= bary_b(a, b, c, p) <= WEIGHT_LIMIT,
        -WEIGHT_LIMIT <= bary_c(a, b, c, p) <= WEIGHT_LIMIT,
        0 <= bary_total(a, b, c) <= WEIGHT_LIMIT,
{
    lemma_orient_bound(p, b, c);
    lemma_orient_bound(a, p, c);
    lemma_orient_bound(a, b, p);
    lemma_orient_bound(a, b, c);
}

proof fn lemma_orient_bound(a: Point2, b: Point2, c: Point2)
    requires
        a.wf(),
        b.wf(),
        c.wf(),
    ensures
        -WEIGHT_LIMIT <= orient(a, b, c) <= WEIGHT_LIMIT,
{
    lemma_mul_abs_bound(b.x - a.x, c.y - a.y, 0x2_0000_0000, 0x2_0000_0000);
    lemma_mul_abs_bound(b.y - a.y, c.x - a.x, 0x2_0000_0000, 0x2_0000_0000);
}

pub(crate) proof fn lemma_mul_abs_bound(x: int, y: int, bx: int, by: int)
    requires
        -bx <= x <= bx,
        -by <= y <= by,
    ensures
        -(bx * by) <= x * y <= bx * by,
{
    assert(-(bx * by) <= x * y <= bx * by) by (nonlinear_arith)
        requires
            -bx <= x <= bx,
            -by <= y <= by,
    ;
}

/// With `p` moved to the origin, the three sub-areas that `p` cuts out of
/// `uvw` weigh the vertices to the origin.
proof fn lemma_cut_areas_balance(ux: int, uy: int, vx: int, vy: int, wx: int, wy: int)
    ensures
        (vx * wy - vy * wx) * ux + (uy * wx - ux * wy) * vx + (ux * vy - uy * vx) * wx == 0,
        (vx * wy - vy * wx) * uy + (uy * wx - ux * wy) * vy + (ux * vy - uy * vx) * wy == 0,
{
    assert((vx * wy - vy * wx) * ux == ux * vx * wy - ux * vy * wx) by (nonlinear_arith);
    assert((uy * wx - ux * wy) * vx == uy * vx * wx - ux * vx * wy) by (nonlinear_arith);
    assert((ux * vy - uy * vx) * wx == ux * vy * wx - uy * vx * wx) by (nonlinear_arith);
    assert((vx * wy - vy * wx) * uy == uy * vx * wy - uy * vy * wx) by (nonlinear_arith);
    assert((uy * wx - ux * wy) * vy == uy * vy * wx - ux * vy * wy) by (nonlinear_arith);
    assert((ux * vy - uy * vx) * wy == ux * vy * wy - uy * vx * wy) by (nonlinear_arith);
}

/// The signed areas of `pbc`, `apc` and `abp`, with `p` moved to the origin.
proof fn lemma_cut_areas(a: Point2, b: Point2, c: Point2, p: Point2)
    ensures
        orient(p, b, c) == (b.x - p.x) * (c.y - p.y) - (b.y - p.y) * (c.x - p.x),
        orient(a, p, c) == (a.y - p.y) * (c.x - p.x) - (a.x - p.x) * (c.y - p.y),
        orient(a, b, p) == (a.x - p.x) * (b.y - p.y) - (a.y - p.y) * (b.x - p.x),
        orient(a, b, c) == orient(p, b, c) + orient(a, p, c) + orient(a, b, p),
{
    let (ux, uy, vx, vy, wx, wy) = (
        a.x - p.x,
        a.y - p.y,
        b.x - p.x,
        b.y - p.y,
        c.x - p.x,
        c.y - p.y,
    );
    assert((p.x - a.x) * (c.y - a.y) - (p.y - a.y) * (c.x - a.x) == uy * wx - ux * wy)
        by (nonlinear_arith)
        requires
            ux == a.x - p.x,
            uy == a.y - p.y,
            wx == c.x - p.x,
            wy == c.y - p.y,
    ;
    assert((b.x - a.x) * (p.y - a.y) - (b.y - a.y) * (p.x - a.x) == ux * vy - uy * vx)
        by (nonlinear_arith)
        requires
            ux == a.x - p.x,
            uy == a.y - p.y,
            vx == b.x - p.x,
            vy == b.y - p.y,
    ;
    assert((b.x - a.x) * (c.y - a.y) - (b.y - a.y) * (c.x - a.x) == (vx - ux) * (wy - uy) - (vy
        - uy) * (wx - ux));
    assert((vx - ux) * (wy - uy) - (vy - uy) * (wx - ux) == (vx * wy - vy * wx) + (uy * wx - ux
        * wy) + (ux * vy - uy * vx)) by (nonlinear_arith);
}

/// The three sub-triangle areas add up to the whole.
pub proof fn lemma_weights_sum(a: Point2, b: Point2, c: Point2, p: Point2)
    ensures
        bary_a(a, b, c, p) + bary_b(a, b, c, p) + bary_c(a, b, c, p) == bary_total(a, b, c),
{
    lemma_cut_areas(a, b, c, p);
}

/// The weights reproduce the point: `wa * a + wb * b + wc * c == total * p`.
pub proof fn lemma_weights_reproduce_point(a: Point2, b: Point2, c: Point2, p: Point2)
    ensures
        is_weighted_mean(a, b, c, p, bary_a(a, b, c, p), bary_b(a, b, c, p), bary_c(a, b, c, p)),
{
    lemma_cut_areas(a, b, c, p);
    let (ux, uy, vx, vy, wx, wy) = (
        a.x - p.x,
        a.y - p.y,
        b.x - p.x,
        b.y - p.y,
        c.x - p.x,
        c.y - p.y,
    );
    lemma_cut_areas_balance(ux, uy, vx, vy, wx, wy);
    let (ka, kb, kc) = (orient(p, b, c), orient(a, p, c), orient(a, b, p));
    let (wa, wb, wc) = (bary_a(a, b, c, p), bary_b(a, b, c, p), bary_c(a, b, c, p));
    lemma_recentre(ka, kb, kc, a.x as int, b.x as int, c.x as int, p.x as int);
    lemma_recentre(ka, kb, kc, a.y as int, b.y as int, c.y as int, p.y as int);
}

/// Moving the origin back from `p`: `sum k_i * (v_i - p) == 0` gives
/// `sum k_i * v_i == (sum k_i) * p`, and the same with every `k_i` negated.
proof fn lemma_recentre(ka: int, kb: int, kc: int, va: int, vb: int, vc: int, p: int)
    ensures
        ka * (va - p) + kb * (vb - p) + kc * (vc - p) == 0 <==> ka * va + kb * vb + kc * vc == (ka
            + kb + kc) * p,
        ka * (va - p) + kb * (vb - p) + kc * (vc - p) == 0 ==> (-ka) * va + (-kb) * vb + (-kc) * vc
            == ((-ka) + (-kb) + (-kc)) * p,
{
    assert(ka * (va - p) == ka * va - ka * p) by (nonlinear_arith);
    assert(kb * (vb - p) == kb * vb - kb * p) by (nonlinear_arith);
    assert(kc * (vc - p) == kc * vc - kc * p) by (nonlinear_arith);
    assert((ka + kb + kc) * p == ka * p + kb * p + kc * p) by (nonlinear_arith);
    assert((-ka) * va == -(ka * va)) by (nonlinear_arith);
    assert((-kb) * vb == -(kb * vb)) by (nonlinear_arith);
    assert((-kc) * vc == -(kc * vc)) by (nonlinear_arith);
    assert(((-ka) + (-kb) + (-kc)) * p == -((ka + kb + kc) * p)) by (nonlinear_arith);
}

/// For a weighted mean `p` of `a, b, c`, each sub-area is the whole area
/// times the weight of the vertex that it leaves out, over the sum of the weights.
proof fn lemma_areas_of_mean(a: Point2, b: Point2, c: Point2, p: Point2, la: int, lb: int, lc: int)
    requires
        is_weighted_mean(a, b, c, p, la, lb, lc),
    ensures
        (la + lb + lc) * orient(p, b, c) == la * orient(a, b, c),
        (la + lb + lc) * orient(a, p, c) == lb * orient(a, b, c),
        (la + lb + lc) * orient(a, b, p) == lc * orient(a, b, c),
{
    lemma_cut_areas(a, b, c, p);
    let (ux, uy, vx, vy, wx, wy) = (
        a.x - p.x,
        a.y - p.y,
        b.x - p.x,
        b.y - p.y,
        c.x - p.x,
        c.y - p.y,
    );
    let s = la + lb + lc;
    lemma_recentre(la, lb, lc, a.x as int, b.x as int, c.x as int, p.x as int);
    lemma_recentre(la, lb, lc, a.y as int, b.y as int, c.y as int, p.y as int);
    let (ka, kb, kc) = (vx * wy - vy * wx, uy * wx - ux * wy, ux * vy - uy * vx);
    lemma_mean_cut_areas(la, lb, lc, ux, uy, vx, vy, wx, wy);
    lemma_mean_cut_areas(lb, lc, la, vx, vy, wx, wy, ux, uy);
    lemma_mean_cut_areas(lc, la, lb, wx, wy, ux, uy, vx, vy);
    assert(s * ka == la * (ka + kb + kc)) by (nonlinear_arith)
        requires
            la * kb == lb * ka,
            la * kc == lc * ka,
            s == la + lb + lc,
    ;
    assert(s * kb == lb * (ka + kb + kc)) by (nonlinear_arith)
        requires
            lb * kc == lc * kb,
            lb * ka == la * kb,
            s == la + lb + lc,
    ;
    assert(s * kc == lc * (ka + kb + kc)) by (nonlinear_arith)
        requires
            lc * ka == la * kc,
            lc * kb == lb * kc,
            s == la + lb + lc,
    ;
}

/// With `p` at the origin and `la * u + lb * v + lc * w == 0`, the area cut
/// off next to `u` relates to the one next to `v` and `w` as the weights do.
proof fn lemma_mean_cut_areas(
    la: int,
    lb: int,
    lc: int,
    ux: int,
    uy: int,
    vx: int,
    vy: int,
    wx: int,
    wy: int,
)
    requires
        la * ux + lb * vx + lc * wx == 0,
        la * uy + lb * vy + lc * wy == 0,
    ensures
        la * (uy * wx - ux * wy) == lb * (vx * wy - vy * wx),
        la * (ux * vy - uy * vx) == lc * (vx * wy - vy * wx),
{
    let (au, av) = (la * ux, la * uy);
    assert(la * (uy * wx - ux * wy) == av * wx - au * wy) by (nonlinear_arith)
        requires
            au == la * ux,
            av == la * uy,
    ;
    assert(la * (ux * vy - uy * vx) == au * vy - av * vx) by (nonlinear_arith)
        requires
            au == la * ux,
            av == la * uy,
    ;
    assert(av * wx - au * wy == lb * (vx * wy - vy * wx)) by (nonlinear_arith)
        requires
            au == -(lb * vx + lc * wx),
            av == -(lb * vy + lc * wy),
    ;
    assert(au * vy - av * vx == lc * (vx * wy - vy * wx)) by (nonlinear_arith)
        requires
            au == -(lb * vx + lc * wx),
            av == -(lb * vy + lc * wy),
    ;
}

proof fn lemma_positive_factor(k: int, w: int, v: int)
    requires
        k > 0,
        k * w == v,
    ensures
        v > 0 ==> w > 0,
        v >= 0 ==> w >= 0,
{
    assert(v > 0 ==> w > 0) by (nonlinear_arith)
        requires
            k > 0,
            k * w == v,
    ;
    assert(v >= 0 ==> w >= 0) by (nonlinear_arith)
        requires
            k > 0,
            k * w == v,
    ;
}

/// Every point strictly inside a non-degenerate triangle has positive weights,
/// which add up to the total (so their quotients by it add up to one).
pub proof fn lemma_strictly_inside_weights_positive(a: Point2, b: Point2, c: Point2, p: Point2)
    requires
        orient(a, b, c) != 0,
        strictly_inside(a, b, c, p),
    ensures
        bary_total(a, b, c) > 0,
        bary_a(a, b, c, p) > 0,
        bary_b(a, b, c, p) > 0,
        bary_c(a, b, c, p) > 0,
        bary_a(a, b, c, p) + bary_b(a, b, c, p) + bary_c(a, b, c, p) == bary_total(a, b, c),
{
    let (la, lb, lc) = choose|la: int, lb: int, lc: int|
        la > 0 && lb > 0 && lc > 0 && #[trigger] is_weighted_mean(a, b, c, p, la, lb, lc);
    lemma_weights_sum(a, b, c, p);
    lemma_areas_of_mean(a, b, c, p, la, lb, lc);
    let s = la + lb + lc;
    let t = bary_total(a, b, c);
    let (ka, kb, kc, k) = (orient(p, b, c), orient(a, p, c), orient(a, b, p), orient(a, b, c));
    let (wa, wb, wc) = (bary_a(a, b, c, p), bary_b(a, b, c, p), bary_c(a, b, c, p));
    assert(s * wa == la * t && s * wb == lb * t && s * wc == lc * t) by (nonlinear_arith)
        requires
            s * ka == la * k,
            s * kb == lb * k,
            s * kc == lc * k,
            (wa == ka && wb == kb && wc == kc && t == k) || (wa == -ka && wb == -kb && wc == -kc
                && t == -k),
    ;
    assert(la * t > 0 && lb * t > 0 && lc * t > 0) by (nonlinear_arith)
        requires
            la > 0,
            lb > 0,
            lc > 0,
            t > 0,
    ;
    lemma_positive_factor(s, wa, la * t);
    lemma_positive_factor(s, wb, lb * t);
    lemma_positive_factor(s, wc, lc * t);
}

/// Every point outside the convex hull of a non-degenerate triangle has a
/// negative weight.
pub proof fn lemma_outside_hull_weight_negative(a: Point2, b: Point2, c: Point2, p: Point2)
    requires
        orient(a, b, c) != 0,
        !in_hull(a, b, c, p),
    ensures
        bary_a(a, b, c, p) < 0 || bary_b(a, b, c, p) < 0 || bary_c(a, b, c, p) < 0,
{
    lemma_weights_sum(a, b, c, p);
    lemma_weights_reproduce_point(a, b, c, p);
    let (wa, wb, wc) = (bary_a(a, b, c, p), bary_b(a, b, c, p), bary_c(a, b, c, p));
    if wa >= 0 && wb >= 0 && wc >= 0 {
        assert(is_weighted_mean(a, b, c, p, wa, wb, wc));
        assert(in_hull(a, b, c, p));
    }
}

} // verus!
