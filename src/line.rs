//! Bresenham line drawing: integer error accumulation, no depth test.
use crate::color::Color;
use crate::framebuffer::{lemma_index_join, lemma_index_split, FrameView, Framebuffer};
use vstd::prelude::*;

verus! {

pub open spec fn abs(v: int) -> int {
    if v < 0 {
        -v
    } else {
        v
    }
}

/// A line is steep when its rise exceeds its run; it is then walked along y.
pub open spec fn is_steep(x0: int, y0: int, x1: int, y1: int) -> bool {
    abs(x0 - x1) < abs(y0 - y1)
}

/// `(x, y)` is a point of the line walked along x from `(x0, y0)` to
/// `(x1, y1)`, where `x0 <= x1` and `|y1 - y0| <= x1 - x0`: `x` is in range,
/// and `y` is `y0 + (x - x0) * (y1 - y0) / (x1 - x0)` rounded to the nearest
/// integer, halves towards `y0`.
pub open spec fn on_walk(x0: int, y0: int, x1: int, y1: int, x: int, y: int) -> bool {
    let dx = x1 - x0;
    let dy = abs(y1 - y0);
    let m = if y1 >= y0 {
        y - y0
    } else {
        y0 - y
    };
    x0 <= x <= x1 && if dx == 0 {
        y == y0
    } else {
        -dx < 2 * (x - x0) * dy - 2 * dx * m <= dx
    }
}

/// `(x, y)` is a pixel of the line from `(x0, y0)` to `(x1, y1)`: the line is
/// walked along its longer axis, from its end with the smaller coordinate on
/// that axis.
pub open spec fn on_line(x0: int, y0: int, x1: int, y1: int, x: int, y: int) -> bool {
    if is_steep(x0, y0, x1, y1) {
        if y0 <= y1 {
            on_walk(y0, x0, y1, x1, y, x)
        } else {
            on_walk(y1, x1, y0, x0, y, x)
        }
    } else {
        if x0 <= x1 {
            on_walk(x0, y0, x1, y1, x, y)
        } else {
            on_walk(x1, y1, x0, y0, x, y)
        }
    }
}

/// The framebuffer `f` after the line from `(x0, y0)` to `(x1, y1)` is drawn
/// on it in `color`.
pub open spec fn line_drawn(f: FrameView, x0: int, y0: int, x1: int, y1: int, color: Color) -> FrameView {
    let w = f.width as int;
    FrameView {
        colors: Seq::new(
            f.colors.len(),
            |i: int|
                if on_line(x0, y0, x1, y1, i % w, i / w) {
                    color.channels()
                } else {
                    f.colors[i]
                },
        ),
        ..f
    }
}

/// A line drawn from `a` to `b` covers the same pixels as one drawn from `b` to `a`.
pub proof fn lemma_line_symmetric(x0: int, y0: int, x1: int, y1: int, x: int, y: int)
    ensures
        on_line(x0, y0, x1, y1, x, y) == on_line(x1, y1, x0, y0, x, y),
{
}

/// At most one `m` keeps the error `e - 2 * dx * m` in `(-dx, dx]`.
proof fn lemma_walk_unique(e: int, dx: int, m1: int, m2: int)
    requires
        dx > 0,
        -dx < e - 2 * dx * m1 <= dx,
        -dx < e - 2 * dx * m2 <= dx,
    ensures
        m1 == m2,
{
    assert(m1 == m2) by (nonlinear_arith)
        requires
            dx > 0,
            -dx < e - 2 * dx * m1 <= dx,
            -dx < e - 2 * dx * m2 <= dx,
    ;
}

/// How far `y` has moved from `y0` towards `y1`.
pub open spec fn walk_offset(y0: int, y1: int, y: int) -> int {
    if y1 >= y0 {
        y - y0
    } else {
        y0 - y
    }
}

/// The walk never leaves the rows between its ends: `0 <= m <= dy`.
proof fn lemma_walk_in_range(k: int, dx: int, dy: int, m: int)
    requires
        0 <= k <= dx,
        0 <= dy <= dx,
        dx > 0,
        -dx < 2 * k * dy - 2 * dx * m <= dx,
    ensures
        0 <= m <= dy,
{
    assert(0 <= m <= dy) by (nonlinear_arith)
        requires
            0 <= k <= dx,
            0 <= dy <= dx,
            dx > 0,
            -dx < 2 * k * dy - 2 * dx * m <= dx,
    ;
}

/// Pixel `i` of a framebuffer `w` wide, on the axes of the walk: column and
/// row, swapped for a steep line.
pub open spec fn walk_coords(steep: bool, w: int, i: int) -> (int, int) {
    if steep {
        (i / w, i % w)
    } else {
        (i % w, i / w)
    }
}

impl Framebuffer {
    /// Draws the line from `(x0, y0)` to `(x1, y1)` in `color`, both ends
    /// included; a line of zero length plots its one point.
    pub fn draw_line(&mut self, x0: u32, y0: u32, x1: u32, y1: u32, color: Color)
        requires
            old(self).wf(),
            old(self)@.contains(x0 as int, y0 as int),
            old(self)@.contains(x1 as int, y1 as int),
        ensures
            final(self).wf(),
            final(self)@ == line_drawn(old(self)@, x0 as int, y0 as int, x1 as int, y1 as int, color),
    {
        let ghost before = self@;
        let ghost goal = line_drawn(before, x0 as int, y0 as int, x1 as int, y1 as int, color);
        let ghost wi = before.width as int;
        let ghost hi = before.height as int;
        let (ax, ay, bx, by) = (x0 as i64, y0 as i64, x1 as i64, y1 as i64);
        let run = if ax < bx { bx - ax } else { ax - bx };
        let rise = if ay < by { by - ay } else { ay - by };
        let steep = run < rise;
        // walk along the longer axis, from the end with the smaller coordinate on it
        let (sx0, sy0, sx1, sy1) = if steep { (ay, ax, by, bx) } else { (ax, ay, bx, by) };
        let (nx0, ny0, nx1, ny1) = if sx0 <= sx1 { (sx0, sy0, sx1, sy1) } else { (sx1, sy1, sx0, sy0) };
        let dx = nx1 - nx0;
        let dy = if ny1 >= ny0 { ny1 - ny0 } else { ny0 - ny1 };
        let step: i64 = if ny1 >= ny0 { 1 } else { -1 };
        let mut err: i64 = 0;
        let mut y: i64 = ny0;
        let mut x: i64 = nx0;
        assert(2 * (x - nx0) * dy - 2 * dx * walk_offset(ny0 as int, ny1 as int, y as int) == 0)
            by (nonlinear_arith)
            requires
                x == nx0,
                walk_offset(ny0 as int, ny1 as int, y as int) == 0,
        ;
        while x <= nx1
            invariant
                before.wf(),
                self.wf(),
                self@.width == before.width,
                self@.height == before.height,
                self@.depths == before.depths,
                wi == before.width,
                hi == before.height,
                goal == line_drawn(before, x0 as int, y0 as int, x1 as int, y1 as int, color),
                steep == is_steep(x0 as int, y0 as int, x1 as int, y1 as int),
                forall|i: int, j: int|
                    on_line(x0 as int, y0 as int, x1 as int, y1 as int, i, j) == on_walk(
                        nx0 as int,
                        ny0 as int,
                        nx1 as int,
                        ny1 as int,
                        if steep { j } else { i },
                        if steep { i } else { j },
                    ),
                0 <= nx0,
                nx1 < if steep { hi } else { wi },
                0 <= ny0 < if steep { wi } else { hi },
                0 <= ny1 < if steep { wi } else { hi },
                dx == nx1 - nx0,
                dy == abs(ny1 - ny0),
                0 <= dy <= dx,
                step == if ny1 >= ny0 { 1int } else { -1int },
                nx0 <= x <= nx1 + 1,
                dx == 0 ==> err == 0 && y == ny0,
                dx > 0 ==> -dx < err <= dx,
                err == 2 * (x - nx0) * dy - 2 * dx * walk_offset(ny0 as int, ny1 as int, y as int),
                x <= nx1 ==> 0 <= walk_offset(ny0 as int, ny1 as int, y as int) <= dy,
                forall|i: int|
                    0 <= i < self@.colors.len() ==> #[trigger] self@.colors[i] == if ({
                        let (wx, wy) = walk_coords(steep, wi, i);
                        wx < x && on_walk(nx0 as int, ny0 as int, nx1 as int, ny1 as int, wx, wy)
                    }) {
                        color.channels()
                    } else {
                        before.colors[i]
                    },
            decreases nx1 + 1 - x,
        {
            let ghost cur = self@;
            let (px, py) = if steep { (y, x) } else { (x, y) };
            let ghost k = py * wi + px;
            proof {
                lemma_index_join(px as int, py as int, wi, hi);
            }
            self.set(px as u32, py as u32, color);
            let ghost m = walk_offset(ny0 as int, ny1 as int, y as int);
            let ghost e = 2 * (x - nx0) * dy;
            proof {
                assert forall|i: int| 0 <= i < self@.colors.len() implies #[trigger] self@.colors[i]
                    == if ({
                        let (wx, wy) = walk_coords(steep, wi, i);
                        wx < x + 1 && on_walk(nx0 as int, ny0 as int, nx1 as int, ny1 as int, wx, wy)
                    }) {
                        color.channels()
                    } else {
                        before.colors[i]
                    } by {
                    lemma_index_split(i, wi, hi);
                    let (wx, wy) = walk_coords(steep, wi, i);
                    if i == k {
                        assert(on_walk(nx0 as int, ny0 as int, nx1 as int, ny1 as int, x as int, y as int));
                    } else {
                        assert(cur.colors[i] == self@.colors[i]);
                        if wx == x && on_walk(nx0 as int, ny0 as int, nx1 as int, ny1 as int, wx, wy) {
                            if dx > 0 {
                                lemma_walk_unique(e, dx as int, m, walk_offset(ny0 as int, ny1 as int, wy));
                            }
                            assert(i == k);
                        }
                    }
                }
            }
            err = err + 2 * dy;
            if err > dx {
                y = y + step;
                err = err - 2 * dx;
            }
            x = x + 1;
            proof {
                let m1 = walk_offset(ny0 as int, ny1 as int, y as int);
                assert(m1 == m || m1 == m + 1);
                assert(2 * dx * (m + 1) == 2 * dx * m + 2 * dx) by (nonlinear_arith);
                assert(2 * (x - nx0) * dy == e + 2 * dy) by (nonlinear_arith)
                    requires
                        e == 2 * (x - 1 - nx0) * dy,
                ;
                if x <= nx1 && dx > 0 {
                    lemma_walk_in_range(x - nx0, dx as int, dy as int, m1);
                }
            }
        }
        proof {
            assert forall|i: int| 0 <= i < before.colors.len() implies #[trigger] self@.colors[i]
                == goal.colors[i] by {
                lemma_index_split(i, wi, hi);
            }
            assert(self@.colors =~= goal.colors);
        }
    }
}

} // verus!
