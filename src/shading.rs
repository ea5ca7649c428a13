//! Flat shading from face normals and a single directional light, computed
//! exactly: an intensity is kept as the square of the cosine between the
//! normal and the light, as a fraction of integers.
use crate::geometry::{ScreenPoint, COORD_LIMIT};
use vstd::prelude::*;

verus! {

/// Bound on the magnitude of each component of a light direction.
pub const LIGHT_LIMIT: i64 = 4096;

/// Bound on the magnitude of each component of a face normal that can be
/// shaded exactly: `2^33`.
pub const NORMAL_LIMIT: i64 = 0x2_0000_0000;

/// Bound on the numerator and denominator of an intensity: `2^94`.
pub const INTENSITY_LIMIT: u128 = 0x4000_0000_0000_0000_0000_0000;

/// An integer 3-vector.
#[derive(Clone, Copy, Debug, PartialEq, Eq, Structural)]
pub struct Vector3 {
    pub x: i64,
    pub y: i64,
    pub z: i64,
}

impl Vector3 {
    pub open spec fn dot(self, o: Vector3) -> int {
        self.x * o.x + self.y * o.y + self.z * o.z
    }

    pub open spec fn norm_sq(self) -> int {
        self.dot(self)
    }

    /// A usable light direction: not zero, and small enough for exact shading.
    pub open spec fn is_light(self) -> bool {
        &&& -LIGHT_LIMIT <= self.x <= LIGHT_LIMIT
        &&& -LIGHT_LIMIT <= self.y <= LIGHT_LIMIT
        &&& -LIGHT_LIMIT <= self.z <= LIGHT_LIMIT
        &&& self.norm_sq() > 0
    }
}

/// The (unnormalized) normal of face `p1 p2 p3`: the cross product of
/// `p3 - p1` and `p2 - p1`.
pub open spec fn normal_of(p1: ScreenPoint, p2: ScreenPoint, p3: ScreenPoint) -> Vector3 {
    let (ux, uy, uz) = (p3.x - p1.x, p3.y - p1.y, p3.z - p1.z);
    let (vx, vy, vz) = (p2.x - p1.x, p2.y - p1.y, p2.z - p1.z);
    Vector3 {
        x: (uy * vz - uz * vy) as i64,
        y: (uz * vx - ux * vz) as i64,
        z: (ux * vy - uy * vx) as i64,
    }
}

/// The normal of face `p1 p2 p3` is small enough to be shaded exactly: each
/// component is at most `NORMAL_LIMIT` in magnitude.
pub open spec fn normal_fits(p1: ScreenPoint, p2: ScreenPoint, p3: ScreenPoint) -> bool {
    let (ux, uy, uz) = (p3.x - p1.x, p3.y - p1.y, p3.z - p1.z);
    let (vx, vy, vz) = (p2.x - p1.x, p2.y - p1.y, p2.z - p1.z);
    &&& -NORMAL_LIMIT <= uy * vz - uz * vy <= NORMAL_LIMIT
    &&& -NORMAL_LIMIT <= uz * vx - ux * vz <= NORMAL_LIMIT
    &&& -NORMAL_LIMIT <= ux * vy - uy * vx <= NORMAL_LIMIT
}

impl Vector3 {
    pub open spec fn fits_normal(self) -> bool {
        &&& -NORMAL_LIMIT <= self.x <= NORMAL_LIMIT
        &&& -NORMAL_LIMIT <= self.y <= NORMAL_LIMIT
        &&& -NORMAL_LIMIT <= self.z <= NORMAL_LIMIT
    }
}

/// A light intensity in `[0, 1]`, held as its square `num / den`.
#[derive(Clone, Copy, Debug, PartialEq, Eq, Structural)]
pub struct Intensity {
    pub num: u128,
    pub den: u128,
}

impl Intensity {
    pub open spec fn wf(self) -> bool {
        0 < self.den < INTENSITY_LIMIT && self.num < INTENSITY_LIMIT
    }
}

/// What happens to a face that the light does not reach.
#[derive(Clone, Copy, Debug, PartialEq, Eq, Structural)]
pub enum Lighting {
    /// Faces with a non-positive intensity are culled: not drawn at all.
    Cull,
    /// Intensity never falls below `percent / 100`; no face is culled.
    Ambient { percent: u8 },
}

impl Lighting {
    pub open spec fn wf(self) -> bool {
        match self {
            Lighting::Cull => true,
            Lighting::Ambient { percent } => percent <= 100,
        }
    }
}

/// The intensity with which a face of normal `n` is lit from `light`, under
/// `lighting`; `None` when the face is culled.
pub open spec fn intensity_of(n: Vector3, light: Vector3, lighting: Lighting) -> Option<Intensity> {
    let d = n.dot(light);
    let full = Intensity { num: (d * d) as u128, den: (n.norm_sq() * light.norm_sq()) as u128 };
    match lighting {
        Lighting::Cull => if d > 0 && n.norm_sq() > 0 {
            Some(full)
        } else {
            None
        },
        Lighting::Ambient { percent } => {
            let floor = Intensity { num: (percent * percent) as u128, den: 10000 };
            // cos >= percent / 100, compared through squares
            if d > 0 && n.norm_sq() > 0 && 10000 * d * d >= percent * percent * n.norm_sq()
                * light.norm_sq() {
                Some(full)
            } else {
                Some(floor)
            }
        },
    }
}

/// `s <= c * sqrt(i)`, that is `s` does not exceed channel value `c` scaled by
/// intensity `i` (`s` and `c` are not negative).
pub open spec fn within_scaled(s: int, c: int, i: Intensity) -> bool {
    s * s * i.den <= c * c * i.num
}

/// `s <= c * sqrt(sqrt(i))`: `s` does not exceed `c` scaled by the
/// gamma-corrected intensity `sqrt(i)`.
pub open spec fn within_gamma_scaled(s: int, c: int, i: Intensity) -> bool {
    s * s * s * s * i.den <= c * c * c * c * i.num
}

/// `s` is `c * sqrt(i)` rounded down, capped at `c`.
pub open spec fn is_scaled_level(s: int, c: int, i: Intensity) -> bool {
    0 <= s <= c && within_scaled(s, c, i) && (s == c || !within_scaled(s + 1, c, i))
}

/// `s` is `c * sqrt(sqrt(i))` rounded down, capped at `c`.
pub open spec fn is_gamma_level(s: int, c: int, i: Intensity) -> bool {
    0 <= s <= c && within_gamma_scaled(s, c, i) && (s == c || !within_gamma_scaled(s + 1, c, i))
}

/// The gray level of a flat-shaded face of intensity `i`: `255 * sqrt(i)`, rounded down.
pub open spec fn flat_level(i: Intensity) -> u8 {
    choose|s: u8| is_scaled_level(s as int, 255, i)
}

/// Texture channel `c` shaded by the gamma-corrected intensity `sqrt(i)`:
/// `c * sqrt(sqrt(i))`, rounded down.
pub open spec fn gamma_level(c: u8, i: Intensity) -> u8 {
    choose|s: u8| is_gamma_level(s as int, c as int, i)
}

/// There is one scaled level at most.
proof fn lemma_scaled_level_unique(s: int, t: int, c: int, i: Intensity)
    requires
        i.wf(),
        is_scaled_level(s, c, i),
        is_scaled_level(t, c, i),
    ensures
        s == t,
{
    if s < t {
        assert((s + 1) * (s + 1) * i.den <= t * t * i.den) by (nonlinear_arith)
            requires
                0 <= s + 1 <= t,
                i.den > 0,
        ;
    } else if t < s {
        assert((t + 1) * (t + 1) * i.den <= s * s * i.den) by (nonlinear_arith)
            requires
                0 <= t + 1 <= s,
                i.den > 0,
        ;
    }
}

/// There is one gamma level at most.
proof fn lemma_gamma_level_unique(s: int, t: int, c: int, i: Intensity)
    requires
        i.wf(),
        is_gamma_level(s, c, i),
        is_gamma_level(t, c, i),
    ensures
        s == t,
{
    if s < t {
        assert((s + 1) * (s + 1) * (s + 1) * (s + 1) * i.den <= t * t * t * t * i.den)
            by (nonlinear_arith)
            requires
                0 <= s + 1 <= t,
                i.den > 0,
        ;
    } else if t < s {
        assert((t + 1) * (t + 1) * (t + 1) * (t + 1) * i.den <= s * s * s * s * i.den)
            by (nonlinear_arith)
            requires
                0 <= t + 1 <= s,
                i.den > 0,
        ;
    }
}

proof fn lemma_mul_le(x: int, y: int, bx: int, by: int)
    requires
        0 <= x <= bx,
        0 <= y <= by,
    ensures
        0 <= x * y <= bx * by,
{
    assert(0 <= x * y <= bx * by) by (nonlinear_arith)
        requires
            0 <= x <= bx,
            0 <= y <= by,
    ;
}

proof fn lemma_abs_mul_le(x: int, y: int, bx: int, by: int)
    requires
        -bx <= x <= bx,
        -by <= y <= by,
    ensures
        -(bx * by) <= x * y <= bx * by,
{
    assert(-(bx * by) <= x * y <= bx * by) by (nonlinear_arith)
        requires
            -bx <= x <= bx,
            -by <= y <= by,
    ;
}

/// The normal of face `p1 p2 p3`, the cross product of `p3 - p1` and `p2 - p1`.
pub fn face_normal(p1: ScreenPoint, p2: ScreenPoint, p3: ScreenPoint) -> (n: Vector3)
    requires
        p1.wf(),
        p2.wf(),
        p3.wf(),
        normal_fits(p1, p2, p3),
    ensures
        n == normal_of(p1, p2, p3),
        n.fits_normal(),
{
    let (ux, uy, uz) = (
        p3.x as i128 - p1.x as i128,
        p3.y as i128 - p1.y as i128,
        p3.z as i128 - p1.z as i128,
    );
    let (vx, vy, vz) = (
        p2.x as i128 - p1.x as i128,
        p2.y as i128 - p1.y as i128,
        p2.z as i128 - p1.z as i128,
    );
    let lim = 2 * COORD_LIMIT;
    proof {
        lemma_abs_mul_le(uy as int, vz as int, lim as int, lim as int);
        lemma_abs_mul_le(uz as int, vy as int, lim as int, lim as int);
        lemma_abs_mul_le(uz as int, vx as int, lim as int, lim as int);
        lemma_abs_mul_le(ux as int, vz as int, lim as int, lim as int);
        lemma_abs_mul_le(ux as int, vy as int, lim as int, lim as int);
        lemma_abs_mul_le(uy as int, vx as int, lim as int, lim as int);
    }
    Vector3 {
        x: (uy * vz - uz * vy) as i64,
        y: (uz * vx - ux * vz) as i64,
        z: (ux * vy - uy * vx) as i64,
    }
}

/// Whether face `p1 p2 p3` can be shaded exactly; see `normal_fits`.
pub fn face_normal_fits(p1: ScreenPoint, p2: ScreenPoint, p3: ScreenPoint) -> (r: bool)
    requires
        p1.wf(),
        p2.wf(),
        p3.wf(),
    ensures
        r == normal_fits(p1, p2, p3),
{
    let (ux, uy, uz) = (
        p3.x as i128 - p1.x as i128,
        p3.y as i128 - p1.y as i128,
        p3.z as i128 - p1.z as i128,
    );
    let (vx, vy, vz) = (
        p2.x as i128 - p1.x as i128,
        p2.y as i128 - p1.y as i128,
        p2.z as i128 - p1.z as i128,
    );
    let lim = 2 * COORD_LIMIT;
    proof {
        lemma_abs_mul_le(uy as int, vz as int, lim as int, lim as int);
        lemma_abs_mul_le(uz as int, vy as int, lim as int, lim as int);
        lemma_abs_mul_le(uz as int, vx as int, lim as int, lim as int);
        lemma_abs_mul_le(ux as int, vz as int, lim as int, lim as int);
        lemma_abs_mul_le(ux as int, vy as int, lim as int, lim as int);
        lemma_abs_mul_le(uy as int, vx as int, lim as int, lim as int);
    }
    let (nx, ny, nz) = (uy * vz - uz * vy, uz * vx - ux * vz, ux * vy - uy * vx);
    let n_lim = NORMAL_LIMIT as i128;
    -n_lim <= nx && nx <= n_lim && -n_lim <= ny && ny <= n_lim && -n_lim <= nz && nz <= n_lim
}

/// The intensity of a face of normal `n` lit from `light`, under `lighting`;
/// `None` when the face is culled.
pub fn face_intensity(n: Vector3, light: Vector3, lighting: Lighting) -> (r: Option<Intensity>)
    requires
        n.fits_normal(),
        light.is_light(),
        lighting.wf(),
    ensures
        r == intensity_of(n, light, lighting),
        r matches Some(i) ==> i.wf(),
{
    let nl = NORMAL_LIMIT;
    proof {
        lemma_abs_mul_le(n.x as int, light.x as int, nl as int, LIGHT_LIMIT as int);
        lemma_abs_mul_le(n.y as int, light.y as int, nl as int, LIGHT_LIMIT as int);
        lemma_abs_mul_le(n.z as int, light.z as int, nl as int, LIGHT_LIMIT as int);
        lemma_abs_mul_le(n.x as int, n.x as int, nl as int, nl as int);
        lemma_abs_mul_le(n.y as int, n.y as int, nl as int, nl as int);
        lemma_abs_mul_le(n.z as int, n.z as int, nl as int, nl as int);
        lemma_abs_mul_le(light.x as int, light.x as int, LIGHT_LIMIT as int, LIGHT_LIMIT as int);
        lemma_abs_mul_le(light.y as int, light.y as int, LIGHT_LIMIT as int, LIGHT_LIMIT as int);
        lemma_abs_mul_le(light.z as int, light.z as int, LIGHT_LIMIT as int, LIGHT_LIMIT as int);
    }
    let d = (n.x as i128) * (light.x as i128) + (n.y as i128) * (light.y as i128) + (n.z as i128)
        * (light.z as i128);
    let nn = (n.x as i128) * (n.x as i128) + (n.y as i128) * (n.y as i128) + (n.z as i128) * (
    n.z as i128);
    let ll = (light.x as i128) * (light.x as i128) + (light.y as i128) * (light.y as i128) + (
    light.z as i128) * (light.z as i128);
    proof {
        assert(n.x * n.x >= 0 && n.y * n.y >= 0 && n.z * n.z >= 0) by (nonlinear_arith);
        assert(light.x * light.x >= 0 && light.y * light.y >= 0 && light.z * light.z >= 0)
            by (nonlinear_arith);
        assert(d * d < INTENSITY_LIMIT) by (nonlinear_arith)
            requires
                -0x6000_0000_0000 <= d <= 0x6000_0000_0000,
        ;
        assert(d * d >= 0) by (nonlinear_arith);
        assert(nn * ll >= 0) by (nonlinear_arith)
            requires
                nn >= 0,
                ll >= 0,
        ;
        assert(nn > 0 ==> nn * ll > 0) by (nonlinear_arith)
            requires
                ll > 0,
        ;
        assert(nn * ll < INTENSITY_LIMIT) by (nonlinear_arith)
            requires
                0 <= nn <= 0xC_0000_0000_0000_0000,
                0 <= ll <= 0x300_0000,
        ;
    }
    let full = Intensity { num: (d * d) as u128, den: (nn * ll) as u128 };
    match lighting {
        Lighting::Cull => {
            if d > 0 && nn > 0 {
                Some(full)
            } else {
                None
            }
        },
        Lighting::Ambient { percent } => {
            let p = percent as i128;
            proof {
                lemma_mul_le(p as int, p as int, 100, 100);
                lemma_mul_le((p * p) as int, (nn * ll) as int, 10000, INTENSITY_LIMIT as int);
            }
            if d > 0 && nn > 0 && 10000 * (d * d) >= (p * p) * (nn * ll) {
                proof {
                    assert(10000 * (d * d) == 10000 * d * d) by (nonlinear_arith);
                    assert((p * p) * (nn * ll) == p * p * nn * ll) by (nonlinear_arith);
                }
                Some(full)
            } else {
                proof {
                    assert(10000 * (d * d) == 10000 * d * d) by (nonlinear_arith);
                    assert((p * p) * (nn * ll) == p * p * nn * ll) by (nonlinear_arith);
                }
                Some(Intensity { num: (p * p) as u128, den: 10000 })
            }
        },
    }
}

/// The flat shade of a face: `255 * sqrt(i)`, rounded down.
pub fn flat_shade(i: Intensity) -> (s: u8)
    requires
        i.wf(),
    ensures
        s == flat_level(i),
        is_scaled_level(s as int, 255, i),
{
    let mut s: u8 = 0;
    let top: u128 = 255 * 255;
    proof {
        lemma_mul_le(top as int, i.num as int, top as int, INTENSITY_LIMIT as int);
    }
    let bound = top * i.num;
    assert(within_scaled(0, 255, i)) by (nonlinear_arith)
        requires
            i.num >= 0,
    ;
    while s < 255
        invariant
            i.wf(),
            within_scaled(s as int, 255, i),
            bound == 255 * 255 * i.num,
        decreases 255 - s,
    {
        let next = (s + 1) as u128;
        proof {
            lemma_mul_le(next as int, next as int, 255, 255);
            lemma_mul_le((next * next) as int, i.den as int, 65025int, INTENSITY_LIMIT as int);
        }
        if next * next * i.den > bound {
            proof {
                lemma_flat_level_is(s, i);
            }
            return s;
        }
        s = s + 1;
    }
    proof {
        lemma_flat_level_is(s, i);
    }
    s
}

proof fn lemma_flat_level_is(s: u8, i: Intensity)
    requires
        i.wf(),
        is_scaled_level(s as int, 255, i),
    ensures
        s == flat_level(i),
{
    let t = flat_level(i);
    lemma_scaled_level_unique(s as int, t as int, 255, i);
}

proof fn lemma_gamma_level_is(s: u8, c: u8, i: Intensity)
    requires
        i.wf(),
        is_gamma_level(s as int, c as int, i),
    ensures
        s == gamma_level(c, i),
{
    let t = gamma_level(c, i);
    lemma_gamma_level_unique(s as int, t as int, c as int, i);
}

/// A texture channel `c` scaled by the gamma-corrected intensity: `c * sqrt(sqrt(i))`,
/// rounded down.
pub fn gamma_shade(c: u8, i: Intensity) -> (s: u8)
    requires
        i.wf(),
    ensures
        s == gamma_level(c, i),
        is_gamma_level(s as int, c as int, i),
{
    let mut s: u8 = 0;
    proof {
        lemma_mul_le(c as int, c as int, 255, 255);
    }
    let c2 = (c as u128) * (c as u128);
    proof {
        lemma_mul_le(c2 as int, c2 as int, 65025int, 65025int);
        lemma_mul_le((c2 * c2) as int, i.num as int, 0xFC05_FC01int, INTENSITY_LIMIT as int);
        assert(c as int * c as int * c as int * c as int == c2 * c2) by (nonlinear_arith)
            requires
                c2 == c as int * c as int,
        ;
    }
    let bound = c2 * c2 * i.num;
    assert(within_gamma_scaled(0, c as int, i)) by (nonlinear_arith)
        requires
            bound == c as int * c as int * c as int * c as int * i.num,
            i.num >= 0,
            c >= 0,
    ;
    while s < c
        invariant
            i.wf(),
            s <= c,
            within_gamma_scaled(s as int, c as int, i),
            bound == c as int * c as int * c as int * c as int * i.num,
        decreases c - s,
    {
        let next = (s + 1) as u128;
        proof {
            lemma_mul_le(next as int, next as int, 255, 255);
        }
        let next2 = next * next;
        proof {
            lemma_mul_le(next2 as int, next2 as int, 65025int, 65025int);
            lemma_mul_le((next2 * next2) as int, i.den as int, 0xFC05_FC01int, INTENSITY_LIMIT as int);
            assert(next * next * next * next == next2 * next2) by (nonlinear_arith)
                requires
                    next2 == next * next,
            ;
        }
        if next2 * next2 * i.den > bound {
            proof {
                lemma_gamma_level_is(s, c, i);
            }
            return s;
        }
        s = s + 1;
    }
    proof {
        lemma_gamma_level_is(s, c, i);
    }
    s
}

} // verus!
