use vstd::prelude::*;

verus! {

/// An 8-bit-per-channel RGB color.
#[derive(Clone, Copy, Debug, PartialEq, Eq, Structural)]
pub struct Color {
    pub r: u8,
    pub g: u8,
    pub b: u8,
}

impl Color {
    /// The channels as a triple `(r, g, b)`.
    pub open spec fn channels(self) -> (u8, u8, u8) {
        (self.r, self.g, self.b)
    }

    pub fn new(r: u8, g: u8, b: u8) -> (res: Color)
        ensures
            res == (Color { r, g, b }),
    {
        Color { r, g, b }
    }
}

/// The byte for a channel value `num / den`: the value clamped to
/// `[0, 0.999]`, times 256, rounded down.
pub open spec fn channel_byte(num: nat, den: nat) -> int {
    if 1000 * num >= 999 * den {
        255
    } else {
        (256 * num as int) / (den as int)
    }
}

/// Scales a channel value `num / den`, not negative, into a byte; see `channel_byte`.
pub fn channel_from_fraction(num: u32, den: u32) -> (r: u8)
    requires
        den > 0,
    ensures
        r == channel_byte(num as nat, den as nat),
{
    let (n, d) = (num as u64, den as u64);
    if 1000 * n >= 999 * d {
        255
    } else {
        proof {
            let x = 256 * n as int;
            vstd::arithmetic::div_mod::lemma_fundamental_div_mod(x, d as int);
            vstd::arithmetic::div_mod::lemma_mod_pos_bound(x, d as int);
            let q = x / (d as int);
            assert(q < 256) by (nonlinear_arith)
                requires
                    x == d * q + x % (d as int),
                    x % (d as int) >= 0,
                    x < 256 * d,
                    d > 0,
            ;
        }
        ((256 * n) / d) as u8
    }
}

} // verus!
