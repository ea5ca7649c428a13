//! Serialization of a framebuffer to the plain-text PPM format: the magic
//! token `P3`, the width and height, the maximum channel value 255, then one
//! line per row holding the `R G B` values of its pixels, all separated by
//! single spaces.
use crate::framebuffer::{FrameView, Framebuffer};
use vstd::prelude::*;

verus! {

/// The decimal digits of `n`, in ASCII.
pub open spec fn decimal(n: nat) -> Seq<u8>
    decreases n,
{
    if n < 10 {
        seq![(48 + n) as u8]
    } else {
        decimal(n / 10) + seq![(48 + n % 10) as u8]
    }
}

pub open spec fn space() -> Seq<u8> {
    seq![32u8]
}

pub open spec fn newline() -> Seq<u8> {
    seq![10u8]
}

/// `P3`, the width and the height, and the maximum channel value, on three lines.
pub open spec fn ppm_header(width: nat, height: nat) -> Seq<u8> {
    seq![80u8, 51u8] + newline() + decimal(width) + space() + decimal(height) + newline() + seq![
        50u8,
        53u8,
        53u8,
    ] + newline()
}

/// One pixel: its three channels, separated by spaces.
pub open spec fn pixel_text(c: (u8, u8, u8)) -> Seq<u8> {
    decimal(c.0 as nat) + space() + decimal(c.1 as nat) + space() + decimal(c.2 as nat)
}

/// The first `k` pixels of the row that starts at index `start`, separated by spaces.
pub open spec fn row_text(colors: Seq<(u8, u8, u8)>, start: int, k: nat) -> Seq<u8>
    decreases k,
{
    if k == 0 {
        Seq::empty()
    } else if k == 1 {
        pixel_text(colors[start])
    } else {
        row_text(colors, start, (k - 1) as nat) + space() + pixel_text(colors[start + k - 1])
    }
}

/// The first `n` rows of a grid `w` wide, each ended by a newline.
pub open spec fn rows_text(colors: Seq<(u8, u8, u8)>, w: nat, n: nat) -> Seq<u8>
    decreases n,
{
    if n == 0 {
        Seq::empty()
    } else {
        rows_text(colors, w, (n - 1) as nat) + row_text(colors, (n - 1) * w, w) + newline()
    }
}

/// The plain-text PPM image of a framebuffer's colors.
pub open spec fn ppm_text(f: FrameView) -> Seq<u8> {
    ppm_header(f.width, f.height) + rows_text(f.colors, f.width, f.height)
}

/// Appends the decimal digits of `n`.
pub fn push_decimal(out: &mut Vec<u8>, n: u32)
    ensures
        final(out)@ == old(out)@ + decimal(n as nat),
    decreases n,
{
    if n >= 10 {
        push_decimal(out, n / 10);
    }
    out.push((48 + n % 10) as u8);
    proof {
        if n < 10 {
            assert(n % 10 == n);
        }
        assert(final(out)@ =~= old(out)@ + decimal(n as nat));
    }
}

impl Framebuffer {
    /// The framebuffer's colors as a plain-text PPM image.
    pub fn to_ppm(&self) -> (r: Vec<u8>)
        requires
            self.wf(),
        ensures
            r@ == ppm_text(self@),
    {
        let w = self.width();
        let h = self.height();
        let mut out: Vec<u8> = Vec::new();
        out.push(80);
        out.push(51);
        out.push(10);
        push_decimal(&mut out, w);
        out.push(32);
        push_decimal(&mut out, h);
        out.push(10);
        out.push(50);
        out.push(53);
        out.push(53);
        out.push(10);
        let ghost header = ppm_header(w as nat, h as nat);
        assert(out@ =~= header);
        let ghost colors = self@.colors;
        let mut y: u32 = 0;
        while y < h
            invariant
                self.wf(),
                w == self@.width,
                h == self@.height,
                colors == self@.colors,
                header == ppm_header(w as nat, h as nat),
                y <= h,
                out@ == header + rows_text(colors, w as nat, y as nat),
            decreases h - y,
        {
            let ghost done = out@;
            let mut x: u32 = 0;
            while x < w
                invariant
                    self.wf(),
                    w == self@.width,
                    h == self@.height,
                    colors == self@.colors,
                    y < h,
                    x <= w,
                    out@ == done + row_text(colors, y * w, x as nat),
                decreases w - x,
            {
                let c = self.get(x, y);
                let ghost before = out@;
                if x > 0 {
                    out.push(32);
                }
                push_decimal(&mut out, c.r as u32);
                out.push(32);
                push_decimal(&mut out, c.g as u32);
                out.push(32);
                push_decimal(&mut out, c.b as u32);
                proof {
                    assert(colors[y * w + x] == c.channels());
                    assert(y * w + x == y * w + (x + 1) - 1);
                    assert(out@ =~= done + row_text(colors, y * w, (x + 1) as nat));
                }
                x = x + 1;
            }
            out.push(10);
            proof {
                assert((y + 1 - 1) * w == y * w);
                assert(out@ =~= header + rows_text(colors, w as nat, (y + 1) as nat));
            }
            y = y + 1;
        }
        out
    }
}

} // verus!
