//! RGB pixel storage backed by the `image` crate's `RgbImage`, used for the
//! render target and for textures.
use crate::color::Color;
use vstd::prelude::*;

verus! {

/// An RGB image with 8-bit channels, stored by the `image` crate.
///
/// The image is held in an opaque struct because Verus does not take a
/// declaration of `ImageBuffer`, whose pixel parameter is bound by the crate's
/// `Pixel` trait. What it holds is described by `rgb_pixels`, `rgb_width` and
/// `rgb_height`, and only the methods below touch it.
#[verifier::external_body]
pub struct RgbBuffer {
    inner: image::RgbImage,
}

/// The pixels of an RGB image, row by row, each row left to right.
pub uninterp spec fn rgb_pixels(img: RgbBuffer) -> Seq<(u8, u8, u8)>;

/// The width of an RGB image, in pixels.
pub uninterp spec fn rgb_width(img: RgbBuffer) -> nat;

/// The height of an RGB image, in pixels.
pub uninterp spec fn rgb_height(img: RgbBuffer) -> nat;

/// The three bytes that a row-major, tightly packed RGB byte buffer holds for
/// pixel `i`.
pub open spec fn packed_pixel(bytes: Seq<u8>, i: int) -> (u8, u8, u8) {
    (bytes[3 * i], bytes[3 * i + 1], bytes[3 * i + 2])
}

impl RgbBuffer {
    /// Relies on `ImageBuffer::from_pixel`: a `width` x `height` image whose
    /// every pixel is `pixel`. It panics when `3 * width`, or that times
    /// `height`, overflows `usize`; a positive height keeps the first in range
    /// whenever the second is.
    #[verifier::external_body]
    pub(crate) fn filled(width: u32, height: u32, pixel: Color) -> (r: RgbBuffer)
        requires
            1 <= height,
            3 * width * height <= usize::MAX,
        ensures
            rgb_width(r) == width,
            rgb_height(r) == height,
            rgb_pixels(r) == Seq::new((width * height) as nat, |i: int| (pixel.r, pixel.g, pixel.b)),
    {
        RgbBuffer { inner: image::ImageBuffer::from_pixel(width, height, image::Rgb([pixel.r, pixel.g, pixel.b])) }
    }

    /// Relies on `ImageBuffer::from_raw`: the image is made when `bytes` holds at
    /// least three bytes for each of the `width * height` pixels, which it then
    /// reads row by row, three bytes per pixel. The needed length is computed
    /// as `3 * width`, then times `height`; a positive height keeps the first
    /// product in range whenever the second is.
    #[verifier::external_body]
    pub(crate) fn from_raw(width: u32, height: u32, bytes: Vec<u8>) -> (r: Option<RgbBuffer>)
        requires
            1 <= height,
            3 * width * height <= usize::MAX,
        ensures
            r.is_some() <==> 3 * width * height <= bytes@.len(),
            r.is_some() ==> rgb_width(r.unwrap()) == width,
            r.is_some() ==> rgb_height(r.unwrap()) == height,
            r.is_some() ==> rgb_pixels(r.unwrap()) == Seq::new(
                (width * height) as nat,
                |i: int| packed_pixel(bytes@, i),
            ),
    {
        image::ImageBuffer::from_raw(width, height, bytes).map(|inner| RgbBuffer { inner })
    }

    /// Relies on `ImageBuffer::into_raw`: the byte buffer behind the image, which
    /// starts with three bytes for each pixel, row by row.
    #[verifier::external_body]
    pub(crate) fn into_raw(self) -> (r: Vec<u8>)
        ensures
            r@.len() >= 3 * rgb_pixels(self).len(),
            forall|i: int| 0 <= i < rgb_pixels(self).len() ==> #[trigger] packed_pixel(r@, i) == rgb_pixels(self)[i],
    {
        self.inner.into_raw()
    }

    /// Relies on `ImageBuffer::width`: the stored width, each row holding that
    /// many pixels.
    #[verifier::external_body]
    pub(crate) fn width(&self) -> (r: u32)
        ensures
            r == rgb_width(*self),
            rgb_pixels(*self).len() == r * rgb_height(*self),
    {
        self.inner.width()
    }

    /// Relies on `ImageBuffer::height`: the stored height, the image holding that
    /// many rows.
    #[verifier::external_body]
    pub(crate) fn height(&self) -> (r: u32)
        ensures
            r == rgb_height(*self),
            rgb_pixels(*self).len() == rgb_width(*self) * r,
    {
        self.inner.height()
    }

    /// Relies on `ImageBuffer::get_pixel`: the pixel in column `x` of row `y`.
    /// It panics outside the image.
    #[verifier::external_body]
    pub(crate) fn get(&self, x: u32, y: u32) -> (r: Color)
        requires
            x < rgb_width(*self),
            y < rgb_height(*self),
        ensures
            (r.r, r.g, r.b) == rgb_pixels(*self)[y * rgb_width(*self) + x],
    {
        let p = self.inner.get_pixel(x, y);
        Color { r: p.0[0], g: p.0[1], b: p.0[2] }
    }

    /// Relies on `ImageBuffer::put_pixel`: overwrites the pixel in column `x` of
    /// row `y` and nothing else. It panics outside the image.
    #[verifier::external_body]
    pub(crate) fn put(&mut self, x: u32, y: u32, c: Color)
        requires
            x < rgb_width(*old(self)),
            y < rgb_height(*old(self)),
        ensures
            rgb_width(*final(self)) == rgb_width(*old(self)),
            rgb_height(*final(self)) == rgb_height(*old(self)),
            rgb_pixels(*final(self)) == rgb_pixels(*old(self)).update(
                y * rgb_width(*old(self)) + x,
                (c.r, c.g, c.b),
            ),
    {
        self.inner.put_pixel(x, y, image::Rgb([c.r, c.g, c.b]))
    }

    /// Relies on `imageops::flip_vertical_in_place`: row `y` of the result is row
    /// `height - 1 - y` of the image before.
    #[verifier::external_body]
    pub(crate) fn flip_vertical(&mut self)
        ensures
            rgb_width(*final(self)) == rgb_width(*old(self)),
            rgb_height(*final(self)) == rgb_height(*old(self)),
            rgb_pixels(*final(self)).len() == rgb_pixels(*old(self)).len(),
            forall|x: int, y: int|
                0 <= x < rgb_width(*old(self)) && 0 <= y < rgb_height(*old(self))
                    ==> #[trigger] rgb_pixels(*final(self))[y * rgb_width(*old(self)) + x]
                    == rgb_pixels(*old(self))[(rgb_height(*old(self)) - 1 - y) * rgb_width(*old(self)) + x],
    {
        image::imageops::flip_vertical_in_place(&mut self.inner)
    }
}

} // verus!
