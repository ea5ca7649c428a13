//! Textures: RGB images sampled by texture coordinates.
use crate::color::Color;
use crate::framebuffer::{lemma_index_split, rows_reversed};
use crate::pixels::{packed_pixel, rgb_height, rgb_pixels, rgb_width, RgbBuffer};
use vstd::prelude::*;

verus! {

/// What a texture holds: its size and its texels, row by row.
pub struct TextureView {
    pub width: nat,
    pub height: nat,
    pub texels: Seq<(u8, u8, u8)>,
}

impl TextureView {
    pub open spec fn wf(self) -> bool {
        &&& 1 <= self.width
        &&& 1 <= self.height
        &&& self.texels.len() == self.width * self.height
    }
}

/// A texture image of at least one texel.
pub struct Texture {
    image: RgbBuffer,
}

impl View for Texture {
    type V = TextureView;

    closed spec fn view(&self) -> TextureView {
        TextureView {
            width: rgb_width(self.image),
            height: rgb_height(self.image),
            texels: rgb_pixels(self.image),
        }
    }
}

impl Texture {
    pub open spec fn wf(&self) -> bool {
        self@.wf()
    }

    /// A `width` x `height` texture read from `bytes`, three bytes per texel,
    /// row by row. `None` when a side is zero or `bytes` is too short.
    pub fn from_rgb_bytes(width: u32, height: u32, bytes: Vec<u8>) -> (r: Option<Texture>)
        ensures
            r.is_some() <==> (1 <= width && 1 <= height && 3 * width * height <= bytes@.len()),
            r matches Some(t) ==> {
                &&& t.wf()
                &&& t@.width == width
                &&& t@.height == height
                &&& forall|i: int|
                    0 <= i < width * height ==> #[trigger] t@.texels[i] == packed_pixel(bytes@, i)
            },
    {
        if width == 0 || height == 0 {
            return None;
        }
        proof {
            assert(3 * (width as int) * (height as int) <= 3 * 0xffff_ffffint * 0xffff_ffffint)
                by (nonlinear_arith)
                requires
                    width <= 0xffff_ffffint,
                    height <= 0xffff_ffffint,
            ;
        }
        let needed = 3 * (width as u128) * (height as u128);
        if needed > bytes.len() as u128 {
            return None;
        }
        match RgbBuffer::from_raw(width, height, bytes) {
            Some(image) => Some(Texture { image }),
            None => None,
        }
    }

    pub fn width(&self) -> (r: u32)
        requires
            self.wf(),
        ensures
            r == self@.width,
    {
        self.image.width()
    }

    pub fn height(&self) -> (r: u32)
        requires
            self.wf(),
        ensures
            r == self@.height,
    {
        self.image.height()
    }

    /// Reverses the order of the texel rows.
    pub fn flip_vertically(&mut self)
        requires
            old(self).wf(),
        ensures
            final(self).wf(),
            final(self)@.width == old(self)@.width,
            final(self)@.height == old(self)@.height,
            final(self)@.texels == rows_reversed(old(self)@.texels, old(self)@.width, old(self)@.height),
    {
        let ghost before = self@;
        self.image.flip_vertical();
        proof {
            let (w, h) = (before.width, before.height);
            assert forall|i: int| 0 <= i < before.texels.len() implies #[trigger] self@.texels[i]
                == rows_reversed(before.texels, w, h)[i] by {
                lemma_index_split(i, w as int, h as int);
            }
            assert(self@.texels =~= rows_reversed(before.texels, w, h));
        }
    }

    /// The texel in column `x` of row `y`.
    pub fn texel(&self, x: u32, y: u32) -> (r: Color)
        requires
            self.wf(),
            x < self@.width,
            y < self@.height,
        ensures
            r.channels() == self@.texels[y * self@.width + x],
    {
        self.image.get(x, y)
    }
}

} // verus!
