use vstd::prelude::*;
use std::sync::Arc;
use crate::color::Rgba8;

verus! {

/// Texture coordinates are fixed point: `UV_ONE` stands for 1.0.
pub const UV_ONE: u32 = 65536;

/// Largest texture width or height.
pub const TEXTURE_LIMIT: usize = 65536;

/// Nearest-neighbour lookup into a bound texture of `width * height` texels of
/// `colour_channels` bytes each, row-major.
#[derive(Clone)]
pub struct Sampler {
    width: usize,
    height: usize,
    colour_channels: usize,
    bound_texture: Option<Arc<Vec<u8>>>,
}

impl Sampler {
    pub closed spec fn spec_width(&self) -> nat {
        self.width as nat
    }

    pub closed spec fn spec_height(&self) -> nat {
        self.height as nat
    }

    pub closed spec fn spec_channels(&self) -> nat {
        self.colour_channels as nat
    }

    /// The bytes of the bound texture, if any.
    pub closed spec fn texture(&self) -> Option<Seq<u8>> {
        match self.bound_texture {
            Some(t) => Some(t@),
            None => None,
        }
    }

    /// A texture is bound, and it holds at least three channels for each texel.
    pub open spec fn ready(&self) -> bool {
        &&& self.texture() is Some
        &&& 0 < self.spec_width() <= TEXTURE_LIMIT
        &&& 0 < self.spec_height() <= TEXTURE_LIMIT
        &&& 3 <= self.spec_channels()
        &&& self.spec_width() * self.spec_height() * self.spec_channels()
            <= self.texture().unwrap().len()
    }

    /// The texel column for coordinate `u`: `u * width` clamped to the last column.
    pub open spec fn column(&self, u: u32) -> int {
        let c = (u * self.spec_width()) / (UV_ONE as int);
        if c < self.spec_width() - 1 { c } else { self.spec_width() - 1 }
    }

    /// The texel row for coordinate `v`: `v * height` clamped to the last row.
    pub open spec fn row(&self, v: u32) -> int {
        let c = (v * self.spec_height()) / (UV_ONE as int);
        if c < self.spec_height() - 1 { c } else { self.spec_height() - 1 }
    }

    /// The colour sampled at `(u, v)`: the nearest texel's first three channels,
    /// fully opaque.
    pub open spec fn spec_sample(&self, u: u32, v: u32) -> Rgba8 {
        let index = (self.row(v) * self.spec_width() + self.column(u)) * self.spec_channels();
        let t = self.texture().unwrap();
        Rgba8 { r: t[index], g: t[index + 1], b: t[index + 2], a: 255 }
    }

    /// A sampler for an image of the given size, with no texture bound yet.
    pub fn new(image_size: (usize, usize), channels: usize) -> (r: Sampler)
        ensures
            r.spec_width() == image_size.0,
            r.spec_height() == image_size.1,
            r.spec_channels() == channels,
            r.texture() is None,
    {
        Sampler {
            width: image_size.0,
            height: image_size.1,
            colour_channels: channels,
            bound_texture: None,
        }
    }

    /// Binds the texture that `sample` reads.
    pub fn bind_texture(&mut self, buffer_handle: Arc<Vec<u8>>)
        ensures
            final(self).texture() == Some(buffer_handle@),
            final(self).spec_width() == old(self).spec_width(),
            final(self).spec_height() == old(self).spec_height(),
            final(self).spec_channels() == old(self).spec_channels(),
    {
        self.bound_texture = Some(buffer_handle);
    }

    fn texel_coordinate(coordinate: u32, size: usize) -> (r: usize)
        requires
            0 < size <= TEXTURE_LIMIT,
        ensures
            r == ({
                let c = (coordinate * size) / (UV_ONE as int);
                if c < size - 1 { c } else { size - 1 }
            }),
    {
        assert(coordinate * size <= 0xFFFF_FFFF * 65536) by (nonlinear_arith)
            requires
                size <= 65536,
        ;
        let c = (coordinate as u64 * size as u64) / (UV_ONE as u64);
        if c < (size - 1) as u64 {
            c as usize
        } else {
            size - 1
        }
    }

    /// Nearest-neighbour sample at `(u, v)`, where `UV_ONE` stands for 1.0.
    pub fn sample(&self, u: u32, v: u32) -> (r: Rgba8)
        requires
            self.ready(),
        ensures
            r == self.spec_sample(u, v),
    {
        let i = Self::texel_coordinate(u, self.width);
        let j = Self::texel_coordinate(v, self.height);
        let buffer: &Vec<u8> = match &self.bound_texture {
            Some(t) => &**t,
            None => {
                assert(false);
                return Rgba8 { r: 0, g: 0, b: 0, a: 255 };
            },
        };
        let w = self.width;
        let h = self.height;
        let c = self.colour_channels;
        assert((j * w + i) * c + 2 < w * h * c) by (nonlinear_arith)
            requires
                i < w,
                j < h,
                c >= 3,
        ;
        assert(0 <= j * w + i) by (nonlinear_arith)
            requires
                i < w,
                j < h,
        ;
        assert(j * w + i <= (j * w + i) * c) by (nonlinear_arith)
            requires
                0 <= j * w + i,
                c >= 3,
        ;
        assert(j * w <= j * w + i);
        assert(buffer@ == self.texture().unwrap());
        assert(w * h * c <= buffer.len());
        let index = (j * w + i) * c;
        Rgba8 { r: buffer[index], g: buffer[index + 1], b: buffer[index + 2], a: 255 }
    }
}

} // verus!
