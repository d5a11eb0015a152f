use vstd::arithmetic::power2::{lemma2_to64, lemma_pow2_strictly_increases, pow2};
use vstd::bits::{lemma_u32_shl_is_mul, lemma_u32_shr_is_div};
use vstd::prelude::*;

use crate::types::{Texture, TextureFormat, TextureProperties};

verus! {

/// The power-of-two edge length encoded by `size_1`: `2^(8 - size_1)`, or
/// zero when `size_1` exceeds 8.
pub open spec fn base_size(size_1: u32) -> nat {
    if size_1 <= 8 {
        pow2((8 - size_1) as nat)
    } else {
        0
    }
}

/// Width: the base halved `aspect_ratio - 3` times when `aspect_ratio > 3`.
pub open spec fn width_of(size_1: u32, aspect_ratio: u32) -> nat {
    if aspect_ratio > 3 {
        base_size(size_1) / pow2((aspect_ratio - 3) as nat)
    } else {
        base_size(size_1)
    }
}

/// Height: the base halved `3 - aspect_ratio` times when `aspect_ratio < 3`.
pub open spec fn height_of(size_1: u32, aspect_ratio: u32) -> nat {
    if aspect_ratio > 3 {
        base_size(size_1)
    } else {
        base_size(size_1) / pow2((3 - aspect_ratio) as nat)
    }
}

/// Bytes per pixel in the compressed data of a format.
pub open spec fn stride_of(format: TextureFormat) -> nat {
    match format {
        TextureFormat::RGB8A1 => 1,
        TextureFormat::R7G6B5A1 | TextureFormat::ARGB4 => 2,
    }
}

/// The geometry that a texture record's header encodes.
pub open spec fn geometry_of(t: &Texture) -> TextureProperties {
    TextureProperties {
        width: width_of(t.size_1, t.aspect_ratio) as u32,
        height: height_of(t.size_1, t.aspect_ratio) as u32,
        stride: stride_of(t.format) as u32,
    }
}

/// Every geometry stays within 256 pixels per side.
pub proof fn lemma_geometry_bounds(size_1: u32, aspect_ratio: u32)
    ensures
        base_size(size_1) <= 256,
        width_of(size_1, aspect_ratio) <= base_size(size_1),
        height_of(size_1, aspect_ratio) <= base_size(size_1),
{
    lemma2_to64();
    if 0 < size_1 && size_1 < 8 {
        lemma_pow2_strictly_increases((8 - size_1) as nat, 8);
    }
    if aspect_ratio > 3 {
        assert(pow2((aspect_ratio - 3) as nat) >= 1) by {
            if aspect_ratio > 3 {
                lemma_pow2_strictly_increases(0, (aspect_ratio - 3) as nat);
            }
        }
        assert(base_size(size_1) / pow2((aspect_ratio - 3) as nat) <= base_size(size_1))
            by (nonlinear_arith)
            requires
                pow2((aspect_ratio - 3) as nat) >= 1,
        ;
    } else {
        assert(pow2((3 - aspect_ratio) as nat) >= 1) by {
            if aspect_ratio < 3 {
                lemma_pow2_strictly_increases(0, (3 - aspect_ratio) as nat);
            }
        }
        assert(base_size(size_1) / pow2((3 - aspect_ratio) as nat) <= base_size(size_1))
            by (nonlinear_arith)
            requires
                pow2((3 - aspect_ratio) as nat) >= 1,
        ;
    }
}

/// `base >> shift` with any shift amount: zero once every bit is shifted out.
fn halve_times(base: u32, shift: u32) -> (r: u32)
    requires
        base <= 256,
    ensures
        r == base as nat / pow2(shift as nat),
{
    if shift < 32 {
        proof {
            lemma_u32_shr_is_div(base, shift);
        }
        base >> shift
    } else {
        proof {
            lemma2_to64();
            lemma_pow2_strictly_increases(8, shift as nat);
            assert(base as nat / pow2(shift as nat) == 0) by (nonlinear_arith)
                requires
                    base as nat <= 256,
                    pow2(shift as nat) > 256,
            ;
        }
        0
    }
}

impl TextureProperties {
    /// Derives width, height and stride from a texture record's header.
    pub fn from_texture(texture: &Texture) -> (r: TextureProperties)
        ensures
            r.width == width_of(texture.size_1, texture.aspect_ratio),
            r.height == height_of(texture.size_1, texture.aspect_ratio),
            r.stride == stride_of(texture.format),
            r == geometry_of(texture),
            r.width <= 256,
            r.height <= 256,
    {
        proof {
            lemma_geometry_bounds(texture.size_1, texture.aspect_ratio);
            lemma2_to64();
        }
        let size: u32 = if texture.size_1 <= 8 {
            proof {
                lemma_u32_shl_is_mul(1, (8 - texture.size_1) as u32);
            }
            1u32 << (8 - texture.size_1)
        } else {
            0
        };
        assert(size == base_size(texture.size_1));
        let aspect_ratio = texture.aspect_ratio;
        let stride: u32 = match texture.format {
            TextureFormat::R7G6B5A1 | TextureFormat::ARGB4 => 2,
            _ => 1,
        };
        if aspect_ratio > 3 {
            TextureProperties { width: halve_times(size, aspect_ratio - 3), height: size, stride }
        } else {
            TextureProperties { width: size, height: halve_times(size, 3 - aspect_ratio), stride }
        }
    }

    /// Number of pixels, `width * height`.
    pub fn pixel_count(&self) -> (r: usize)
        requires
            self.width <= 256,
            self.height <= 256,
        ensures
            r == self.width * self.height,
    {
        proof {
            assert(self.width * self.height <= 65536) by (nonlinear_arith)
                requires
                    self.width <= 256,
                    self.height <= 256,
            ;
        }
        (self.width * self.height) as usize
    }

    /// Length of the compressed data, `width * height * stride`.
    pub fn data_length(&self) -> (r: usize)
        requires
            self.width <= 256,
            self.height <= 256,
            self.stride <= 2,
        ensures
            r == self.width * self.height * self.stride,
    {
        proof {
            assert(self.width * self.height <= 65536 && self.width * self.height * self.stride
                <= 131072) by (nonlinear_arith)
                requires
                    self.width <= 256,
                    self.height <= 256,
                    self.stride <= 2,
            ;
        }
        (self.width * self.height * self.stride) as usize
    }
}

} // verus!
