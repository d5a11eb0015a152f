use vstd::arithmetic::div_mod::lemma_mod_multiples_vanish;
use vstd::prelude::*;

use crate::geometry::{geometry_of, lemma_geometry_bounds};
use crate::types::{Rgb, Texture, TextureFormat, TextureProperties, VfxError};

verus! {

/// The little-endian 16-bit word stored at byte offset `i`.
pub open spec fn word_at(data: Seq<u8>, i: int) -> u16 {
    (data[i] as int + 256 * data[i + 1] as int) as u16
}

/// RGBA of one `R7G6B5A1` word: three 5-bit fields placed by fixed shifts,
/// opaque only when bit 15 is set and some lower bit is set too.
pub open spec fn r7g6b5a1_pixel(p: u16) -> Seq<u8> {
    seq![
        ((p & 0x7C00) >> 7) as u8,
        ((p & 0x3E0) >> 2) as u8,
        ((p & 0x1F) << 3) as u8,
        if (p & 0x7FFF) == 0 || (p & 0x8000) == 0 { 0u8 } else { 255u8 },
    ]
}

/// RGBA of one `ARGB4` word: each nibble moved to the high nibble of its byte.
pub open spec fn argb4_pixel(p: u16) -> Seq<u8> {
    seq![
        ((p & 0xF00) >> 4) as u8,
        (p & 0xF0) as u8,
        ((p & 0xF) << 4) as u8,
        ((p & 0xF000) >> 8) as u8,
    ]
}

/// The low 9 bits of a palette cell, read as a signed value in `[-256, 255]`.
pub open spec fn sext9(v: i16) -> int {
    let low = v as int % 512;
    if low >= 256 {
        low - 512
    } else {
        low
    }
}

/// A channel sum clamped into `[0, 255]`.
pub open spec fn clamp255(x: int) -> int {
    if x < 0 {
        0
    } else if x > 255 {
        255
    } else {
        x
    }
}

/// Opaque unless all three colour channels are zero.
pub open spec fn rgb8a1_alpha(r: int, g: int, b: int) -> u8 {
    if r == 0 && g == 0 && b == 0 {
        0u8
    } else {
        255u8
    }
}

/// RGBA of one `RGB8A1` byte: a luminance level chosen by the high nibble
/// plus one correction from each palette, each channel clamped.
pub open spec fn rgb8a1_pixel(
    p: u8,
    brightness: Seq<u8>,
    rgb_0: Seq<Rgb>,
    rgb_1: Seq<Rgb>,
) -> Seq<u8> {
    let l = brightness[p as int / 16] as int;
    let e0 = rgb_0[(p as int / 4) % 4];
    let e1 = rgb_1[p as int % 4];
    let r = clamp255(l + sext9(e0.r) + sext9(e1.r));
    let g = clamp255(l + sext9(e0.g) + sext9(e1.g));
    let b = clamp255(l + sext9(e0.b) + sext9(e1.b));
    seq![r as u8, g as u8, b as u8, rgb8a1_alpha(r, g, b)]
}

/// The data byte whose colour pixel `k` of an `RGB8A1` texture shows: pixels
/// 1 and 2 repeat pixel 0, working around a defect of the format's encoder.
pub open spec fn rgb8a1_source(k: int) -> int {
    if k == 1 || k == 2 {
        0
    } else {
        k
    }
}

/// The RGBA8 bytes of an `RGB8A1` texture, one pixel per data byte.
pub open spec fn rgb8a1_bytes(
    data: Seq<u8>,
    brightness: Seq<u8>,
    rgb_0: Seq<Rgb>,
    rgb_1: Seq<Rgb>,
) -> Seq<u8> {
    Seq::new(
        4 * data.len(),
        |i: int| rgb8a1_pixel(data[rgb8a1_source(i / 4)], brightness, rgb_0, rgb_1)[i % 4],
    )
}

/// The `RGB8A1` bytes while the repeat of pixel 0 is under way: pixels
/// `1 .. done` already show pixel 0.
pub open spec fn rgb8a1_repeated(
    data: Seq<u8>,
    brightness: Seq<u8>,
    rgb_0: Seq<Rgb>,
    rgb_1: Seq<Rgb>,
    done: int,
) -> Seq<u8> {
    Seq::new(
        4 * data.len(),
        |i: int|
            rgb8a1_pixel(
                data[if 1 <= i / 4 < done {
                    0
                } else {
                    i / 4
                }],
                brightness,
                rgb_0,
                rgb_1,
            )[i % 4],
    )
}

/// The RGBA8 bytes of `n` pixels in `R7G6B5A1`, two data bytes per pixel.
pub open spec fn r7g6b5a1_bytes(data: Seq<u8>, n: nat) -> Seq<u8> {
    Seq::new(4 * n, |i: int| r7g6b5a1_pixel(word_at(data, 2 * (i / 4)))[i % 4])
}

/// The RGBA8 bytes of `n` pixels in `ARGB4`, two data bytes per pixel.
pub open spec fn argb4_bytes(data: Seq<u8>, n: nat) -> Seq<u8> {
    Seq::new(4 * n, |i: int| argb4_pixel(word_at(data, 2 * (i / 4)))[i % 4])
}

/// The RGBA8 buffer that a texture decodes to. Pixel `k` is the pixel at
/// column `k / height`, row `k % height`: data and output are both laid out
/// column by column.
pub open spec fn decoded(t: &Texture) -> Seq<u8> {
    match t.format {
        TextureFormat::RGB8A1 => rgb8a1_bytes(t.data@, t.brightness@, t.rgb_0@, t.rgb_1@),
        TextureFormat::R7G6B5A1 => r7g6b5a1_bytes(t.data@, t.data@.len() / 2),
        TextureFormat::ARGB4 => argb4_bytes(t.data@, t.data@.len() / 2),
    }
}

/// The data length that a texture's geometry asks for.
pub open spec fn expected_data_length(t: &Texture) -> int {
    let g = geometry_of(t);
    g.width * g.height * g.stride
}

proof fn lemma_pixel_count_bounds(properties: &TextureProperties, n: int)
    requires
        properties.width <= 256,
        properties.height <= 256,
        n == properties.width * properties.height,
    ensures
        n <= 65536,
        2 * properties.width * properties.height == 2 * n,
{
    assert(n <= 65536 && 2 * properties.width * properties.height == 2 * n) by (nonlinear_arith)
        requires
            properties.width <= 256,
            properties.height <= 256,
            n == properties.width * properties.height,
    ;
}

pub(crate) fn read_word(data: &[u8], i: usize) -> (r: u16)
    requires
        i + 1 < data@.len(),
    ensures
        r == word_at(data@, i as int),
{
    data[i] as u16 + (data[i + 1] as u16) * 256
}

fn r7g6b5a1_word(p: u16) -> (r: (u8, u8, u8, u8))
    ensures
        seq![r.0, r.1, r.2, r.3] == r7g6b5a1_pixel(p),
{
    let r = ((p & 0x7C00) >> 7) as u8;
    let g = ((p & 0x3E0) >> 2) as u8;
    let b = ((p & 0x1F) << 3) as u8;
    let a: u8 = if (p & 0x7FFF) == 0 || (p & 0x8000) == 0 {
        0
    } else {
        255
    };
    (r, g, b, a)
}

fn argb4_word(p: u16) -> (r: (u8, u8, u8, u8))
    ensures
        seq![r.0, r.1, r.2, r.3] == argb4_pixel(p),
{
    let r = ((p & 0xF00) >> 4) as u8;
    let g = (p & 0xF0) as u8;
    let b = ((p & 0xF) << 4) as u8;
    let a = ((p & 0xF000) >> 8) as u8;
    (r, g, b, a)
}

/// Sign-extends the low 9 bits of a palette cell.
fn sign_extend_9(v: i16) -> (r: i32)
    ensures
        r == sext9(v),
        -256 <= r < 256,
{
    let u: u32 = if v < 0 {
        (v as i32 + 65536) as u32
    } else {
        v as u32
    };
    proof {
        if v < 0 {
            lemma_mod_multiples_vanish(128, v as int, 512);
        }
    }
    let low = (u % 512) as i32;
    if low >= 256 {
        low - 512
    } else {
        low
    }
}

fn clamp_channel(x: i32) -> (r: u8)
    ensures
        r == clamp255(x as int),
{
    if x < 0 {
        0
    } else if x > 255 {
        255
    } else {
        x as u8
    }
}

fn rgb8a1_byte(
    p: u8,
    brightness: &[u8; 16],
    rgb_0: &[Rgb; 4],
    rgb_1: &[Rgb; 4],
) -> (r: (u8, u8, u8, u8))
    ensures
        seq![r.0, r.1, r.2, r.3] == rgb8a1_pixel(p, brightness@, rgb_0@, rgb_1@),
{
    let l = brightness[(p / 16) as usize] as i32;
    let e0 = rgb_0[((p / 4) % 4) as usize];
    let e1 = rgb_1[(p % 4) as usize];
    let r = clamp_channel(l + sign_extend_9(e0.r) + sign_extend_9(e1.r));
    let g = clamp_channel(l + sign_extend_9(e0.g) + sign_extend_9(e1.g));
    let b = clamp_channel(l + sign_extend_9(e0.b) + sign_extend_9(e1.b));
    let a: u8 = if r == 0 && g == 0 && b == 0 {
        0
    } else {
        255
    };
    (r, g, b, a)
}

/// Decodes `width * height` `R7G6B5A1` pixels, column by column.
fn decompress_r7g6b5a1(data: &[u8], properties: &TextureProperties) -> (r: Vec<u8>)
    requires
        properties.width <= 256,
        properties.height <= 256,
        data@.len() == 2 * properties.width * properties.height,
    ensures
        r@ == r7g6b5a1_bytes(data@, (data@.len() / 2) as nat),
{
    let n = properties.pixel_count();
    proof {
        lemma_pixel_count_bounds(properties, n as int);
    }
    let mut result: Vec<u8> = Vec::with_capacity(n);
    let mut k: usize = 0;
    while k < n
        invariant
            n == properties.width * properties.height,
            n <= 65536,
            data@.len() == 2 * n,
            k <= n,
            result@ =~= r7g6b5a1_bytes(data@, k as nat),
        decreases n - k,
    {
        let p = read_word(data, 2 * k);
        let (r, g, b, a) = r7g6b5a1_word(p);
        proof {
            let px = r7g6b5a1_pixel(p);
            assert(px[0] == r && px[1] == g && px[2] == b && px[3] == a);
            assert((4 * k) / 4 == k && (4 * k + 1) / 4 == k && (4 * k + 2) / 4 == k && (4 * k
                + 3) / 4 == k);
            assert((4 * k) % 4 == 0 && (4 * k + 1) % 4 == 1 && (4 * k + 2) % 4 == 2 && (4 * k
                + 3) % 4 == 3);
        }
        result.push(r);
        result.push(g);
        result.push(b);
        result.push(a);
        k = k + 1;
        assert(result@ =~= r7g6b5a1_bytes(data@, k as nat));
    }
    result
}

/// Decodes `width * height` `ARGB4` pixels, column by column.
fn decompress_argb4(data: &[u8], properties: &TextureProperties) -> (r: Vec<u8>)
    requires
        properties.width <= 256,
        properties.height <= 256,
        data@.len() == 2 * properties.width * properties.height,
    ensures
        r@ == argb4_bytes(data@, (data@.len() / 2) as nat),
{
    let n = properties.pixel_count();
    proof {
        lemma_pixel_count_bounds(properties, n as int);
    }
    let mut result: Vec<u8> = Vec::with_capacity(n);
    let mut k: usize = 0;
    while k < n
        invariant
            n == properties.width * properties.height,
            n <= 65536,
            data@.len() == 2 * n,
            k <= n,
            result@ =~= argb4_bytes(data@, k as nat),
        decreases n - k,
    {
        let p = read_word(data, 2 * k);
        let (r, g, b, a) = argb4_word(p);
        proof {
            let px = argb4_pixel(p);
            assert(px[0] == r && px[1] == g && px[2] == b && px[3] == a);
            assert((4 * k) / 4 == k && (4 * k + 1) / 4 == k && (4 * k + 2) / 4 == k && (4 * k
                + 3) / 4 == k);
            assert((4 * k) % 4 == 0 && (4 * k + 1) % 4 == 1 && (4 * k + 2) % 4 == 2 && (4 * k
                + 3) % 4 == 3);
        }
        result.push(r);
        result.push(g);
        result.push(b);
        result.push(a);
        k = k + 1;
        assert(result@ =~= argb4_bytes(data@, k as nat));
    }
    result
}

/// Decodes `width * height` `RGB8A1` pixels, column by column, then repeats
/// pixel 0 over pixels 1 and 2 (those that exist).
fn decompress_rgb8a1(
    data: &[u8],
    properties: &TextureProperties,
    brightness: &[u8; 16],
    rgb_0: &[Rgb; 4],
    rgb_1: &[Rgb; 4],
) -> (r: Vec<u8>)
    requires
        properties.width <= 256,
        properties.height <= 256,
        data@.len() == properties.width * properties.height,
    ensures
        r@ == rgb8a1_bytes(data@, brightness@, rgb_0@, rgb_1@),
{
    let n = properties.pixel_count();
    proof {
        lemma_pixel_count_bounds(properties, n as int);
    }
    let ghost full = rgb8a1_repeated(data@, brightness@, rgb_0@, rgb_1@, 1);
    let mut result: Vec<u8> = Vec::with_capacity(n);
    let mut k: usize = 0;
    while k < n
        invariant
            n == data@.len(),
            n <= 65536,
            k <= n,
            full == rgb8a1_repeated(data@, brightness@, rgb_0@, rgb_1@, 1),
            result@ =~= full.take(4 * k),
        decreases n - k,
    {
        let (r, g, b, a) = rgb8a1_byte(data[k], brightness, rgb_0, rgb_1);
        proof {
            let px = rgb8a1_pixel(data@[k as int], brightness@, rgb_0@, rgb_1@);
            assert(px[0] == r && px[1] == g && px[2] == b && px[3] == a);
            assert((4 * k) / 4 == k && (4 * k + 1) / 4 == k && (4 * k + 2) / 4 == k && (4 * k
                + 3) / 4 == k);
            assert((4 * k) % 4 == 0 && (4 * k + 1) % 4 == 1 && (4 * k + 2) % 4 == 2 && (4 * k
                + 3) % 4 == 3);
        }
        result.push(r);
        result.push(g);
        result.push(b);
        result.push(a);
        k = k + 1;
        assert(result@ =~= full.take(4 * k));
    }
    assert(result@ =~= full);
    let end: usize = if n < 3 {
        n
    } else {
        3
    };
    let mut i: usize = 1;
    while i < end
        invariant
            n == data@.len(),
            end <= n,
            end <= 3,
            1 <= i <= end || end < 1,
            end == (if n < 3 {
                n
            } else {
                3
            }),
            result@ =~= rgb8a1_repeated(data@, brightness@, rgb_0@, rgb_1@, i as int),
        decreases end - i,
    {
        let ri = 4 * i;
        let v0 = result[0];
        let v1 = result[1];
        let v2 = result[2];
        let v3 = result[3];
        result[ri] = v0;
        result[ri + 1] = v1;
        result[ri + 2] = v2;
        result[ri + 3] = v3;
        proof {
            assert(ri / 4 == i && (ri + 1) / 4 == i && (ri + 2) / 4 == i && (ri + 3) / 4 == i);
            assert(ri % 4 == 0 && (ri + 1) % 4 == 1 && (ri + 2) % 4 == 2 && (ri + 3) % 4 == 3);
            assert(1int / 4 == 0 && 2int / 4 == 0 && 3int / 4 == 0);
        }
        i = i + 1;
        assert(result@ =~= rgb8a1_repeated(data@, brightness@, rgb_0@, rgb_1@, i as int));
    }
    proof {
        let target = rgb8a1_bytes(data@, brightness@, rgb_0@, rgb_1@);
        assert forall|j: int| 0 <= j < target.len() implies result@[j] == target[j] by {
            let p = j / 4;
            assert(0 <= p < n);
            assert((1 <= p < i) == (p == 1 || p == 2));
        }
    }
    assert(result@ =~= rgb8a1_bytes(data@, brightness@, rgb_0@, rgb_1@));
    result
}

/// Decodes a texture to RGBA8, four bytes per pixel in the column-by-column
/// order of its data. Fails, producing nothing, when the data length differs
/// from `width * height * stride`.
pub fn decompress(texture: &Texture) -> (r: Result<Vec<u8>, VfxError>)
    ensures
        match r {
            Ok(v) => texture.data@.len() == expected_data_length(texture) && v@ == decoded(texture),
            Err(e) => e == VfxError::DataLengthMismatch && texture.data@.len()
                != expected_data_length(texture),
        },
{
    let properties = TextureProperties::from_texture(texture);
    let expected_data_length = properties.data_length();
    if texture.data.len() != expected_data_length {
        return Err(VfxError::DataLengthMismatch);
    }
    proof {
        lemma_pixel_count_bounds(&properties, properties.width * properties.height);
    }
    let data = texture.data.as_slice();
    match texture.format {
        TextureFormat::R7G6B5A1 => Ok(decompress_r7g6b5a1(data, &properties)),
        TextureFormat::ARGB4 => Ok(decompress_argb4(data, &properties)),
        TextureFormat::RGB8A1 => Ok(
            decompress_rgb8a1(data, &properties, &texture.brightness, &texture.rgb_0, &texture.rgb_1),
        ),
    }
}

/// In an `RGB8A1` texture of at least three pixels, pixels 1 and 2 decode to
/// exactly the bytes of pixel 0, whatever their own data bytes hold.
pub proof fn lemma_rgb8a1_leading_pixels_repeat(t: &Texture)
    requires
        t.format == TextureFormat::RGB8A1,
        t.data@.len() >= 3,
    ensures
        decoded(t).len() == 4 * t.data@.len(),
        forall|c: int|
            0 <= c < 4 ==> decoded(t)[4 + c] == #[trigger] decoded(t)[c] && decoded(t)[8 + c]
                == decoded(t)[c],
{
    assert forall|c: int| 0 <= c < 4 implies decoded(t)[4 + c] == #[trigger] decoded(t)[c]
        && decoded(t)[8 + c] == decoded(t)[c] by {
        assert((4 + c) / 4 == 1 && (8 + c) / 4 == 2 && c / 4 == 0);
        assert((4 + c) % 4 == c && (8 + c) % 4 == c && c % 4 == c);
    }
}

} // verus!
