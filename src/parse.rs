use vstd::prelude::*;

use crate::decode::{read_word, word_at};
use crate::types::{File, Rgb, Texture, TextureFormat, VfxError};

verus! {

/// Bytes in a texture record before its pixel data.
pub const HEADER_LEN: usize = 140;

/// The little-endian 32-bit word stored at byte offset `i`.
pub open spec fn u32_at(b: Seq<u8>, i: int) -> u32 {
    (b[i] as int + 256 * b[i + 1] as int + 65536 * b[i + 2] as int + 16777216 * b[i + 3] as int) as u32
}

/// The little-endian 16-bit two's-complement value stored at byte offset `i`.
pub open spec fn i16_at(b: Seq<u8>, i: int) -> i16 {
    let w = word_at(b, i) as int;
    (if w >= 32768 {
        w - 65536
    } else {
        w
    }) as i16
}

/// A palette entry stored at byte offset `i` as `r`, `g`, `b`.
pub open spec fn rgb_at(b: Seq<u8>, i: int) -> Rgb {
    Rgb { r: i16_at(b, i), g: i16_at(b, i + 2), b: i16_at(b, i + 4) }
}

/// The format that a stored code names, if any.
pub open spec fn format_of(code: u32) -> Option<TextureFormat> {
    if code == 1 {
        Some(TextureFormat::RGB8A1)
    } else if code == 11 {
        Some(TextureFormat::R7G6B5A1)
    } else if code == 12 {
        Some(TextureFormat::ARGB4)
    } else {
        None
    }
}

/// Where the record starting at `pos` ends.
pub open spec fn record_end(b: Seq<u8>, pos: int) -> int {
    pos + HEADER_LEN + u32_at(b, pos + 132)
}

/// The record at `pos` is complete, names a known format, and its
/// duplicated fields agree.
pub open spec fn record_ok(b: Seq<u8>, pos: int) -> bool {
    &&& 0 <= pos
    &&& pos + HEADER_LEN <= b.len()
    &&& u32_at(b, pos) == u32_at(b, pos + 4)
    &&& format_of(u32_at(b, pos + 12)) is Some
    &&& u32_at(b, pos + 132) == u32_at(b, pos + 136)
    &&& record_end(b, pos) <= b.len()
}

/// `t` holds the fields of the record stored at `pos`.
pub open spec fn texture_matches(t: &Texture, b: Seq<u8>, pos: int) -> bool {
    &&& t.size_0 == u32_at(b, pos)
    &&& t.size_1 == u32_at(b, pos + 4)
    &&& t.aspect_ratio == u32_at(b, pos + 8)
    &&& format_of(u32_at(b, pos + 12)) == Some(t.format)
    &&& forall|j: int| 0 <= j < 2 ==> #[trigger] t.unk_0@[j] == word_at(b, pos + 16 + 2 * j)
    &&& t.brightness@ == b.subrange(pos + 20, pos + 36)
    &&& forall|j: int| 0 <= j < 4 ==> #[trigger] t.rgb_0@[j] == rgb_at(b, pos + 36 + 6 * j)
    &&& forall|j: int| 0 <= j < 4 ==> #[trigger] t.rgb_1@[j] == rgb_at(b, pos + 60 + 6 * j)
    &&& forall|j: int| 0 <= j < 24 ==> #[trigger] t.unk_1@[j] == word_at(b, pos + 84 + 2 * j)
    &&& t.data_count_0 == u32_at(b, pos + 132)
    &&& t.data_count_1 == u32_at(b, pos + 136)
    &&& t.data@ == b.subrange(pos + HEADER_LEN, record_end(b, pos))
}

/// Where record `k` starts, the records before it being read in turn.
pub open spec fn record_start(b: Seq<u8>, k: nat) -> int
    decreases k,
{
    if k == 0 {
        4
    } else {
        record_end(b, record_start(b, (k - 1) as nat))
    }
}

/// The count field is present and the first `k` records are well formed.
pub open spec fn records_ok(b: Seq<u8>, k: nat) -> bool
    decreases k,
{
    if k == 0 {
        b.len() >= 4
    } else {
        records_ok(b, (k - 1) as nat) && record_ok(b, record_start(b, (k - 1) as nat))
    }
}

/// The bytes begin with a well-formed container (what follows it is ignored).
pub open spec fn container_ok(b: Seq<u8>) -> bool {
    b.len() >= 4 && records_ok(b, u32_at(b, 0) as nat)
}

proof fn lemma_records_ok_prefix(b: Seq<u8>, k: nat, m: nat)
    requires
        k <= m,
        records_ok(b, m),
    ensures
        records_ok(b, k),
    decreases m - k,
{
    if k < m {
        lemma_records_ok_prefix(b, k, (m - 1) as nat);
    }
}

fn read_u32(b: &[u8], i: usize) -> (r: u32)
    requires
        i + 4 <= b@.len(),
    ensures
        r == u32_at(b@, i as int),
{
    b[i] as u32 + (b[i + 1] as u32) * 256 + (b[i + 2] as u32) * 65536 + (b[i + 3] as u32)
        * 16777216
}

fn read_i16(b: &[u8], i: usize) -> (r: i16)
    requires
        i + 2 <= b@.len(),
    ensures
        r == i16_at(b@, i as int),
{
    let w = read_word(b, i);
    if w >= 32768 {
        (w as i32 - 65536) as i16
    } else {
        w as i16
    }
}

fn read_rgb(b: &[u8], i: usize) -> (r: Rgb)
    requires
        i + 6 <= b@.len(),
    ensures
        r == rgb_at(b@, i as int),
{
    let len = b.len();
    assert(i + 6 <= len);
    Rgb { r: read_i16(b, i), g: read_i16(b, i + 2), b: read_i16(b, i + 4) }
}

fn format_from_code(code: u32) -> (r: Option<TextureFormat>)
    ensures
        r == format_of(code),
{
    if code == 1 {
        Some(TextureFormat::RGB8A1)
    } else if code == 11 {
        Some(TextureFormat::R7G6B5A1)
    } else if code == 12 {
        Some(TextureFormat::ARGB4)
    } else {
        None
    }
}

fn read_words<const N: usize>(b: &[u8], i: usize) -> (r: [u16; N])
    requires
        i + 2 * N <= b@.len(),
    ensures
        forall|j: int| 0 <= j < N ==> #[trigger] r@[j] == word_at(b@, i + 2 * j),
{
    let len = b.len();
    let mut r = [0u16; N];
    let mut j: usize = 0;
    while j < N
        invariant
            len == b@.len(),
            i + 2 * N <= len,
            j <= N,
            r@.len() == N,
            forall|jj: int| 0 <= jj < j ==> #[trigger] r@[jj] == word_at(b@, i + 2 * jj),
        decreases N - j,
    {
        r[j] = read_word(b, i + 2 * j);
        j = j + 1;
    }
    r
}

fn read_palette(b: &[u8], i: usize) -> (r: [Rgb; 4])
    requires
        i + 24 <= b@.len(),
    ensures
        forall|j: int| 0 <= j < 4 ==> #[trigger] r@[j] == rgb_at(b@, i + 6 * j),
{
    let len = b.len();
    let mut r = [Rgb { r: 0, g: 0, b: 0 }; 4];
    let mut j: usize = 0;
    while j < 4
        invariant
            len == b@.len(),
            i + 24 <= len,
            j <= 4,
            r@.len() == 4,
            forall|jj: int| 0 <= jj < j ==> #[trigger] r@[jj] == rgb_at(b@, i + 6 * jj),
        decreases 4 - j,
    {
        r[j] = read_rgb(b, i + 6 * j);
        j = j + 1;
    }
    r
}

fn read_bytes(b: &[u8], start: usize, end: usize) -> (r: Vec<u8>)
    requires
        start <= end <= b@.len(),
    ensures
        r@ == b@.subrange(start as int, end as int),
{
    let mut r: Vec<u8> = Vec::with_capacity(end - start);
    let mut j: usize = start;
    while j < end
        invariant
            start <= j <= end,
            end <= b@.len(),
            r@ =~= b@.subrange(start as int, j as int),
        decreases end - j,
    {
        r.push(b[j]);
        j = j + 1;
    }
    r
}

/// Reads the texture record starting at `pos`: the fixed header, then
/// `data_count_0` bytes of pixel data. Returns the record and where it ends.
fn parse_texture(b: &[u8], pos: usize) -> (r: Result<(Texture, usize), VfxError>)
    requires
        pos <= b@.len(),
    ensures
        match r {
            Ok((t, end)) => record_ok(b@, pos as int) && end == record_end(b@, pos as int)
                && texture_matches(&t, b@, pos as int),
            Err(e) => e == VfxError::ParseError && !record_ok(b@, pos as int),
        },
{
    let len = b.len();
    if len - pos < HEADER_LEN {
        return Err(VfxError::ParseError);
    }
    let size_0 = read_u32(b, pos);
    let size_1 = read_u32(b, pos + 4);
    let aspect_ratio = read_u32(b, pos + 8);
    let format = match format_from_code(read_u32(b, pos + 12)) {
        Some(f) => f,
        None => return Err(VfxError::ParseError),
    };
    let unk_0: [u16; 2] = read_words(b, pos + 16);
    let brightness_bytes = read_bytes(b, pos + 20, pos + 36);
    let mut brightness = [0u8; 16];
    let mut j: usize = 0;
    while j < 16
        invariant
            brightness_bytes@.len() == 16,
            j <= 16,
            brightness@.len() == 16,
            forall|jj: int| 0 <= jj < j ==> #[trigger] brightness@[jj] == brightness_bytes@[jj],
        decreases 16 - j,
    {
        brightness[j] = brightness_bytes[j];
        j = j + 1;
    }
    assert(brightness@ =~= b@.subrange(pos + 20, pos + 36));
    let rgb_0 = read_palette(b, pos + 36);
    let rgb_1 = read_palette(b, pos + 60);
    let unk_1: [u16; 24] = read_words(b, pos + 84);
    let data_count_0 = read_u32(b, pos + 132);
    let data_count_1 = read_u32(b, pos + 136);
    if size_0 != size_1 || data_count_0 != data_count_1 {
        return Err(VfxError::ParseError);
    }
    if len - pos - HEADER_LEN < data_count_0 as usize {
        return Err(VfxError::ParseError);
    }
    let end = pos + HEADER_LEN + data_count_0 as usize;
    let data = read_bytes(b, pos + HEADER_LEN, end);
    let t = Texture {
        size_0,
        size_1,
        aspect_ratio,
        format,
        unk_0,
        brightness,
        rgb_0,
        rgb_1,
        unk_1,
        data_count_0,
        data_count_1,
        data,
    };
    Ok((t, end))
}

/// Parses a container: the little-endian `texture_count`, then that many
/// texture records. Fails when the bytes end early, a format code is unknown,
/// or a record's duplicated size or data-count fields disagree.
pub fn parse_file(bytes: &[u8]) -> (r: Result<File, VfxError>)
    ensures
        match r {
            Ok(f) => {
                &&& container_ok(bytes@)
                &&& f.texture_count == u32_at(bytes@, 0)
                &&& f.textures@.len() == f.texture_count
                &&& forall|k: int|
                    0 <= k < f.texture_count ==> texture_matches(
                        #[trigger] &f.textures@[k],
                        bytes@,
                        record_start(bytes@, k as nat),
                    )
                &&& forall|k: int|
                    0 <= k < f.texture_count ==> #[trigger] f.textures@[k].size_0
                        == f.textures@[k].size_1 && f.textures@[k].data_count_0
                        == f.textures@[k].data_count_1
            },
            Err(e) => e == VfxError::ParseError && !container_ok(bytes@),
        },
{
    if bytes.len() < 4 {
        return Err(VfxError::ParseError);
    }
    let texture_count = read_u32(bytes, 0);
    let mut textures: Vec<Texture> = Vec::new();
    let mut pos: usize = 4;
    let mut k: u32 = 0;
    while k < texture_count
        invariant
            bytes@.len() >= 4,
            k <= texture_count,
            texture_count == u32_at(bytes@, 0),
            records_ok(bytes@, k as nat),
            pos == record_start(bytes@, k as nat),
            pos <= bytes@.len(),
            textures@.len() == k,
            forall|j: int|
                0 <= j < k ==> texture_matches(
                    #[trigger] &textures@[j],
                    bytes@,
                    record_start(bytes@, j as nat),
                ),
            forall|j: int|
                0 <= j < k ==> #[trigger] textures@[j].size_0 == textures@[j].size_1
                    && textures@[j].data_count_0 == textures@[j].data_count_1,
        decreases texture_count - k,
    {
        match parse_texture(bytes, pos) {
            Ok((t, end)) => {
                textures.push(t);
                pos = end;
            },
            Err(e) => {
                proof {
                    assert(!records_ok(bytes@, (k + 1) as nat));
                    if records_ok(bytes@, texture_count as nat) {
                        lemma_records_ok_prefix(bytes@, (k + 1) as nat, texture_count as nat);
                    }
                }
                return Err(e);
            },
        }
        k = k + 1;
    }
    Ok(File { texture_count, textures })
}

/// A container in which some record's duplicated size fields, or its
/// duplicated data-count fields, disagree is not well formed, so
/// `parse_file` rejects it.
pub proof fn lemma_mismatched_duplicates_rejected(b: Seq<u8>, k: nat)
    requires
        b.len() >= 4,
        k < u32_at(b, 0),
        records_ok(b, k),
        ({
            let pos = record_start(b, k);
            u32_at(b, pos) != u32_at(b, pos + 4) || u32_at(b, pos + 132) != u32_at(b, pos + 136)
        }),
    ensures
        !container_ok(b),
{
    assert(!records_ok(b, k + 1));
    if records_ok(b, u32_at(b, 0) as nat) {
        lemma_records_ok_prefix(b, k + 1, u32_at(b, 0) as nat);
    }
}

} // verus!
