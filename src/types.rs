use vstd::prelude::*;

verus! {

/// A whole container: `texture_count` followed by that many texture records.
pub struct File {
    pub texture_count: u32,
    pub textures: Vec<Texture>,
}

/// One compressed texture record, with its duplicated header fields.
pub struct Texture {
    pub size_0: u32,
    pub size_1: u32,
    pub aspect_ratio: u32,
    pub format: TextureFormat,
    pub unk_0: [u16; 2],
    pub brightness: [u8; 16],
    pub rgb_0: [Rgb; 4],
    pub rgb_1: [Rgb; 4],
    pub unk_1: [u16; 24],
    pub data_count_0: u32,
    pub data_count_1: u32,
    pub data: Vec<u8>,
}

/// The compressed pixel formats, stored in the container as the codes
/// 1 (`RGB8A1`), 11 (`R7G6B5A1`) and 12 (`ARGB4`).
#[derive(Clone, Copy, Debug, PartialEq, Eq, Structural)]
pub enum TextureFormat {
    RGB8A1,
    R7G6B5A1,
    ARGB4,
}

/// A palette entry; only the low 9 bits of each cell are meaningful.
#[derive(Clone, Copy, Debug, PartialEq, Eq, Structural)]
pub struct Rgb {
    pub r: i16,
    pub g: i16,
    pub b: i16,
}

/// The logical size of a texture and the bytes each pixel takes in its
/// compressed data.
#[derive(Clone, Copy, Debug, PartialEq, Eq, Structural)]
pub struct TextureProperties {
    pub width: u32,
    pub height: u32,
    pub stride: u32,
}

/// Why a container or a texture could not be decoded.
#[derive(Clone, Copy, Debug, PartialEq, Eq, Structural)]
pub enum VfxError {
    /// The bytes do not hold a well-formed container.
    ParseError,
    /// A texture's data length differs from `width * height * stride`.
    DataLengthMismatch,
}

} // verus!
