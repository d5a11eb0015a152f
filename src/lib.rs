//! Decoder for VFX texture containers: a count-prefixed sequence of
//! compressed texture records, each decoded to an RGBA8 pixel buffer.
pub mod decode;
pub mod geometry;
pub mod parse;
pub mod types;

pub use decode::decompress;
pub use parse::parse_file;
pub use types::{File, Rgb, Texture, TextureFormat, TextureProperties, VfxError};
