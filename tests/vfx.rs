use gex_vfx::{decompress, parse_file, Rgb, Texture, TextureFormat, TextureProperties, VfxError};

const ZERO_RGB: Rgb = Rgb { r: 0, g: 0, b: 0 };

fn texture(format: TextureFormat, size_1: u32, aspect_ratio: u32, data: Vec<u8>) -> Texture {
    let n = data.len() as u32;
    Texture {
        size_0: size_1,
        size_1,
        aspect_ratio,
        format,
        unk_0: [0; 2],
        brightness: [0; 16],
        rgb_0: [ZERO_RGB; 4],
        rgb_1: [ZERO_RGB; 4],
        unk_1: [0; 24],
        data_count_0: n,
        data_count_1: n,
        data,
    }
}

struct Record {
    size_0: u32,
    size_1: u32,
    aspect_ratio: u32,
    format: u32,
    brightness: [u8; 16],
    rgb_0: [[i16; 3]; 4],
    rgb_1: [[i16; 3]; 4],
    data_count_0: u32,
    data_count_1: u32,
    data: Vec<u8>,
}

fn record(format: u32, size_1: u32, aspect_ratio: u32, data: Vec<u8>) -> Record {
    let n = data.len() as u32;
    Record {
        size_0: size_1,
        size_1,
        aspect_ratio,
        format,
        brightness: [0; 16],
        rgb_0: [[0; 3]; 4],
        rgb_1: [[0; 3]; 4],
        data_count_0: n,
        data_count_1: n,
        data,
    }
}

fn record_bytes(r: &Record) -> Vec<u8> {
    let mut out = Vec::new();
    for v in [r.size_0, r.size_1, r.aspect_ratio, r.format] {
        out.extend_from_slice(&v.to_le_bytes());
    }
    out.extend_from_slice(&7u16.to_le_bytes());
    out.extend_from_slice(&9u16.to_le_bytes());
    out.extend_from_slice(&r.brightness);
    for palette in [&r.rgb_0, &r.rgb_1] {
        for entry in palette.iter() {
            for v in entry.iter() {
                out.extend_from_slice(&v.to_le_bytes());
            }
        }
    }
    for j in 0..24u16 {
        out.extend_from_slice(&(100 + j).to_le_bytes());
    }
    out.extend_from_slice(&r.data_count_0.to_le_bytes());
    out.extend_from_slice(&r.data_count_1.to_le_bytes());
    out.extend_from_slice(&r.data);
    out
}

fn container(records: &[Record]) -> Vec<u8> {
    let mut out = (records.len() as u32).to_le_bytes().to_vec();
    for r in records {
        out.extend(record_bytes(r));
    }
    out
}

fn geometry(format: TextureFormat, size_1: u32, aspect_ratio: u32) -> TextureProperties {
    TextureProperties::from_texture(&texture(format, size_1, aspect_ratio, vec![]))
}

#[test]
fn geometry_size_eight_square_is_one_pixel() {
    let g = geometry(TextureFormat::RGB8A1, 8, 3);
    assert_eq!((g.width, g.height, g.stride), (1, 1, 1));
}

#[test]
fn geometry_aspect_above_three_narrows_width() {
    let g = geometry(TextureFormat::RGB8A1, 5, 5);
    assert_eq!((g.width, g.height, g.stride), (2, 8, 1));
}

#[test]
fn geometry_aspect_below_three_narrows_height() {
    let g = geometry(TextureFormat::ARGB4, 5, 1);
    assert_eq!((g.width, g.height, g.stride), (8, 2, 2));
}

#[test]
fn geometry_largest_base() {
    let g = geometry(TextureFormat::R7G6B5A1, 0, 3);
    assert_eq!((g.width, g.height, g.stride), (256, 256, 2));
}

#[test]
fn geometry_size_above_eight_is_empty() {
    let g = geometry(TextureFormat::RGB8A1, 9, 3);
    assert_eq!((g.width, g.height), (0, 0));
}

#[test]
fn geometry_shift_past_all_bits_is_zero() {
    let g = geometry(TextureFormat::RGB8A1, 0, 100);
    assert_eq!((g.width, g.height), (0, 256));
    let g = geometry(TextureFormat::RGB8A1, 0, 0);
    assert_eq!((g.width, g.height), (256, 32));
}

#[test]
fn r7g6b5a1_zero_word_is_transparent_black() {
    let t = texture(TextureFormat::R7G6B5A1, 8, 3, vec![0x00, 0x00]);
    assert_eq!(decompress(&t), Ok(vec![0, 0, 0, 0]));
}

#[test]
fn r7g6b5a1_all_bits_set() {
    let t = texture(TextureFormat::R7G6B5A1, 8, 3, vec![0xFF, 0xFF]);
    assert_eq!(decompress(&t), Ok(vec![0xF8, 0xF8, 0xF8, 255]));
}

#[test]
fn r7g6b5a1_alpha_bit_alone_is_transparent() {
    let t = texture(TextureFormat::R7G6B5A1, 8, 3, vec![0x00, 0x80]);
    assert_eq!(decompress(&t), Ok(vec![0, 0, 0, 0]));
}

#[test]
fn r7g6b5a1_channels_and_clear_alpha() {
    // 0x7C00 | 0x0020 | 0x0003: red field 31, green field 1, blue field 3.
    let t = texture(TextureFormat::R7G6B5A1, 8, 3, vec![0x23, 0x7C]);
    assert_eq!(decompress(&t), Ok(vec![0xF8, 0x08, 0x18, 0]));
    let t = texture(TextureFormat::R7G6B5A1, 8, 3, vec![0x23, 0xFC]);
    assert_eq!(decompress(&t), Ok(vec![0xF8, 0x08, 0x18, 255]));
}

#[test]
fn argb4_word_f123() {
    let t = texture(TextureFormat::ARGB4, 8, 3, vec![0x23, 0xF1]);
    assert_eq!(decompress(&t), Ok(vec![0x10, 0x20, 0x30, 0xF0]));
}

#[test]
fn argb4_column_major_order() {
    // width 2, height 1: pixel 0 then pixel 1.
    let t = texture(TextureFormat::ARGB4, 7, 2, vec![0x00, 0x10, 0x45, 0x23]);
    assert_eq!(decompress(&t), Ok(vec![0x00, 0x00, 0x00, 0x10, 0x30, 0x40, 0x50, 0x20]));
}

#[test]
fn rgb8a1_clamps_minus_one_to_zero() {
    let mut t = texture(TextureFormat::RGB8A1, 8, 3, vec![0x00]);
    t.rgb_0[0] = Rgb { r: 0x1FF, g: 0, b: 0 };
    assert_eq!(decompress(&t), Ok(vec![0, 0, 0, 0]));
}

#[test]
fn rgb8a1_clamps_256_to_255() {
    let mut t = texture(TextureFormat::RGB8A1, 8, 3, vec![0x00]);
    t.brightness[0] = 255;
    t.rgb_1[0] = Rgb { r: 1, g: 0, b: -1 };
    assert_eq!(decompress(&t), Ok(vec![255, 255, 254, 255]));
}

#[test]
fn rgb8a1_palette_keeps_low_nine_bits_signed() {
    let mut t = texture(TextureFormat::RGB8A1, 8, 3, vec![0x16]);
    // high nibble 1, rgb_0 index 1, rgb_1 index 2
    t.brightness[1] = 100;
    t.rgb_0[1] = Rgb { r: 0x7E05, g: 0x0100, b: -3 };
    t.rgb_1[2] = Rgb { r: 10, g: 0x01FE, b: 0x0200 };
    // r = 100 + 5 + 10, g = 100 - 256 - 2 -> 0, b = 100 - 3 + 0
    assert_eq!(decompress(&t), Ok(vec![115, 0, 97, 255]));
}

#[test]
fn rgb8a1_pixels_one_and_two_repeat_pixel_zero() {
    let mut t = texture(TextureFormat::RGB8A1, 7, 3, vec![0x00, 0x10, 0x20, 0x30]);
    for j in 0..16 {
        t.brightness[j] = 10 * j as u8 + 5;
    }
    let out = decompress(&t).unwrap();
    assert_eq!(out.len(), 16);
    assert_eq!(&out[0..4], &[5, 5, 5, 255]);
    assert_eq!(&out[4..8], &out[0..4]);
    assert_eq!(&out[8..12], &out[0..4]);
    assert_eq!(&out[12..16], &[35, 35, 35, 255]);
}

#[test]
fn rgb8a1_two_pixels_repeat_once() {
    let mut t = texture(TextureFormat::RGB8A1, 7, 2, vec![0x10, 0x20]);
    t.brightness[1] = 40;
    t.brightness[2] = 80;
    assert_eq!(decompress(&t), Ok(vec![40, 40, 40, 255, 40, 40, 40, 255]));
}

#[test]
fn rgb8a1_later_pixels_keep_their_own_value() {
    let mut t = texture(TextureFormat::RGB8A1, 6, 3, vec![0x00; 16]);
    t.data[3] = 0x10;
    t.data[15] = 0x20;
    t.brightness[1] = 7;
    t.brightness[2] = 9;
    let out = decompress(&t).unwrap();
    assert_eq!(out.len(), 64);
    assert_eq!(&out[12..16], &[7, 7, 7, 255]);
    assert_eq!(&out[60..64], &[9, 9, 9, 255]);
    assert_eq!(&out[16..20], &[0, 0, 0, 0]);
}

#[test]
fn length_mismatch_is_rejected() {
    let t = texture(TextureFormat::RGB8A1, 7, 3, vec![0; 3]);
    assert_eq!(decompress(&t), Err(VfxError::DataLengthMismatch));
    let t = texture(TextureFormat::R7G6B5A1, 8, 3, vec![0; 1]);
    assert_eq!(decompress(&t), Err(VfxError::DataLengthMismatch));
    let t = texture(TextureFormat::ARGB4, 8, 3, vec![0; 4]);
    assert_eq!(decompress(&t), Err(VfxError::DataLengthMismatch));
}

#[test]
fn empty_geometry_decodes_to_empty_buffer() {
    let t = texture(TextureFormat::RGB8A1, 9, 3, vec![]);
    assert_eq!(decompress(&t), Ok(vec![]));
}

#[test]
fn end_to_end_rgb8a1_two_by_two() {
    let bytes = container(&[record(1, 7, 3, vec![0; 4])]);
    let file = parse_file(&bytes).unwrap();
    assert_eq!(file.texture_count, 1);
    assert_eq!(file.textures.len(), 1);
    let t = &file.textures[0];
    let g = TextureProperties::from_texture(t);
    assert_eq!((g.width, g.height, g.stride), (2, 2, 1));
    assert_eq!(decompress(t), Ok(vec![0; 16]));
}

#[test]
fn parse_reads_every_field() {
    let mut r = record(12, 6, 4, vec![1, 2, 3, 4, 5, 6, 7, 8]);
    r.brightness[15] = 77;
    r.rgb_0[3] = [-1, 2, -300];
    r.rgb_1[0] = [0x1FF, -256, 4];
    let second = record(11, 8, 3, vec![0xAA, 0xBB]);
    let mut bytes = container(&[r, second]);
    bytes.extend_from_slice(&[0xEE, 0xEE]);
    let file = parse_file(&bytes).unwrap();
    assert_eq!(file.texture_count, 2);
    let t = &file.textures[0];
    assert_eq!((t.size_0, t.size_1, t.aspect_ratio), (6, 6, 4));
    assert_eq!(t.format, TextureFormat::ARGB4);
    assert_eq!(t.unk_0, [7, 9]);
    assert_eq!(t.brightness[15], 77);
    assert_eq!(t.rgb_0[3], Rgb { r: -1, g: 2, b: -300 });
    assert_eq!(t.rgb_1[0], Rgb { r: 0x1FF, g: -256, b: 4 });
    assert_eq!(t.unk_1[0], 100);
    assert_eq!(t.unk_1[23], 123);
    assert_eq!((t.data_count_0, t.data_count_1), (8, 8));
    assert_eq!(t.data, vec![1, 2, 3, 4, 5, 6, 7, 8]);
    let u = &file.textures[1];
    assert_eq!(u.format, TextureFormat::R7G6B5A1);
    assert_eq!(u.data, vec![0xAA, 0xBB]);
}

#[test]
fn parse_empty_container() {
    let file = parse_file(&[0, 0, 0, 0]).unwrap();
    assert_eq!(file.texture_count, 0);
    assert!(file.textures.is_empty());
}

#[test]
fn parse_rejects_size_mismatch() {
    let mut r = record(1, 8, 3, vec![0]);
    r.size_0 = 7;
    assert_eq!(parse_file(&container(&[r])).err(), Some(VfxError::ParseError));
}

#[test]
fn parse_rejects_data_count_mismatch() {
    let mut r = record(1, 8, 3, vec![0]);
    r.data_count_1 = 2;
    assert_eq!(parse_file(&container(&[r])).err(), Some(VfxError::ParseError));
}

#[test]
fn parse_rejects_unknown_format() {
    let r = record(2, 8, 3, vec![0]);
    assert_eq!(parse_file(&container(&[r])).err(), Some(VfxError::ParseError));
}

#[test]
fn parse_rejects_short_input() {
    assert_eq!(parse_file(&[]).err(), Some(VfxError::ParseError));
    assert_eq!(parse_file(&[1, 0, 0]).err(), Some(VfxError::ParseError));
    let bytes = container(&[record(1, 8, 3, vec![0])]);
    assert_eq!(parse_file(&bytes[..bytes.len() - 1]).err(), Some(VfxError::ParseError));
    assert_eq!(parse_file(&bytes[..100]).err(), Some(VfxError::ParseError));
}

#[test]
fn parse_rejects_missing_record() {
    let mut bytes = container(&[record(1, 8, 3, vec![0])]);
    bytes[0] = 2;
    assert_eq!(parse_file(&bytes).err(), Some(VfxError::ParseError));
}
