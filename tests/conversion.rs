use dds2ktx2::converter::{convert, convert_texture, is_power_of_two, reorder_levels, ConversionError, SourceTexture};
use dds2ktx2::format::{dds_format2ktx2_format, pixel_size};
use dds2ktx2::ktx2::KTX2;
use ddsfile::{AlphaMode, Caps2, D3D10ResourceDimension, Dds, DxgiFormat, NewDxgiParams};

const IDENTIFIER: [u8; 12] = [0xAB, 0x4B, 0x54, 0x58, 0x20, 0x32, 0x30, 0xBB, 0x0D, 0x0A, 0x1A, 0x0A];

fn le32(bytes: &[u8], at: usize) -> u32 {
    u32::from_le_bytes([bytes[at], bytes[at + 1], bytes[at + 2], bytes[at + 3]])
}

fn le64(bytes: &[u8], at: usize) -> u64 {
    let mut b = [0u8; 8];
    b.copy_from_slice(&bytes[at..at + 8]);
    u64::from_le_bytes(b)
}

/// A cubemap source whose face `f` is filled with the byte `f`.
fn cubemap(width: u32, height: u32, levels: u32, dxgi: u32, stride: usize) -> SourceTexture {
    let mut data = Vec::new();
    for f in 0..6u8 {
        data.extend(std::iter::repeat(f).take(stride));
    }
    SourceTexture {
        width,
        height,
        mip_level_count: levels,
        is_cubemap: true,
        dxgi_format: Some(dxgi),
        face_stride: Some(stride),
        data,
    }
}

fn dds_bytes(width: u32, height: u32, format: DxgiFormat, cube: bool) -> Vec<u8> {
    let mut dds = Dds::new_dxgi(NewDxgiParams {
        height,
        width,
        depth: None,
        format,
        mipmap_levels: Some(1),
        array_layers: if cube { Some(6) } else { None },
        caps2: if cube { Some(Caps2::CUBEMAP | Caps2::CUBEMAP_ALLFACES) } else { None },
        is_cubemap: cube,
        resource_dimension: D3D10ResourceDimension::Texture2D,
        alpha_mode: AlphaMode::Unknown,
    })
    .unwrap();
    let face = dds.data.len() / if cube { 6 } else { 1 };
    for (i, b) in dds.data.iter_mut().enumerate() {
        *b = (i / face) as u8;
    }
    let mut out = Vec::new();
    dds.write(&mut out).unwrap();
    out
}

#[test]
fn format_mapping_supported() {
    assert_eq!(dds_format2ktx2_format(10), Some(97));
    assert_eq!(dds_format2ktx2_format(26), Some(122));
}

#[test]
fn format_mapping_unsupported() {
    assert_eq!(dds_format2ktx2_format(28), None);
    assert_eq!(dds_format2ktx2_format(0), None);
    assert_eq!(dds_format2ktx2_format(97), None);
}

#[test]
fn format_codes_match_ddsfile() {
    assert_eq!(dds_format2ktx2_format(DxgiFormat::R16G16B16A16_Float as u32), Some(97));
    assert_eq!(dds_format2ktx2_format(DxgiFormat::R11G11B10_Float as u32), Some(122));
    assert_eq!(dds_format2ktx2_format(DxgiFormat::R8G8B8A8_UNorm as u32), None);
}

#[test]
fn pixel_sizes() {
    assert_eq!(pixel_size(97), Some(8));
    assert_eq!(pixel_size(122), Some(4));
    assert_eq!(pixel_size(10), None);
}

#[test]
fn powers_of_two() {
    assert!(is_power_of_two(1));
    assert!(is_power_of_two(2));
    assert!(is_power_of_two(256));
    assert!(is_power_of_two(0x8000_0000));
    assert!(!is_power_of_two(0));
    assert!(!is_power_of_two(3));
    assert!(!is_power_of_two(100));
    assert!(!is_power_of_two(u32::MAX));
}

#[test]
fn power_of_two_gate_rejects() {
    let src = cubemap(100, 256, 1, 26, 100 * 256 * 4);
    assert_eq!(
        convert_texture(&src),
        Err(ConversionError::NotPowerOfTwo { width: 100, height: 256 })
    );
}

#[test]
fn power_of_two_gate_passes() {
    let src = cubemap(256, 256, 1, 26, 256 * 256 * 4);
    let out = convert_texture(&src).unwrap();
    assert_eq!(out.len(), 80 + 24 + 4 + 6 * 256 * 256 * 4);
}

#[test]
fn reorder_single_level_one_byte_pixels() {
    let mut data = Vec::new();
    for f in 0..6u8 {
        data.extend_from_slice(&[f, f, f, f]);
    }
    let levels = reorder_levels(&data, 4, 2, 2, 1, 1).unwrap();
    assert_eq!(levels.len(), 1);
    assert_eq!(
        levels[0],
        vec![0, 0, 0, 0, 1, 1, 1, 1, 2, 2, 2, 2, 3, 3, 3, 3, 4, 4, 4, 4, 5, 5, 5, 5]
    );
}

#[test]
fn reorder_two_levels_interleaves_faces() {
    // Face f: level 0 is four bytes 10*f, level 1 is one byte 10*f+1.
    let mut data = Vec::new();
    for f in 0..6u8 {
        data.extend_from_slice(&[10 * f, 10 * f, 10 * f, 10 * f, 10 * f + 1]);
    }
    let levels = reorder_levels(&data, 5, 2, 2, 2, 1).unwrap();
    assert_eq!(levels.len(), 2);
    assert_eq!(levels[1], vec![1, 11, 21, 31, 41, 51]);
    assert_eq!(&levels[0][0..8], &[0, 0, 0, 0, 10, 10, 10, 10]);
}

#[test]
fn reorder_short_data() {
    let data = vec![0u8; 23];
    assert!(reorder_levels(&data, 4, 2, 2, 1, 1).is_none());
}

#[test]
fn reorder_no_levels() {
    let data: Vec<u8> = Vec::new();
    assert_eq!(reorder_levels(&data, 4, 2, 2, 0, 1), Some(Vec::new()));
}

#[test]
fn level_sizes_and_shape() {
    // 4x2, three levels, 8 bytes per pixel: faces of 64, 16 and 0 bytes.
    let stride = 64 + 16;
    let src = cubemap(4, 2, 3, 10, stride);
    let out = convert_texture(&src).unwrap();
    assert_eq!(le32(&out, 12), 97);
    assert_eq!(le32(&out, 20), 4);
    assert_eq!(le32(&out, 24), 2);
    assert_eq!(le32(&out, 36), 6);
    assert_eq!(le32(&out, 40), 3);
    let base = 80 + 24 * 3 + 4;
    let lens = [6 * 64u64, 6 * 16, 0];
    let mut offset = base as u64;
    for (i, len) in lens.iter().enumerate() {
        assert_eq!(le64(&out, 80 + 24 * i), offset);
        assert_eq!(le64(&out, 88 + 24 * i), *len);
        assert_eq!(le64(&out, 96 + 24 * i), *len);
        offset += len;
    }
    assert_eq!(le32(&out, 80 + 72), 0);
    assert_eq!(out.len() as u64, offset);
    // Level 0 holds face 0 then face 1, ...; level 1 starts with face 0's second level.
    assert_eq!(out[base], 0);
    assert_eq!(out[base + 64], 1);
    assert_eq!(out[base + 6 * 64], 0);
    assert_eq!(out[base + 6 * 64 + 16], 1);
}

#[test]
fn not_a_cubemap() {
    let mut src = cubemap(2, 2, 1, 10, 32);
    src.is_cubemap = false;
    assert_eq!(convert_texture(&src), Err(ConversionError::NotACubemap));
}

#[test]
fn unknown_source_format() {
    let mut src = cubemap(2, 2, 1, 10, 32);
    src.dxgi_format = None;
    assert_eq!(convert_texture(&src), Err(ConversionError::UnknownSourceFormat));
}

#[test]
fn unsupported_format() {
    let src = cubemap(2, 2, 1, 28, 16);
    assert_eq!(convert_texture(&src), Err(ConversionError::UnsupportedFormat(28)));
}

#[test]
fn data_too_short() {
    let mut src = cubemap(2, 2, 1, 10, 32);
    src.data.pop();
    assert_eq!(convert_texture(&src), Err(ConversionError::DecodeFailed));
}

#[test]
fn face_stride_missing() {
    let mut src = cubemap(2, 2, 1, 10, 32);
    src.face_stride = None;
    assert_eq!(convert_texture(&src), Err(ConversionError::DecodeFailed));
}

#[test]
fn decode_garbage() {
    assert_eq!(convert(&[1, 2, 3, 4, 5]), Err(ConversionError::DecodeFailed));
}

#[test]
fn dds_non_cubemap_rejected() {
    let input = dds_bytes(4, 4, DxgiFormat::R16G16B16A16_Float, false);
    assert_eq!(convert(&input), Err(ConversionError::NotACubemap));
}

#[test]
fn dds_unsupported_format_rejected() {
    let input = dds_bytes(4, 4, DxgiFormat::R8G8B8A8_UNorm, true);
    assert_eq!(convert(&input), Err(ConversionError::UnsupportedFormat(28)));
}

#[test]
fn dds_cubemap_converted() {
    let input = dds_bytes(2, 2, DxgiFormat::R16G16B16A16_Float, true);
    let out = convert(&input).unwrap();
    assert_eq!(&out[0..12], &IDENTIFIER);
    assert_eq!(le32(&out, 12), 97);
    assert_eq!(le32(&out, 20), 2);
    assert_eq!(le32(&out, 24), 2);
    assert_eq!(le32(&out, 36), 6);
    assert_eq!(le32(&out, 40), 1);
    assert_eq!(le64(&out, 80), 108);
    assert_eq!(le64(&out, 88), 192);
    assert_eq!(out.len(), 108 + 192);
    for f in 0..6usize {
        assert!(out[108 + 32 * f..108 + 32 * (f + 1)].iter().all(|b| *b == f as u8));
    }
}

#[test]
fn empty_builder_header() {
    let mut out = Vec::new();
    KTX2::new().write(&mut out);
    assert_eq!(&out[0..12], &IDENTIFIER);
    assert_eq!(out.len(), 84);
    assert!(out[12..].iter().all(|b| *b == 0));
}

#[test]
fn builder_fields_little_endian() {
    let k = KTX2::new()
        .width(0x0102_0304)
        .height(0x0A0B_0C0D)
        .levels(2)
        .vk_format(97)
        .face_count(6)
        .add_level(&[7, 7, 7])
        .add_level(&[9]);
    let mut out = Vec::new();
    k.write(&mut out);
    assert_eq!(&out[20..24], &[4, 3, 2, 1]);
    assert_eq!(&out[24..28], &[0x0D, 0x0C, 0x0B, 0x0A]);
    assert_eq!(le64(&out, 80), 132);
    assert_eq!(&out[80..88], &[132, 0, 0, 0, 0, 0, 0, 0]);
    assert_eq!(le64(&out, 104), 135);
    assert_eq!(le64(&out, 112), 1);
    assert_eq!(&out[132..], &[7, 7, 7, 9]);
}

#[test]
fn write_twice_identical() {
    let k = KTX2::new().width(8).height(8).levels(1).vk_format(122).face_count(6).add_level(&[1, 2, 3]);
    let mut a = Vec::new();
    let mut b = Vec::new();
    k.write(&mut a);
    k.write(&mut b);
    assert_eq!(a, b);
}

#[test]
fn dds_oversized_header_rejected() {
    // A well-formed 2x2 cubemap whose header then claims a width of 2^27:
    // the layer length would overflow, so the face stride is never asked.
    let mut input = dds_bytes(2, 2, DxgiFormat::R16G16B16A16_Float, true);
    input[16..20].copy_from_slice(&(1u32 << 27).to_le_bytes());
    assert_eq!(convert(&input), Err(ConversionError::DecodeFailed));
}

#[test]
fn dds_short_payload_rejected() {
    let mut input = dds_bytes(2, 2, DxgiFormat::R16G16B16A16_Float, true);
    input.truncate(input.len() - 1);
    assert_eq!(convert(&input), Err(ConversionError::DecodeFailed));
}
