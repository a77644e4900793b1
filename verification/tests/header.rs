use png_rgba::error::DecodeError;
use png_rgba::header::{
    color_model, parse_ihdr_chunk, parse_srgb_chunk, ChunkIHDR, ColorModel, SRGB,
};

fn payload(width: u32, height: u32, rest: [u8; 5]) -> Vec<u8> {
    let mut out: Vec<u8> = width.to_be_bytes().to_vec();
    out.extend_from_slice(&height.to_be_bytes());
    out.extend_from_slice(&rest);
    out
}

#[test]
fn header_fields_are_read_in_order() {
    let h = parse_ihdr_chunk(&payload(0x0102_0304, 7, [8, 6, 0, 0, 0])).unwrap();
    assert_eq!(
        h,
        ChunkIHDR {
            width: 0x0102_0304,
            height: 7,
            depth: 8,
            color: 6,
            compression: 0,
            filter: 0,
            interlace: 0
        }
    );
    assert_eq!(h.color_model(), Some(ColorModel::TruecolorAlpha));
}

#[test]
fn header_depth_is_carried_as_it_stands() {
    let h = parse_ihdr_chunk(&payload(1, 1, [16, 2, 0, 0, 0])).unwrap();
    assert_eq!(h.depth, 16);
    assert_eq!(h.color_model(), Some(ColorModel::Truecolor));
}

#[test]
fn header_of_another_length_is_a_size_error() {
    assert_eq!(parse_ihdr_chunk(&[]).unwrap_err(), DecodeError::Size);
    assert_eq!(parse_ihdr_chunk(&[0u8; 12]).unwrap_err(), DecodeError::Size);
    assert_eq!(parse_ihdr_chunk(&[0u8; 14]).unwrap_err(), DecodeError::Size);
    let mut long: Vec<u8> = payload(1, 1, [8, 2, 0, 0, 0]);
    long.push(0);
    assert_eq!(parse_ihdr_chunk(&long).unwrap_err(), DecodeError::Size);
}

#[test]
fn zero_width_or_height_is_refused() {
    assert_eq!(
        parse_ihdr_chunk(&payload(0, 1, [8, 2, 0, 0, 0])).unwrap_err(),
        DecodeError::InvalidDimensions
    );
    assert_eq!(
        parse_ihdr_chunk(&payload(1, 0, [8, 2, 0, 0, 0])).unwrap_err(),
        DecodeError::InvalidDimensions
    );
    assert_eq!(
        parse_ihdr_chunk(&payload(0, 0, [8, 1, 1, 1, 1])).unwrap_err(),
        DecodeError::InvalidDimensions
    );
}

#[test]
fn palette_flag_without_colour_flag_is_refused() {
    assert_eq!(
        parse_ihdr_chunk(&payload(1, 1, [8, 1, 0, 0, 0])).unwrap_err(),
        DecodeError::InvalidColorType
    );
    assert_eq!(
        parse_ihdr_chunk(&payload(1, 1, [8, 5, 0, 0, 0])).unwrap_err(),
        DecodeError::InvalidColorType
    );
    assert_eq!(
        parse_ihdr_chunk(&payload(1, 1, [8, 1, 1, 1, 1])).unwrap_err(),
        DecodeError::InvalidColorType
    );
}

#[test]
fn methods_other_than_zero_are_unsupported() {
    assert_eq!(
        parse_ihdr_chunk(&payload(1, 1, [8, 2, 1, 0, 0])).unwrap_err(),
        DecodeError::UnsupportedFeature
    );
    assert_eq!(
        parse_ihdr_chunk(&payload(1, 1, [8, 2, 0, 1, 0])).unwrap_err(),
        DecodeError::UnsupportedFeature
    );
    assert_eq!(
        parse_ihdr_chunk(&payload(1, 1, [8, 2, 0, 0, 1])).unwrap_err(),
        DecodeError::UnsupportedFeature
    );
    assert_eq!(
        parse_ihdr_chunk(&payload(1, 1, [8, 3, 0, 0, 200])).unwrap_err(),
        DecodeError::UnsupportedFeature
    );
}

#[test]
fn colour_type_bits_choose_the_model() {
    assert_eq!(color_model(0), Some(ColorModel::Grayscale));
    assert_eq!(color_model(1), None);
    assert_eq!(color_model(2), Some(ColorModel::Truecolor));
    assert_eq!(color_model(3), Some(ColorModel::Indexed));
    assert_eq!(color_model(4), Some(ColorModel::GrayscaleAlpha));
    assert_eq!(color_model(5), None);
    assert_eq!(color_model(6), Some(ColorModel::TruecolorAlpha));
    assert_eq!(color_model(7), Some(ColorModel::Indexed));
    assert_eq!(color_model(8), Some(ColorModel::Grayscale));
    assert_eq!(color_model(0xfa), Some(ColorModel::Truecolor));
    assert_eq!(color_model(0xf9), None);
}

#[test]
fn raw_channels_of_each_model() {
    assert_eq!(ColorModel::Grayscale.raw_channels(), 1);
    assert_eq!(ColorModel::GrayscaleAlpha.raw_channels(), 2);
    assert_eq!(ColorModel::Truecolor.raw_channels(), 3);
    assert_eq!(ColorModel::TruecolorAlpha.raw_channels(), 4);
    assert_eq!(ColorModel::Indexed.raw_channels(), 1);
}

#[test]
fn srgb_payload_is_one_byte() {
    assert_eq!(parse_srgb_chunk(&[3]).unwrap(), SRGB { rendering_intent: 3 });
    assert_eq!(parse_srgb_chunk(&[0]).unwrap().rendering_intent, 0);
    assert_eq!(parse_srgb_chunk(&[]).unwrap_err(), DecodeError::Size);
    assert_eq!(parse_srgb_chunk(&[1, 2]).unwrap_err(), DecodeError::Size);
}
