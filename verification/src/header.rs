use crate::chunks::{be_u32, bytes_to_u32};
use crate::error::DecodeError;
use vstd::prelude::*;
use vstd::slice::slice_subrange;

verus! {

/// The image header, as the IHDR payload spells it.
#[derive(Debug, Clone, Copy, PartialEq, Eq)]
pub struct ChunkIHDR {
    pub width: u32,
    pub height: u32,
    pub depth: u8,
    pub color: u8,
    pub compression: u8,
    pub filter: u8,
    pub interlace: u8,
}

/// How a pixel's bytes are to be read.
#[derive(Debug, Clone, Copy, PartialEq, Eq)]
pub enum ColorModel {
    Grayscale,
    Truecolor,
    Indexed,
    GrayscaleAlpha,
    TruecolorAlpha,
}

/// Bit 0 of the colour type: pixels are palette indexes.
pub open spec fn has_palette(color: u8) -> bool {
    color & 1 != 0
}

/// Bit 1 of the colour type: pixels carry colour.
pub open spec fn has_color(color: u8) -> bool {
    color & 2 != 0
}

/// Bit 2 of the colour type: pixels carry an alpha channel.
pub open spec fn has_alpha(color: u8) -> bool {
    color & 4 != 0
}

/// The colour model that a colour type stands for, or `None` where it sets
/// the palette flag without the colour flag. With both set the image is
/// indexed, whatever the alpha flag says. Bits above the third are not read.
pub open spec fn color_model_of(color: u8) -> Option<ColorModel> {
    if has_palette(color) {
        if has_color(color) {
            Some(ColorModel::Indexed)
        } else {
            None
        }
    } else if has_color(color) {
        if has_alpha(color) {
            Some(ColorModel::TruecolorAlpha)
        } else {
            Some(ColorModel::Truecolor)
        }
    } else {
        if has_alpha(color) {
            Some(ColorModel::GrayscaleAlpha)
        } else {
            Some(ColorModel::Grayscale)
        }
    }
}

/// The colour model that a colour type stands for.
pub fn color_model(color: u8) -> (r: Option<ColorModel>)
    ensures
        r == color_model_of(color),
{
    let palette = color & 1 != 0;
    let colored = color & 2 != 0;
    let alpha = color & 4 != 0;
    if palette {
        if colored {
            Some(ColorModel::Indexed)
        } else {
            None
        }
    } else if colored {
        if alpha {
            Some(ColorModel::TruecolorAlpha)
        } else {
            Some(ColorModel::Truecolor)
        }
    } else {
        if alpha {
            Some(ColorModel::GrayscaleAlpha)
        } else {
            Some(ColorModel::Grayscale)
        }
    }
}

impl ColorModel {
    /// The number of raw channels of a pixel, which at depth 8 is the number
    /// of bytes it takes: one for an index or a gray value, three for colour,
    /// one more with alpha.
    pub open spec fn channels(self) -> int {
        match self {
            ColorModel::Grayscale => 1,
            ColorModel::Truecolor => 3,
            ColorModel::Indexed => 1,
            ColorModel::GrayscaleAlpha => 2,
            ColorModel::TruecolorAlpha => 4,
        }
    }

    /// The number of raw channels of a pixel.
    pub fn raw_channels(&self) -> (r: usize)
        ensures
            r == self.channels(),
            1 <= r <= 4,
    {
        match self {
            ColorModel::Grayscale => 1,
            ColorModel::Truecolor => 3,
            ColorModel::Indexed => 1,
            ColorModel::GrayscaleAlpha => 2,
            ColorModel::TruecolorAlpha => 4,
        }
    }
}

impl ChunkIHDR {
    /// The header is one that `parse_ihdr_chunk` accepts: both dimensions
    /// are positive, the colour type stands for a colour model, and the
    /// compression, filter and interlace methods are 0.
    pub open spec fn wf(&self) -> bool {
        &&& self.width > 0
        &&& self.height > 0
        &&& color_model_of(self.color) is Some
        &&& self.compression == 0
        &&& self.filter == 0
        &&& self.interlace == 0
    }

    /// The colour model that the header declares.
    pub fn color_model(&self) -> (r: Option<ColorModel>)
        ensures
            r == color_model_of(self.color),
            self.wf() ==> r is Some,
    {
        color_model(self.color)
    }
}

/// The header that thirteen bytes spell, before any check.
pub open spec fn ihdr_fields(b: Seq<u8>) -> ChunkIHDR {
    ChunkIHDR {
        width: be_u32(b.subrange(0, 4)),
        height: be_u32(b.subrange(4, 8)),
        depth: b[8],
        color: b[9],
        compression: b[10],
        filter: b[11],
        interlace: b[12],
    }
}

/// What interpreting an IHDR payload gives. The checks are made in this
/// order: the payload has thirteen bytes (`Size`); width and height are not
/// zero (`InvalidDimensions`); the colour type stands for a colour model
/// (`InvalidColorType`); compression, filter and interlace method are 0
/// (`UnsupportedFeature`).
pub open spec fn ihdr_parsed(b: Seq<u8>) -> Result<ChunkIHDR, DecodeError> {
    let h = ihdr_fields(b);
    if b.len() != 13 {
        Err(DecodeError::Size)
    } else if h.width == 0 || h.height == 0 {
        Err(DecodeError::InvalidDimensions)
    } else if color_model_of(h.color) is None {
        Err(DecodeError::InvalidColorType)
    } else if h.compression != 0 || h.filter != 0 || h.interlace != 0 {
        Err(DecodeError::UnsupportedFeature)
    } else {
        Ok(h)
    }
}

/// Interprets the payload of an IHDR chunk.
pub fn parse_ihdr_chunk(bytes: &[u8]) -> (r: Result<ChunkIHDR, DecodeError>)
    ensures
        r == ihdr_parsed(bytes@),
        r matches Ok(h) ==> h.wf(),
{
    if bytes.len() != 13 {
        return Err(DecodeError::Size);
    }
    let header = ChunkIHDR {
        width: bytes_to_u32(slice_subrange(bytes, 0, 4)),
        height: bytes_to_u32(slice_subrange(bytes, 4, 8)),
        depth: bytes[8],
        color: bytes[9],
        compression: bytes[10],
        filter: bytes[11],
        interlace: bytes[12],
    };
    if header.width == 0 || header.height == 0 {
        return Err(DecodeError::InvalidDimensions);
    }
    if color_model(header.color).is_none() {
        return Err(DecodeError::InvalidColorType);
    }
    if header.compression != 0 || header.filter != 0 || header.interlace != 0 {
        return Err(DecodeError::UnsupportedFeature);
    }
    Ok(header)
}

/// The payload of an sRGB chunk.
#[derive(Debug, Clone, Copy, PartialEq, Eq)]
pub struct SRGB {
    pub rendering_intent: u8,
}

/// What interpreting an sRGB payload gives: its one byte, or `Size` where it
/// has any other length.
pub open spec fn srgb_parsed(b: Seq<u8>) -> Result<SRGB, DecodeError> {
    if b.len() != 1 {
        Err(DecodeError::Size)
    } else {
        Ok(SRGB { rendering_intent: b[0] })
    }
}

/// Interprets the payload of an sRGB chunk.
pub fn parse_srgb_chunk(bytes: &[u8]) -> (r: Result<SRGB, DecodeError>)
    ensures
        r == srgb_parsed(bytes@),
{
    if bytes.len() != 1 {
        Err(DecodeError::Size)
    } else {
        Ok(SRGB { rendering_intent: bytes[0] })
    }
}

} // verus!
