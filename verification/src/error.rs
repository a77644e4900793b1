use vstd::prelude::*;

verus! {

/// Why a stream could not be decoded. Every failure ends the decode: no
/// partial image is ever returned.
#[derive(Debug, Clone, Copy, PartialEq, Eq)]
pub enum DecodeError {
    /// The first eight bytes are not the PNG signature.
    Format,
    /// The input ends inside the signature or inside a chunk.
    TruncatedInput,
    /// The CRC stored with the chunk that starts at byte `offset` of the
    /// input is not the CRC of its type and payload.
    Checksum { ty: [u8; 4], offset: usize },
    /// A payload of fixed size has another length.
    Size,
    /// The header gives a width or a height of zero.
    InvalidDimensions,
    /// The header sets the palette flag without the colour flag.
    InvalidColorType,
    /// The image uses interlacing, a compression or filter method other
    /// than 0, or a bit depth other than 8.
    UnsupportedFeature,
    /// A chunk that the image needs is absent.
    MissingChunk { ty: [u8; 4] },
    /// A scanline begins with a filter type above 4.
    InvalidFilterType { filter: u8 },
    /// The inflated data is shorter than the header's geometry requires.
    TruncatedScanline,
    /// A pixel names a palette entry that the palette does not have.
    PaletteIndex { index: u8 },
    /// The compressed image data is not a valid zlib stream.
    Decompression,
    /// A pixel buffer does not have the length that the header's geometry
    /// gives it.
    LengthMismatch,
}

/// A byte buffer or an error, with the buffer taken by its view.
pub open spec fn bytes_result(r: Result<Vec<u8>, DecodeError>) -> Result<Seq<u8>, DecodeError> {
    match r {
        Ok(v) => Ok(v@),
        Err(e) => Err(e),
    }
}

} // verus!
