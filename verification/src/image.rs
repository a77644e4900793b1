use crate::checksum::crc32_ieee;
use crate::chunks::{
    chunk_at, chunk_starts_at, chunk_views, differ_in_payload_at,
    lemma_altered_payload_is_rejected, png_read, read_png, ChunkRaw, ChunkView, Png, IDAT_TYPE,
    IHDR_TYPE, PLTE_TYPE,
};
use crate::color::{lemma_resolved_length, palette_view, resolve, resolved};
use crate::error::{bytes_result, DecodeError};
use crate::header::{color_model_of, ihdr_parsed, parse_ihdr_chunk, ChunkIHDR, ColorModel};
use crate::scanline::{lemma_reconstruction_length, reconstruct, reconstruction};
use crate::zlib::{inflate_zlib, zlib_inflated};
use vstd::prelude::*;

verus! {

/// The only bit depth that is decoded. An image of any other depth is
/// refused with `UnsupportedFeature`.
pub const SUPPORTED_DEPTH: u8 = 8;

/// The position of the last chunk of type `name` among the first `n`
/// chunks, or -1 if none of them has that type.
pub open spec fn last_of_type(chunks: Seq<ChunkView>, name: [u8; 4], n: int) -> int
    decreases n,
{
    if n <= 0 {
        -1
    } else if chunks[n - 1].ty == name {
        n - 1
    } else {
        last_of_type(chunks, name, n - 1)
    }
}

/// `last_of_type` gives -1 exactly where no chunk has the type, and else
/// the place of a chunk of that type after which none has it.
pub proof fn lemma_last_of_type(chunks: Seq<ChunkView>, name: [u8; 4], n: int)
    requires
        0 <= n <= chunks.len(),
    ensures
        -1 <= last_of_type(chunks, name, n) < n,
        last_of_type(chunks, name, n) >= 0 ==> chunks[last_of_type(chunks, name, n)].ty == name,
        forall|i: int|
            last_of_type(chunks, name, n) < i < n ==> (#[trigger] chunks[i]).ty != name,
    decreases n,
{
    if n > 0 && chunks[n - 1].ty != name {
        lemma_last_of_type(chunks, name, n - 1);
    }
}

/// The payloads of the IDAT chunks among the first `n` chunks, one after
/// another in stream order.
pub open spec fn idat_data(chunks: Seq<ChunkView>, n: int) -> Seq<u8>
    decreases n,
{
    if n <= 0 {
        Seq::empty()
    } else if chunks[n - 1].ty == IDAT_TYPE {
        idat_data(chunks, n - 1) + chunks[n - 1].data
    } else {
        idat_data(chunks, n - 1)
    }
}

/// The compressed image data of a stream: what its IDAT chunks hold, joined.
#[derive(Debug)]
pub struct IDAT {
    pub data: Vec<u8>,
}

/// Whether two chunk types are the same.
pub fn same_type(a: &[u8; 4], b: &[u8; 4]) -> (r: bool)
    ensures
        r == (*a == *b),
{
    let r = a[0] == b[0] && a[1] == b[1] && a[2] == b[2] && a[3] == b[3];
    assert(r == (*a =~= *b));
    r
}

/// The chunk of type `name`, or `MissingChunk` naming it. Where the stream
/// holds several chunks of the type, the last one counts.
pub fn chunk_or_err<'a>(chunks: &'a [ChunkRaw], name: &[u8; 4]) -> (r: Result<
    &'a ChunkRaw,
    DecodeError,
>)
    ensures
        match r {
            Ok(c) => {
                let i = last_of_type(chunk_views(chunks@), *name, chunks@.len() as int);
                0 <= i < chunks@.len() && *c == chunks@[i]
            },
            Err(e) => last_of_type(chunk_views(chunks@), *name, chunks@.len() as int) < 0 && e
                == (DecodeError::MissingChunk { ty: *name }),
        },
{
    let ghost views = chunk_views(chunks@);
    let mut n: usize = chunks.len();
    while n > 0
        invariant
            n <= chunks@.len(),
            views == chunk_views(chunks@),
            last_of_type(views, *name, chunks@.len() as int) == last_of_type(views, *name, n as int),
        decreases n,
    {
        if same_type(&chunks[n - 1].ty, name) {
            return Ok(&chunks[n - 1]);
        }
        n = n - 1;
    }
    Err(DecodeError::MissingChunk { ty: *name })
}

/// Joins the payloads of all IDAT chunks in stream order, or reports that
/// the stream has none.
pub fn collect_idat(chunks: &[ChunkRaw]) -> (r: Result<IDAT, DecodeError>)
    ensures
        match r {
            Ok(idat) => last_of_type(chunk_views(chunks@), IDAT_TYPE, chunks@.len() as int) >= 0
                && idat.data@ == idat_data(chunk_views(chunks@), chunks@.len() as int),
            Err(e) => last_of_type(chunk_views(chunks@), IDAT_TYPE, chunks@.len() as int) < 0 && e
                == (DecodeError::MissingChunk { ty: IDAT_TYPE }),
        },
{
    let ghost views = chunk_views(chunks@);
    let mut data: Vec<u8> = Vec::new();
    let mut found = false;
    let mut i: usize = 0;
    while i < chunks.len()
        invariant
            i <= chunks@.len(),
            views == chunk_views(chunks@),
            data@ == idat_data(views, i as int),
            found == (last_of_type(views, IDAT_TYPE, i as int) >= 0),
        decreases chunks.len() - i,
    {
        if same_type(&chunks[i].ty, &IDAT_TYPE) {
            let ghost before = data@;
            data.extend_from_slice(chunks[i].data.as_slice());
            assert(data@ =~= before + chunks@[i as int].data@);
            found = true;
        }
        i = i + 1;
    }
    if found {
        Ok(IDAT { data })
    } else {
        Err(DecodeError::MissingChunk { ty: IDAT_TYPE })
    }
}

/// The header of a stream: what its IHDR chunk spells, or `MissingChunk`
/// where it has none.
pub open spec fn header_of(chunks: Seq<ChunkView>) -> Result<ChunkIHDR, DecodeError> {
    let i = last_of_type(chunks, IHDR_TYPE, chunks.len() as int);
    if i < 0 {
        Err(DecodeError::MissingChunk { ty: IHDR_TYPE })
    } else {
        ihdr_parsed(chunks[i].data)
    }
}

/// The palette of a stream, if it has a PLTE chunk.
pub open spec fn palette_of(chunks: Seq<ChunkView>) -> Option<Seq<u8>> {
    let i = last_of_type(chunks, PLTE_TYPE, chunks.len() as int);
    if i < 0 {
        None
    } else {
        Some(chunks[i].data)
    }
}

/// What decoding makes of inflated image data under a header: the header's
/// colour type must stand for a colour model (`InvalidColorType`) and its
/// depth be 8 (`UnsupportedFeature`); then the scanlines are reconstructed
/// and the pixels resolved into RGBA.
pub open spec fn inflated_decoded(
    header: ChunkIHDR,
    inflated: Seq<u8>,
    palette: Option<Seq<u8>>,
) -> Result<Seq<u8>, DecodeError> {
    match color_model_of(header.color) {
        None => Err(DecodeError::InvalidColorType),
        Some(model) => {
            if header.depth != SUPPORTED_DEPTH {
                Err(DecodeError::UnsupportedFeature)
            } else {
                match reconstruction(
                    inflated,
                    model.channels(),
                    header.width as int,
                    header.height as int,
                ) {
                    Err(e) => Err(e),
                    Ok(pixels) => resolved(pixels, header, palette),
                }
            }
        },
    }
}

/// A decoded image has four bytes for each pixel of the header, and
/// decoding never ends in `LengthMismatch`: what reconstruction hands to the
/// colour stage always has the length that the header's geometry gives it.
pub proof fn lemma_inflated_decoded_length(
    header: ChunkIHDR,
    inflated: Seq<u8>,
    palette: Option<Seq<u8>>,
)
    ensures
        inflated_decoded(header, inflated, palette) matches Ok(rgba) ==> rgba.len() == header.width
            * header.height * 4,
        inflated_decoded(header, inflated, palette) != Err::<Seq<u8>, DecodeError>(
            DecodeError::LengthMismatch,
        ),
{
    match color_model_of(header.color) {
        None => {},
        Some(model) => {
            match reconstruction(
                inflated,
                model.channels(),
                header.width as int,
                header.height as int,
            ) {
                Err(e) => {},
                Ok(pixels) => {
                    lemma_resolved_length(pixels, header, palette);
                },
            }
        },
    }
}

/// Decodes inflated image data: undoes the scanline filters and resolves
/// the pixels into RGBA by the header's colour model.
pub fn decode_inflated(header: &ChunkIHDR, inflated: &[u8], palette: Option<&[u8]>) -> (r: Result<
    Vec<u8>,
    DecodeError,
>)
    ensures
        bytes_result(r) == inflated_decoded(*header, inflated@, palette_view(palette)),
        r matches Ok(v) ==> v@.len() == header.width * header.height * 4,
{
    let model = match header.color_model() {
        None => {
            return Err(DecodeError::InvalidColorType);
        },
        Some(m) => m,
    };
    if header.depth != SUPPORTED_DEPTH {
        return Err(DecodeError::UnsupportedFeature);
    }
    match reconstruct(inflated, model.raw_channels(), header.width, header.height) {
        Err(e) => Err(e),
        Ok(pixels) => resolve(pixels.as_slice(), header, palette),
    }
}

/// What decoding makes of a chunk table, stage by stage. The first failure
/// is the result:
/// the IHDR chunk is there (`MissingChunk`) and spells an acceptable header
/// (the errors of `ihdr_parsed`) of depth 8 (`UnsupportedFeature`); there is
/// an IDAT chunk (`MissingChunk`); the joined IDAT payloads inflate
/// (`Decompression`); and what they inflate to decodes under the header and
/// the palette, if any.
pub open spec fn png_decoded(chunks: Seq<ChunkView>) -> Result<Seq<u8>, DecodeError> {
    match header_of(chunks) {
        Err(e) => Err(e),
        Ok(header) => {
            if header.depth != SUPPORTED_DEPTH {
                Err(DecodeError::UnsupportedFeature)
            } else if last_of_type(chunks, IDAT_TYPE, chunks.len() as int) < 0 {
                Err(DecodeError::MissingChunk { ty: IDAT_TYPE })
            } else {
                match zlib_inflated(idat_data(chunks, chunks.len() as int)) {
                    None => Err(DecodeError::Decompression),
                    Some(inflated) => inflated_decoded(header, inflated, palette_of(chunks)),
                }
            }
        },
    }
}

/// Decodes the image of a chunk table into RGBA: four bytes for each pixel,
/// rows from the top, pixels from the left.
pub fn png_to_rgba(png: &Png) -> (r: Result<Vec<u8>, DecodeError>)
    ensures
        bytes_result(r) == png_decoded(png@),
        r matches Ok(v) ==> header_of(png@) matches Ok(h) && v@.len() == h.width * h.height * 4,
{
    let ghost views = png@;
    let chunks = png.chunks.as_slice();
    let header = match chunk_or_err(chunks, &IHDR_TYPE) {
        Err(e) => {
            return Err(e);
        },
        Ok(c) => match parse_ihdr_chunk(c.data.as_slice()) {
            Err(e) => {
                return Err(e);
            },
            Ok(h) => h,
        },
    };
    if header.depth != SUPPORTED_DEPTH {
        return Err(DecodeError::UnsupportedFeature);
    }
    let idat = match collect_idat(chunks) {
        Err(e) => {
            return Err(e);
        },
        Ok(d) => d,
    };
    let inflated = match inflate_zlib(idat.data.as_slice()) {
        None => {
            return Err(DecodeError::Decompression);
        },
        Some(bytes) => bytes,
    };
    match chunk_or_err(chunks, &PLTE_TYPE) {
        Err(_) => decode_inflated(&header, inflated.as_slice(), None),
        Ok(plte) => decode_inflated(&header, inflated.as_slice(), Some(plte.data.as_slice())),
    }
}

/// What decoding makes of a PNG stream: the error of reading it, or what
/// decoding its chunk table gives.
pub open spec fn decoded(s: Seq<u8>) -> Result<Seq<u8>, DecodeError> {
    match png_read(s) {
        Err(e) => Err(e),
        Ok(chunks) => png_decoded(chunks),
    }
}

/// Decodes a PNG stream into RGBA.
pub fn decode(bytes: &[u8]) -> (r: Result<Vec<u8>, DecodeError>)
    ensures
        bytes_result(r) == decoded(bytes@),
{
    match read_png(bytes) {
        Err(e) => Err(e),
        Ok(png) => png_to_rgba(&png),
    }
}

/// A stream without a header chunk, or with an acceptable header of depth 8
/// and no image data, fails with `MissingChunk` naming the chunk that is
/// not there.
pub proof fn lemma_missing_mandatory_chunk(chunks: Seq<ChunkView>)
    ensures
        last_of_type(chunks, IHDR_TYPE, chunks.len() as int) < 0 ==> png_decoded(chunks) == Err::<
            Seq<u8>,
            DecodeError,
        >(DecodeError::MissingChunk { ty: IHDR_TYPE }),
        (header_of(chunks) matches Ok(h) && h.depth == SUPPORTED_DEPTH) && last_of_type(
            chunks,
            IDAT_TYPE,
            chunks.len() as int,
        ) < 0 ==> png_decoded(chunks) == Err::<Seq<u8>, DecodeError>(
            DecodeError::MissingChunk { ty: IDAT_TYPE },
        ),
{
}

/// An indexed image without a palette fails with `MissingChunk` naming
/// PLTE, where the stream is sound in everything else: its header is
/// accepted, and its image data inflates to scanlines that reconstruct.
pub proof fn lemma_indexed_without_palette(chunks: Seq<ChunkView>, inflated: Seq<u8>)
    requires
        header_of(chunks) matches Ok(h) && h.depth == SUPPORTED_DEPTH && color_model_of(h.color)
            == Some(ColorModel::Indexed) && reconstruction(
            inflated,
            1,
            h.width as int,
            h.height as int,
        ) is Ok,
        last_of_type(chunks, IDAT_TYPE, chunks.len() as int) >= 0,
        zlib_inflated(idat_data(chunks, chunks.len() as int)) == Some(inflated),
        last_of_type(chunks, PLTE_TYPE, chunks.len() as int) < 0,
    ensures
        png_decoded(chunks) == Err::<Seq<u8>, DecodeError>(
            DecodeError::MissingChunk { ty: PLTE_TYPE },
        ),
{
    let h = header_of(chunks)->Ok_0;
    lemma_reconstruction_length(inflated, 1, h.width as int, h.height as int);
}

/// Decoding a chunk table never ends in `LengthMismatch`, and an image that
/// it gives has four bytes for each pixel of the header.
pub proof fn lemma_png_decoded_length(chunks: Seq<ChunkView>)
    ensures
        png_decoded(chunks) != Err::<Seq<u8>, DecodeError>(DecodeError::LengthMismatch),
        png_decoded(chunks) matches Ok(rgba) ==> header_of(chunks) matches Ok(h) && rgba.len()
            == h.width * h.height * 4,
{
    match header_of(chunks) {
        Err(e) => {},
        Ok(h) => {
            match zlib_inflated(idat_data(chunks, chunks.len() as int)) {
                None => {},
                Some(inflated) => {
                    lemma_inflated_decoded_length(h, inflated, palette_of(chunks));
                },
            }
        },
    }
}

/// Decoding a stream whose chunk payload was altered fails with `Checksum`
/// for that chunk, under the conditions of
/// `lemma_altered_payload_is_rejected`.
pub proof fn lemma_altered_payload_fails_decoding(s: Seq<u8>, t: Seq<u8>, pos: int)
    requires
        png_read(s) is Ok,
        8 <= pos < s.len(),
        chunk_starts_at(s, 8, pos),
        differ_in_payload_at(s, t, pos),
        crc32_ieee(chunk_at(t, pos).ty@ + chunk_at(t, pos).data) != crc32_ieee(
            chunk_at(s, pos).ty@ + chunk_at(s, pos).data,
        ),
    ensures
        decoded(t) == Err::<Seq<u8>, DecodeError>(
            DecodeError::Checksum { ty: chunk_at(s, pos).ty, offset: pos as usize },
        ),
{
    lemma_altered_payload_is_rejected(s, t, pos);
}

} // verus!
