use crate::chunks::PLTE_TYPE;
use crate::error::{bytes_result, DecodeError};
use crate::header::{color_model_of, ChunkIHDR, ColorModel};
use vstd::arithmetic::div_mod::{lemma_div_multiples_vanish, lemma_mod_multiples_basic};
use vstd::prelude::*;

verus! {

/// The number of whole RGB entries that a palette holds.
pub open spec fn palette_entries(palette: Seq<u8>) -> int {
    palette.len() as int / 3
}

/// The palette has all three bytes of the entry that `index` names.
pub open spec fn in_palette(index: u8, palette: Seq<u8>) -> bool {
    index * 3 + 3 <= palette.len()
}

/// The first position from `from` on whose index the palette does not
/// have, or the number of indexes if there is none.
pub open spec fn first_outside_palette(indexes: Seq<u8>, palette: Seq<u8>, from: int) -> int
    decreases indexes.len() - from,
{
    if from >= indexes.len() {
        indexes.len() as int
    } else if !in_palette(indexes[from], palette) {
        from
    } else {
        first_outside_palette(indexes, palette, from + 1)
    }
}

/// The `k`-th byte of an indexed image turned into RGBA: red, green and blue
/// come from the palette entry of pixel `k / 4`, and alpha is 255.
pub open spec fn palette_sample(indexes: Seq<u8>, palette: Seq<u8>, k: int) -> u8 {
    if k % 4 == 3 {
        255
    } else {
        palette[indexes[k / 4] * 3 + k % 4]
    }
}

/// What applying a palette gives: an error naming the first index that the
/// palette does not have, else four bytes for each index.
pub open spec fn palette_applied(indexes: Seq<u8>, palette: Seq<u8>) -> Result<
    Seq<u8>,
    DecodeError,
> {
    let bad = first_outside_palette(indexes, palette, 0);
    if bad < indexes.len() {
        Err(DecodeError::PaletteIndex { index: indexes[bad] })
    } else {
        Ok(Seq::new(4 * indexes.len(), |k: int| palette_sample(indexes, palette, k)))
    }
}

/// `first_outside_palette` finds the first index that the palette lacks:
/// every index before the position it gives is in the palette, and the one
/// at it, if there is one, is not.
pub proof fn lemma_first_outside_palette(indexes: Seq<u8>, palette: Seq<u8>, from: int)
    requires
        0 <= from <= indexes.len(),
    ensures
        from <= first_outside_palette(indexes, palette, from) <= indexes.len(),
        forall|i: int|
            from <= i < first_outside_palette(indexes, palette, from) ==> in_palette(
                #[trigger] indexes[i],
                palette,
            ),
        first_outside_palette(indexes, palette, from) < indexes.len() ==> !in_palette(
            indexes[first_outside_palette(indexes, palette, from)],
            palette,
        ),
    decreases indexes.len() - from,
{
    if from < indexes.len() && in_palette(indexes[from], palette) {
        lemma_first_outside_palette(indexes, palette, from + 1);
    }
}

/// An index that is not below the number of palette entries makes the
/// whole image fail with `PaletteIndex`.
pub proof fn lemma_index_beyond_palette_is_rejected(indexes: Seq<u8>, palette: Seq<u8>, i: int)
    requires
        0 <= i < indexes.len(),
        indexes[i] >= palette_entries(palette),
    ensures
        palette_applied(indexes, palette) matches Err(DecodeError::PaletteIndex { index })
            && index >= palette_entries(palette),
{
    lemma_first_outside_palette(indexes, palette, 0);
    let bad = first_outside_palette(indexes, palette, 0);
    if bad >= indexes.len() {
        assert(in_palette(indexes[i], palette));
    }
}

/// Where every index is below the number of palette entries, applying the
/// palette succeeds.
pub proof fn lemma_indexes_within_palette_are_accepted(indexes: Seq<u8>, palette: Seq<u8>)
    requires
        forall|i: int| 0 <= i < indexes.len() ==> indexes[i] < palette_entries(palette),
    ensures
        palette_applied(indexes, palette) is Ok,
{
    lemma_first_outside_palette(indexes, palette, 0);
}

/// Turns palette indexes into RGBA by looking each one up in the palette's
/// RGB entries. Every pixel comes out opaque.
pub fn apply_palette(indexes: &[u8], palette_bytes: &[u8]) -> (r: Result<Vec<u8>, DecodeError>)
    ensures
        bytes_result(r) == palette_applied(indexes@, palette_bytes@),
        r matches Ok(v) ==> v@.len() == 4 * indexes@.len(),
{
    let ghost idx = indexes@;
    let ghost pal = palette_bytes@;
    let mut out: Vec<u8> = Vec::new();
    let mut i: usize = 0;
    while i < indexes.len()
        invariant
            idx == indexes@,
            pal == palette_bytes@,
            i <= idx.len(),
            out@.len() == 4 * i,
            first_outside_palette(idx, pal, 0) == first_outside_palette(idx, pal, i as int),
            forall|k: int| 0 <= k < out@.len() ==> out@[k] == palette_sample(idx, pal, k),
        decreases indexes.len() - i,
    {
        let b = indexes[i];
        let entry: usize = b as usize * 3;
        if palette_bytes.len() < 3 || entry > palette_bytes.len() - 3 {
            return Err(DecodeError::PaletteIndex { index: b });
        }
        let ghost before = out@;
        out.push(palette_bytes[entry]);
        out.push(palette_bytes[entry + 1]);
        out.push(palette_bytes[entry + 2]);
        out.push(255);
        proof {
            assert forall|k: int| 0 <= k < out@.len() implies out@[k] == palette_sample(
                idx,
                pal,
                k,
            ) by {
                if k < 4 * i {
                    assert(out@[k] == before[k]);
                }
            }
        }
        i = i + 1;
    }
    proof {
        assert(out@ =~= Seq::new(4 * idx.len(), |k: int| palette_sample(idx, pal, k)));
    }
    Ok(out)
}

/// The number of raw channels of a pixel that is not a palette index.
pub open spec fn channel_count(colored: bool, alpha: bool) -> int {
    (if colored {
        3int
    } else {
        1int
    }) + (if alpha {
        1int
    } else {
        0int
    })
}

/// The `k`-th byte of an image turned into RGBA. Red, green and blue are
/// the pixel's three colour channels, or its gray value three times; alpha
/// is the pixel's last channel where it has one, else 255.
pub open spec fn rgba_sample(colored: bool, alpha: bool, pixels: Seq<u8>, k: int) -> u8 {
    let first = (k / 4) * channel_count(colored, alpha);
    if k % 4 < 3 {
        if colored {
            pixels[first + k % 4]
        } else {
            pixels[first]
        }
    } else if alpha {
        pixels[first + channel_count(colored, alpha) - 1]
    } else {
        255
    }
}

/// What turning raw channel bytes into RGBA gives: `LengthMismatch` where
/// the bytes do not make whole pixels, else four bytes for each pixel.
pub open spec fn channels_expanded(colored: bool, alpha: bool, pixels: Seq<u8>) -> Result<
    Seq<u8>,
    DecodeError,
> {
    let ch = channel_count(colored, alpha);
    let n = pixels.len() as int;
    if n % ch != 0 {
        Err(DecodeError::LengthMismatch)
    } else {
        Ok(Seq::new((n / ch * 4) as nat, |k: int| rgba_sample(colored, alpha, pixels, k)))
    }
}

/// Turns the raw channel bytes of a grayscale or truecolor image, with or
/// without alpha, into RGBA.
pub fn expand_channels(pixels: &[u8], colored: bool, alpha: bool) -> (r: Result<
    Vec<u8>,
    DecodeError,
>)
    ensures
        bytes_result(r) == channels_expanded(colored, alpha, pixels@),
        r matches Ok(v) ==> v@.len() == pixels@.len() as int / channel_count(colored, alpha) * 4,
{
    let ghost px = pixels@;
    let ch: usize = (if colored {
        3
    } else {
        1
    }) + (if alpha {
        1
    } else {
        0
    });
    if pixels.len() % ch != 0 {
        return Err(DecodeError::LengthMismatch);
    }
    let n: usize = pixels.len() / ch;
    assert(n * ch == px.len()) by (nonlinear_arith)
        requires
            n == px.len() as int / ch as int,
            px.len() as int % ch as int == 0,
            ch > 0,
    ;
    let mut out: Vec<u8> = Vec::new();
    let mut p: usize = 0;
    let mut first: usize = 0;
    while p < n
        invariant
            px == pixels@,
            ch == channel_count(colored, alpha),
            n * ch == px.len(),
            p <= n,
            first == p * ch,
            out@.len() == 4 * p,
            forall|k: int| 0 <= k < out@.len() ==> out@[k] == rgba_sample(colored, alpha, px, k),
        decreases n - p,
    {
        proof {
            assert((p + 1) * ch == p * ch + ch && (p + 1) * ch <= n * ch) by (nonlinear_arith)
                requires
                    p < n,
                    ch > 0,
            ;
        }
        let gray = pixels[first];
        let ghost before = out@;
        if colored {
            out.push(gray);
            out.push(pixels[first + 1]);
            out.push(pixels[first + 2]);
        } else {
            out.push(gray);
            out.push(gray);
            out.push(gray);
        }
        if alpha {
            out.push(pixels[first + ch - 1]);
        } else {
            out.push(255);
        }
        proof {
            assert forall|k: int| 0 <= k < out@.len() implies out@[k] == rgba_sample(
                colored,
                alpha,
                px,
                k,
            ) by {
                if k < 4 * p {
                    assert(out@[k] == before[k]);
                } else {
                    assert(k / 4 == p);
                }
            }
        }
        first = first + ch;
        p = p + 1;
    }
    proof {
        assert(out@ =~= Seq::new(
            (px.len() as int / ch as int * 4) as nat,
            |k: int| rgba_sample(colored, alpha, px, k),
        ));
    }
    Ok(out)
}

/// A palette chunk's payload, if there is one, as a sequence.
pub open spec fn palette_view(palette: Option<&[u8]>) -> Option<Seq<u8>> {
    match palette {
        Some(p) => Some(p@),
        None => None,
    }
}

/// What resolving raw channel bytes into RGBA gives.
///
/// The checks come in this order: the header's colour type stands for a
/// colour model (`InvalidColorType`); the buffer has `width * height` pixels
/// of that model (`LengthMismatch`); for an indexed image, the palette is
/// there (`MissingChunk` naming PLTE) and has every index
/// (`PaletteIndex`). A grayscale image is supported: its gray value becomes
/// red, green and blue alike.
pub open spec fn resolved(pixels: Seq<u8>, header: ChunkIHDR, palette: Option<Seq<u8>>) -> Result<
    Seq<u8>,
    DecodeError,
> {
    match color_model_of(header.color) {
        None => Err(DecodeError::InvalidColorType),
        Some(model) => {
            if pixels.len() != header.width * header.height * model.channels() {
                Err(DecodeError::LengthMismatch)
            } else {
                match model {
                    ColorModel::Indexed => match palette {
                        None => Err(DecodeError::MissingChunk { ty: PLTE_TYPE }),
                        Some(p) => palette_applied(pixels, p),
                    },
                    ColorModel::Grayscale => channels_expanded(false, false, pixels),
                    ColorModel::GrayscaleAlpha => channels_expanded(false, true, pixels),
                    ColorModel::Truecolor => channels_expanded(true, false, pixels),
                    ColorModel::TruecolorAlpha => channels_expanded(true, true, pixels),
                }
            }
        },
    }
}

/// A resolved image has four bytes for each of the header's pixels, and
/// resolving never fails for want of whole pixels once the buffer's length
/// has been checked.
pub proof fn lemma_resolved_length(pixels: Seq<u8>, header: ChunkIHDR, palette: Option<Seq<u8>>)
    ensures
        resolved(pixels, header, palette) matches Ok(rgba) ==> rgba.len() == header.width
            * header.height * 4,
        color_model_of(header.color) matches Some(model) ==> (resolved(pixels, header, palette)
            == Err::<Seq<u8>, DecodeError>(DecodeError::LengthMismatch) <==> pixels.len()
            != header.width * header.height * model.channels()),
{
    let n = header.width * header.height;
    match color_model_of(header.color) {
        None => {},
        Some(model) => {
            let ch = model.channels();
            if pixels.len() == n * ch {
                lemma_mod_multiples_basic(n, ch);
                lemma_div_multiples_vanish(n, ch);
                assert(n * ch == ch * n) by (nonlinear_arith);
                assert(n * 4 == header.width * header.height * 4);
                match model {
                    ColorModel::Indexed => {
                        assert(pixels.len() == n);
                    },
                    _ => {},
                }
            }
        },
    }
}

/// Turns the reconstructed channel bytes of an image into RGBA, four bytes
/// for each pixel, by the colour model that the header declares.
pub fn resolve(pixels: &[u8], header: &ChunkIHDR, palette: Option<&[u8]>) -> (r: Result<
    Vec<u8>,
    DecodeError,
>)
    ensures
        bytes_result(r) == resolved(pixels@, *header, palette_view(palette)),
        r matches Ok(v) ==> v@.len() == header.width * header.height * 4,
{
    proof {
        lemma_resolved_length(pixels@, *header, palette_view(palette));
    }
    let model = match header.color_model() {
        None => {
            return Err(DecodeError::InvalidColorType);
        },
        Some(m) => m,
    };
    let ch = model.raw_channels();
    proof {
        assert(header.width * header.height <= 0xffff_ffff * 0xffff_ffff) by (nonlinear_arith)
            requires
                header.width <= 0xffff_ffff,
                header.height <= 0xffff_ffff,
        ;
        assert(header.width * header.height * ch <= 0xffff_ffff * 0xffff_ffff * 4)
            by (nonlinear_arith)
            requires
                0 <= header.width * header.height <= 0xffff_ffff * 0xffff_ffff,
                0 <= ch <= 4,
        ;
    }
    let expected: u128 = (header.width as u128) * (header.height as u128) * (ch as u128);
    if pixels.len() as u128 != expected {
        return Err(DecodeError::LengthMismatch);
    }
    match model {
        ColorModel::Indexed => match palette {
            None => Err(DecodeError::MissingChunk { ty: PLTE_TYPE }),
            Some(p) => apply_palette(pixels, p),
        },
        ColorModel::Grayscale => expand_channels(pixels, false, false),
        ColorModel::GrayscaleAlpha => expand_channels(pixels, false, true),
        ColorModel::Truecolor => expand_channels(pixels, true, false),
        ColorModel::TruecolorAlpha => expand_channels(pixels, true, true),
    }
}

} // verus!
