use crate::error::{bytes_result, DecodeError};
use crate::zlib::{inflate_zlib, zlib_inflated};
use vstd::arithmetic::div_mod::{lemma_div_denominator, lemma_fundamental_div_mod_converse};
use vstd::arithmetic::mul::{lemma_mul_is_commutative, lemma_mul_nonnegative, lemma_mul_upper_bound};
use vstd::prelude::*;

verus! {

/// The distance between two integers.
pub open spec fn distance(a: int, b: int) -> int {
    if a >= b {
        a - b
    } else {
        b - a
    }
}

/// The Paeth predictor: of `a` (left), `b` (up) and `c` (up-left), the one
/// nearest to `a + b - c`. Where two are equally near, `a` is taken before
/// `b`, and `b` before `c`.
pub open spec fn paeth(a: int, b: int, c: int) -> int {
    let p = a + b - c;
    if distance(p, a) <= distance(p, b) && distance(p, a) <= distance(p, c) {
        a
    } else if distance(p, b) <= distance(p, c) {
        b
    } else {
        c
    }
}

/// The predictor's result is one of its three arguments, and none of them is
/// nearer to `a + b - c` than it.
pub proof fn lemma_paeth_is_nearest(a: int, b: int, c: int)
    ensures
        paeth(a, b, c) == a || paeth(a, b, c) == b || paeth(a, b, c) == c,
        distance(a + b - c, paeth(a, b, c)) <= distance(a + b - c, a),
        distance(a + b - c, paeth(a, b, c)) <= distance(a + b - c, b),
        distance(a + b - c, paeth(a, b, c)) <= distance(a + b - c, c),
{
}

/// Among equally near candidates the predictor prefers left to up and
/// up-left, and up to up-left.
pub proof fn lemma_paeth_tie_break(a: int, b: int, c: int)
    ensures
        distance(a + b - c, a) <= distance(a + b - c, b) && distance(a + b - c, a) <= distance(
            a + b - c,
            c,
        ) ==> paeth(a, b, c) == a,
        distance(a + b - c, b) < distance(a + b - c, a) && distance(a + b - c, b) <= distance(
            a + b - c,
            c,
        ) ==> paeth(a, b, c) == b,
{
}

/// The Paeth predictor of left `a`, up `b` and up-left `c`.
pub fn paeth_predictor(a: i32, b: i32, c: i32) -> (r: i32)
    ensures
        r == paeth(a as int, b as int, c as int),
{
    let p: i64 = a as i64 + b as i64 - c as i64;
    let pa: i64 = if p >= a as i64 {
        p - a as i64
    } else {
        a as i64 - p
    };
    let pb: i64 = if p >= b as i64 {
        p - b as i64
    } else {
        b as i64 - p
    };
    let pc: i64 = if p >= c as i64 {
        p - c as i64
    } else {
        c as i64 - p
    };
    if pa <= pb && pa <= pc {
        a
    } else if pb <= pc {
        b
    } else {
        c
    }
}

/// What a filter type predicts for a byte from its three reconstructed
/// neighbours: nothing (type 0), the left one (1, Sub), the upper one (2, Up),
/// the floor of the mean of the two (3, Average), or the Paeth choice (4).
pub open spec fn prediction(filter: u8, left: u8, up: u8, up_left: u8) -> int {
    if filter == 1 {
        left as int
    } else if filter == 2 {
        up as int
    } else if filter == 3 {
        (left + up) / 2
    } else if filter == 4 {
        paeth(left as int, up as int, up_left as int)
    } else {
        0
    }
}

/// A filtered byte and its prediction give the reconstructed byte: their sum
/// modulo 256.
pub open spec fn unfiltered(prediction: int, filtered: u8) -> u8 {
    ((prediction + filtered) % 256) as u8
}

/// The prediction of a filter type from a byte's three neighbours.
pub fn predict(filter: u8, left: u8, up: u8, up_left: u8) -> (r: u8)
    ensures
        r == prediction(filter, left, up, up_left),
{
    if filter == 1 {
        left
    } else if filter == 2 {
        up
    } else if filter == 3 {
        ((left as u16 + up as u16) / 2) as u8
    } else if filter == 4 {
        paeth_predictor(left as i32, up as i32, up_left as i32) as u8
    } else {
        0
    }
}

/// Where the sample of channel `component` of the pixel in column `x` of row
/// `y` stands in a row-major buffer of `bpp` channels and `width` columns.
pub open spec fn sample_index(bpp: int, width: int, x: int, y: int, component: int) -> int {
    (x + y * width) * bpp + component
}

/// The sample at `(x, y, component)` of the buffer `v`, and 0 for a pixel
/// left of the first column or above the first row.
pub open spec fn sample_or_zero(
    v: Seq<u8>,
    bpp: int,
    width: int,
    x: int,
    y: int,
    component: int,
) -> u8 {
    if x < 0 || y < 0 {
        0
    } else {
        v[sample_index(bpp, width, x, y, component)]
    }
}

/// Reads a sample of a row-major buffer by column, row and channel. A
/// column or a row below zero stands for a pixel outside the image, which
/// reads as 0 whatever the buffer holds. Any other sample has to lie within
/// the buffer.
pub fn lookup(v: &[u8], bpp: usize, width: u32, x: i64, y: i64, component: usize) -> (r: u8)
    requires
        x < 0 || y < 0 || sample_index(
            bpp as int,
            width as int,
            x as int,
            y as int,
            component as int,
        ) < v.len(),
    ensures
        r == sample_or_zero(v@, bpp as int, width as int, x as int, y as int, component as int),
        x < 0 || y < 0 ==> r == 0,
{
    if x < 0 || y < 0 {
        0
    } else if bpp == 0 {
        assert((x + y * width) * 0 == 0) by (nonlinear_arith);
        v[component]
    } else {
        proof {
            lemma_mul_nonnegative(y as int, width as int);
            lemma_mul_upper_bound(y as int, i64::MAX as int, width as int, u32::MAX as int);
            lemma_mul_nonnegative(x + y * width, bpp as int);
        }
        let pixel: u128 = x as u128 + (y as u128) * (width as u128);
        let index: u128 = pixel * (bpp as u128) + component as u128;
        v[index as usize]
    }
}

/// The length of one row of filtered data: the filter-type byte and the
/// row's samples.
pub open spec fn row_len(bpp: int, width: int) -> int {
    1 + width * bpp
}

/// The filter-type byte that row `y` of the filtered data `d` begins with.
pub open spec fn filter_of_row(d: Seq<u8>, bpp: int, width: int, y: int) -> u8 {
    d[y * row_len(bpp, width)]
}

/// The filtered byte of channel `c` of the pixel in column `x` of row `y`.
pub open spec fn filtered_at(d: Seq<u8>, bpp: int, width: int, x: int, y: int, c: int) -> u8 {
    d[y * row_len(bpp, width) + 1 + x * bpp + c]
}

/// The reconstructed value of channel `c` of the pixel in column `x` of row
/// `y`: the filtered byte plus the prediction that the row's filter type
/// makes from the reconstructed neighbours, modulo 256. Left of the first
/// column and above the first row every value is 0.
pub open spec fn reconstructed_at(d: Seq<u8>, bpp: int, width: int, x: int, y: int, c: int) -> u8
    decreases y + 1, x + 1, 1int,
{
    if x < 0 || y < 0 {
        0
    } else {
        unfiltered(prediction_at(d, bpp, width, x, y, c), filtered_at(d, bpp, width, x, y, c))
    }
}

/// What the filter type of row `y` predicts for channel `c` of the pixel in
/// column `x`, from the reconstructed values to the left, above, and above
/// to the left.
pub open spec fn prediction_at(d: Seq<u8>, bpp: int, width: int, x: int, y: int, c: int) -> int
    decreases y + 1, x + 1, 0int,
{
    if x < 0 || y < 0 {
        0
    } else {
        prediction(
            filter_of_row(d, bpp, width, y),
            reconstructed_at(d, bpp, width, x - 1, y, c),
            reconstructed_at(d, bpp, width, x, y - 1, c),
            reconstructed_at(d, bpp, width, x - 1, y - 1, c),
        )
    }
}

/// The `k`-th byte of the reconstructed image: rows follow one another,
/// pixels within a row, channels within a pixel.
pub open spec fn reconstructed_sample(d: Seq<u8>, bpp: int, width: int, k: int) -> u8 {
    reconstructed_at(d, bpp, width, (k / bpp) % width, k / (width * bpp), k % bpp)
}

/// The reconstructed image of `height` rows, row-major.
pub open spec fn reconstructed(d: Seq<u8>, bpp: int, width: int, height: int) -> Seq<u8> {
    Seq::new((width * height * bpp) as nat, |k: int| reconstructed_sample(d, bpp, width, k))
}

/// The first row from `from` on whose filter type is above 4, or `height`
/// if there is none below `height`.
pub open spec fn first_invalid_row(d: Seq<u8>, bpp: int, width: int, from: int, height: int) -> int
    decreases height - from,
{
    if from >= height {
        height
    } else if filter_of_row(d, bpp, width, from) > 4 {
        from
    } else {
        first_invalid_row(d, bpp, width, from + 1, height)
    }
}

/// What reconstruction makes of the inflated data `d`: an error if `d` is
/// shorter than `height` rows, else an error naming the filter type of the
/// first row that has none of the five, else the reconstructed image.
/// Bytes beyond the last row are ignored.
pub open spec fn reconstruction(d: Seq<u8>, bpp: int, width: int, height: int) -> Result<
    Seq<u8>,
    DecodeError,
> {
    let bad = first_invalid_row(d, bpp, width, 0, height);
    if d.len() < height * row_len(bpp, width) {
        Err(DecodeError::TruncatedScanline)
    } else if bad < height {
        Err(DecodeError::InvalidFilterType { filter: filter_of_row(d, bpp, width, bad) })
    } else {
        Ok(reconstructed(d, bpp, width, height))
    }
}

/// `first_invalid_row` finds the first row with an unknown filter type:
/// every row before the one it gives has one of the five filter types, and
/// the row it gives, if it is a row of the image, has none of them.
pub proof fn lemma_first_invalid_row(d: Seq<u8>, bpp: int, width: int, from: int, height: int)
    requires
        0 <= from <= height,
    ensures
        from <= first_invalid_row(d, bpp, width, from, height) <= height,
        forall|y: int|
            from <= y < first_invalid_row(d, bpp, width, from, height) ==> #[trigger] filter_of_row(
                d,
                bpp,
                width,
                y,
            ) <= 4,
        first_invalid_row(d, bpp, width, from, height) < height ==> filter_of_row(
            d,
            bpp,
            width,
            first_invalid_row(d, bpp, width, from, height),
        ) > 4,
    decreases height - from,
{
    if from < height && filter_of_row(d, bpp, width, from) <= 4 {
        lemma_first_invalid_row(d, bpp, width, from + 1, height);
    }
}

/// Reconstruction succeeds exactly where the data holds all the rows and
/// every row begins with one of the five filter types.
pub proof fn lemma_reconstruction_succeeds(d: Seq<u8>, bpp: int, width: int, height: int)
    requires
        0 <= height,
    ensures
        reconstruction(d, bpp, width, height) is Ok <==> d.len() >= height * row_len(bpp, width)
            && forall|y: int| 0 <= y < height ==> #[trigger] filter_of_row(d, bpp, width, y) <= 4,
{
    lemma_first_invalid_row(d, bpp, width, 0, height);
}

/// At the edges a prediction does not depend on what the data holds: the
/// Sub filter predicts 0 in the first column, and the Up filter predicts 0
/// in the first row, so that the reconstructed byte is the filtered byte
/// itself.
pub proof fn lemma_prediction_at_edges(d: Seq<u8>, bpp: int, width: int, x: int, y: int, c: int)
    requires
        0 <= x,
        0 <= y,
    ensures
        x == 0 && filter_of_row(d, bpp, width, y) == 1 ==> prediction_at(d, bpp, width, x, y, c)
            == 0 && reconstructed_at(d, bpp, width, x, y, c) == filtered_at(
            d,
            bpp,
            width,
            x,
            y,
            c,
        ),
        y == 0 && filter_of_row(d, bpp, width, y) == 2 ==> prediction_at(d, bpp, width, x, y, c)
            == 0 && reconstructed_at(d, bpp, width, x, y, c) == filtered_at(
            d,
            bpp,
            width,
            x,
            y,
            c,
        ),
{
    reveal_with_fuel(reconstructed_at, 2);
}

/// A reconstructed image has as many bytes as the geometry says.
pub proof fn lemma_reconstruction_length(d: Seq<u8>, bpp: int, width: int, height: int)
    requires
        0 <= bpp,
        0 <= width,
        0 <= height,
    ensures
        reconstruction(d, bpp, width, height) matches Ok(pixels) ==> pixels.len() == width * height
            * bpp,
{
    assert(width * height * bpp >= 0) by (nonlinear_arith)
        requires
            0 <= bpp,
            0 <= width,
            0 <= height,
    ;
}

/// A sample's place in the buffer, counted by rows of `width * bpp` bytes.
proof fn lemma_sample_index_by_rows(bpp: int, width: int, x: int, y: int, c: int)
    ensures
        sample_index(bpp, width, x, y, c) == y * (width * bpp) + x * bpp + c,
{
    assert((x + y * width) * bpp == y * (width * bpp) + x * bpp) by (nonlinear_arith);
}

/// The place of a sample in the buffer determines its column, row and
/// channel.
pub proof fn lemma_sample_coordinates(bpp: int, width: int, x: int, y: int, c: int)
    requires
        0 <= c < bpp,
        0 <= x < width,
        0 <= y,
    ensures
        0 <= sample_index(bpp, width, x, y, c),
        sample_index(bpp, width, x, y, c) % bpp == c,
        (sample_index(bpp, width, x, y, c) / bpp) % width == x,
        sample_index(bpp, width, x, y, c) / (width * bpp) == y,
{
    let k = sample_index(bpp, width, x, y, c);
    let pixel = x + y * width;
    lemma_mul_nonnegative(y, width);
    lemma_mul_nonnegative(pixel, bpp);
    lemma_fundamental_div_mod_converse(k, bpp, pixel, c);
    lemma_fundamental_div_mod_converse(pixel, width, y, x);
    lemma_div_denominator(k, bpp, width);
    lemma_mul_is_commutative(bpp, width);
}

/// The reconstructed image holds, at each sample's place, the value that
/// `reconstructed_at` gives for its column, row and channel.
pub proof fn lemma_reconstructed_holds_samples(
    d: Seq<u8>,
    bpp: int,
    width: int,
    height: int,
    x: int,
    y: int,
    c: int,
)
    requires
        0 <= c < bpp,
        0 <= x < width,
        0 <= y < height,
    ensures
        0 <= sample_index(bpp, width, x, y, c) < reconstructed(d, bpp, width, height).len(),
        reconstructed(d, bpp, width, height)[sample_index(bpp, width, x, y, c)]
            == reconstructed_at(d, bpp, width, x, y, c),
{
    lemma_sample_coordinates(bpp, width, x, y, c);
    lemma_sample_index_by_rows(bpp, width, x, y, c);
    assert(y * (width * bpp) + x * bpp + c < width * height * bpp) by (nonlinear_arith)
        requires
            0 <= c < bpp,
            0 <= x < width,
            0 <= y < height,
    ;
}

/// Undoes the scanline filters on inflated image data.
///
/// `decompressed` holds `height` rows, each a filter-type byte followed by
/// `width * bpp` filtered bytes. The result is the image's raw channel bytes,
/// row-major, `width * height * bpp` of them.
pub fn reconstruct(decompressed: &[u8], bpp: usize, width: u32, height: u32) -> (r: Result<
    Vec<u8>,
    DecodeError,
>)
    ensures
        bytes_result(r) == reconstruction(decompressed@, bpp as int, width as int, height as int),
{
    let ghost d = decompressed@;
    let ghost b = bpp as int;
    let ghost w = width as int;
    let ghost h = height as int;
    let mut out: Vec<u8> = Vec::new();
    if height == 0 {
        proof {
            assert(w * h * b == 0) by (nonlinear_arith)
                requires
                    h == 0,
            ;
            assert(h * row_len(b, w) == 0) by (nonlinear_arith)
                requires
                    h == 0,
            ;
            assert(out@ =~= reconstructed(d, b, w, h));
        }
        return Ok(out);
    }
    proof {
        lemma_mul_nonnegative(w, b);
        assert(h * row_len(b, w) >= row_len(b, w)) by (nonlinear_arith)
            requires
                h >= 1,
                row_len(b, w) >= 0,
        ;
    }
    let available = decompressed.len();
    let stride = match (width as usize).checked_mul(bpp) {
        Some(s) => s,
        None => {
            assert(available < h * row_len(b, w));
            return Err(DecodeError::TruncatedScanline);
        },
    };
    let row = match stride.checked_add(1) {
        Some(n) => n,
        None => {
            assert(available < h * row_len(b, w));
            return Err(DecodeError::TruncatedScanline);
        },
    };
    let expected = match row.checked_mul(height as usize) {
        Some(n) => n,
        None => {
            proof {
                lemma_mul_is_commutative(row as int, h);
            }
            return Err(DecodeError::TruncatedScanline);
        },
    };
    proof {
        lemma_mul_is_commutative(row as int, h);
    }
    if available < expected {
        return Err(DecodeError::TruncatedScanline);
    }
    let mut y: u32 = 0;
    let mut in_pos: usize = 0;
    while y < height
        invariant
            b == bpp,
            w == width,
            h == height,
            d == decompressed@,
            stride == w * b,
            row == row_len(b, w),
            h * row <= d.len(),
            y <= height,
            in_pos == y * row,
            out@.len() == y * stride,
            first_invalid_row(d, b, w, 0, h) == first_invalid_row(d, b, w, y as int, h),
            forall|k: int| 0 <= k < out@.len() ==> out@[k] == reconstructed_sample(d, b, w, k),
        decreases height - y,
    {
        proof {
            assert((y + 1) * row <= h * row && (y + 1) * row == y * row + row && (y + 1) * stride
                == y * stride + stride) by (nonlinear_arith)
                requires
                    0 <= y < h,
                    row >= 0,
            ;
        }
        let filter = decompressed[in_pos];
        if filter > 4 {
            return Err(DecodeError::InvalidFilterType { filter });
        }
        in_pos = in_pos + 1;
        let mut x: u32 = 0;
        while x < width
            invariant
                b == bpp,
                w == width,
                h == height,
                d == decompressed@,
                stride == w * b,
                row == row_len(b, w),
                y < height,
                (y + 1) * row <= d.len(),
                (y + 1) * row == y * row + row,
                x <= width,
                in_pos == y * row + 1 + x * b,
                out@.len() == y * stride + x * b,
                filter == filter_of_row(d, b, w, y as int),
                forall|k: int| 0 <= k < out@.len() ==> out@[k] == reconstructed_sample(d, b, w, k),
            decreases width - x,
        {
            proof {
                assert((x + 1) * b <= w * b && (x + 1) * b == x * b + b) by (nonlinear_arith)
                    requires
                        0 <= x < w,
                        b >= 0,
                ;
            }
            let mut c: usize = 0;
            while c < bpp
                invariant
                    b == bpp,
                    w == width,
                    h == height,
                    d == decompressed@,
                    stride == w * b,
                    row == row_len(b, w),
                    y < height,
                    x < width,
                    (y + 1) * row <= d.len(),
                    (y + 1) * row == y * row + row,
                    (x + 1) * b <= w * b,
                    (x + 1) * b == x * b + b,
                    c <= bpp,
                    in_pos == y * row + 1 + x * b + c,
                    out@.len() == y * stride + x * b + c,
                    filter == filter_of_row(d, b, w, y as int),
                    forall|k: int|
                        0 <= k < out@.len() ==> out@[k] == reconstructed_sample(d, b, w, k),
                decreases bpp - c,
            {
                let ghost k = out@.len() as int;
                let ghost ci = c as int;
                let ghost xi = x as int;
                let ghost yi = y as int;
                proof {
                    lemma_sample_index_by_rows(b, w, xi, yi, ci);
                    lemma_sample_coordinates(b, w, xi, yi, ci);
                    lemma_sample_index_by_rows(b, w, xi - 1, yi, ci);
                    lemma_sample_index_by_rows(b, w, xi, yi - 1, ci);
                    lemma_sample_index_by_rows(b, w, xi - 1, yi - 1, ci);
                    assert((xi - 1) * b == xi * b - b && (yi - 1) * (w * b) == yi * (w * b) - w
                        * b) by (nonlinear_arith);
                    assert(xi >= 1 ==> xi * b >= b) by (nonlinear_arith)
                        requires
                            b >= 0,
                    ;
                    assert(yi >= 1 ==> yi * (w * b) >= w * b) by (nonlinear_arith)
                        requires
                            w * b >= 0,
                    ;
                    if xi >= 1 {
                        lemma_sample_coordinates(b, w, xi - 1, yi, ci);
                        assert(out@[k - b] == reconstructed_sample(d, b, w, k - b));
                    }
                    if yi >= 1 {
                        lemma_sample_coordinates(b, w, xi, yi - 1, ci);
                        assert(out@[k - stride] == reconstructed_sample(d, b, w, k - stride));
                    }
                    if xi >= 1 && yi >= 1 {
                        lemma_sample_coordinates(b, w, xi - 1, yi - 1, ci);
                        assert(out@[k - stride - b] == reconstructed_sample(
                            d,
                            b,
                            w,
                            k - stride - b,
                        ));
                    }
                }
                let left = lookup(out.as_slice(), bpp, width, x as i64 - 1, y as i64, c);
                let up = lookup(out.as_slice(), bpp, width, x as i64, y as i64 - 1, c);
                let up_left = lookup(out.as_slice(), bpp, width, x as i64 - 1, y as i64 - 1, c);
                let predicted = predict(filter, left, up, up_left);
                let value = ((predicted as u16 + decompressed[in_pos] as u16) % 256) as u8;
                proof {
                    assert(left == reconstructed_at(d, b, w, xi - 1, yi, ci));
                    assert(up == reconstructed_at(d, b, w, xi, yi - 1, ci));
                    assert(up_left == reconstructed_at(d, b, w, xi - 1, yi - 1, ci));
                    assert(predicted == prediction_at(d, b, w, xi, yi, ci));
                    assert(value == reconstructed_sample(d, b, w, k));
                }
                out.push(value);
                in_pos = in_pos + 1;
                c = c + 1;
            }
            x = x + 1;
        }
        y = y + 1;
    }
    proof {
        assert(w * h * b == h * (w * b)) by (nonlinear_arith);
        assert(out@ =~= reconstructed(d, b, w, h));
    }
    Ok(out)
}

/// What `idat_to_channels` makes of compressed image data: a decompression
/// error where the zlib decoder reports one, else the reconstruction of what
/// it inflated.
pub open spec fn channels_of_idat(
    inflated: Option<Seq<u8>>,
    bpp: int,
    width: int,
    height: int,
) -> Result<Seq<u8>, DecodeError> {
    match inflated {
        None => Err(DecodeError::Decompression),
        Some(d) => reconstruction(d, bpp, width, height),
    }
}

/// Inflates the concatenated IDAT payloads and undoes the scanline filters.
pub fn idat_to_channels(compressed: &[u8], bpp: usize, width: u32, height: u32) -> (r: Result<
    Vec<u8>,
    DecodeError,
>)
    ensures
        bytes_result(r) == channels_of_idat(
            zlib_inflated(compressed@),
            bpp as int,
            width as int,
            height as int,
        ),
{
    match inflate_zlib(compressed) {
        None => Err(DecodeError::Decompression),
        Some(bytes) => reconstruct(bytes.as_slice(), bpp, width, height),
    }
}

} // verus!
