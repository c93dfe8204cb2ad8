//! What holds between the encoder and the decoder.
use crate::codec::{
    bgr_bytes, decoded, encoded, file_header, file_header_error, file_size_of, info_header,
    info_header_error, lemma_info_header, padding_of, pixel_data_len, row_len, stored_pixel, stored_pixels, stored_row, stored_rows,
    zeros,
};
use crate::field::{get16, get32};
use crate::image::{Error, Rgb};
use vstd::prelude::*;

verus! {

/// Rows are padded with between zero and three bytes, and a padded row of
/// any width takes a multiple of four bytes.
pub proof fn lemma_padding_law(width: nat)
    ensures
        0 <= padding_of(width as int) <= 3,
        row_len(width as int) % 4 == 0,
{
    let m = (width * 3 as int) % 4;
    assert(width * 3 == 4 * ((width * 3 as int) / 4) + m) by {
        vstd::arithmetic::div_mod::lemma_fundamental_div_mod(width * 3 as int, 4);
    }
}

/// The bytes of a run of pixels: three for each, blue, green, red.
pub proof fn lemma_bgr_bytes(ps: Seq<Rgb>)
    ensures
        bgr_bytes(ps).len() == 3 * ps.len(),
        forall|x: int|
            0 <= x < ps.len() ==> {
                &&& #[trigger] bgr_bytes(ps)[3 * x] == ps[x].b
                &&& bgr_bytes(ps)[3 * x + 1] == ps[x].g
                &&& bgr_bytes(ps)[3 * x + 2] == ps[x].r
            },
    decreases ps.len(),
{
    if ps.len() > 0 {
        lemma_bgr_bytes(ps.drop_last());
    }
}

/// The first `i` stored rows take `i` row lengths, and stored row `j` of
/// them is logical row `height - 1 - j`.
pub proof fn lemma_stored_rows(pixels: Seq<Rgb>, width: int, height: int, i: int)
    requires
        width > 0,
        0 <= i <= height,
        height * width <= pixels.len(),
    ensures
        stored_rows(pixels, width, height, i).len() == i * row_len(width),
        forall|j: int, t: int|
            0 <= j < i && 0 <= t < row_len(width) ==> #[trigger] stored_rows(
                pixels,
                width,
                height,
                i,
            )[j * row_len(width) + t] == stored_row(pixels, width, height - 1 - j)[t],
    decreases i,
{
    if i > 0 {
        lemma_stored_rows(pixels, width, height, i - 1);
        let y = height - i;
        assert(y * width + width <= pixels.len()) by (nonlinear_arith)
            requires
                0 <= y < height,
                height * width <= pixels.len(),
                width > 0,
        ;
        lemma_bgr_bytes(pixels.subrange(y * width, y * width + width));
        let rl = row_len(width);
        assert((i - 1) * rl + rl == i * rl) by (nonlinear_arith);
        assert forall|j: int, t: int| 0 <= j < i && 0 <= t < rl implies #[trigger] stored_rows(
            pixels,
            width,
            height,
            i,
        )[j * rl + t] == stored_row(pixels, width, height - 1 - j)[t] by {
            if j < i - 1 {
                assert(j * rl + t < (i - 1) * rl) by (nonlinear_arith)
                    requires
                        0 <= j < i - 1,
                        0 <= t < rl,
                ;
            } else {
                assert(j * rl == (i - 1) * rl);
            }
        }
    }
}

/// The pixel data that the encoder writes for `height` rows of `width`
/// pixels is as long as the decoder needs, and the decoder reads the pixels
/// back from it.
pub proof fn lemma_stored_pixels(pixels: Seq<Rgb>, width: int, height: int)
    requires
        width > 0,
        height >= 0,
        height * width == pixels.len(),
    ensures
        stored_rows(pixels, width, height, height).len() == pixel_data_len(width, height),
        stored_pixels(stored_rows(pixels, width, height, height), width, height) == pixels,
{
    let w = width;
    let h = height;
    let n = pixels.len() as int;
    let rl = row_len(w);
    let rows = stored_rows(pixels, w, h, h);
    lemma_stored_rows(pixels, w, h, h);
    assert(w * h == n) by (nonlinear_arith)
        requires
            h * w == n,
    ;
    assert forall|k: int| 0 <= k < n implies #[trigger] stored_pixel(rows, w, h, k)
        == pixels[k] by {
        let y = k / w;
        let x = k % w;
        vstd::arithmetic::div_mod::lemma_fundamental_div_mod(k, w);
        assert(0 <= y < h) by (nonlinear_arith)
            requires
                k == w * y + x,
                0 <= x < w,
                0 <= k < h * w,
        ;
        let j = h - 1 - y;
        assert(j * rl + rl <= h * rl) by (nonlinear_arith)
            requires
                0 <= j < h,
                rl >= 0,
        ;
        assert(0 <= j * rl) by (nonlinear_arith)
            requires
                0 <= j,
                rl >= 0,
        ;
        assert(y * w + w <= n) by (nonlinear_arith)
            requires
                y < h,
                h * w == n,
                w > 0,
        ;
        let s = pixels.subrange(y * w, y * w + w);
        lemma_bgr_bytes(s);
        assert(s[x] == pixels[k]);
        let row = stored_row(pixels, w, y);
        assert(row[3 * x] == pixels[k].b);
        assert(row[3 * x + 1] == pixels[k].g);
        assert(row[3 * x + 2] == pixels[k].r);
        assert(rows[j * rl + 3 * x] == row[3 * x]);
        assert(rows[j * rl + (3 * x + 1)] == row[3 * x + 1]);
        assert(rows[j * rl + (3 * x + 2)] == row[3 * x + 2]);
    }
    assert(stored_pixels(rows, w, h) =~= pixels);
}

/// The headers that the encoder writes pass the decoder's checks and give
/// back the width and the height, whatever follows them.
pub proof fn lemma_headers_read_back(file_size: u32, width: u32, height: u32, rest: Seq<u8>)
    ensures
        ({
            let b = file_header(file_size) + info_header(width, height) + rest;
            let info = b.skip(14);
            &&& file_header_error(b) is None
            &&& info_header_error(info) is None
            &&& get32(info, 4) == width
            &&& get32(info, 8) == height
            &&& info.skip(40) == rest
        }),
{
    let ih = info_header(width, height);
    let b = file_header(file_size) + ih + rest;
    let info = b.skip(14);
    lemma_info_header(width, height);
    assert(b[0] == 66 && b[1] == 77);
    assert(forall|k: int| 0 <= k < 40 ==> info[k] == #[trigger] ih[k]);
    assert(get32(info, 0) == get32(ih, 0));
    assert(get32(info, 4) == get32(ih, 4));
    assert(get32(info, 8) == get32(ih, 8));
    assert(get16(info, 12) == get16(ih, 12));
    assert(get16(info, 14) == get16(ih, 14));
    assert(get32(info, 16) == get32(ih, 16));
    assert(info.skip(40) =~= rest);
}

/// Decoding what the encoder wrote for pixels that fill whole rows of a
/// positive width gives back those pixels and that width.
pub proof fn lemma_round_trip(pixels: Seq<Rgb>, width: u32)
    requires
        width > 0,
        pixels.len() as int % (width as int) == 0,
        file_size_of(pixels.len() as int, width as int) <= u32::MAX,
    ensures
        decoded(encoded(pixels, width)) == Ok::<(Seq<Rgb>, u32), Error>((pixels, width)),
{
    let w = width as int;
    let n = pixels.len() as int;
    let h = n / w;
    vstd::arithmetic::div_mod::lemma_fundamental_div_mod(n, w);
    assert(h * w == n);
    assert(h >= 0);
    assert(n <= file_size_of(n, w)) by {
        lemma_padding_law(width as nat);
        assert(0 <= h * padding_of(w)) by (nonlinear_arith)
            requires
                h >= 0,
                padding_of(w) >= 0,
        ;
    }
    let fs = file_size_of(n, w) as u32;
    lemma_headers_read_back(fs, width, h as u32, stored_rows(pixels, w, h, h));
    lemma_stored_pixels(pixels, w, h);
}

} // verus!
