//! The BMP layout: a 14-byte file header, a 40-byte info header, then the
//! pixel rows bottom row first, each pixel as blue, green, red, each row
//! padded with zero bytes to a multiple of four.
use crate::field::{
    get16, get32, le16, le32, lemma_get16_le16, lemma_get32_le32, read_u16, read_u32, read_u8, write_u16, write_u32, write_u8,
};
use crate::image::{Error, Rgb, RgbImage};
use vstd::prelude::*;

verus! {

/// Bytes of the file header and the info header together.
pub const DATA_OFFSET: u32 = 54;

/// Zero bytes after each row of `width` pixels.
pub open spec fn padding_of(width: int) -> int {
    (4 - (width * 3) % 4) % 4
}

/// Bytes of one stored row of `width` pixels, padding included.
pub open spec fn row_len(width: int) -> int {
    width * 3 + padding_of(width)
}

/// The value of the file-size field for `count` pixels, `width` to a row.
pub open spec fn file_size_of(count: int, width: int) -> int {
    DATA_OFFSET + (count / width) * padding_of(width) + count * 3
}

/// The 14-byte file header, as the encoder writes it.
pub open spec fn file_header(file_size: u32) -> Seq<u8> {
    seq![66u8, 77u8] + le32(file_size) + le32(0) + le32(54)
}

/// The 40-byte info header, as the encoder writes it.
pub open spec fn info_header(width: u32, height: u32) -> Seq<u8> {
    le32(40) + le32(width) + le32(height) + le16(1) + le16(24) + le32(0) + le32(0) + le32(width)
        + le32(height) + le32(16777216) + le32(0)
}

/// The bytes of a sequence of pixels, blue, green, red for each.
pub open spec fn bgr_bytes(ps: Seq<Rgb>) -> Seq<u8>
    decreases ps.len(),
{
    if ps.len() == 0 {
        seq![]
    } else {
        bgr_bytes(ps.drop_last()) + seq![ps.last().b, ps.last().g, ps.last().r]
    }
}

/// `n` zero bytes.
pub open spec fn zeros(n: int) -> Seq<u8> {
    Seq::new(n as nat, |_i: int| 0u8)
}

/// Logical row `y` of `pixels` as stored: its pixels, then the padding.
pub open spec fn stored_row(pixels: Seq<Rgb>, width: int, y: int) -> Seq<u8> {
    bgr_bytes(pixels.subrange(y * width, y * width + width)) + zeros(padding_of(width))
}

/// The first `i` stored rows of an image of `height` rows: the bottom row first.
pub open spec fn stored_rows(pixels: Seq<Rgb>, width: int, height: int, i: int) -> Seq<u8>
    decreases i,
{
    if i <= 0 {
        seq![]
    } else {
        stored_rows(pixels, width, height, i - 1) + stored_row(pixels, width, height - i)
    }
}

/// The whole file for `pixels`, `width` to a row.
pub open spec fn encoded(pixels: Seq<Rgb>, width: u32) -> Seq<u8> {
    let height = pixels.len() as int / (width as int);
    file_header(file_size_of(pixels.len() as int, width as int) as u32) + info_header(
        width,
        height as u32,
    ) + stored_rows(pixels, width as int, height, height)
}

/// The padding after a row of `width` pixels.
pub fn padding(width: u32) -> (p: u32)
    ensures
        p == padding_of(width as int),
{
    let m: u32 = (width % 4) * 3 % 4;
    assert((width as int * 3) % 4 == m) by (nonlinear_arith)
        requires
            m == ((width as int % 4) * 3) % 4,
    {
    }
    (4 - m) % 4
}

impl RgbImage {
    /// The image as a BMP file.
    pub fn to_bmp_bytes(&self) -> (r: Vec<u8>)
        requires
            self.width > 0,
            file_size_of(self.pixels@.len() as int, self.width as int) <= u32::MAX,
        ensures
            r@ == encoded(self.pixels@, self.width),
    {
        let width = self.width;
        let len = self.pixels.len() as u32;
        let pad = padding(width);
        let height = len / width;
        proof {
            assert(height * pad <= file_size_of(len as int, width as int));
        }
        let file_size = DATA_OFFSET + height * pad + len * 3;
        let mut buff: Vec<u8> = Vec::new();
        // file header
        write_u8(&mut buff, 66);  // 'B'
        write_u8(&mut buff, 77);  // 'M'
        write_u32(&mut buff, file_size);
        write_u32(&mut buff, 0);  // reserved
        write_u32(&mut buff, DATA_OFFSET);
        // info header
        write_u32(&mut buff, 40);  // its own size
        write_u32(&mut buff, width);
        write_u32(&mut buff, height);
        write_u16(&mut buff, 1);  // planes
        write_u16(&mut buff, 24);  // bits per pixel
        write_u32(&mut buff, 0);  // no compression
        write_u32(&mut buff, 0);  // compressed size
        write_u32(&mut buff, width);  // horizontal resolution
        write_u32(&mut buff, height);  // vertical resolution
        write_u32(&mut buff, 16777216);  // colours used: all 2^24
        write_u32(&mut buff, 0);  // important colours: all
        let ghost hd = file_header(file_size) + info_header(width, height);
        assert(buff@ =~= hd);
        let ghost ps = self.pixels@;
        let mut i: u32 = 0;
        while i < height
            invariant
                i <= height,
                height == ps.len() as int / (width as int),
                width > 0,
                ps == self.pixels@,
                ps.len() <= u32::MAX,
                pad == padding_of(width as int),
                buff@ == hd + stored_rows(ps, width as int, height as int, i as int),
            decreases height - i,
        {
            let y = height - i - 1;
            let ghost before = buff@;
            proof {
                assert(y * width + width <= ps.len()) by (nonlinear_arith)
                    requires
                        y < height,
                        height == ps.len() as int / (width as int),
                        width > 0,
                ;
            }
            let mut x: u32 = 0;
            while x < width
                invariant
                    x <= width,
                    y < height,
                    y * width + width <= ps.len() <= u32::MAX,
                    ps == self.pixels@,
                    buff@ == before + bgr_bytes(
                        ps.subrange(y * width as int, y * width + x as int),
                    ),
                decreases width - x,
            {
                assert(y * width + x < y * width + width) by (nonlinear_arith)
                    requires
                        x < width,
                ;
                let index = (y * width + x) as usize;
                let p = self.pixels[index];
                write_u8(&mut buff, p.b);
                write_u8(&mut buff, p.g);
                write_u8(&mut buff, p.r);
                proof {
                    let s = ps.subrange(y * width as int, y * width + x + 1);
                    assert(s.drop_last() =~= ps.subrange(y * width as int, y * width + x as int));
                }
                x += 1;
            }
            let mut k: u32 = 0;
            while k < pad
                invariant
                    k <= pad,
                    y * width + width <= ps.len(),
                    buff@ == before + bgr_bytes(
                        ps.subrange(y * width as int, y * width + width as int),
                    ) + zeros(k as int),
                decreases pad - k,
            {
                write_u8(&mut buff, 0);
                assert(zeros(k as int).push(0) =~= zeros(k + 1));
                k += 1;
            }
            i += 1;
            assert(buff@ =~= hd + stored_rows(ps, width as int, height as int, i as int));
        }
        buff
    }
}


/// The first error in the 14-byte file header at the front of `b`, if any.
pub open spec fn file_header_error(b: Seq<u8>) -> Option<Error> {
    if b.len() < 2 {
        Some(Error::FileError)
    } else if b[0] != 66 || b[1] != 77 {
        Some(Error::InvalidSignature)
    } else if b.len() < 14 {
        Some(Error::FileError)
    } else {
        None
    }
}

/// The first error in the 40-byte info header at the front of `b`, if any,
/// taking the fields in the order in which they stand.
pub open spec fn info_header_error(b: Seq<u8>) -> Option<Error> {
    if b.len() < 4 {
        Some(Error::FileError)
    } else if get32(b, 0) != 40 {
        Some(Error::InvalidHeaderSize(get32(b, 0)))
    } else if b.len() < 14 {
        Some(Error::FileError)
    } else if get16(b, 12) != 1 {
        Some(Error::UnsupportedPlaneCount(get16(b, 12)))
    } else if b.len() < 16 {
        Some(Error::FileError)
    } else if get16(b, 14) != 24 {
        Some(Error::UnsupportedColorDepth(get16(b, 14)))
    } else if b.len() < 20 {
        Some(Error::FileError)
    } else if get32(b, 16) != 0 {
        Some(Error::UnsupportedCompression(get32(b, 16)))
    } else if b.len() < 40 {
        Some(Error::FileError)
    } else {
        None
    }
}

/// The fields that the decoder checks read back as the encoder wrote them.
pub proof fn lemma_info_header(width: u32, height: u32)
    ensures
        info_header(width, height).len() == 40,
        get32(info_header(width, height), 0) == 40,
        get32(info_header(width, height), 4) == width,
        get32(info_header(width, height), 8) == height,
        get16(info_header(width, height), 12) == 1,
        get16(info_header(width, height), 14) == 24,
        get32(info_header(width, height), 16) == 0,
{
    let ih = info_header(width, height);
    assert(ih.subrange(0, 4) =~= le32(40));
    lemma_get32_le32(ih, 0, 40);
    assert(ih.subrange(4, 8) =~= le32(width));
    lemma_get32_le32(ih, 4, width);
    assert(ih.subrange(8, 12) =~= le32(height));
    lemma_get32_le32(ih, 8, height);
    assert(ih.subrange(12, 14) =~= le16(1));
    lemma_get16_le16(ih, 12, 1);
    assert(ih.subrange(14, 16) =~= le16(24));
    lemma_get16_le16(ih, 14, 24);
    assert(ih.subrange(16, 20) =~= le32(0));
    lemma_get32_le32(ih, 16, 0);
}

/// Bytes of pixel data that an image of `height` rows of `width` pixels takes.
pub open spec fn pixel_data_len(width: int, height: int) -> int {
    height * row_len(width)
}

/// Pixel `k` of the image, counted from the top row, in pixel data `p`
/// that holds the bottom row first.
pub open spec fn stored_pixel(p: Seq<u8>, width: int, height: int, k: int) -> Rgb {
    let o = (height - 1 - k / width) * row_len(width) + 3 * (k % width);
    Rgb { r: p[o + 2], g: p[o + 1], b: p[o] }
}

/// All pixels of the image in pixel data `p`, from the top row.
pub open spec fn stored_pixels(p: Seq<u8>, width: int, height: int) -> Seq<Rgb> {
    Seq::new((width * height) as nat, |k: int| stored_pixel(p, width, height, k))
}

/// What decoding `b` gives: the pixels and the width, or the first error.
pub open spec fn decoded(b: Seq<u8>) -> Result<(Seq<Rgb>, u32), Error> {
    match file_header_error(b) {
        Some(e) => Err(e),
        None => {
            let info = b.skip(14);
            match info_header_error(info) {
                Some(e) => Err(e),
                None => {
                    let width = get32(info, 4);
                    let height = get32(info, 8);
                    let p = info.skip(40);
                    if p.len() < pixel_data_len(width as int, height as int) {
                        Err(Error::FileError)
                    } else {
                        Ok((stored_pixels(p, width as int, height as int), width))
                    }
                }
            }
        }
    }
}

fn read_header(src: &[u8]) -> (r: Result<&[u8], Error>)
    ensures
        match r {
            Ok(rest) => file_header_error(src@) is None && rest@ == src@.skip(14),
            Err(e) => file_header_error(src@) == Some(e),
        },
{
    let (src1, letter_b) = read_u8(src)?;
    let (src2, letter_m) = read_u8(src1)?;
    if letter_b != 66 || letter_m != 77 {
        return Err(Error::InvalidSignature);
    }
    let (src3, _file_size) = read_u32(src2)?;
    let (src4, _reserved) = read_u32(src3)?;
    let (rest, _data_offset) = read_u32(src4)?;
    assert(rest@ =~= src@.skip(14));
    Ok(rest)
}

fn read_info_header(src: &[u8]) -> (r: Result<(&[u8], u32, u32), Error>)
    ensures
        match r {
            Ok((rest, width, height)) => {
                &&& info_header_error(src@) is None
                &&& width == get32(src@, 4)
                &&& height == get32(src@, 8)
                &&& rest@ == src@.skip(40)
            },
            Err(e) => info_header_error(src@) == Some(e),
        },
{
    let (s, header_size) = read_u32(src)?;
    if header_size != 40 {
        return Err(Error::InvalidHeaderSize(header_size));
    }
    let (s, width) = read_u32(s)?;
    let (s, height) = read_u32(s)?;
    let (s, planes) = read_u16(s)?;
    if planes != 1 {
        return Err(Error::UnsupportedPlaneCount(planes));
    }
    let (s, bits_per_pixel) = read_u16(s)?;
    if bits_per_pixel != 24 {
        return Err(Error::UnsupportedColorDepth(bits_per_pixel));
    }
    let (s, compression) = read_u32(s)?;
    if compression != 0 {
        return Err(Error::UnsupportedCompression(compression));
    }
    let (s, _compressed_size) = read_u32(s)?;
    let (s, _horizontal_resolution) = read_u32(s)?;
    let (s, _vertical_resolution) = read_u32(s)?;
    let (s, _colors_used) = read_u32(s)?;
    let (rest, _important_colors) = read_u32(s)?;
    assert(rest@ =~= src@.skip(40));
    Ok((rest, width, height))
}

fn read_pixels(src: &[u8], width: u32, height: u32) -> (r: Result<(&[u8], Vec<Rgb>), Error>)
    ensures
        match r {
            Ok((rest, pixels)) => {
                &&& src@.len() >= pixel_data_len(width as int, height as int)
                &&& pixels@ == stored_pixels(src@, width as int, height as int)
                &&& rest@ == src@.skip(pixel_data_len(width as int, height as int))
            },
            Err(e) => {
                &&& src@.len() < pixel_data_len(width as int, height as int)
                &&& e == Error::FileError
            },
        },
{
    let pad = padding(width);
    let row: u64 = width as u64 * 3 + pad as u64;
    let ghost w = width as int;
    let ghost h = height as int;
    let ghost rl = row_len(w);
    assert(row as int * h <= 0x1_0000_0000_0000_0000_0000) by (nonlinear_arith)
        requires
            row <= 0x4_0000_0000,
            h < 0x1_0000_0000,
            h >= 0,
    ;
    let needed: u128 = row as u128 * height as u128;
    assert(needed == h * rl) by (nonlinear_arith)
        requires
            needed == row * h,
            row == rl,
    ;
    let src_len = src.len();
    if (src_len as u128) < needed {
        return Err(Error::FileError);
    }
    assert(w * h * 3 <= h * rl <= src@.len()) by (nonlinear_arith)
        requires
            rl == w * 3 + pad,
            h * rl == needed,
            needed <= src@.len(),
            h >= 0,
            pad >= 0,
    ;
    let mut pixels: Vec<Rgb> = Vec::new();
    let mut y: u32 = 0;
    while y < height
        invariant
            y <= height,
            w == width,
            h == height,
            rl == row_len(w),
            row == rl,
            h * rl <= src@.len(),
            src_len == src@.len(),
            pixels@.len() == y * w,
            forall|k: int| 0 <= k < y * w ==> pixels@[k] == stored_pixel(src@, w, h, k),
        decreases height - y,
    {
        let mut x: u32 = 0;
        while x < width
            invariant
                x <= width,
                y < height,
                w == width,
                h == height,
                rl == row_len(w),
                row == rl,
                h * rl <= src@.len(),
                src_len == src@.len(),
                pixels@.len() == y * w + x,
                forall|k: int| 0 <= k < y * w + x ==> pixels@[k] == stored_pixel(src@, w, h, k),
            decreases width - x,
        {
            let ghost k = y * w + x;
            proof {
                vstd::arithmetic::div_mod::lemma_fundamental_div_mod_converse(k, w, y as int, x as int);
                assert((h - 1 - y) * rl + 3 * x + 2 < h * rl) by (nonlinear_arith)
                    requires
                        y < h,
                        x < w,
                        rl >= 3 * w,
                ;
                assert(0 <= (h - 1 - y) * rl) by (nonlinear_arith)
                    requires
                        y < h,
                        rl >= 0,
                ;
                assert(rl <= h * rl) by (nonlinear_arith)
                    requires
                        y < h,
                        rl >= 0,
                ;
            }
            let o: usize = (height - 1 - y) as usize * (row as usize) + 3 * (x as usize);
            pixels.push(Rgb::new(src[o + 2], src[o + 1], src[o]));
            x += 1;
        }
        assert(y * w + w == (y + 1) * w) by (nonlinear_arith);
        y += 1;
    }
    assert(y * w == w * h) by (nonlinear_arith)
        requires
            y == h,
    ;
    assert(pixels@ =~= stored_pixels(src@, w, h));
    let n = needed as usize;
    Ok((&src[n..src.len()], pixels))
}

impl RgbImage {
    /// Decodes a BMP file, or names the first thing in it that this codec
    /// does not accept.
    pub fn from_bmp_bytes(bytes: &[u8]) -> (r: Result<RgbImage, Error>)
        ensures
            match r {
                Ok(img) => {
                    &&& decoded(bytes@) == Ok::<(Seq<Rgb>, u32), Error>((img.pixels@, img.width))
                    &&& img.width > 0 ==> img.well_formed()
                },
                Err(e) => decoded(bytes@) == Err::<(Seq<Rgb>, u32), Error>(e),
            },
    {
        let src = read_header(bytes)?;
        let (src, width, height) = read_info_header(src)?;
        let (_, pixels) = read_pixels(src, width, height)?;
        proof {
            if width > 0 {
                vstd::arithmetic::div_mod::lemma_mod_multiples_basic(height as int, width as int);
                assert(width as int * height as int == height as int * width as int)
                    by (nonlinear_arith);
            }
        }
        Ok(RgbImage { pixels, width })
    }
}

} // verus!
