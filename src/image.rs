use vstd::prelude::*;

verus! {

/// Why decoding a buffer failed.
#[derive(Debug, Clone, Copy, PartialEq, Eq, Structural)]
pub enum Error {
    /// The input ended before a field or a pixel could be read.
    FileError,
    /// The first two bytes are not `B`, `M`.
    InvalidSignature,
    /// The info-header size field is not 40.
    InvalidHeaderSize(u32),
    /// The colour-plane count is not 1.
    UnsupportedPlaneCount(u16),
    /// The bits-per-pixel field is not 24.
    UnsupportedColorDepth(u16),
    /// The compression field is not 0.
    UnsupportedCompression(u32),
}

/// The decimal digit `d`.
pub open spec fn digit_char(d: nat) -> char {
    seq!['0', '1', '2', '3', '4', '5', '6', '7', '8', '9'][d as int]
}

/// The decimal digits of `n`, most significant first, without leading zeros.
pub open spec fn decimal(n: nat) -> Seq<char>
    decreases n,
{
    if n < 10 {
        seq![digit_char(n)]
    } else {
        decimal(n / 10) + seq![digit_char(n % 10)]
    }
}

/// The text that describes `e`.
pub open spec fn message_of(e: Error) -> Seq<char> {
    match e {
        Error::FileError => "File Error: failed to fill whole buffer"@,
        Error::InvalidSignature => "Invalid Signature"@,
        Error::InvalidHeaderSize(v) => "Invalid header size, expected 40, got "@ + decimal(
            v as nat,
        ),
        Error::UnsupportedPlaneCount(v) => "Unsupported plane count, expected 1, got "@
            + decimal(v as nat),
        Error::UnsupportedColorDepth(v) => "Unsupported color depth, expected 24, got "@
            + decimal(v as nat),
        Error::UnsupportedCompression(v) => "Unsupported compression, expected 0, got "@
            + decimal(v as nat),
    }
}

fn digit_str(d: u32) -> (s: &'static str)
    requires
        d < 10,
    ensures
        s@ == seq![digit_char(d as nat)],
{
    proof {
        reveal_strlit("0");
        reveal_strlit("1");
        reveal_strlit("2");
        reveal_strlit("3");
        reveal_strlit("4");
        reveal_strlit("5");
        reveal_strlit("6");
        reveal_strlit("7");
        reveal_strlit("8");
        reveal_strlit("9");
    }
    match d {
        0 => "0",
        1 => "1",
        2 => "2",
        3 => "3",
        4 => "4",
        5 => "5",
        6 => "6",
        7 => "7",
        8 => "8",
        _ => "9",
    }
}

/// Appends the decimal digits of `n` to `s`.
fn push_decimal(s: &mut String, n: u32)
    ensures
        final(s)@ == old(s)@ + decimal(n as nat),
    decreases n,
{
    if n >= 10 {
        push_decimal(s, n / 10);
    }
    s.append(digit_str(n % 10));
    proof {
        if n >= 10 {
            assert(final(s)@ =~= old(s)@ + decimal(n as nat));
        } else {
            assert(final(s)@ =~= old(s)@ + decimal(n as nat));
        }
    }
}

impl Error {
    /// A sentence that describes the error.
    pub fn message(&self) -> (r: String)
        ensures
            r@ == message_of(*self),
    {
        match self {
            Error::FileError => String::from_str("File Error: failed to fill whole buffer"),
            Error::InvalidSignature => String::from_str("Invalid Signature"),
            Error::InvalidHeaderSize(v) => {
                let mut s = String::from_str("Invalid header size, expected 40, got ");
                push_decimal(&mut s, *v);
                s
            },
            Error::UnsupportedPlaneCount(v) => {
                let mut s = String::from_str("Unsupported plane count, expected 1, got ");
                push_decimal(&mut s, *v as u32);
                s
            },
            Error::UnsupportedColorDepth(v) => {
                let mut s = String::from_str("Unsupported color depth, expected 24, got ");
                push_decimal(&mut s, *v as u32);
                s
            },
            Error::UnsupportedCompression(v) => {
                let mut s = String::from_str("Unsupported compression, expected 0, got ");
                push_decimal(&mut s, *v);
                s
            },
        }
    }
}

/// One pixel: three 8-bit channels.
#[derive(Debug, Clone, Copy, PartialEq, Eq, Structural)]
pub struct Rgb {
    pub r: u8,
    pub g: u8,
    pub b: u8,
}

impl Rgb {
    pub fn new(r: u8, g: u8, b: u8) -> (p: Self)
        ensures
            p == (Rgb { r, g, b }),
    {
        Self { r, g, b }
    }
}

/// Black.
impl Default for Rgb {
    fn default() -> (p: Self)
        ensures
            p == (Rgb { r: 0, g: 0, b: 0 }),
    {
        Self { r: 0, g: 0, b: 0 }
    }
}

/// An image: its pixels row by row from the top, `width` to a row.
#[derive(Debug, Clone)]
pub struct RgbImage {
    pub pixels: Vec<Rgb>,
    pub width: u32,
}

impl RgbImage {
    /// A positive width, and whole rows of pixels.
    pub open spec fn well_formed(&self) -> bool {
        &&& self.width > 0
        &&& self.pixels@.len() as int % (self.width as int) == 0
    }

    pub fn new(pixels: Vec<Rgb>, width: u32) -> (img: Self)
        ensures
            img.pixels@ == pixels@,
            img.width == width,
    {
        Self { pixels, width }
    }
}

} // verus!
