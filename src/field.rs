//! Fixed-width little-endian unsigned integers, written to the end of a
//! buffer and read from the front of a slice.
use crate::image::Error;
use vstd::prelude::*;

verus! {

/// The two bytes of `v`, least significant first.
pub open spec fn le16(v: u16) -> Seq<u8> {
    seq![(v % 256) as u8, (v / 256) as u8]
}

/// The four bytes of `v`, least significant first.
pub open spec fn le32(v: u32) -> Seq<u8> {
    seq![(v % 256) as u8, ((v / 256) % 256) as u8, ((v / 65536) % 256) as u8, (v / 16777216) as u8]
}

/// The value of the two bytes of `b` at `i`, least significant first.
pub open spec fn get16(b: Seq<u8>, i: int) -> u16 {
    (b[i] + 256 * b[i + 1]) as u16
}

/// The value of the four bytes of `b` at `i`, least significant first.
pub open spec fn get32(b: Seq<u8>, i: int) -> u32 {
    (b[i] + 256 * b[i + 1] + 65536 * b[i + 2] + 16777216 * b[i + 3]) as u32
}

pub fn write_u8(buff: &mut Vec<u8>, val: u8)
    ensures
        final(buff)@ == old(buff)@.push(val),
{
    buff.push(val);
}

pub fn write_u16(buff: &mut Vec<u8>, val: u16)
    ensures
        final(buff)@ == old(buff)@ + le16(val),
{
    buff.push((val % 256) as u8);
    buff.push((val / 256) as u8);
    assert(buff@ =~= old(buff)@ + le16(val));
}

pub fn write_u32(buff: &mut Vec<u8>, val: u32)
    ensures
        final(buff)@ == old(buff)@ + le32(val),
{
    buff.push((val % 256) as u8);
    buff.push(((val / 256) % 256) as u8);
    buff.push(((val / 65536) % 256) as u8);
    buff.push((val / 16777216) as u8);
    assert(buff@ =~= old(buff)@ + le32(val));
}

pub fn read_u8(src: &[u8]) -> (r: Result<(&[u8], u8), Error>)
    ensures
        src@.len() < 1 <==> r is Err,
        r is Err ==> r == Err::<(&[u8], u8), Error>(Error::FileError),
        r matches Ok((rest, v)) ==> v == src@[0] && rest@ == src@.skip(1),
{
    if src.len() < 1 {
        return Err(Error::FileError);
    }
    Ok((&src[1..src.len()], src[0]))
}

pub fn read_u16(src: &[u8]) -> (r: Result<(&[u8], u16), Error>)
    ensures
        src@.len() < 2 <==> r is Err,
        r is Err ==> r == Err::<(&[u8], u16), Error>(Error::FileError),
        r matches Ok((rest, v)) ==> v == get16(src@, 0) && rest@ == src@.skip(2),
{
    if src.len() < 2 {
        return Err(Error::FileError);
    }
    let v: u16 = src[0] as u16 + 256 * (src[1] as u16);
    Ok((&src[2..src.len()], v))
}

pub fn read_u32(src: &[u8]) -> (r: Result<(&[u8], u32), Error>)
    ensures
        src@.len() < 4 <==> r is Err,
        r is Err ==> r == Err::<(&[u8], u32), Error>(Error::FileError),
        r matches Ok((rest, v)) ==> v == get32(src@, 0) && rest@ == src@.skip(4),
{
    if src.len() < 4 {
        return Err(Error::FileError);
    }
    let v: u32 = src[0] as u32 + 256 * (src[1] as u32) + 65536 * (src[2] as u32) + 16777216 * (
    src[3] as u32);
    Ok((&src[4..src.len()], v))
}

/// Reading back the two bytes written for `v` gives `v`.
pub proof fn lemma_get16_le16(b: Seq<u8>, i: int, v: u16)
    requires
        0 <= i,
        i + 2 <= b.len(),
        b.subrange(i, i + 2) == le16(v),
    ensures
        get16(b, i) == v,
{
    assert(b[i] == b.subrange(i, i + 2)[0]);
    assert(b[i + 1] == b.subrange(i, i + 2)[1]);
}

/// Reading back the four bytes written for `v` gives `v`.
pub proof fn lemma_get32_le32(b: Seq<u8>, i: int, v: u32)
    requires
        0 <= i,
        i + 4 <= b.len(),
        b.subrange(i, i + 4) == le32(v),
    ensures
        get32(b, i) == v,
{
    let s = b.subrange(i, i + 4);
    assert(b[i] == s[0] && b[i + 1] == s[1] && b[i + 2] == s[2] && b[i + 3] == s[3]);
    let v = v as int;
    assert(v / 65536 == v / 256 / 256) by {
        vstd::arithmetic::div_mod::lemma_div_denominator(v, 256, 256);
    }
    assert(v / 16777216 == v / 65536 / 256) by {
        vstd::arithmetic::div_mod::lemma_div_denominator(v, 65536, 256);
    }
    vstd::arithmetic::div_mod::lemma_fundamental_div_mod(v, 256);
    vstd::arithmetic::div_mod::lemma_fundamental_div_mod(v / 256, 256);
    vstd::arithmetic::div_mod::lemma_fundamental_div_mod(v / 65536, 256);
    assert(v < 0x1_0000_0000);
    assert(v / 16777216 < 256) by {
        vstd::arithmetic::div_mod::lemma_div_is_ordered(v, 0xffff_ffff, 16777216);
    }
}

} // verus!
