//! Reading primitives. The byte-level readers are nom's; their contracts say
//! what nom's source shows of them on byte slices.

use vstd::prelude::*;
use vstd::utf8::{encode_utf8, valid_utf8};

verus! {

/// The 16-bit number whose big-endian bytes are `hi`, `lo`.
pub open spec fn spec_u16(hi: u8, lo: u8) -> u16 {
    (hi as int * 0x100 + lo as int) as u16
}

/// The 32-bit number whose big-endian bytes are `b0`, `b1`, `b2`, `b3`.
pub open spec fn spec_u32(b0: u8, b1: u8, b2: u8, b3: u8) -> u32 {
    (b0 as int * 0x100_0000 + b1 as int * 0x1_0000 + b2 as int * 0x100 + b3 as int) as u32
}

/// `nom::number::complete::be_u8` on a byte slice: fails on empty input, else
/// gives the first byte and the input after it.
#[verifier::external_body]
pub(crate) fn be_u8<'a>(i: &'a [u8]) -> (r: Option<(&'a [u8], u8)>)
    ensures
        r is Some <==> i@.len() >= 1,
        r matches Some((rest, v)) ==> rest@ == i@.skip(1) && v == i@[0],
{
    match nom::number::complete::be_u8::<&[u8], nom::error::Error<&[u8]>>(i) {
        Ok((rest, v)) => Some((rest, v)),
        Err(_) => None,
    }
}

/// `nom::number::complete::be_u16` on a byte slice: fails on fewer than two
/// bytes, else gives the big-endian number in the first two and the input
/// after them.
#[verifier::external_body]
pub(crate) fn be_u16<'a>(i: &'a [u8]) -> (r: Option<(&'a [u8], u16)>)
    ensures
        r is Some <==> i@.len() >= 2,
        r matches Some((rest, v)) ==> rest@ == i@.skip(2) && v == spec_u16(i@[0], i@[1]),
{
    match nom::number::complete::be_u16::<&[u8], nom::error::Error<&[u8]>>(i) {
        Ok((rest, v)) => Some((rest, v)),
        Err(_) => None,
    }
}

/// `nom::number::complete::be_u32` on a byte slice: fails on fewer than four
/// bytes, else gives the big-endian number in the first four and the input
/// after them.
#[verifier::external_body]
pub(crate) fn be_u32<'a>(i: &'a [u8]) -> (r: Option<(&'a [u8], u32)>)
    ensures
        r is Some <==> i@.len() >= 4,
        r matches Some((rest, v)) ==> rest@ == i@.skip(4) && v == spec_u32(
            i@[0],
            i@[1],
            i@[2],
            i@[3],
        ),
{
    match nom::number::complete::be_u32::<&[u8], nom::error::Error<&[u8]>>(i) {
        Ok((rest, v)) => Some((rest, v)),
        Err(_) => None,
    }
}

/// `nom::bytes::complete::take` on a byte slice: fails when the input is
/// shorter than `n`, else splits it after `n` bytes and gives the second part,
/// then the first.
#[verifier::external_body]
pub(crate) fn take<'a>(i: &'a [u8], n: usize) -> (r: Option<(&'a [u8], &'a [u8])>)
    ensures
        r is Some <==> n <= i@.len(),
        r matches Some((rest, taken)) ==> rest@ == i@.skip(n as int) && taken@ == i@.take(
            n as int,
        ),
{
    match nom::bytes::complete::take::<usize, &[u8], nom::error::Error<&[u8]>>(n)(i) {
        Ok((rest, taken)) => Some((rest, taken)),
        Err(_) => None,
    }
}

/// `std::str::from_utf8`: the string slice that the bytes encode, if they are
/// valid UTF-8.
#[verifier::external_body]
pub(crate) fn from_utf8<'a>(bytes: &'a [u8]) -> (r: Option<&'a str>)
    ensures
        r is Some <==> valid_utf8(bytes@),
        r matches Some(s) ==> encode_utf8(s@) == bytes@,
{
    match std::str::from_utf8(bytes) {
        Ok(s) => Some(s),
        Err(_) => None,
    }
}

} // verus!
