//! The byte level of the protocol: calls into `postcard` on plain values.
//!
//! A `u8` or an `i8` takes one byte, a `u32` is written as a varint, and a
//! tuple is the concatenation of its parts.

use vstd::prelude::*;

verus! {

/// `postcard::Error`, carried through without looking inside.
#[verifier::external_type_specification]
#[verifier::external_body]
pub struct ExPostcardError(postcard::Error);

/// The byte that an `i8` is written as: its two's complement.
pub open spec fn i8_byte(v: i8) -> u8 {
    if v >= 0 {
        v as u8
    } else {
        (v + 256) as u8
    }
}

/// The `i8` that a byte stands for.
pub open spec fn byte_i8(b: u8) -> i8 {
    if b < 128 {
        b as i8
    } else {
        (b - 256) as i8
    }
}

/// A number as a varint: groups of seven bits, the lowest first, and the high
/// bit set on every byte but the last.
pub open spec fn varint(n: nat) -> Seq<u8>
    decreases n,
{
    if n < 128 {
        seq![n as u8]
    } else {
        seq![(n % 128 + 128) as u8] + varint(n / 128)
    }
}

/// What is read at position `i` of a `u32` varint that starts at position 0:
/// the number that the remaining groups make, and the position after the last
/// one. A `u32` has at most five groups, and four bits in the fifth.
pub open spec fn varint_from(bytes: Seq<u8>, i: nat) -> Option<(nat, nat)>
    decreases 5 - i,
{
    if i >= 5 || i >= bytes.len() {
        None
    } else if bytes[i as int] < 128 {
        if i == 4 && bytes[i as int] > 15 {
            None
        } else {
            Some((bytes[i as int] as nat, i + 1))
        }
    } else {
        match varint_from(bytes, i + 1) {
            Some((high, end)) => Some(((bytes[i as int] - 128 + 128 * high) as nat, end)),
            None => None,
        }
    }
}

/// `postcard::take_from_bytes` for a `u32`.
///
/// Claims that it reads the varint at the front of `bytes` and hands back what
/// follows it, and that it fails exactly where there is no such varint.
#[verifier::external_body]
pub(crate) fn take_u32(bytes: &[u8]) -> (r: Result<(u32, &[u8]), postcard::Error>)
    ensures
        match varint_from(bytes@, 0) {
            Some((value, end)) => r is Ok && r->Ok_0.0 == value && r->Ok_0.1@ == bytes@.skip(
                end as int,
            ),
            None => r is Err,
        },
{
    postcard::take_from_bytes::<u32>(bytes)
}

/// `postcard::from_bytes` for a `u8`.
///
/// Claims that it reads the first byte, ignores the others, and fails exactly
/// where there is none.
#[verifier::external_body]
pub(crate) fn read_u8(bytes: &[u8]) -> (r: Result<u8, postcard::Error>)
    ensures
        r is Ok <==> bytes@.len() >= 1,
        r is Ok ==> r->Ok_0 == bytes@[0],
{
    postcard::from_bytes::<u8>(bytes)
}

/// `postcard::from_bytes` for two `u8`.
///
/// Claims that it reads the first two bytes, ignores the others, and fails
/// exactly where there are fewer.
#[verifier::external_body]
pub(crate) fn read_u8_u8(bytes: &[u8]) -> (r: Result<(u8, u8), postcard::Error>)
    ensures
        r is Ok <==> bytes@.len() >= 2,
        r is Ok ==> r->Ok_0 == (bytes@[0], bytes@[1]),
{
    postcard::from_bytes::<(u8, u8)>(bytes)
}

/// `postcard::from_bytes` for a pair of `i8` and a `u8`.
///
/// Claims that it reads the first three bytes, two of them as two's
/// complement, ignores the others, and fails exactly where there are fewer.
#[verifier::external_body]
pub(crate) fn read_stick_u8(bytes: &[u8]) -> (r: Result<((i8, i8), u8), postcard::Error>)
    ensures
        r is Ok <==> bytes@.len() >= 3,
        r is Ok ==> r->Ok_0 == ((byte_i8(bytes@[0]), byte_i8(bytes@[1])), bytes@[2]),
{
    postcard::from_bytes::<((i8, i8), u8)>(bytes)
}

/// What a call that writes `image` to the front of a buffer does to it: the
/// bytes behind the image stay, the number of bytes written is returned, and
/// the call fails exactly where the buffer is too short.
pub open spec fn written(
    image: Seq<u8>,
    before: Seq<u8>,
    after: Seq<u8>,
    r: Result<usize, postcard::Error>,
) -> bool {
    &&& after.len() == before.len()
    &&& if image.len() <= before.len() {
        &&& r is Ok
        &&& r->Ok_0 == image.len()
        &&& after == image + before.skip(image.len() as int)
    } else {
        r is Err
    }
}

/// `postcard::to_slice` for a `u32` and a `u8`.
///
/// Claims that it writes the varint and then the byte. What a failed call
/// leaves in `buf` is not stated.
#[verifier::external_body]
pub(crate) fn write_u32_u8(value: (u32, u8), buf: &mut [u8]) -> (r: Result<usize, postcard::Error>)
    ensures
        written(varint(value.0 as nat) + seq![value.1], old(buf)@, final(buf)@, r),
{
    postcard::to_slice(&value, buf).map(|used| used.len())
}

/// `postcard::to_slice` for a `u32`, a pair of `i8` and a `u8`.
///
/// Claims that it writes the varint and then three bytes, the `i8` as two's
/// complement. What a failed call leaves in `buf` is not stated.
#[verifier::external_body]
pub(crate) fn write_u32_stick_u8(value: (u32, (i8, i8), u8), buf: &mut [u8]) -> (r: Result<
    usize,
    postcard::Error,
>)
    ensures
        written(
            varint(value.0 as nat) + seq![i8_byte(value.1.0), i8_byte(value.1.1), value.2],
            old(buf)@,
            final(buf)@,
            r,
        ),
{
    postcard::to_slice(&value, buf).map(|used| used.len())
}

/// `postcard::to_slice` for two `u8`.
///
/// Claims that it writes the two bytes. What a failed call leaves in `buf` is
/// not stated.
#[verifier::external_body]
pub(crate) fn write_u8_u8(value: (u8, u8), buf: &mut [u8]) -> (r: Result<usize, postcard::Error>)
    ensures
        written(seq![value.0, value.1], old(buf)@, final(buf)@, r),
{
    postcard::to_slice(&value, buf).map(|used| used.len())
}

/// An `i8` comes back from the byte that it is written as.
pub proof fn law_i8_round_trip(v: i8)
    ensures
        byte_i8(i8_byte(v)) == v,
{
}

/// A varint is read back as the number that was written, whatever follows it.
pub proof fn law_varint_round_trip(n: u32, rest: Seq<u8>)
    ensures
        varint_from(varint(n as nat) + rest, 0) == Some((n as nat, varint(n as nat).len())),
{
    lemma_varint_tail(Seq::empty(), n as nat, rest, 0);
    assert(Seq::<u8>::empty() + varint(n as nat) + rest == varint(n as nat) + rest);
}

/// The varint of `n`, placed behind `i` bytes that were read before.
proof fn lemma_varint_tail(front: Seq<u8>, n: nat, rest: Seq<u8>, i: nat)
    requires
        front.len() == i,
        i < 5,
        n < 0x1_0000_0000,
        i == 1 ==> n < 0x200_0000,
        i == 2 ==> n < 0x4_0000,
        i == 3 ==> n < 0x800,
        i == 4 ==> n < 0x10,
    ensures
        varint_from(front + varint(n) + rest, i) == Some((n, i + varint(n).len())),
    decreases 5 - i,
{
    let whole = front + varint(n) + rest;
    if n < 128 {
        assert(whole[i as int] == n);
    } else {
        let low = (n % 128 + 128) as u8;
        assert(whole[i as int] == low);
        lemma_varint_tail(front.push(low), n / 128, rest, i + 1);
        assert(front.push(low) + varint(n / 128) + rest == whole);
    }
}

} // verus!
