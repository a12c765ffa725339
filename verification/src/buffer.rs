//! The byte buffer that messages are read from and written to.
//!
//! The buffer is a `bytes::BytesMut`. Verus does not look inside it: its
//! contents are named by [`buffer_bytes`], and each operation the codec uses
//! is a small function whose contract is taken on trust from the `bytes`
//! crate's documentation and source.
use bytes::Buf;
use bytes::BufMut;
use bytes::BytesMut;
use vstd::prelude::*;

verus! {

/// `bytes::BytesMut`, taken as it is: nothing of its inside is known here.
#[verifier::external_type_specification]
#[verifier::external_body]
pub struct ExBytesMut(bytes::BytesMut);

/// The readable bytes a buffer holds, front first.
pub uninterp spec fn buffer_bytes(buf: BytesMut) -> Seq<u8>;

/// The 16-bit number whose big-endian form is the first two bytes of `b`.
pub open spec fn be_u16(b: Seq<u8>) -> u16
    recommends
        b.len() >= 2,
{
    (b[0] as int * 256 + b[1] as int) as u16
}

/// The big-endian form of a 16-bit number.
pub open spec fn u16_be(n: u16) -> Seq<u8> {
    seq![(n / 256) as u8, (n % 256) as u8]
}

/// The 32-bit number whose big-endian form is the first four bytes of `b`.
pub open spec fn be_u32(b: Seq<u8>) -> u32
    recommends
        b.len() >= 4,
{
    (b[0] as int * 16777216 + b[1] as int * 65536 + b[2] as int * 256 + b[3] as int) as u32
}

/// The big-endian form of a 32-bit number.
pub open spec fn u32_be(n: u32) -> Seq<u8> {
    seq![
        (n / 16777216) as u8,
        ((n / 65536) % 256) as u8,
        ((n / 256) % 256) as u8,
        (n % 256) as u8,
    ]
}

/// `BytesMut::with_capacity`: a buffer that holds no bytes. The capacity is
/// a hint to the allocator and says nothing of the contents.
#[verifier::external_body]
pub(crate) fn with_capacity(capacity: usize) -> (buf: BytesMut)
    ensures
        buffer_bytes(buf) == Seq::<u8>::empty(),
{
    BytesMut::with_capacity(capacity)
}

/// `Buf::remaining` of `BytesMut`: the number of bytes left to read.
#[verifier::external_body]
pub(crate) fn remaining(buf: &BytesMut) -> (n: usize)
    ensures
        n == buffer_bytes(*buf).len(),
{
    buf.remaining()
}

/// `Buf::get_u8`: takes the first byte off the front. It panics on an empty
/// buffer, which the precondition leaves out.
#[verifier::external_body]
pub(crate) fn get_u8(buf: &mut BytesMut) -> (r: u8)
    requires
        buffer_bytes(*old(buf)).len() >= 1,
    ensures
        r == buffer_bytes(*old(buf))[0],
        buffer_bytes(*final(buf)) == buffer_bytes(*old(buf)).skip(1),
{
    buf.get_u8()
}

/// `Buf::get_u16`: takes two bytes off the front and reads them big-endian.
/// It panics where fewer than two are left, which the precondition leaves out.
#[verifier::external_body]
pub(crate) fn get_u16(buf: &mut BytesMut) -> (r: u16)
    requires
        buffer_bytes(*old(buf)).len() >= 2,
    ensures
        r == be_u16(buffer_bytes(*old(buf))),
        buffer_bytes(*final(buf)) == buffer_bytes(*old(buf)).skip(2),
{
    buf.get_u16()
}

/// `Buf::get_u32`: takes four bytes off the front and reads them big-endian.
/// It panics where fewer than four are left, which the precondition leaves out.
#[verifier::external_body]
pub(crate) fn get_u32(buf: &mut BytesMut) -> (r: u32)
    requires
        buffer_bytes(*old(buf)).len() >= 4,
    ensures
        r == be_u32(buffer_bytes(*old(buf))),
        buffer_bytes(*final(buf)) == buffer_bytes(*old(buf)).skip(4),
{
    buf.get_u32()
}

/// `BufMut::put_u8`: appends one byte; a `BytesMut` grows as needed.
#[verifier::external_body]
pub(crate) fn put_u8(buf: &mut BytesMut, n: u8)
    ensures
        buffer_bytes(*final(buf)) == buffer_bytes(*old(buf)).push(n),
{
    buf.put_u8(n)
}

/// `BufMut::put_u16`: appends the two bytes of `n`, big-endian.
#[verifier::external_body]
pub(crate) fn put_u16(buf: &mut BytesMut, n: u16)
    ensures
        buffer_bytes(*final(buf)) == buffer_bytes(*old(buf)) + u16_be(n),
{
    buf.put_u16(n)
}

/// `BufMut::put_u32`: appends the four bytes of `n`, big-endian.
#[verifier::external_body]
pub(crate) fn put_u32(buf: &mut BytesMut, n: u32)
    ensures
        buffer_bytes(*final(buf)) == buffer_bytes(*old(buf)) + u32_be(n),
{
    buf.put_u32(n)
}

/// `BufMut::put` with a byte slice as its source: appends the slice.
#[verifier::external_body]
pub(crate) fn put(buf: &mut BytesMut, src: &[u8])
    ensures
        buffer_bytes(*final(buf)) == buffer_bytes(*old(buf)) + src@,
{
    buf.put(src)
}

/// Reading a 16-bit number back from its big-endian form gives the number.
pub proof fn lemma_u16_be_round_trip(n: u16, rest: Seq<u8>)
    ensures
        be_u16(u16_be(n) + rest) == n,
        (u16_be(n) + rest).skip(2) == rest,
        u16_be(n).len() == 2,
{
}

/// Reading a 32-bit number back from its big-endian form gives the number.
pub proof fn lemma_u32_be_round_trip(n: u32, rest: Seq<u8>)
    ensures
        be_u32(u32_be(n) + rest) == n,
        (u32_be(n) + rest).skip(4) == rest,
        u32_be(n).len() == 4,
{
}

} // verus!
