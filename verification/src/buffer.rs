//! The byte buffers of the `bytes` crate, and the erasure of secrets by `zeroize`.
//!
//! The items at the start are not proved: each states what an outside function does.
use bytes::{Buf, Bytes, BytesMut};
use vstd::prelude::*;
use zeroize::Zeroize;

verus! {

/// `bytes::BytesMut`, a growable buffer that is consumed from the front.
#[verifier::external_type_specification]
#[verifier::external_body]
pub struct ExBytesMut(bytes::BytesMut);

/// `bytes::Bytes`, an immutable piece of memory.
#[verifier::external_type_specification]
#[verifier::external_body]
pub struct ExBytes(bytes::Bytes);

/// The bytes that a `BytesMut` holds.
pub uninterp spec fn buffered(buf: &BytesMut) -> Seq<u8>;

/// The bytes that a `Bytes` holds.
pub uninterp spec fn frozen(bytes: &Bytes) -> Seq<u8>;

/// `BytesMut::new`: the new buffer is empty.
#[verifier::external_body]
pub(crate) fn new_buffer() -> (r: BytesMut)
    ensures
        buffered(&r) == Seq::<u8>::empty(),
{
    BytesMut::new()
}

/// `<BytesMut as AsRef<[u8]>>::as_ref`: the slice holds the bytes of the buffer.
#[verifier::external_body]
pub(crate) fn contents(buf: &BytesMut) -> (r: &[u8])
    ensures
        r@ == buffered(buf),
{
    buf.as_ref()
}

/// `<BytesMut as Buf>::advance`: the first `count` bytes leave the buffer. It panics where the
/// buffer holds fewer.
#[verifier::external_body]
pub(crate) fn advance(buf: &mut BytesMut, count: usize)
    requires
        count <= buffered(old(buf)).len(),
    ensures
        buffered(final(buf)) == buffered(old(buf)).skip(count as int),
{
    buf.advance(count)
}

/// `BytesMut::extend_from_slice`: the bytes are appended. It panics where the buffer would
/// outgrow what can be allocated.
#[verifier::external_body]
pub(crate) fn append(buf: &mut BytesMut, bytes: &[u8])
    requires
        buffered(old(buf)).len() + bytes@.len() <= isize::MAX,
    ensures
        buffered(final(buf)) == buffered(old(buf)) + bytes@,
{
    buf.extend_from_slice(bytes)
}

/// `Bytes::copy_from_slice`: a copy of the bytes.
#[verifier::external_body]
pub(crate) fn freeze_copy(bytes: &[u8]) -> (r: Bytes)
    ensures
        frozen(&r) == bytes@,
{
    Bytes::copy_from_slice(bytes)
}

/// `<Bytes as AsRef<[u8]>>::as_ref`: the slice holds the same bytes.
#[verifier::external_body]
pub(crate) fn frozen_contents(bytes: &Bytes) -> (r: &[u8])
    ensures
        r@ == frozen(bytes),
{
    bytes.as_ref()
}

/// `<[u8] as Zeroize>::zeroize` on the bytes of the buffer: each of them becomes zero.
#[verifier::external_body]
pub(crate) fn erase(buf: &mut BytesMut)
    ensures
        buffered(final(buf)) == Seq::new(buffered(old(buf)).len(), |i: int| 0u8),
{
    buf.as_mut().zeroize()
}

/// `<Vec<u8> as Zeroize>::zeroize`: the memory is zeroed and the vector is left empty.
#[verifier::external_body]
pub(crate) fn erase_octets(octets: &mut Vec<u8>)
    ensures
        final(octets)@ == Seq::<u8>::empty(),
{
    octets.zeroize()
}

/// Whether a vector with these bytes was erased.
pub closed spec fn wiped(bytes: Seq<u8>) -> bool {
    exists|octets: &mut Vec<u8>, r: ()| #[trigger]
        call_ensures(erase_octets, (octets,), r) && (*octets)@ == bytes
}

/// Whether a buffer with these bytes was erased.
pub closed spec fn wiped_buffer(bytes: Seq<u8>) -> bool {
    exists|buf: &mut BytesMut, r: ()| #[trigger]
        call_ensures(erase, (buf,), r) && buffered(&*buf) == bytes
}

/// Erases a vector and drops it.
pub(crate) fn wipe(octets: Vec<u8>)
    ensures
        wiped(octets@),
{
    let mut octets = octets;
    erase_octets(&mut octets);
}

/// Erases a buffer and drops it.
pub(crate) fn wipe_buffer(buf: BytesMut)
    ensures
        wiped_buffer(buffered(&buf)),
{
    let mut buf = buf;
    erase(&mut buf);
}

} // verus!
