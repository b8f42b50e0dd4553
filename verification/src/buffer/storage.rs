//! The storage of pooled buffers: `bytes::BytesMut` while it is written, `bytes::Bytes` afterwards.
use vstd::prelude::*;

verus! {

use crate::buffer::contract::fits;

/// `bytes::BytesMut`, of which only the contents are known.
#[verifier::external_type_specification]
#[verifier::external_body]
pub struct ExBytesMut(bytes::BytesMut);

/// `bytes::Bytes`, of which only the contents are known.
#[verifier::external_type_specification]
#[verifier::external_body]
pub struct ExBytes(bytes::Bytes);

/// The bytes that a `bytes::BytesMut` holds.
pub uninterp spec fn stored(buffer: bytes::BytesMut) -> Seq<u8>;

/// How many bytes a `bytes::BytesMut` was given room for, those that it holds included. It may have
/// more, which is up to the allocator.
pub uninterp spec fn given_room(buffer: bytes::BytesMut) -> int;

/// The bytes that a `bytes::Bytes` holds.
pub uninterp spec fn shared(bytes: bytes::Bytes) -> Seq<u8>;

/// Calls `BytesMut::with_capacity`. Taken on trust: the new buffer is empty and has room for
/// `capacity` bytes. How much it has beyond that is up to the allocator and not stated.
#[verifier::external_body]
pub(crate) fn new_storage(capacity: usize) -> (r: bytes::BytesMut)
    requires
        fits(capacity as int),
    ensures
        stored(r) == Seq::<u8>::empty(),
        capacity <= given_room(r),
{
    bytes::BytesMut::with_capacity(capacity)
}

/// Calls `BytesMut::capacity`. Taken on trust: there is room for what the buffer holds and for what
/// it was given room for, and no more than a vector can have. How much there is between the two is up
/// to the allocator, so nothing more is stated.
#[verifier::external_body]
pub(crate) fn storage_capacity(buffer: &bytes::BytesMut) -> (r: usize)
    ensures
        stored(*buffer).len() <= r,
        given_room(*buffer) <= r,
        fits(r as int),
{
    buffer.capacity()
}

/// Borrows the bytes of a `BytesMut` as a slice (`AsRef::as_ref`). Taken on trust: the slice is
/// what the buffer holds.
#[verifier::external_body]
pub(crate) fn storage_slice(buffer: &bytes::BytesMut) -> (r: &[u8])
    ensures
        r@ == stored(*buffer),
{
    buffer.as_ref()
}

/// Calls `BytesMut::clear`. Taken on trust: the buffer is empty afterwards and has the same room.
#[verifier::external_body]
pub(crate) fn clear_storage(buffer: &mut bytes::BytesMut)
    ensures
        stored(*final(buffer)) == Seq::<u8>::empty(),
        given_room(*final(buffer)) == given_room(*old(buffer)),
{
    buffer.clear()
}

/// Calls `BytesMut::reserve`. Taken on trust: the contents stay as they are, no room is lost, and
/// there is room for `additional` bytes behind the contents. What is gained beyond that is up to the
/// allocator and not stated. Like any allocation it ends the program if the machine cannot serve it.
#[verifier::external_body]
pub(crate) fn reserve_storage(buffer: &mut bytes::BytesMut, additional: usize)
    requires
        fits(stored(*old(buffer)).len() + additional),
    ensures
        stored(*final(buffer)) == stored(*old(buffer)),
        given_room(*old(buffer)) <= given_room(*final(buffer)),
        stored(*old(buffer)).len() + additional <= given_room(*final(buffer)),
{
    buffer.reserve(additional)
}

/// Calls `BufMut::put_slice`. Taken on trust: the bytes are appended and no room is lost.
#[verifier::external_body]
pub(crate) fn append_storage(buffer: &mut bytes::BytesMut, src: &[u8])
    requires
        fits((stored(*old(buffer)).len() + src@.len()) as int),
    ensures
        stored(*final(buffer)) == stored(*old(buffer)) + src@,
        given_room(*old(buffer)) <= given_room(*final(buffer)),
{
    bytes::BufMut::put_slice(buffer, src)
}

/// Calls `BytesMut::split_to`. Taken on trust: the first `at` bytes are taken off the buffer and
/// handed out, and the room that they took up with them.
#[verifier::external_body]
pub(crate) fn split_storage(buffer: &mut bytes::BytesMut, at: usize) -> (r: bytes::BytesMut)
    requires
        at <= stored(*old(buffer)).len(),
    ensures
        stored(r) == stored(*old(buffer)).take(at as int),
        stored(*final(buffer)) == stored(*old(buffer)).skip(at as int),
        given_room(*final(buffer)) == given_room(*old(buffer)) - at,
{
    buffer.split_to(at)
}

/// Calls `BytesMut::split`. Taken on trust: all bytes are taken off the buffer and handed out.
#[verifier::external_body]
pub(crate) fn take_storage(buffer: &mut bytes::BytesMut) -> (r: bytes::BytesMut)
    ensures
        stored(r) == stored(*old(buffer)),
        stored(*final(buffer)) == Seq::<u8>::empty(),
{
    buffer.split()
}

/// Calls `Buf::advance` on a `BytesMut`. Taken on trust: the first `count` bytes are dropped, and the
/// room that they took up with them.
#[verifier::external_body]
pub(crate) fn advance_storage(buffer: &mut bytes::BytesMut, count: usize)
    requires
        count <= stored(*old(buffer)).len(),
    ensures
        stored(*final(buffer)) == stored(*old(buffer)).skip(count as int),
        given_room(*final(buffer)) == given_room(*old(buffer)) - count,
{
    bytes::Buf::advance(buffer, count)
}

/// Calls `BytesMut::freeze`. Taken on trust: the contents stay as they are.
#[verifier::external_body]
pub(crate) fn freeze_storage(buffer: bytes::BytesMut) -> (r: bytes::Bytes)
    ensures
        shared(r) == stored(buffer),
{
    buffer.freeze()
}

/// Borrows the bytes of a `Bytes` as a slice (`AsRef::as_ref`). Taken on trust: the slice is what
/// it holds.
#[verifier::external_body]
pub(crate) fn shared_slice(bytes: &bytes::Bytes) -> (r: &[u8])
    ensures
        r@ == shared(*bytes),
{
    bytes.as_ref()
}

/// Calls `Bytes::split_to`. Taken on trust: the first `at` bytes are taken off and handed out.
#[verifier::external_body]
pub(crate) fn split_shared(bytes: &mut bytes::Bytes, at: usize) -> (r: bytes::Bytes)
    requires
        at <= shared(*old(bytes)).len(),
    ensures
        shared(r) == shared(*old(bytes)).take(at as int),
        shared(*final(bytes)) == shared(*old(bytes)).skip(at as int),
{
    bytes.split_to(at)
}

/// Calls `Buf::advance` on a `Bytes`. Taken on trust: the first `count` bytes are dropped.
#[verifier::external_body]
pub(crate) fn advance_shared(bytes: &mut bytes::Bytes, count: usize)
    requires
        count <= shared(*old(bytes)).len(),
    ensures
        shared(*final(bytes)) == shared(*old(bytes)).skip(count as int),
{
    bytes::Buf::advance(bytes, count)
}

/// Calls `Bytes::try_into_mut`. Taken on trust: whichever way it comes back, the contents stay as
/// they are. It becomes writable only if nobody else holds the storage, which the value does not
/// tell.
#[verifier::external_body]
pub(crate) fn regain_storage(bytes: bytes::Bytes) -> (r: Result<bytes::BytesMut, bytes::Bytes>)
    ensures
        match r {
            Ok(buffer) => stored(buffer) == shared(bytes),
            Err(kept) => shared(kept) == shared(bytes),
        },
{
    bytes.try_into_mut()
}

} // verus!
