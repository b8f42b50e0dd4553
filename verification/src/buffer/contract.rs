//! What readable buffers, writable buffers and pools promise.
use crate::error::CoreError;
use vstd::prelude::*;

verus! {

/// Whether a buffer of this many bytes can be asked of the machine at all.
pub open spec fn fits(len: int) -> bool {
    len <= isize::MAX
}

/// A share of a lease: which storage the lease began with, and how often the whole was halved.
pub struct Share {
    /// The storage that the lease began with.
    pub origin: bytes::BytesMut,
    /// How often the whole was halved.
    pub halvings: nat,
}

/// Half of a share.
pub open spec fn half(share: Option<Share>) -> Option<Share> {
    match share {
        Some(whole) => Some(Share { halvings: whole.halvings + 1, ..whole }),
        None => None,
    }
}

/// Bytes that are read from the front.
pub trait ReadableBuffer: Sized {
    /// The bytes that were not read yet.
    spec fn rest(&self) -> Seq<u8>;

    /// The bytes at the front that lie in one piece.
    spec fn front(&self) -> Seq<u8>;

    /// What turning the buffer into a vector gives.
    spec fn flat(&self) -> Seq<u8>;

    /// Whether every request that the remaining bytes can serve is served.
    spec fn reliable(&self) -> bool;

    /// The share of a lease that the buffer has, if it was lent.
    spec fn share(&self) -> Option<Share>;

    /// How many bytes were not read yet.
    fn remaining(&self) -> (r: usize)
        ensures
            r == self.rest().len(),
    ;

    /// The bytes at the front that lie in one piece.
    fn chunk(&self) -> (r: &[u8])
        ensures
            r@ == self.front(),
            self.front().len() <= self.rest().len(),
            self.front() == self.rest().take(self.front().len() as int),
    ;

    /// Takes bytes off the front, as a buffer of their own.
    fn split_to(&mut self, len: usize) -> (r: Result<Self, CoreError>)
        ensures
            match r {
                Ok(part) => {
                    &&& len <= old(self).rest().len()
                    &&& part.rest() == old(self).rest().take(len as int)
                    &&& part.flat() == part.rest()
                    &&& part.reliable() == old(self).reliable()
                    &&& part.share() == half(old(self).share())
                    &&& final(self).share() == half(old(self).share())
                    &&& final(self).rest() == old(self).rest().skip(len as int)
                    &&& final(self).reliable() == old(self).reliable()
                },
                Err(_) => {
                    &&& !old(self).reliable() || len > old(self).rest().len()
                    &&& final(self).share() == old(self).share()
                },
            },
    ;

    /// Drops bytes off the front.
    fn advance(&mut self, len: usize) -> (r: Result<(), CoreError>)
        ensures
            final(self).share() == old(self).share(),
            match r {
                Ok(_) => {
                    &&& len <= old(self).rest().len()
                    &&& final(self).rest() == old(self).rest().skip(len as int)
                    &&& final(self).reliable() == old(self).reliable()
                },
                Err(_) => !old(self).reliable() || len > old(self).rest().len(),
            },
    ;

    /// Reads as many bytes off the front as `dst` has room for.
    fn copy_into_slice(&mut self, dst: &mut [u8]) -> (r: Result<(), CoreError>)
        ensures
            final(dst)@.len() == old(dst)@.len(),
            final(self).share() == old(self).share(),
            match r {
                Ok(_) => {
                    &&& old(dst)@.len() <= old(self).rest().len()
                    &&& final(dst)@ == old(self).rest().take(old(dst)@.len() as int)
                    &&& final(self).rest() == old(self).rest().skip(old(dst)@.len() as int)
                    &&& final(self).reliable() == old(self).reliable()
                },
                Err(_) => !old(self).reliable() || old(dst)@.len() > old(self).rest().len(),
            },
    ;

    /// Turns the buffer into a vector.
    fn try_into_vec(self) -> (r: Result<Vec<u8>, CoreError>)
        ensures
            match r {
                Ok(bytes) => bytes@ == self.flat(),
                Err(_) => !self.reliable(),
            },
    ;
}

/// Bytes that are appended and then frozen.
pub trait WritableBuffer: Sized {
    /// The buffer that freezing gives.
    type Frozen: ReadableBuffer;

    /// The bytes that were written.
    spec fn contents(&self) -> Seq<u8>;

    /// Whether every request is served.
    spec fn accepts(&self) -> bool;

    /// The share of a lease that the buffer has, if it was lent.
    spec fn held(&self) -> Option<Share>;

    /// How many bytes fit without growing.
    fn capacity(&self) -> (r: usize)
        ensures
            self.contents().len() <= r,
    ;

    /// How many more bytes fit without growing.
    fn remaining_mut(&self) -> (r: usize);

    /// How many bytes were written.
    fn written(&self) -> (r: usize)
        ensures
            r == self.contents().len(),
    ;

    /// Makes room.
    fn reserve(&mut self, additional: usize) -> (r: Result<(), CoreError>)
        requires
            fits(old(self).contents().len() + additional),
        ensures
            final(self).contents() == old(self).contents(),
            final(self).accepts() == old(self).accepts(),
            final(self).held() == old(self).held(),
            old(self).accepts() ==> r is Ok,
    ;

    /// Appends bytes.
    fn put_slice(&mut self, src: &[u8]) -> (r: Result<(), CoreError>)
        requires
            fits((old(self).contents().len() + src@.len()) as int),
        ensures
            final(self).held() == old(self).held(),
            match r {
                Ok(_) => {
                    &&& final(self).contents() == old(self).contents() + src@
                    &&& final(self).accepts() == old(self).accepts()
                },
                Err(_) => !old(self).accepts(),
            },
    ;

    /// Appends bytes that are read off the front of another buffer.
    fn write_from<R: ReadableBuffer>(&mut self, src: &mut R, len: usize) -> (r: Result<
        (),
        CoreError,
    >)
        requires
            fits(old(self).contents().len() + len),
        ensures
            final(self).held() == old(self).held(),
            final(src).share() == old(src).share(),
            match r {
                Ok(_) => {
                    &&& len <= old(src).rest().len()
                    &&& final(src).rest() == old(src).rest().skip(len as int)
                    &&& final(self).contents() == old(self).contents() + old(src).rest().take(
                        len as int,
                    )
                    &&& final(self).accepts() == old(self).accepts()
                },
                Err(_) => !old(self).accepts() || !old(src).reliable() || len > old(
                    src,
                ).rest().len(),
            },
    ;

    /// Takes everything back that was written.
    fn clear(&mut self)
        ensures
            final(self).accepts() == old(self).accepts(),
            final(self).held() == old(self).held(),
            old(self).accepts() ==> final(self).contents().len() == 0,
    ;

    /// Ends writing; what was written can then be read.
    fn freeze(self) -> (r: Result<Self::Frozen, CoreError>)
        ensures
            match r {
                Ok(frozen) => {
                    &&& frozen.rest() == self.contents()
                    &&& frozen.flat() == frozen.rest()
                    &&& frozen.share() == self.held()
                },
                Err(_) => !self.accepts(),
            },
    ;
}

/// A figure that a pool reports in addition.
#[derive(Debug, Clone, PartialEq, Eq)]
pub struct PoolStatDimension {
    /// What it measures.
    pub key: &'static str,
    /// Its value.
    pub value: usize,
}

/// What a pool reports about itself.
#[derive(Debug, Clone, PartialEq, Eq)]
pub struct PoolStats {
    /// Bytes allocated and not given up.
    pub allocated_bytes: usize,
    /// Bytes held in memory.
    pub resident_bytes: usize,
    /// Buffers that are lent.
    pub active_leases: usize,
    /// Bytes that can be lent without an allocation.
    pub available_bytes: usize,
    /// Requests that wait for a buffer.
    pub pending_lease_requests: usize,
    /// Requests that were refused.
    pub failed_acquisitions: u64,
    /// Further figures.
    pub custom_dimensions: Vec<PoolStatDimension>,
}

/// A source of writable buffers.
pub trait BufferPool: Sized {
    /// The buffers that the pool lends.
    type Buffer: WritableBuffer;

    /// What keeps track of a buffer that is lent.
    type Lease;

    /// Whether every request is granted.
    spec fn generous(&self) -> bool;

    /// Whether a share is all that a lease has lent, and none of it has come back.
    spec fn lends(lease: &Self::Lease, share: Option<Share>) -> bool;

    /// Whether the pool can answer a request for this much room so, and is then `after`.
    spec fn answers(
        &self,
        min_capacity: usize,
        answer: Result<(Self::Buffer, Self::Lease), CoreError>,
        after: Self,
    ) -> bool;

    /// Lends an empty buffer. A pool is asked to make room for `min_capacity` bytes in it; bytes
    /// beyond its room are taken all the same.
    fn acquire(&mut self, min_capacity: usize) -> (r: Result<(Self::Buffer, Self::Lease), CoreError>)
        requires
            fits(min_capacity as int),
        ensures
            final(self).generous() == old(self).generous(),
            old(self).answers(min_capacity, r, *final(self)),
            match r {
                Ok((buffer, lease)) => {
                    &&& buffer.contents().len() == 0
                    &&& old(self).generous() ==> buffer.accepts()
                    &&& Self::lends(&lease, buffer.held())
                },
                Err(_) => !old(self).generous(),
            },
    ;

    /// Gives up what is not lent, and says how many bytes that were.
    fn shrink_to_fit(&mut self) -> (r: Result<usize, CoreError>);

    /// What the pool reports about itself.
    fn statistics(&self) -> (r: Result<PoolStats, CoreError>);
}

/// Half of a share belongs to the same lease and was halved once more; half of nothing is nothing. What
/// can be asked of the machine is at most the largest signed size.
pub proof fn law_halves_and_sizes(share: Option<Share>, len: int)
    ensures
        share is None ==> half(share) is None,
        share matches Some(whole) ==> (half(share) matches Some(part) && part.origin == whole.origin
            && part.halvings == whole.halvings + 1),
        fits(len) <==> len <= isize::MAX,
{
}

} // verus!
