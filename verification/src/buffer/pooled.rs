//! Buffers that a pool lends, and the leases that say when they come back.
use crate::buffer::contract::{ReadableBuffer, WritableBuffer};
use crate::buffer::storage::{
    advance_shared, advance_storage, append_storage, clear_storage, freeze_storage, regain_storage,
    reserve_storage, shared_slice, split_shared, split_storage, storage_capacity, storage_slice,
    take_storage,
};
use crate::error::{CoreError, APP_INVALID_ARGUMENT, PROTOCOL_DECODE};
use crate::text::push_decimal;
use crate::wire::write_at;
use vstd::prelude::*;
use vstd::slice::slice_to_vec;

verus! {

use crate::buffer::contract::{fits, Share};
use crate::buffer::storage::{given_room, shared, stored};
use crate::text::decimal;

/// Storage in one of its two states.
enum BufferState {
    /// Bytes can be appended.
    Writable(bytes::BytesMut),
    /// Bytes can only be read.
    ReadOnly(bytes::Bytes),
}

impl View for BufferState {
    type V = Seq<u8>;

    closed spec fn view(&self) -> Seq<u8> {
        match self {
            BufferState::Writable(buffer) => stored(*buffer),
            BufferState::ReadOnly(bytes) => shared(*bytes),
        }
    }
}

impl BufferState {
    /// How many bytes there is room for, those that are held included; none in the second state.
    spec fn room(&self) -> int {
        match self {
            BufferState::Writable(buffer) => given_room(*buffer),
            BufferState::ReadOnly(_) => 0,
        }
    }

    /// How many bytes there are.
    fn len(&self) -> (r: usize)
        ensures
            r == self@.len(),
    {
        self.chunk().len()
    }

    /// The bytes.
    fn chunk(&self) -> (r: &[u8])
        ensures
            r@ == self@,
    {
        match self {
            BufferState::Writable(buffer) => storage_slice(buffer),
            BufferState::ReadOnly(bytes) => shared_slice(bytes),
        }
    }

    /// Takes bytes off the front, for reading only.
    fn split_to(&mut self, len: usize) -> (r: BufferState)
        requires
            len <= old(self)@.len(),
        ensures
            r is ReadOnly,
            r@ == old(self)@.take(len as int),
            final(self)@ == old(self)@.skip(len as int),
            (*final(self) is Writable) == (*old(self) is Writable),
            *old(self) is Writable ==> final(self).room() == old(self).room() - len,
    {
        match self {
            BufferState::Writable(buffer) => {
                let part = split_storage(buffer, len);
                BufferState::ReadOnly(freeze_storage(part))
            },
            BufferState::ReadOnly(bytes) => BufferState::ReadOnly(split_shared(bytes, len)),
        }
    }

    /// Drops bytes off the front.
    fn advance(&mut self, len: usize)
        requires
            len <= old(self)@.len(),
        ensures
            final(self)@ == old(self)@.skip(len as int),
            (*final(self) is Writable) == (*old(self) is Writable),
            *old(self) is Writable ==> final(self).room() == old(self).room() - len,
    {
        match self {
            BufferState::Writable(buffer) => {
                advance_storage(buffer, len);
            },
            BufferState::ReadOnly(bytes) => {
                advance_shared(bytes, len);
            },
        }
    }

    /// Reads bytes off the front.
    fn copy_into_slice(&mut self, dst: &mut [u8])
        requires
            old(dst)@.len() <= old(self)@.len(),
        ensures
            final(dst)@ == old(self)@.take(old(dst)@.len() as int),
            final(self)@ == old(self)@.skip(old(dst)@.len() as int),
            (*final(self) is Writable) == (*old(self) is Writable),
            *old(self) is Writable ==> final(self).room() == old(self).room() - old(dst)@.len(),
    {
        let n: usize = dst.len();
        let ghost bytes = self@;
        let part = &self.chunk()[0..n];
        assert(part@ =~= bytes.take(n as int));
        write_at(dst, 0, part);
        assert(dst@ =~= bytes.take(n as int));
        self.advance(n);
    }

    /// A copy of the bytes.
    fn to_vec(&self) -> (r: Vec<u8>)
        ensures
            r@ == self@,
    {
        slice_to_vec(self.chunk())
    }
}

/// What comes back to a pool when a lease ends.
#[derive(Debug)]
pub struct ReclaimedBuffer {
    capacity: usize,
    buffer: Option<bytes::BytesMut>,
}

impl ReclaimedBuffer {
    /// The capacity that the lease recorded.
    pub closed spec fn recorded(&self) -> usize {
        self.capacity
    }

    /// The storage, if it came back.
    pub closed spec fn storage(&self) -> Option<bytes::BytesMut> {
        self.buffer
    }

    /// A lease of this capacity has ended, and this storage came back.
    pub fn new(capacity: usize, buffer: Option<bytes::BytesMut>) -> (r: Self)
        ensures
            r.recorded() == capacity,
            r.storage() == buffer,
    {
        ReclaimedBuffer { capacity, buffer }
    }

    /// The capacity that the lease recorded.
    pub fn capacity(&self) -> (r: usize)
        ensures
            r == self.recorded(),
    {
        self.capacity
    }

    /// The storage, if it came back.
    pub fn into_buffer(self) -> (r: Option<bytes::BytesMut>)
        ensures
            r == self.storage(),
    {
        self.buffer
    }
}

/// Whoever takes storage back.
pub trait BufferRecycler {
    /// Takes storage back. Called once for each lease, when its last view is released.
    fn reclaim(&mut self, reclaimed: ReclaimedBuffer);
}

/// A view of lent storage. It begins writable, and can be frozen and split. Each view has a share of
/// the lease: the first begins with the whole, and a split halves the share of the view that is
/// split, one half for each of the two. `Lease::release` takes the share back.
pub struct PooledBuffer {
    state: BufferState,
    spare: Vec<u8>,
    recorded: Option<usize>,
    // One entry for each time that the share was halved.
    halvings: Vec<()>,
    origin: Ghost<bytes::BytesMut>,
}

impl View for PooledBuffer {
    type V = Seq<u8>;

    closed spec fn view(&self) -> Seq<u8> {
        self.state@
    }
}

/// The error of a write to a frozen buffer.
pub open spec fn frozen_text(op: Seq<char>) -> Seq<char> {
    "PooledBuffer 已冻结，无法执行 "@ + op
}

/// The error of claiming more written bytes than there is room for.
pub open spec fn beyond_room_text(len: int, available: int) -> Seq<char> {
    "PooledBuffer::advance_mut 超出剩余可写空间：请求 "@ + decimal(len) + "，实际 "@
        + decimal(available)
}

/// Whether an error says that there is less room than was claimed. How much there is is up to the
/// allocator.
pub open spec fn is_beyond_room(e: CoreError, len: int) -> bool {
    exists|available: int|
        0 <= available < len && e.says(
            APP_INVALID_ARGUMENT@,
            #[trigger] beyond_room_text(len, available),
        )
}

/// What is left of the bytes that were put into spare room once `len` bytes of it are claimed.
pub open spec fn unclaimed(spare: Seq<u8>, len: int) -> Seq<u8> {
    if len <= spare.len() {
        spare.skip(len)
    } else {
        Seq::<u8>::empty()
    }
}

/// The first `len` of the bytes that were put into spare room; the others are zero.
pub open spec fn padded(spare: Seq<u8>, len: int) -> Seq<u8> {
    Seq::new(
        len as nat,
        |i: int|
            if i < spare.len() {
                spare[i]
            } else {
                0u8
            },
    )
}

impl PooledBuffer {
    /// Whether bytes can be appended.
    pub closed spec fn writable(&self) -> bool {
        self.state is Writable
    }

    /// How many bytes the buffer is sure to have room for, those that it holds included; none for a
    /// frozen one.
    pub closed spec fn room(&self) -> int {
        self.state.room()
    }

    /// What was put into the spare room since the last other write, and not claimed.
    pub closed spec fn in_spare(&self) -> Seq<u8> {
        self.spare@
    }

    /// The capacity that this view has to report, if it is the view that the lease began with.
    pub closed spec fn reports(&self) -> Option<usize> {
        self.recorded
    }

    /// How often the share of the lease was halved.
    pub closed spec fn halvings(&self) -> nat {
        self.halvings@.len()
    }

    /// The storage that the lease began with.
    pub closed spec fn origin(&self) -> bytes::BytesMut {
        self.origin@
    }

    /// The share of the lease that this view has.
    pub open spec fn part_of_lease(&self) -> Share {
        Share { origin: self.origin(), halvings: self.halvings() }
    }

    /// A lease of this storage, and its first view, which is writable. The storage must not be
    /// shared.
    pub fn new(inner: bytes::BytesMut) -> (r: (Self, Lease))
        ensures
            r.0@ == stored(inner),
            r.0.writable(),
            r.0.room() == given_room(inner),
            r.0.in_spare() == Seq::<u8>::empty(),
            r.0.reports() == Some(r.1.recorded()),
            stored(inner).len() <= r.1.recorded(),
            given_room(inner) <= r.1.recorded(),
            r.0.halvings() == 0,
            r.0.origin() == inner,
            r.1.origin() == inner,
            r.1.live(),
            r.1.settled() == Seq::<bool>::empty(),
            r.1.storage() is None,
    {
        let capacity: usize = storage_capacity(&inner);
        let origin: Ghost<bytes::BytesMut> = Ghost(inner);
        let buffer = PooledBuffer {
            state: BufferState::Writable(inner),
            spare: Vec::new(),
            recorded: Some(capacity),
            halvings: Vec::new(),
            origin,
        };
        (buffer, Lease::new(capacity, origin))
    }

    /// Whether bytes can be appended.
    fn is_writable(&self) -> (r: bool)
        ensures
            r == self.writable(),
    {
        match &self.state {
            BufferState::Writable(_) => true,
            BufferState::ReadOnly(_) => false,
        }
    }

    /// The error of a write to a frozen buffer.
    fn require_writable(&self, op: &'static str) -> (r: Result<(), CoreError>)
        ensures
            match r {
                Ok(_) => self.writable(),
                Err(e) => !self.writable() && e.says(APP_INVALID_ARGUMENT@, frozen_text(op@)),
            },
    {
        if self.is_writable() {
            return Ok(());
        }
        let mut text = String::new();
        text.append("PooledBuffer 已冻结，无法执行 ");
        text.append(op);
        assert(text@ =~= frozen_text(op@));
        Err(CoreError::new(APP_INVALID_ARGUMENT, text))
    }

    /// Room behind the bytes for the caller to write into. What is written there counts once
    /// `advance_mut` claims it. What was written there before and not claimed is still there; the rest
    /// is filled with zeros. A frozen buffer has no such room. Another one has some, and all that it
    /// is sure of; how much more is up to the allocator.
    pub fn chunk_mut(&mut self) -> (r: &mut [u8])
        requires
            fits((old(self)@.len() + 64) as int),
        ensures
            r@ == padded(old(self).in_spare(), r@.len() as int),
            !old(self).writable() ==> r@.len() == 0,
            old(self).writable() ==> {
                &&& 0 < r@.len()
                &&& old(self).room() <= old(self)@.len() + r@.len()
                &&& old(self)@.len() + r@.len() <= final(self).room()
            },
            final(self)@ == old(self)@,
            final(self).writable() == old(self).writable(),
            final(self).part_of_lease() == old(self).part_of_lease(),
            growth_recorded(*old(self), *final(self)),
            final(self).in_spare() == final(r)@,
    {
        let ghost before = self.spare@;
        let room: usize = self.open_room();
        self.spare.resize(room, 0);
        assert(self.spare@ =~= padded(before, room as int));
        self.spare.as_mut_slice()
    }

    /// How much room there is behind the bytes. A buffer that is full is grown first.
    fn open_room(&mut self) -> (r: usize)
        requires
            fits((old(self)@.len() + 64) as int),
        ensures
            !old(self).writable() ==> r == 0,
            fits(old(self)@.len() + r),
            old(self).writable() ==> {
                &&& 0 < r
                &&& old(self).room() <= old(self)@.len() + r
                &&& old(self)@.len() + r <= final(self).room()
            },
            final(self)@ == old(self)@,
            final(self).writable() == old(self).writable(),
            final(self).part_of_lease() == old(self).part_of_lease(),
            growth_recorded(*old(self), *final(self)),
            final(self).in_spare() == old(self).in_spare(),
    {
        match &mut self.state {
            BufferState::Writable(buffer) => {
                let len: usize = storage_slice(buffer).len();
                let before: usize = storage_capacity(buffer);
                let mut capacity: usize = before;
                if capacity == len {
                    reserve_storage(buffer, 64);
                    capacity = storage_capacity(buffer);
                }
                // Nothing grows here: the room is there, and is now sure to stay.
                reserve_storage(buffer, capacity - len);
                let after: usize = storage_capacity(buffer);
                self.record_growth(before, after);
                capacity - len
            },
            BufferState::ReadOnly(_) => 0,
        }
    }

    /// Claims bytes that were written into the room behind the bytes. Room that nothing was written
    /// into holds zeros.
    pub fn advance_mut(&mut self, len: usize) -> (r: Result<(), CoreError>)
        requires
            fits((old(self)@.len() + 64) as int),
        ensures
            final(self).writable() == old(self).writable(),
            final(self).part_of_lease() == old(self).part_of_lease(),
            growth_recorded(*old(self), *final(self)),
            old(self).room() <= final(self).room(),
            old(self).writable() && old(self)@.len() + len <= old(self).room() ==> r is Ok,
            match r {
                Ok(_) => {
                    &&& old(self).writable()
                    &&& final(self)@ == old(self)@ + padded(old(self).in_spare(), len as int)
                    &&& final(self).in_spare() == unclaimed(old(self).in_spare(), len as int)
                },
                Err(e) => {
                    &&& final(self)@ == old(self)@
                    &&& final(self).in_spare() == old(self).in_spare()
                    &&& if old(self).writable() {
                        is_beyond_room(e, len as int)
                    } else {
                        e.says(APP_INVALID_ARGUMENT@, frozen_text("advance_mut"@))
                    }
                },
            },
    {
        match self.require_writable("advance_mut") {
            Ok(_) => {},
            Err(e) => {
                return Err(e);
            },
        }
        let available: usize = self.open_room();
        if len > available {
            let mut text = String::new();
            text.append("PooledBuffer::advance_mut 超出剩余可写空间：请求 ");
            push_decimal(&mut text, len as u64);
            text.append("，实际 ");
            push_decimal(&mut text, available as u64);
            assert(text@ =~= beyond_room_text(len as int, available as int));
            let e = CoreError::new(APP_INVALID_ARGUMENT, text);
            assert(is_beyond_room(e, len as int));
            return Err(e);
        }
        let ghost before = self.spare@;
        let mut bytes: Vec<u8> = Vec::new();
        std::mem::swap(&mut bytes, &mut self.spare);
        if len < bytes.len() {
            self.spare = bytes.split_off(len);
        }
        bytes.resize(len, 0);
        assert(self.spare@ =~= unclaimed(before, len as int));
        assert(bytes@ =~= padded(before, len as int));
        let capacity: usize = self.capacity();
        match &mut self.state {
            BufferState::Writable(buffer) => {
                append_storage(buffer, bytes.as_slice());
            },
            BufferState::ReadOnly(_) => {},
        }
        let after: usize = self.capacity();
        self.record_growth(capacity, after);
        Ok(())
    }

    /// A copy of the bytes. The view stays, to be released.
    pub fn to_vec(&self) -> (r: Vec<u8>)
        ensures
            r@ == self@,
    {
        self.state.to_vec()
    }

    /// Records a new capacity, if this is the view that reports it.
    fn refresh_capacity(&mut self, capacity: usize)
        ensures
            final(self)@ == old(self)@,
            final(self).writable() == old(self).writable(),
            final(self).room() == old(self).room(),
            final(self).in_spare() == old(self).in_spare(),
            final(self).part_of_lease() == old(self).part_of_lease(),
            final(self).reports() == (if old(self).reports() is Some {
                Some(capacity)
            } else {
                None
            }),
    {
        if self.recorded.is_some() {
            self.recorded = Some(capacity);
        }
    }

    /// Records the capacity `after` a write, if it is not the one `before` or not covered by the one
    /// that was recorded.
    fn record_growth(&mut self, before: usize, after: usize)
        ensures
            final(self)@ == old(self)@,
            final(self).writable() == old(self).writable(),
            final(self).room() == old(self).room(),
            final(self).in_spare() == old(self).in_spare(),
            final(self).part_of_lease() == old(self).part_of_lease(),
            match old(self).reports() {
                Some(recorded) => final(self).reports() == Some(
                    if after != before || recorded < after {
                        after
                    } else {
                        recorded
                    },
                ),
                None => final(self).reports() is None,
            },
    {
        let covered: bool = match self.recorded {
            Some(recorded) => after <= recorded,
            None => true,
        };
        if after != before || !covered {
            self.refresh_capacity(after);
        }
    }
}

/// What is known about storage that is lent: its capacity, the shares that came back, and the storage
/// itself once a view has given it back. The shares are kept as a binary fraction: entry `k` says
/// whether it has a share that was halved `k` times.
pub struct Lease {
    capacity: usize,
    settled: Vec<bool>,
    over: bool,
    buffer: Option<bytes::BytesMut>,
    origin: Ghost<bytes::BytesMut>,
}

/// Shares that came back, with entries for those that were halved less than `len` times.
pub open spec fn extended(settled: Seq<bool>, len: nat) -> Seq<bool>
    decreases len - settled.len(),
{
    if settled.len() >= len {
        settled
    } else {
        extended(settled.push(false), len)
    }
}

/// A share that was halved `halvings` times is added to those that came back: two equal shares make
/// one that was halved once less. Nothing if that makes the whole.
pub open spec fn carried(settled: Seq<bool>, halvings: nat) -> Option<Seq<bool>>
    decreases halvings,
{
    if halvings == 0 {
        None
    } else if settled[halvings as int] {
        carried(settled.update(halvings as int, false), (halvings - 1) as nat)
    } else {
        Some(settled.update(halvings as int, true))
    }
}

/// The shares that came back, once a share that was halved `halvings` times has come back too.
/// Nothing if they are then the whole, and the lease ends.
pub open spec fn settle(settled: Seq<bool>, halvings: nat) -> Option<Seq<bool>> {
    carried(extended(settled, halvings + 1), halvings)
}

/// Adds a share to those that came back, and says whether that makes the whole.
fn settle_share(settled: &mut Vec<bool>, halvings: usize) -> (r: bool)
    ensures
        match settle(old(settled)@, halvings as nat) {
            Some(after) => !r && final(settled)@ == after,
            None => r,
        },
{
    let ghost all = extended(settled@, (halvings + 1) as nat);
    while settled.len() <= halvings
        invariant
            all == extended(settled@, (halvings + 1) as nat),
        decreases halvings + 1 - settled@.len(),
    {
        settled.push(false);
    }
    let mut k: usize = halvings;
    while k > 0 && settled[k]
        invariant
            k < settled@.len(),
            carried(all, halvings as nat) == carried(settled@, k as nat),
        decreases k,
    {
        settled.set(k, false);
        k = k - 1;
    }
    if k == 0 {
        return true;
    }
    settled.set(k, true);
    false
}

impl Lease {
    /// The recorded capacity.
    pub closed spec fn recorded(&self) -> usize {
        self.capacity
    }

    /// Whether the lease has not ended.
    pub closed spec fn live(&self) -> bool {
        !self.over
    }

    /// The shares that came back.
    pub closed spec fn settled(&self) -> Seq<bool> {
        self.settled@
    }

    /// The storage, once a view has given it back.
    pub closed spec fn storage(&self) -> Option<bytes::BytesMut> {
        self.buffer
    }

    /// The storage that the lease began with.
    pub closed spec fn origin(&self) -> bytes::BytesMut {
        self.origin@
    }

    /// A lease of which no share has come back.
    fn new(initial_capacity: usize, origin: Ghost<bytes::BytesMut>) -> (r: Self)
        ensures
            r.recorded() == initial_capacity,
            r.live(),
            r.settled() == Seq::<bool>::empty(),
            r.storage() is None,
            r.origin() == origin@,
    {
        Lease { capacity: initial_capacity, settled: Vec::new(), over: false, buffer: None, origin }
    }

    /// Records another capacity.
    fn update_capacity(&mut self, new_capacity: usize)
        ensures
            final(self).recorded() == new_capacity,
            final(self).live() == old(self).live(),
            final(self).settled() == old(self).settled(),
            final(self).storage() == old(self).storage(),
            final(self).origin() == old(self).origin(),
    {
        self.capacity = new_capacity;
    }

    /// Keeps storage that came back, unless there is some already.
    fn store_buffer(&mut self, buffer: Option<bytes::BytesMut>)
        ensures
            final(self).recorded() == old(self).recorded(),
            final(self).live() == old(self).live(),
            final(self).settled() == old(self).settled(),
            final(self).origin() == old(self).origin(),
            final(self).storage() == (if old(self).storage() is Some {
                old(self).storage()
            } else {
                buffer
            }),
    {
        if self.buffer.is_none() {
            self.buffer = buffer;
        }
    }

    /// Releases a view of this lease. Once all shares have come back no view is left, and the lease
    /// ends: what comes back is the capacity that was recorded last, and the storage, if a view could
    /// give it back. A writable view can; another one can if nobody else holds the storage at that
    /// moment.
    pub fn release(&mut self, view: PooledBuffer) -> (r: Option<ReclaimedBuffer>)
        requires
            old(self).live(),
            view.origin() == old(self).origin(),
        ensures
            final(self).origin() == old(self).origin(),
            final(self).recorded() == (match view.reports() {
                Some(capacity) => capacity,
                None => old(self).recorded(),
            }),
            match settle(old(self).settled(), view.halvings()) {
                Some(settled) => {
                    &&& r is None
                    &&& final(self).live()
                    &&& final(self).settled() == settled
                    &&& gave_back(old(self).storage(), view, final(self).storage())
                },
                None => {
                    &&& r is Some
                    &&& !final(self).live()
                    &&& final(self).storage() is None
                    &&& r->0.recorded() == final(self).recorded()
                    &&& gave_back(old(self).storage(), view, r->0.storage())
                },
            },
    {
        let PooledBuffer { state, spare: _, recorded, halvings, origin: _ } = view;
        let reclaimed: Option<bytes::BytesMut> = match state {
            BufferState::Writable(buffer) => {
                let mut empty = buffer;
                clear_storage(&mut empty);
                Some(empty)
            },
            BufferState::ReadOnly(bytes) => match regain_storage(bytes) {
                Ok(buffer) => {
                    let mut empty = buffer;
                    clear_storage(&mut empty);
                    Some(empty)
                },
                Err(_) => None,
            },
        };
        match recorded {
            Some(capacity) => {
                self.update_capacity(capacity);
            },
            None => {},
        }
        self.store_buffer(reclaimed);
        if !settle_share(&mut self.settled, halvings.len()) {
            return None;
        }
        self.over = true;
        let mut buffer: Option<bytes::BytesMut> = None;
        std::mem::swap(&mut buffer, &mut self.buffer);
        Some(ReclaimedBuffer::new(self.capacity, buffer))
    }
}

/// What a released view does to the storage that a lease keeps: the first storage stays, and what
/// comes in is empty. The storage of a writable view has the room that the view had.
pub open spec fn gave_back(
    before: Option<bytes::BytesMut>,
    view: PooledBuffer,
    after: Option<bytes::BytesMut>,
) -> bool {
    if before is Some {
        after == before
    } else {
        &&& view.writable() ==> after is Some && view.room() <= given_room(after->0)
        &&& after is Some ==> stored(after->0).len() == 0
    }
}

/// The room of a view without the room that its first `len` bytes take up; none if it is frozen.
pub open spec fn room_behind(view: PooledBuffer, len: int) -> int {
    if view.writable() {
        view.room() - len
    } else {
        view.room()
    }
}

/// Whether the capacity that a view reports covers what the view has room for. It does in a new
/// view, and nothing that is done to the view changes that.
pub open spec fn covered(view: PooledBuffer) -> bool {
    view.reports() matches Some(capacity) ==> view.room() <= capacity
}

/// Whether the capacity that a view reports covers its room after a write, if there is one to
/// report. A view that reports none still reports none.
pub open spec fn growth_recorded(before: PooledBuffer, after: PooledBuffer) -> bool {
    &&& after.reports() is Some == before.reports() is Some
    &&& before.writable() ==> covered(after)
    &&& !before.writable() ==> after.reports() == before.reports() && after.room() == before.room()
}

/// The error of a request for more bytes than remain.
fn exhausted(text: &'static str) -> (r: CoreError)
    ensures
        r.says(PROTOCOL_DECODE@, text@),
{
    CoreError::new(PROTOCOL_DECODE, text.to_owned())
}

impl ReadableBuffer for PooledBuffer {
    open spec fn rest(&self) -> Seq<u8> {
        self@
    }

    open spec fn front(&self) -> Seq<u8> {
        self@
    }

    open spec fn flat(&self) -> Seq<u8> {
        self@
    }

    open spec fn reliable(&self) -> bool {
        true
    }

    open spec fn share(&self) -> Option<Share> {
        Some(self.part_of_lease())
    }

    fn remaining(&self) -> (r: usize) {
        self.state.len()
    }

    fn chunk(&self) -> (r: &[u8]) {
        assert(self@.take(self@.len() as int) =~= self@);
        self.state.chunk()
    }

    /// Takes bytes off the front, as a view of the same lease that can only be read and that reports
    /// no capacity. The lease goes on until both are released.
    fn split_to(&mut self, len: usize) -> (r: Result<Self, CoreError>)
        ensures
            match r {
                Ok(part) => {
                    &&& !part.writable()
                    &&& part.room() == 0
                    &&& part.reports() is None
                    &&& part.in_spare() == Seq::<u8>::empty()
                    &&& part.origin() == old(self).origin()
                    &&& part.halvings() == old(self).halvings() + 1
                    &&& final(self).origin() == old(self).origin()
                    &&& final(self).halvings() == old(self).halvings() + 1
                    &&& final(self).writable() == old(self).writable()
                    &&& final(self).room() == room_behind(*old(self), len as int)
                    &&& final(self).reports() == old(self).reports()
                    &&& final(self).in_spare() == old(self).in_spare()
                },
                Err(e) => *final(self) == *old(self) && e.says(
                    PROTOCOL_DECODE@,
                    "PooledBuffer::split_to 超出剩余可读字节"@,
                ),
            },
    {
        if len > self.remaining() {
            return Err(exhausted("PooledBuffer::split_to 超出剩余可读字节"));
        }
        let state = self.state.split_to(len);
        self.halvings.push(());
        Ok(
            PooledBuffer {
                state,
                spare: Vec::new(),
                recorded: None,
                halvings: self.halvings.clone(),
                origin: self.origin,
            },
        )
    }

    /// Drops bytes off the front.
    fn advance(&mut self, len: usize) -> (r: Result<(), CoreError>)
        ensures
            match r {
                Ok(_) => {
                    &&& final(self).writable() == old(self).writable()
                    &&& final(self).room() == room_behind(*old(self), len as int)
                    &&& final(self).reports() == old(self).reports()
                    &&& final(self).in_spare() == old(self).in_spare()
                    &&& final(self).part_of_lease() == old(self).part_of_lease()
                },
                Err(e) => *final(self) == *old(self) && e.says(
                    PROTOCOL_DECODE@,
                    "PooledBuffer::advance 超出剩余可读字节"@,
                ),
            },
    {
        if len > self.remaining() {
            return Err(exhausted("PooledBuffer::advance 超出剩余可读字节"));
        }
        self.state.advance(len);
        Ok(())
    }

    /// Reads as many bytes off the front as `dst` has room for.
    fn copy_into_slice(&mut self, dst: &mut [u8]) -> (r: Result<(), CoreError>)
        ensures
            match r {
                Ok(_) => {
                    &&& final(self).writable() == old(self).writable()
                    &&& final(self).room() == room_behind(*old(self), old(dst)@.len() as int)
                    &&& final(self).reports() == old(self).reports()
                    &&& final(self).in_spare() == old(self).in_spare()
                    &&& final(self).part_of_lease() == old(self).part_of_lease()
                },
                Err(e) => *final(self) == *old(self) && final(dst)@ == old(dst)@ && e.says(
                    PROTOCOL_DECODE@,
                    "PooledBuffer::copy_into_slice 数据不足"@,
                ),
            },
    {
        if dst.len() > self.remaining() {
            return Err(exhausted("PooledBuffer::copy_into_slice 数据不足"));
        }
        self.state.copy_into_slice(dst);
        Ok(())
    }

    /// A copy of the bytes. The view is used up without being released, so its lease does not end;
    /// `to_vec` leaves the view, so that it can be released.
    fn try_into_vec(self) -> (r: Result<Vec<u8>, CoreError>) {
        Ok(self.state.to_vec())
    }
}

impl WritableBuffer for PooledBuffer {
    type Frozen = PooledBuffer;

    open spec fn contents(&self) -> Seq<u8> {
        self@
    }

    open spec fn accepts(&self) -> bool {
        self.writable()
    }

    open spec fn held(&self) -> Option<Share> {
        Some(self.part_of_lease())
    }

    /// How many bytes fit without growing; of a frozen buffer, how many it holds.
    fn capacity(&self) -> (r: usize)
        ensures
            self.room() <= r,
            !self.writable() ==> r == self@.len(),
    {
        match &self.state {
            BufferState::Writable(buffer) => storage_capacity(buffer),
            BufferState::ReadOnly(_) => self.state.len(),
        }
    }

    /// How many more bytes fit without growing; of a frozen buffer, none.
    fn remaining_mut(&self) -> (r: usize)
        ensures
            self.room() <= self@.len() + r,
            !self.writable() ==> r == 0,
    {
        match &self.state {
            BufferState::Writable(buffer) => storage_capacity(buffer).saturating_sub(
                storage_slice(buffer).len(),
            ),
            BufferState::ReadOnly(_) => 0,
        }
    }

    fn written(&self) -> (r: usize) {
        self.state.len()
    }

    /// Makes room.
    fn reserve(&mut self, additional: usize) -> (r: Result<(), CoreError>)
        ensures
            match r {
                Ok(_) => {
                    &&& old(self).writable()
                    &&& final(self).writable()
                    &&& old(self).room() <= final(self).room()
                    &&& additional > 0 ==> {
                        &&& old(self)@.len() + additional <= final(self).room()
                        &&& growth_recorded(*old(self), *final(self))
                        &&& final(self).in_spare() == Seq::<u8>::empty()
                    }
                    &&& additional == 0 ==> *final(self) == *old(self)
                },
                Err(e) => *final(self) == *old(self) && !old(self).writable() && e.says(
                    APP_INVALID_ARGUMENT@,
                    frozen_text("reserve"@),
                ),
            },
    {
        match self.require_writable("reserve") {
            Ok(_) => {},
            Err(e) => {
                return Err(e);
            },
        }
        if additional == 0 {
            return Ok(());
        }
        let before: usize = self.capacity();
        match &mut self.state {
            BufferState::Writable(buffer) => {
                reserve_storage(buffer, additional);
            },
            BufferState::ReadOnly(_) => {},
        }
        self.spare = Vec::new();
        let after: usize = self.capacity();
        self.record_growth(before, after);
        Ok(())
    }

    /// Appends bytes.
    fn put_slice(&mut self, src: &[u8]) -> (r: Result<(), CoreError>)
        ensures
            match r {
                Ok(_) => {
                    &&& old(self).writable()
                    &&& old(self).room() <= final(self).room()
                    &&& src@.len() > 0 ==> {
                        &&& growth_recorded(*old(self), *final(self))
                        &&& final(self).in_spare() == Seq::<u8>::empty()
                    }
                    &&& src@.len() == 0 ==> *final(self) == *old(self)
                },
                Err(e) => *final(self) == *old(self) && !old(self).writable() && e.says(
                    APP_INVALID_ARGUMENT@,
                    frozen_text("put_slice"@),
                ),
            },
    {
        match self.require_writable("put_slice") {
            Ok(_) => {},
            Err(e) => {
                return Err(e);
            },
        }
        if src.len() == 0 {
            assert(self@ + src@ =~= self@);
            return Ok(());
        }
        let before: usize = self.capacity();
        match &mut self.state {
            BufferState::Writable(buffer) => {
                let remaining: usize = storage_capacity(buffer).saturating_sub(
                    storage_slice(buffer).len(),
                );
                if remaining < src.len() {
                    reserve_storage(buffer, src.len() - remaining);
                }
                append_storage(buffer, src);
            },
            BufferState::ReadOnly(_) => {},
        }
        self.spare = Vec::new();
        let after: usize = self.capacity();
        self.record_growth(before, after);
        Ok(())
    }

    /// Appends bytes that are read off the front of another buffer.
    fn write_from<R: ReadableBuffer>(&mut self, src: &mut R, len: usize) -> (r: Result<
        (),
        CoreError,
    >)
        ensures
            match r {
                Ok(_) => {
                    &&& old(self).writable()
                    &&& old(self).room() <= final(self).room()
                    &&& len > 0 ==> {
                        &&& growth_recorded(*old(self), *final(self))
                        &&& final(self).in_spare() == Seq::<u8>::empty()
                    }
                    &&& len == 0 ==> *final(self) == *old(self)
                },
                Err(e) => {
                    &&& *final(self) == *old(self)
                    &&& !old(self).writable() ==> *final(src) == *old(src) && e.says(
                        APP_INVALID_ARGUMENT@,
                        frozen_text("write_from"@),
                    )
                    &&& old(self).writable() && len > old(src).rest().len() ==> *final(src)
                        == *old(src) && e.says(
                        PROTOCOL_DECODE@,
                        "PooledBuffer::write_from 源缓冲数据不足"@,
                    )
                },
            },
    {
        match self.require_writable("write_from") {
            Ok(_) => {},
            Err(e) => {
                return Err(e);
            },
        }
        if len > src.remaining() {
            return Err(exhausted("PooledBuffer::write_from 源缓冲数据不足"));
        }
        let mut copied: Vec<u8> = Vec::new();
        copied.resize(len, 0);
        match src.copy_into_slice(copied.as_mut_slice()) {
            Ok(_) => {},
            Err(e) => {
                return Err(e);
            },
        }
        self.put_slice(copied.as_slice())
    }

    /// Takes everything back that was written, unless the buffer is frozen.
    fn clear(&mut self)
        ensures
            final(self)@ == (if old(self).writable() {
                Seq::<u8>::empty()
            } else {
                old(self)@
            }),
            final(self).writable() == old(self).writable(),
            final(self).room() == old(self).room(),
            final(self).reports() == old(self).reports(),
            final(self).in_spare() == Seq::<u8>::empty(),
            final(self).part_of_lease() == old(self).part_of_lease(),
    {
        match &mut self.state {
            BufferState::Writable(buffer) => {
                clear_storage(buffer);
            },
            BufferState::ReadOnly(_) => {},
        }
        self.spare = Vec::new();
    }

    /// Ends writing. The capacity to report becomes the number of bytes that were written.
    fn freeze(self) -> (r: Result<Self::Frozen, CoreError>)
        ensures
            r is Ok,
            !r->Ok_0.writable(),
            r->Ok_0.room() == 0,
            r->Ok_0.part_of_lease() == self.part_of_lease(),
            r->Ok_0.reports() == (if self.writable() && self.reports() is Some {
                Some(self@.len() as usize)
            } else {
                self.reports()
            }),
    {
        let PooledBuffer { state, spare, recorded, halvings, origin } = self;
        match state {
            BufferState::Writable(buffer) => {
                let mut writable = buffer;
                let frozen = freeze_storage(take_storage(&mut writable));
                let len: usize = shared_slice(&frozen).len();
                let mut r = PooledBuffer {
                    state: BufferState::ReadOnly(frozen),
                    spare: Vec::new(),
                    recorded,
                    halvings,
                    origin,
                };
                r.refresh_capacity(len);
                Ok(r)
            },
            BufferState::ReadOnly(bytes) => Ok(
                PooledBuffer {
                    state: BufferState::ReadOnly(bytes),
                    spare,
                    recorded,
                    halvings,
                    origin,
                },
            ),
        }
    }
}

/// What can happen to the views of a lease that are alive.
pub enum LeaseEvent {
    /// The view at this position is split.
    Split(int),
    /// The view at this position is released.
    Release(int),
}

/// A lease and its views, as far as shares go.
pub struct LeaseState {
    /// How often the share of each view that is alive was halved.
    pub alive: Seq<nat>,
    /// The shares that came back.
    pub settled: Seq<bool>,
    /// How often the lease has ended.
    pub endings: int,
}

/// A history of a lease begins with one view, which has the whole. What `split_to` and
/// `Lease::release` do then follows.
pub open spec fn state_after(history: Seq<LeaseEvent>) -> LeaseState
    decreases history.len(),
{
    if history.len() == 0 {
        LeaseState { alive: seq![0nat], settled: Seq::empty(), endings: 0 }
    } else {
        let before = state_after(history.drop_last());
        match history.last() {
            LeaseEvent::Split(i) => {
                let halvings = before.alive[i] + 1;
                LeaseState { alive: before.alive.update(i, halvings).push(halvings), ..before }
            },
            LeaseEvent::Release(i) => {
                let alive = before.alive.remove(i);
                match settle(before.settled, before.alive[i]) {
                    Some(settled) => LeaseState { alive, settled, ..before },
                    None => LeaseState { alive, endings: before.endings + 1, ..before },
                }
            },
        }
    }
}

/// Whether a history can happen: only to a view that is alive.
pub open spec fn possible(history: Seq<LeaseEvent>) -> bool
    decreases history.len(),
{
    history.len() == 0 || {
        &&& possible(history.drop_last())
        &&& match history.last() {
            LeaseEvent::Split(i) => 0 <= i < state_after(history.drop_last()).alive.len(),
            LeaseEvent::Release(i) => 0 <= i < state_after(history.drop_last()).alive.len(),
        }
    }
}

/// A share that was halved `halvings` times, in parts of which a share that was halved `scale` times
/// has one.
spec fn parts(halvings: nat, scale: nat) -> nat
    decreases scale - halvings,
{
    if halvings >= scale {
        1
    } else {
        2 * parts(halvings + 1, scale)
    }
}

/// All shares that came back.
spec fn settled_parts(settled: Seq<bool>, scale: nat) -> nat
    decreases settled.len(),
{
    if settled.len() == 0 {
        0
    } else if settled.last() {
        settled_parts(settled.drop_last(), scale) + parts((settled.len() - 1) as nat, scale)
    } else {
        settled_parts(settled.drop_last(), scale)
    }
}

/// All shares of views that are alive.
spec fn alive_parts(alive: Seq<nat>, scale: nat) -> nat
    decreases alive.len(),
{
    if alive.len() == 0 {
        0
    } else {
        alive_parts(alive.drop_last(), scale) + parts(alive.last(), scale)
    }
}

/// On a scale that is twice as fine there are twice as many parts.
proof fn lemma_parts_scale(halvings: nat, scale: nat)
    requires
        halvings <= scale,
    ensures
        parts(halvings, scale + 1) == 2 * parts(halvings, scale),
    decreases scale - halvings,
{
    if halvings < scale {
        lemma_parts_scale(halvings + 1, scale);
    } else {
        assert(parts(halvings + 1, scale + 1) == 1);
    }
}

proof fn lemma_parts_positive(halvings: nat, scale: nat)
    ensures
        parts(halvings, scale) >= 1,
    decreases scale - halvings,
{
    if halvings < scale {
        lemma_parts_positive(halvings + 1, scale);
    }
}

proof fn lemma_settled_scale(settled: Seq<bool>, scale: nat)
    requires
        settled.len() <= scale + 1,
    ensures
        settled_parts(settled, scale + 1) == 2 * settled_parts(settled, scale),
    decreases settled.len(),
{
    if settled.len() > 0 {
        lemma_settled_scale(settled.drop_last(), scale);
        lemma_parts_scale((settled.len() - 1) as nat, scale);
    }
}

proof fn lemma_alive_scale(alive: Seq<nat>, scale: nat)
    requires
        forall|i: int| 0 <= i < alive.len() ==> #[trigger] alive[i] <= scale,
    ensures
        alive_parts(alive, scale + 1) == 2 * alive_parts(alive, scale),
    decreases alive.len(),
{
    if alive.len() > 0 {
        assert(alive[alive.len() - 1] <= scale);
        lemma_alive_scale(alive.drop_last(), scale);
        lemma_parts_scale(alive.last(), scale);
    }
}

/// What changes with one entry.
proof fn lemma_settled_update(settled: Seq<bool>, k: nat, bit: bool, scale: nat)
    requires
        k < settled.len(),
        settled[k as int] != bit,
    ensures
        settled_parts(settled.update(k as int, bit), scale) + (if bit {
            0
        } else {
            parts(k, scale)
        }) == settled_parts(settled, scale) + (if bit {
            parts(k, scale)
        } else {
            0
        }),
    decreases settled.len(),
{
    let after = settled.update(k as int, bit);
    if k + 1 == settled.len() {
        assert(after.drop_last() =~= settled.drop_last());
    } else {
        assert(after.drop_last() =~= settled.drop_last().update(k as int, bit));
        lemma_settled_update(settled.drop_last(), k, bit, scale);
    }
}

/// Shares that were each halved do not make the whole.
proof fn lemma_settled_below_whole(settled: Seq<bool>, scale: nat)
    requires
        0 < settled.len() <= scale + 1,
        !settled[0],
    ensures
        settled_parts(settled, scale) + parts((settled.len() - 1) as nat, scale) <= parts(0, scale),
    decreases settled.len(),
{
    if settled.len() == 1 {
        assert(settled_parts(settled.drop_last(), scale) == 0);
    } else {
        lemma_settled_below_whole(settled.drop_last(), scale);
        assert(parts((settled.len() - 2) as nat, scale) == 2 * parts(
            (settled.len() - 1) as nat,
            scale,
        ));
    }
}

proof fn lemma_extended(settled: Seq<bool>, len: nat, scale: nat)
    requires
        settled.len() > 0 ==> !settled[0],
    ensures
        extended(settled, len).len() == (if settled.len() >= len {
            settled.len()
        } else {
            len
        }),
        extended(settled, len).len() > 0 ==> !extended(settled, len)[0],
        settled_parts(extended(settled, len), scale) == settled_parts(settled, scale),
    decreases len - settled.len(),
{
    if settled.len() < len {
        lemma_extended(settled.push(false), len, scale);
        assert(settled.push(false).drop_last() =~= settled);
    }
}

/// Adding a share adds its parts, unless that makes the whole or more.
proof fn lemma_carried(settled: Seq<bool>, halvings: nat, scale: nat)
    requires
        halvings < settled.len() <= scale + 1,
        !settled[0],
    ensures
        match carried(settled, halvings) {
            Some(after) => {
                &&& after.len() == settled.len()
                &&& !after[0]
                &&& settled_parts(after, scale) == settled_parts(settled, scale) + parts(
                    halvings,
                    scale,
                )
            },
            None => settled_parts(settled, scale) + parts(halvings, scale) >= parts(0, scale),
        },
    decreases halvings,
{
    if halvings > 0 {
        if settled[halvings as int] {
            let rest = settled.update(halvings as int, false);
            lemma_settled_update(settled, halvings, false, scale);
            lemma_carried(rest, (halvings - 1) as nat, scale);
            assert(parts((halvings - 1) as nat, scale) == 2 * parts(halvings, scale));
        } else {
            lemma_settled_update(settled, halvings, true, scale);
        }
    }
}

proof fn lemma_alive_update(alive: Seq<nat>, i: int, halvings: nat, scale: nat)
    requires
        0 <= i < alive.len(),
    ensures
        alive_parts(alive.update(i, halvings), scale) + parts(alive[i], scale) == alive_parts(
            alive,
            scale,
        ) + parts(halvings, scale),
    decreases alive.len(),
{
    let after = alive.update(i, halvings);
    if i + 1 == alive.len() {
        assert(after.drop_last() =~= alive.drop_last());
    } else {
        assert(after.drop_last() =~= alive.drop_last().update(i, halvings));
        lemma_alive_update(alive.drop_last(), i, halvings, scale);
    }
}

proof fn lemma_alive_remove(alive: Seq<nat>, i: int, scale: nat)
    requires
        0 <= i < alive.len(),
    ensures
        alive_parts(alive.remove(i), scale) + parts(alive[i], scale) == alive_parts(alive, scale),
    decreases alive.len(),
{
    let after = alive.remove(i);
    if i + 1 == alive.len() {
        assert(after =~= alive.drop_last());
    } else {
        assert(after.drop_last() =~= alive.drop_last().remove(i));
        lemma_alive_remove(alive.drop_last(), i, scale);
    }
}

/// Whether the shares of the views that are alive and those that came back make the whole.
spec fn complete(state: LeaseState, scale: nat) -> bool {
    &&& forall|i: int| 0 <= i < state.alive.len() ==> #[trigger] state.alive[i] <= scale
    &&& state.settled.len() <= scale + 1
    &&& state.settled.len() > 0 ==> !state.settled[0]
    &&& alive_parts(state.alive, scale) + settled_parts(state.settled, scale) == parts(0, scale)
}

/// Whether a lease has ended exactly if no view is left.
spec fn ends_in_time(state: LeaseState, scale: nat) -> bool {
    if state.alive.len() == 0 {
        state.endings == 1
    } else {
        state.endings == 0 && complete(state, scale)
    }
}

proof fn lemma_complete_scale(state: LeaseState, scale: nat)
    requires
        complete(state, scale),
    ensures
        complete(state, scale + 1),
{
    lemma_alive_scale(state.alive, scale);
    lemma_settled_scale(state.settled, scale);
    lemma_parts_scale(0, scale);
}

proof fn lemma_split_keeps(before: LeaseState, i: int, scale: nat)
    requires
        complete(before, scale),
        0 <= i < before.alive.len(),
    ensures
        complete(
            LeaseState {
                alive: before.alive.update(i, before.alive[i] + 1).push(before.alive[i] + 1),
                ..before
            },
            scale + 1,
        ),
{
    lemma_complete_scale(before, scale);
    let halvings = before.alive[i] + 1;
    let alive = before.alive.update(i, halvings);
    lemma_alive_update(before.alive, i, halvings, scale + 1);
    assert(alive.push(halvings).drop_last() =~= alive);
    assert(parts(before.alive[i], scale + 1) == 2 * parts(halvings, scale + 1));
}

proof fn lemma_release_keeps(before: LeaseState, i: int, scale: nat)
    requires
        complete(before, scale),
        0 <= i < before.alive.len(),
    ensures
        settle(before.settled, before.alive[i]) is None <==> before.alive.len() == 1,
        settle(before.settled, before.alive[i]) matches Some(settled) ==> complete(
            LeaseState { alive: before.alive.remove(i), settled, endings: before.endings },
            scale,
        ),
{
    let halvings = before.alive[i];
    let alive = before.alive.remove(i);
    let all = extended(before.settled, halvings + 1);
    lemma_alive_remove(before.alive, i, scale);
    lemma_extended(before.settled, halvings + 1, scale);
    lemma_carried(all, halvings, scale);
    match settle(before.settled, halvings) {
        Some(settled) => {
            lemma_settled_below_whole(settled, scale);
            lemma_parts_positive((settled.len() - 1) as nat, scale);
            assert(alive_parts(alive, scale) > 0);
        },
        None => {
            assert(alive_parts(alive, scale) == 0);
            if alive.len() > 0 {
                lemma_parts_positive(alive.last(), scale);
            }
        },
    }
}

proof fn lemma_ends_in_time(history: Seq<LeaseEvent>)
    requires
        possible(history),
    ensures
        ends_in_time(state_after(history), history.len()),
    decreases history.len(),
{
    if history.len() == 0 {
        let state = state_after(history);
        assert(state.alive.drop_last() =~= Seq::<nat>::empty());
        assert(alive_parts(state.alive.drop_last(), 0) == 0);
        assert(parts(0, 0) == 1);
    } else {
        let before = state_after(history.drop_last());
        let scale = (history.len() - 1) as nat;
        lemma_ends_in_time(history.drop_last());
        match history.last() {
            LeaseEvent::Split(i) => {
                lemma_split_keeps(before, i, scale);
            },
            LeaseEvent::Release(i) => {
                lemma_release_keeps(before, i, scale);
                if before.alive.len() > 1 {
                    lemma_complete_scale(state_after(history), scale);
                }
            },
        }
    }
}

/// However the views of a lease are split and released, in whichever order: it ends once, when the
/// last view is released, and not while one is alive.
pub proof fn law_lease_ends_once(history: Seq<LeaseEvent>)
    requires
        possible(history),
    ensures
        state_after(history).endings == (if state_after(history).alive.len() == 0 {
            1int
        } else {
            0int
        }),
{
    lemma_ends_in_time(history);
}

/// Bytes that were put into spare room are claimed from the front, in order; beyond them zeros are
/// claimed, and what was not claimed stays.
pub proof fn law_spare_bytes_are_claimed(spare: Seq<u8>, len: int)
    requires
        0 <= len,
    ensures
        padded(spare, len).len() == len,
        forall|i: int| 0 <= i < len && i < spare.len() ==> #[trigger] padded(spare, len)[i] == spare[i],
        forall|i: int| spare.len() <= i < len ==> #[trigger] padded(spare, len)[i] == 0,
        len <= spare.len() ==> padded(spare, len) + unclaimed(spare, len) == spare,
        len >= spare.len() ==> unclaimed(spare, len).len() == 0,
{
    if len <= spare.len() {
        assert(padded(spare, len) + unclaimed(spare, len) =~= spare);
    }
}

/// The errors name what was tried, and how much was asked for before how much there is.
pub proof fn law_errors_name_what_was_tried(op: Seq<char>, len: int, available: int)
    ensures
        frozen_text(op) == "PooledBuffer 已冻结，无法执行 "@ + op,
        beyond_room_text(len, available) == "PooledBuffer::advance_mut 超出剩余可写空间：请求 "@
            + decimal(len) + "，实际 "@ + decimal(available),
{
}

/// The first release of the only view ends a lease; half of a share is released without ending it, and
/// the other half ends it then.
pub proof fn law_halves_make_the_whole()
    ensures
        settle(Seq::empty(), 0) is None,
        settle(Seq::empty(), 1) is Some,
        settle(settle(Seq::empty(), 1)->0, 1) is None,
{
    reveal_with_fuel(extended, 3);
    reveal_with_fuel(carried, 3);
}

/// A view that is released gives its storage back empty and with its room, if it could still be written
/// to; storage that came back before stays what it is. A view reports at least the room that it has.
pub proof fn law_released_views(
    before: Option<bytes::BytesMut>,
    view: PooledBuffer,
    after: Option<bytes::BytesMut>,
    len: int,
)
    ensures
        gave_back(before, view, after) && before is Some ==> after == before,
        gave_back(before, view, after) && before is None && view.writable() ==> after is Some
            && view.room() <= given_room(after->0) && stored(after->0).len() == 0,
        covered(view) ==> (view.reports() matches Some(capacity) ==> view.room() <= capacity),
        view.writable() ==> room_behind(view, len) == view.room() - len,
        !view.writable() ==> room_behind(view, len) == view.room(),
{
}

/// A lent buffer serves every request that its remaining bytes can serve.
pub proof fn law_readable_bytes_are_served(buffer: PooledBuffer)
    ensures
        buffer.reliable(),
{
}

} // verus!
