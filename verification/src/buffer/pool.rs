//! A pool that keeps storage in a free list.
use crate::buffer::contract::{BufferPool, PoolStatDimension, PoolStats, WritableBuffer};
use crate::buffer::pooled::{BufferRecycler, Lease, PooledBuffer, ReclaimedBuffer};
use crate::buffer::storage::{clear_storage, new_storage, reserve_storage, storage_capacity};
use crate::error::CoreError;
use vstd::prelude::*;

verus! {

use crate::buffer::contract::{fits, ReadableBuffer, Share};
use crate::buffer::pooled::{covered, gave_back, settle};
use crate::buffer::storage::{given_room, stored};

/// The sum of two counters, modulo the size of a counter.
pub open spec fn wrapped(a: int, b: int) -> int {
    if a + b > usize::MAX {
        a + b - usize::MAX - 1
    } else {
        a + b
    }
}

/// The difference of two counters, at least zero.
pub open spec fn floored(a: int, b: int) -> int {
    if a < b {
        0
    } else {
        a - b
    }
}

/// One more, up to the largest counter.
pub open spec fn counted(a: int) -> int {
    if a < usize::MAX {
        a + 1
    } else {
        a
    }
}

/// The counters of a pool.
#[derive(Debug, Clone, Copy, PartialEq, Eq)]
pub struct PoolMetrics {
    /// Bytes allocated and not given up.
    pub allocated_bytes: usize,
    /// Bytes held in memory.
    pub resident_bytes: usize,
    /// Bytes in the free list.
    pub available_bytes: usize,
    /// Buffers that are lent.
    pub active_buffers: usize,
    /// Requests that were refused.
    pub failed_acquisitions: u64,
    /// Requests that were granted.
    pub total_allocated: usize,
    /// Leases that have ended.
    pub total_recycled: usize,
    /// Requests that the free list could not serve.
    pub pool_misses: usize,
    /// Bytes allocated and not given up.
    pub total_bytes: usize,
}

impl PoolMetrics {
    /// The counters of a new pool.
    pub open spec fn zero() -> Self {
        PoolMetrics {
            allocated_bytes: 0,
            resident_bytes: 0,
            available_bytes: 0,
            active_buffers: 0,
            failed_acquisitions: 0,
            total_allocated: 0,
            total_recycled: 0,
            pool_misses: 0,
            total_bytes: 0,
        }
    }

    /// After `capacity` bytes were allocated.
    pub open spec fn grown(self, capacity: int) -> Self {
        PoolMetrics {
            allocated_bytes: wrapped(self.allocated_bytes as int, capacity) as usize,
            resident_bytes: wrapped(self.resident_bytes as int, capacity) as usize,
            total_bytes: wrapped(self.total_bytes as int, capacity) as usize,
            ..self
        }
    }

    /// After `capacity` bytes were given up.
    pub open spec fn lost(self, capacity: int) -> Self {
        PoolMetrics {
            allocated_bytes: floored(self.allocated_bytes as int, capacity) as usize,
            resident_bytes: floored(self.resident_bytes as int, capacity) as usize,
            total_bytes: floored(self.total_bytes as int, capacity) as usize,
            ..self
        }
    }

    /// After `capacity` bytes came into the free list.
    pub open spec fn freed(self, capacity: int) -> Self {
        PoolMetrics {
            available_bytes: wrapped(self.available_bytes as int, capacity) as usize,
            ..self
        }
    }

    /// After `capacity` bytes left the free list.
    pub open spec fn taken(self, capacity: int) -> Self {
        PoolMetrics {
            available_bytes: floored(self.available_bytes as int, capacity) as usize,
            ..self
        }
    }

    /// After `reclaimed` bytes of the free list were given up.
    pub open spec fn shrunk(self, reclaimed: int) -> Self {
        self.taken(reclaimed).lost(reclaimed)
    }

    /// After one more buffer was lent.
    pub open spec fn lent(self) -> Self {
        PoolMetrics {
            total_allocated: counted(self.total_allocated as int) as usize,
            active_buffers: wrapped(self.active_buffers as int, 1) as usize,
            ..self
        }
    }

    /// After the free list could not serve a request.
    pub open spec fn missed(self) -> Self {
        PoolMetrics { pool_misses: counted(self.pool_misses as int) as usize, ..self }
    }

    /// After a lease has ended.
    pub open spec fn returned(self) -> Self {
        PoolMetrics {
            total_recycled: counted(self.total_recycled as int) as usize,
            active_buffers: floored(self.active_buffers as int, 1) as usize,
            ..self
        }
    }

    /// The counters of a new pool.
    fn new() -> (r: Self)
        ensures
            r == PoolMetrics::zero(),
    {
        PoolMetrics {
            allocated_bytes: 0,
            resident_bytes: 0,
            available_bytes: 0,
            active_buffers: 0,
            failed_acquisitions: 0,
            total_allocated: 0,
            total_recycled: 0,
            pool_misses: 0,
            total_bytes: 0,
        }
    }

    /// Counts allocated bytes.
    pub fn increase_on_new_allocation(&mut self, capacity: usize)
        ensures
            *final(self) == old(self).grown(capacity as int),
    {
        self.allocated_bytes = self.allocated_bytes.wrapping_add(capacity);
        self.resident_bytes = self.resident_bytes.wrapping_add(capacity);
        self.total_bytes = self.total_bytes.wrapping_add(capacity);
    }

    /// Counts bytes that come into the free list.
    pub fn increase_available(&mut self, capacity: usize)
        ensures
            *final(self) == old(self).freed(capacity as int),
    {
        self.available_bytes = self.available_bytes.wrapping_add(capacity);
    }

    /// Counts bytes that leave the free list.
    pub fn decrease_available(&mut self, capacity: usize)
        ensures
            *final(self) == old(self).taken(capacity as int),
    {
        self.available_bytes = self.available_bytes.saturating_sub(capacity);
    }

    /// Counts bytes that are given up.
    pub fn decrease_on_loss(&mut self, capacity: usize)
        ensures
            *final(self) == old(self).lost(capacity as int),
    {
        self.allocated_bytes = self.allocated_bytes.saturating_sub(capacity);
        self.resident_bytes = self.resident_bytes.saturating_sub(capacity);
        self.total_bytes = self.total_bytes.saturating_sub(capacity);
    }

    /// Counts bytes of the free list that are given up.
    pub fn decrease_on_shrink(&mut self, capacity: usize)
        ensures
            *final(self) == old(self).shrunk(capacity as int),
    {
        self.decrease_available(capacity);
        self.decrease_on_loss(capacity);
    }

    /// Counts a buffer that is lent.
    fn increase_active_buffers(&mut self)
        ensures
            *final(self) == (PoolMetrics {
                active_buffers: wrapped(old(self).active_buffers as int, 1) as usize,
                ..*old(self)
            }),
    {
        self.active_buffers = self.active_buffers.wrapping_add(1);
    }

    /// Counts a buffer that has come back.
    fn decrease_active_buffers(&mut self)
        ensures
            *final(self) == (PoolMetrics {
                active_buffers: floored(old(self).active_buffers as int, 1) as usize,
                ..*old(self)
            }),
    {
        self.active_buffers = self.active_buffers.saturating_sub(1);
    }

    /// Counts a request.
    fn record_allocation(&mut self)
        ensures
            *final(self) == (PoolMetrics {
                total_allocated: counted(old(self).total_allocated as int) as usize,
                ..*old(self)
            }),
    {
        self.total_allocated = self.total_allocated.saturating_add(1);
    }

    /// Counts a request that the free list could not serve.
    fn record_pool_miss(&mut self)
        ensures
            *final(self) == old(self).missed(),
    {
        self.pool_misses = self.pool_misses.saturating_add(1);
    }

    /// Counts a lease that has ended.
    fn record_recycle(&mut self)
        ensures
            *final(self) == (PoolMetrics {
                total_recycled: counted(old(self).total_recycled as int) as usize,
                ..*old(self)
            }),
    {
        self.total_recycled = self.total_recycled.saturating_add(1);
    }
}

/// The position of the first capacity that is large enough.
pub open spec fn fitting(capacities: Seq<usize>, min_capacity: int, at: int) -> Option<int>
    decreases capacities.len() - at,
{
    if at >= capacities.len() {
        None
    } else if capacities[at] >= min_capacity {
        Some(at)
    } else {
        fitting(capacities, min_capacity, at + 1)
    }
}

/// The sum of capacities, up to the largest counter.
pub open spec fn total_capacity(capacities: Seq<usize>) -> int
    decreases capacities.len(),
{
    if capacities.len() == 0 {
        0
    } else {
        let sum = total_capacity(capacities.drop_last()) + capacities.last();
        if sum > usize::MAX {
            usize::MAX as int
        } else {
            sum
        }
    }
}

/// The sum of the rooms that entries of a free list are sure to have.
pub open spec fn total_room(rooms: Seq<int>) -> int
    decreases rooms.len(),
{
    if rooms.len() == 0 {
        0
    } else {
        total_room(rooms.drop_last()) + rooms.last()
    }
}

/// Before the first capacity that is large enough, none is.
proof fn lemma_fitting_is_first(capacities: Seq<usize>, min_capacity: int, at: int, k: int)
    requires
        0 <= at <= k < capacities.len(),
        match fitting(capacities, min_capacity, at) {
            Some(i) => k < i,
            None => true,
        },
    ensures
        capacities[k] < min_capacity,
    decreases k - at,
{
    if at < k {
        lemma_fitting_is_first(capacities, min_capacity, at + 1, k);
    }
}

/// Capacities that cover rooms add up to what covers all the rooms.
proof fn lemma_total_covers(capacities: Seq<usize>, rooms: Seq<int>)
    requires
        capacities.len() == rooms.len(),
        forall|i: int| 0 <= i < rooms.len() ==> rooms[i] <= #[trigger] capacities[i],
    ensures
        total_room(rooms) <= total_capacity(capacities) || total_capacity(capacities) == usize::MAX,
    decreases rooms.len(),
{
    if rooms.len() > 0 {
        assert(rooms.last() <= capacities[rooms.len() - 1]);
        lemma_total_covers(capacities.drop_last(), rooms.drop_last());
    }
}

/// Finds the first capacity that is large enough.
pub fn first_fit(capacities: &[usize], min_capacity: usize) -> (r: Option<usize>)
    ensures
        match r {
            Some(i) => fitting(capacities@, min_capacity as int, 0) == Some(i as int) && i
                < capacities@.len() && capacities@[i as int] >= min_capacity,
            None => fitting(capacities@, min_capacity as int, 0) is None,
        },
{
    let mut i: usize = 0;
    while i < capacities.len()
        invariant
            i <= capacities@.len(),
            fitting(capacities@, min_capacity as int, 0) == fitting(
                capacities@,
                min_capacity as int,
                i as int,
            ),
        decreases capacities@.len() - i,
    {
        if capacities[i] >= min_capacity {
            return Some(i);
        }
        i += 1;
    }
    None
}

/// Adds up capacities.
pub fn sum_capacities(capacities: &[usize]) -> (r: usize)
    ensures
        r == total_capacity(capacities@),
{
    let mut sum: usize = 0;
    let mut i: usize = 0;
    while i < capacities.len()
        invariant
            i <= capacities@.len(),
            sum == total_capacity(capacities@.take(i as int)),
        decreases capacities@.len() - i,
    {
        assert(capacities@.take(i + 1).drop_last() =~= capacities@.take(i as int));
        sum = sum.saturating_add(capacities[i]);
        i += 1;
    }
    assert(capacities@.take(i as int) =~= capacities@);
    sum
}

/// Storage that was lent, and what keeps track of it.
pub struct LeasedBuffer {
    /// The first view.
    pub view: PooledBuffer,
    /// The lease.
    pub lease: Lease,
}

/// A pool that lends storage and keeps what comes back in a free list.
#[derive(Debug)]
pub struct SlabBufferPool {
    free_list: Vec<bytes::BytesMut>,
    metrics: PoolMetrics,
}

/// A list without one of its entries, in whose place the last one moves.
pub open spec fn swap_removed(rooms: Seq<int>, i: int) -> Seq<int> {
    if i == rooms.len() - 1 {
        rooms.drop_last()
    } else {
        rooms.drop_last().update(i, rooms.last())
    }
}

/// Whether entry `i` of a free list, which has room for `capacity` bytes, served a request: it is the
/// first that is large enough, so none before it is sure to be.
pub open spec fn served(
    before: PoolMetrics,
    rooms: Seq<int>,
    min_capacity: int,
    after: PoolMetrics,
    left: Seq<int>,
    room: int,
    i: int,
    capacity: int,
) -> bool {
    &&& 0 <= i < rooms.len()
    &&& forall|k: int| 0 <= k < i ==> #[trigger] rooms[k] < min_capacity
    &&& left == swap_removed(rooms, i)
    &&& rooms[i] <= room
    &&& rooms[i] <= capacity
    &&& min_capacity <= capacity <= isize::MAX
    &&& after == before.taken(capacity).lent()
}

/// Whether `capacity` bytes were allocated to serve a request, for want of an entry of the free list
/// that is large enough.
pub open spec fn allocated(
    before: PoolMetrics,
    rooms: Seq<int>,
    min_capacity: int,
    after: PoolMetrics,
    left: Seq<int>,
    capacity: int,
) -> bool {
    &&& forall|k: int| 0 <= k < rooms.len() ==> #[trigger] rooms[k] < min_capacity
    &&& left == rooms
    &&& min_capacity <= capacity <= isize::MAX
    &&& after == before.missed().grown(capacity).lent()
}

/// Whether lending storage that has at least `room` turned the counters `before` into `after`, and
/// a free list whose entries have at least these `rooms` into one that has `left`. The free list
/// serves the request if an entry is sure to have the room, and storage is allocated if none has it.
/// How much more room there is than that is up to the allocator.
pub open spec fn lending(
    before: PoolMetrics,
    rooms: Seq<int>,
    min_capacity: int,
    after: PoolMetrics,
    left: Seq<int>,
    room: int,
) -> bool {
    &&& min_capacity <= room
    &&& {
        ||| exists|i: int, capacity: int| #[trigger]
            served(before, rooms, min_capacity, after, left, room, i, capacity)
        ||| exists|capacity: int| #[trigger]
            allocated(before, rooms, min_capacity, after, left, capacity)
    }
}

impl Default for SlabBufferPool {
    fn default() -> (r: Self)
        ensures
            r.rooms() == Seq::<int>::empty(),
            r.counters() == PoolMetrics::zero(),
    {
        SlabBufferPool::new()
    }
}

impl SlabBufferPool {
    /// How many bytes each entry of the free list is sure to have room for.
    pub closed spec fn rooms(&self) -> Seq<int> {
        Seq::new(self.free_list@.len(), |i: int| given_room(self.free_list@[i]))
    }

    /// How many entries the free list has.
    pub open spec fn slots(&self) -> int {
        self.rooms().len() as int
    }

    /// How many bytes an entry of the free list is sure to have room for.
    pub open spec fn room_at(&self, i: int) -> int {
        self.rooms()[i]
    }

    /// The counters.
    pub closed spec fn counters(&self) -> PoolMetrics {
        self.metrics
    }

    /// A pool that has allocated nothing yet.
    pub fn new() -> (r: Self)
        ensures
            r.rooms() == Seq::<int>::empty(),
            r.counters() == PoolMetrics::zero(),
    {
        SlabBufferPool { free_list: Vec::new(), metrics: PoolMetrics::new() }
    }

    /// The capacities of the entries of the free list.
    fn capacities(&self) -> (r: Vec<usize>)
        ensures
            r@.len() == self.slots(),
            forall|i: int| 0 <= i < r@.len() ==> #[trigger] r@[i] <= isize::MAX,
            forall|i: int| 0 <= i < r@.len() ==> self.room_at(i) <= #[trigger] r@[i],
    {
        let mut list: Vec<usize> = Vec::new();
        let mut i: usize = 0;
        while i < self.free_list.len()
            invariant
                i <= self.free_list@.len(),
                list@.len() == i,
                forall|k: int| 0 <= k < list@.len() ==> #[trigger] list@[k] <= isize::MAX,
                forall|k: int| 0 <= k < list@.len() ==> self.room_at(k) <= #[trigger] list@[k],
            decreases self.free_list@.len() - i,
        {
            list.push(storage_capacity(&self.free_list[i]));
            i += 1;
        }
        list
    }

    /// Takes empty storage out of the free list, the first that is large enough, or allocates it.
    pub fn acquire_buffer(&mut self, min_capacity: usize) -> (r: bytes::BytesMut)
        requires
            fits(min_capacity as int),
        ensures
            stored(r) == Seq::<u8>::empty(),
            min_capacity <= given_room(r),
            lending(
                old(self).counters(),
                old(self).rooms(),
                min_capacity as int,
                final(self).counters(),
                final(self).rooms(),
                given_room(r),
            ),
            forall|i: int|
                0 <= i < old(self).slots() && min_capacity <= #[trigger] old(self).room_at(i)
                    ==> final(self).slots() == old(self).slots() - 1,
    {
        let ghost before = self.metrics;
        let ghost rooms = self.rooms();
        let capacities = self.capacities();
        self.metrics.record_allocation();
        let mut buffer = match first_fit(capacities.as_slice(), min_capacity) {
            Some(index) => {
                let capacity: usize = capacities[index];
                let found = self.free_list.swap_remove(index);
                self.metrics.decrease_available(capacity);
                self.metrics.increase_active_buffers();
                proof {
                    let i = index as int;
                    assert(self.metrics == before.taken(capacity as int).lent());
                    assert(self.rooms() =~= swap_removed(rooms, i));
                    assert forall|k: int| 0 <= k < i implies #[trigger] rooms[k] < min_capacity by {
                        lemma_fitting_is_first(capacities@, min_capacity as int, 0, k);
                        assert(capacities@[k] < min_capacity);
                    }
                    assert(rooms[i] <= capacities@[i]);
                    assert(given_room(found) == rooms[i]);
                }
                found
            },
            None => {
                self.metrics.record_pool_miss();
                let made = new_storage(min_capacity);
                let capacity: usize = storage_capacity(&made);
                self.metrics.increase_on_new_allocation(capacity);
                self.metrics.increase_active_buffers();
                proof {
                    let c = capacity as int;
                    assert(self.metrics == before.missed().grown(c).lent());
                    assert forall|k: int| 0 <= k < rooms.len() implies #[trigger] rooms[k]
                        < min_capacity by {
                        lemma_fitting_is_first(capacities@, min_capacity as int, 0, k);
                        assert(capacities@[k] < min_capacity);
                    }
                    assert(allocated(before, rooms, min_capacity as int, self.metrics, rooms, c));
                }
                made
            },
        };
        clear_storage(&mut buffer);
        // Nothing grows here: either way the storage is large enough.
        reserve_storage(&mut buffer, min_capacity);
        proof {
            match fitting(capacities@, min_capacity as int, 0) {
                Some(i) => {
                    assert(served(
                        before,
                        rooms,
                        min_capacity as int,
                        self.metrics,
                        self.rooms(),
                        given_room(buffer),
                        i,
                        capacities@[i] as int,
                    ));
                },
                None => {},
            }
        }
        buffer
    }

    /// Empties the free list, and says how many bytes that gave up.
    pub fn shrink_free_list(&mut self) -> (r: usize)
        ensures
            final(self).rooms() == Seq::<int>::empty(),
            final(self).counters() == old(self).counters().shrunk(r as int),
            total_room(old(self).rooms()) <= r || r == usize::MAX,
            old(self).slots() == 0 ==> r == 0,
    {
        let capacities = self.capacities();
        let reclaimed: usize = sum_capacities(capacities.as_slice());
        proof {
            assert forall|i: int| 0 <= i < capacities@.len() implies self.rooms()[i]
                <= #[trigger] capacities@[i] by {
                assert(self.room_at(i) <= capacities@[i]);
            }
            lemma_total_covers(capacities@, self.rooms());
        }
        self.free_list.clear();
        assert(self.rooms() =~= Seq::<int>::empty());
        self.metrics.decrease_on_shrink(reclaimed);
        reclaimed
    }

    /// What the pool reports about itself.
    pub fn snapshot(&self) -> (r: PoolStats)
        ensures
            reported(r, self.counters(), self.slots()),
    {
        let mut dimensions: Vec<PoolStatDimension> = Vec::new();
        dimensions.push(
            PoolStatDimension { key: "slab_free_slots", value: self.free_list.len() },
        );
        dimensions.push(
            PoolStatDimension { key: "active_buffers", value: self.metrics.active_buffers },
        );
        dimensions.push(
            PoolStatDimension { key: "total_allocated", value: self.metrics.total_allocated },
        );
        dimensions.push(
            PoolStatDimension { key: "total_recycled", value: self.metrics.total_recycled },
        );
        dimensions.push(PoolStatDimension { key: "pool_misses", value: self.metrics.pool_misses });
        dimensions.push(PoolStatDimension { key: "total_bytes", value: self.metrics.total_bytes });
        PoolStats {
            allocated_bytes: self.metrics.allocated_bytes,
            resident_bytes: self.metrics.resident_bytes,
            active_leases: self.metrics.active_buffers,
            available_bytes: self.metrics.available_bytes,
            pending_lease_requests: 0,
            failed_acquisitions: self.metrics.failed_acquisitions,
            custom_dimensions: dimensions,
        }
    }

    /// What the pool reports about itself.
    pub fn stats(&self) -> (r: PoolStats)
        ensures
            reported(r, self.counters(), self.slots()),
    {
        self.snapshot()
    }

    /// Lends storage.
    fn allocate_pooled(&mut self, min_capacity: usize) -> (r: Result<LeasedBuffer, CoreError>)
        requires
            fits(min_capacity as int),
        ensures
            r is Ok,
            fresh(r->Ok_0),
            r->Ok_0.view@ == Seq::<u8>::empty(),
            r->Ok_0.view.writable(),
            covered(r->Ok_0.view),
            lending(
                old(self).counters(),
                old(self).rooms(),
                min_capacity as int,
                final(self).counters(),
                final(self).rooms(),
                r->Ok_0.view.room(),
            ),
            forall|i: int|
                0 <= i < old(self).slots() && min_capacity <= #[trigger] old(self).room_at(i)
                    ==> final(self).slots() == old(self).slots() - 1,
    {
        let raw = self.acquire_buffer(min_capacity);
        let (view, lease) = PooledBuffer::new(raw);
        Ok(LeasedBuffer { view, lease })
    }

    /// Lends an empty buffer for writing. How much room it has beyond `min_capacity` is up to the
    /// allocator.
    pub fn alloc_writable(&mut self, min_capacity: usize) -> (r: Result<LeasedBuffer, CoreError>)
        requires
            fits(min_capacity as int),
        ensures
            r is Ok,
            fresh(r->Ok_0),
            r->Ok_0.view@ == Seq::<u8>::empty(),
            r->Ok_0.view.writable(),
            covered(r->Ok_0.view),
            lending(
                old(self).counters(),
                old(self).rooms(),
                min_capacity as int,
                final(self).counters(),
                final(self).rooms(),
                r->Ok_0.view.room(),
            ),
            forall|i: int|
                0 <= i < old(self).slots() && min_capacity <= #[trigger] old(self).room_at(i)
                    ==> final(self).slots() == old(self).slots() - 1,
    {
        self.allocate_pooled(min_capacity)
    }

    /// Lends a frozen buffer that holds `data`.
    pub fn alloc_readable(&mut self, data: &[u8]) -> (r: Result<LeasedBuffer, CoreError>)
        requires
            fits(data@.len() as int),
        ensures
            r is Ok,
            r->Ok_0.view@ == data@,
            !r->Ok_0.view.writable(),
            r->Ok_0.view.reports() == Some(data@.len() as usize),
            first_view(r->Ok_0),
            exists|room: int| #[trigger]
                lending(
                    old(self).counters(),
                    old(self).rooms(),
                    data@.len() as int,
                    final(self).counters(),
                    final(self).rooms(),
                    room,
                ),
            forall|i: int|
                0 <= i < old(self).slots() && data@.len() <= #[trigger] old(self).room_at(i)
                    ==> final(self).slots() == old(self).slots() - 1,
    {
        let LeasedBuffer { view, lease } = match self.allocate_pooled(data.len()) {
            Ok(leased) => leased,
            Err(e) => {
                return Err(e);
            },
        };
        let mut writable = view;
        if data.len() > 0 {
            match writable.put_slice(data) {
                Ok(_) => {},
                Err(e) => {
                    return Err(e);
                },
            }
        }
        assert(writable@ =~= data@);
        match writable.freeze() {
            Ok(frozen) => Ok(LeasedBuffer { view: frozen, lease }),
            Err(e) => Err(e),
        }
    }

    /// Releases a view of a lease. If it is the last one alive, what was lent comes back to the pool;
    /// else the lease goes on.
    pub fn release(&mut self, leased: LeasedBuffer) -> (r: Option<Lease>)
        requires
            leased.lease.live(),
            leased.view.origin() == leased.lease.origin(),
        ensures
            match settle(leased.lease.settled(), leased.view.halvings()) {
                Some(settled) => {
                    &&& r matches Some(lease)
                    &&& lease.live()
                    &&& lease.settled() == settled
                    &&& lease.origin() == leased.lease.origin()
                    &&& lease.recorded() == final_capacity(leased)
                    &&& gave_back(leased.lease.storage(), leased.view, lease.storage())
                    &&& final(self).counters() == old(self).counters()
                    &&& final(self).rooms() == old(self).rooms()
                },
                None => {
                    &&& r is None
                    &&& exists|storage: Option<bytes::BytesMut>|
                        {
                            &&& gave_back(leased.lease.storage(), leased.view, storage)
                            &&& #[trigger] taken_back(
                                old(self).counters(),
                                old(self).rooms(),
                                final_capacity(leased),
                                storage,
                                final(self).counters(),
                                final(self).rooms(),
                            )
                        }
                },
            },
    {
        let LeasedBuffer { view, lease } = leased;
        let mut open = lease;
        match open.release(view) {
            Some(reclaimed) => {
                let ghost storage = reclaimed.storage();
                self.reclaim(reclaimed);
                assert(taken_back(
                    old(self).counters(),
                    old(self).rooms(),
                    final_capacity(leased),
                    storage,
                    self.counters(),
                    self.rooms(),
                ));
                None
            },
            None => Some(open),
        }
    }
}

/// Whether a view has all of a lease, of which nothing has come back.
pub open spec fn first_view(leased: LeasedBuffer) -> bool {
    &&& leased.lease.live()
    &&& leased.lease.settled() == Seq::<bool>::empty()
    &&& leased.lease.storage() is None
    &&& leased.view.origin() == leased.lease.origin()
    &&& leased.view.halvings() == 0
}

/// Whether a view has all of a lease, of which nothing has come back, and reports the capacity that
/// the lease recorded.
pub open spec fn fresh(leased: LeasedBuffer) -> bool {
    &&& first_view(leased)
    &&& leased.view.reports() == Some(leased.lease.recorded())
}

/// The capacity that a lease reports if its first view is the last one alive.
pub open spec fn final_capacity(leased: LeasedBuffer) -> usize {
    match leased.view.reports() {
        Some(capacity) => capacity,
        None => leased.lease.recorded(),
    }
}

/// Whether a report shows these counters and this number of entries in the free list.
pub open spec fn reported(stats: PoolStats, counters: PoolMetrics, slots: int) -> bool {
    let list = stats.custom_dimensions@;
    &&& stats.allocated_bytes == counters.allocated_bytes
    &&& stats.resident_bytes == counters.resident_bytes
    &&& stats.active_leases == counters.active_buffers
    &&& stats.available_bytes == counters.available_bytes
    &&& stats.pending_lease_requests == 0
    &&& stats.failed_acquisitions == counters.failed_acquisitions
    &&& list.len() == 6
    &&& list[0].key@ == "slab_free_slots"@ && list[0].value == slots
    &&& list[1].key@ == "active_buffers"@ && list[1].value == counters.active_buffers
    &&& list[2].key@ == "total_allocated"@ && list[2].value == counters.total_allocated
    &&& list[3].key@ == "total_recycled"@ && list[3].value == counters.total_recycled
    &&& list[4].key@ == "pool_misses"@ && list[4].value == counters.pool_misses
    &&& list[5].key@ == "total_bytes"@ && list[5].value == counters.total_bytes
}

/// Whether the end of a lease of this capacity turned the counters `before` into `after`, and a free
/// list whose entries have at least these `rooms` into one that has `left`. Storage that came back
/// is in the free list then, and has lost no room.
pub open spec fn taken_back(
    before: PoolMetrics,
    rooms: Seq<int>,
    capacity: usize,
    storage: Option<bytes::BytesMut>,
    after: PoolMetrics,
    left: Seq<int>,
) -> bool {
    match storage {
        Some(buffer) => {
            &&& after == before.returned().freed(capacity as int)
            &&& left.len() == rooms.len() + 1
            &&& left.drop_last() == rooms
            &&& given_room(buffer) <= left.last()
        },
        None => after == before.returned().lost(capacity as int) && left == rooms,
    }
}

impl BufferRecycler for SlabBufferPool {
    /// Takes storage back into the free list. Where only the capacity comes back, its bytes count
    /// as given up.
    fn reclaim(&mut self, reclaimed: ReclaimedBuffer)
        ensures
            taken_back(
                old(self).counters(),
                old(self).rooms(),
                reclaimed.recorded(),
                reclaimed.storage(),
                final(self).counters(),
                final(self).rooms(),
            ),
    {
        self.metrics.record_recycle();
        self.metrics.decrease_active_buffers();
        let capacity: usize = reclaimed.capacity();
        match reclaimed.into_buffer() {
            Some(buffer) => {
                let mut empty = buffer;
                clear_storage(&mut empty);
                self.metrics.increase_available(capacity);
                self.free_list.push(empty);
                assert(self.rooms().drop_last() =~= old(self).rooms());
            },
            None => {
                self.metrics.decrease_on_loss(capacity);
            },
        }
    }
}

impl BufferPool for SlabBufferPool {
    type Buffer = PooledBuffer;

    type Lease = Lease;

    open spec fn generous(&self) -> bool {
        true
    }

    open spec fn lends(lease: &Lease, share: Option<Share>) -> bool {
        &&& lease.live()
        &&& lease.settled() == Seq::<bool>::empty()
        &&& lease.storage() is None
        &&& share == Some(Share { origin: lease.origin(), halvings: 0 })
    }

    open spec fn answers(
        &self,
        min_capacity: usize,
        answer: Result<(PooledBuffer, Lease), CoreError>,
        after: Self,
    ) -> bool {
        answer matches Ok((view, lease)) && {
            &&& fresh((LeasedBuffer { view, lease }))
            &&& covered(view)
            &&& lending(
                self.counters(),
                self.rooms(),
                min_capacity as int,
                after.counters(),
                after.rooms(),
                view.room(),
            )
        }
    }

    /// Lends an empty buffer for writing.
    fn acquire(&mut self, min_capacity: usize) -> (r: Result<(PooledBuffer, Lease), CoreError>)
        ensures
            r matches Ok((view, lease)) && fresh((LeasedBuffer { view, lease })) && covered(view),
            lending(
                old(self).counters(),
                old(self).rooms(),
                min_capacity as int,
                final(self).counters(),
                final(self).rooms(),
                r->Ok_0.0.room(),
            ),
            forall|i: int|
                0 <= i < old(self).slots() && min_capacity <= #[trigger] old(self).room_at(i)
                    ==> final(self).slots() == old(self).slots() - 1,
    {
        match self.allocate_pooled(min_capacity) {
            Ok(LeasedBuffer { view, lease }) => Ok((view, lease)),
            Err(e) => Err(e),
        }
    }

    /// Empties the free list, and says how many bytes that gave up.
    fn shrink_to_fit(&mut self) -> (r: Result<usize, CoreError>)
        ensures
            r matches Ok(reclaimed) && {
                &&& final(self).counters() == old(self).counters().shrunk(reclaimed as int)
                &&& total_room(old(self).rooms()) <= reclaimed || reclaimed == usize::MAX
                &&& old(self).slots() == 0 ==> reclaimed == 0
            },
            final(self).rooms() == Seq::<int>::empty(),
    {
        Ok(self.shrink_free_list())
    }

    /// What the pool reports about itself.
    fn statistics(&self) -> (r: Result<PoolStats, CoreError>)
        ensures
            r matches Ok(stats) && reported(stats, self.counters(), self.slots()),
    {
        Ok(self.stats())
    }
}

/// Whether the counters fit together: the buffers that are lent are those that were granted and
/// have not come back, and no request misses the free list that was not made.
pub open spec fn balanced(counters: PoolMetrics) -> bool {
    &&& counters.active_buffers == counters.total_allocated - counters.total_recycled
    &&& counters.pool_misses <= counters.total_allocated
}

/// The counters of a pool always fit together: they do in a new pool, and no operation changes
/// that, as long as the count of requests has not reached its largest value and no lease ends that
/// the pool did not begin.
pub proof fn law_counters_stay_balanced(
    before: PoolMetrics,
    rooms: Seq<int>,
    min_capacity: int,
    capacity: usize,
    storage: Option<bytes::BytesMut>,
    after: PoolMetrics,
    left: Seq<int>,
    room: int,
)
    ensures
        balanced(PoolMetrics::zero()),
        balanced(before) && before.total_allocated < usize::MAX && lending(
            before,
            rooms,
            min_capacity,
            after,
            left,
            room,
        ) ==> balanced(after),
        balanced(before) && before.active_buffers > 0 && taken_back(
            before,
            rooms,
            capacity,
            storage,
            after,
            left,
        ) ==> balanced(after),
        balanced(before) ==> balanced(before.shrunk(capacity as int)),
{
}

/// Lending a buffer and taking it back leaves as many buffers lent as before.
pub proof fn law_lending_is_undone(
    before: PoolMetrics,
    rooms: Seq<int>,
    min_capacity: int,
    between: PoolMetrics,
    left: Seq<int>,
    room: int,
    capacity: usize,
    storage: Option<bytes::BytesMut>,
    after: PoolMetrics,
    end: Seq<int>,
)
    requires
        before.active_buffers < usize::MAX,
        lending(before, rooms, min_capacity, between, left, room),
        taken_back(between, left, capacity, storage, after, end),
    ensures
        between.active_buffers == before.active_buffers + 1,
        after.active_buffers == before.active_buffers,
        after.total_allocated == counted(before.total_allocated as int),
        after.total_recycled == counted(before.total_recycled as int),
{
}

/// Storage that came back serves a request that it is sure to have room for, and nothing is allocated
/// then.
pub proof fn law_storage_is_lent_again(
    before: PoolMetrics,
    rooms: Seq<int>,
    capacity: usize,
    storage: bytes::BytesMut,
    between: PoolMetrics,
    mid: Seq<int>,
    min_capacity: int,
    after: PoolMetrics,
    left: Seq<int>,
    room: int,
)
    requires
        taken_back(before, rooms, capacity, Some(storage), between, mid),
        min_capacity <= given_room(storage),
        lending(between, mid, min_capacity, after, left, room),
    ensures
        left.len() == rooms.len(),
        after.pool_misses == before.pool_misses,
        after.allocated_bytes == before.allocated_bytes,
        after.total_bytes == before.total_bytes,
{
    assert(mid[mid.len() - 1] >= min_capacity);
}

/// Shrinking leaves no bytes available, if no more were counted as available than the free list
/// held.
pub proof fn law_shrinking_leaves_nothing(before: PoolMetrics, reclaimed: int)
    requires
        before.available_bytes <= reclaimed,
    ensures
        before.shrunk(reclaimed).available_bytes == 0,
{
}

/// What counters do at their ends: sums go round, differences stop at zero, counts stop at the largest
/// value; in between they are sum, difference and one more.
pub proof fn law_counters_at_their_ends(a: usize, b: usize)
    ensures
        a + b <= usize::MAX ==> wrapped(a as int, b as int) == a + b,
        a + b > usize::MAX ==> wrapped(a as int, b as int) == a + b - (usize::MAX + 1),
        a >= b ==> floored(a as int, b as int) == a - b,
        a < b ==> floored(a as int, b as int) == 0,
        a < usize::MAX ==> counted(a as int) == a + 1,
        counted(usize::MAX as int) == usize::MAX,
{
}

/// Which counters an event moves, and in which direction; every other counter stays.
pub proof fn law_events_move_their_counters(m: PoolMetrics, n: usize)
    ensures
        m.grown(n as int) == (PoolMetrics {
            allocated_bytes: m.grown(n as int).allocated_bytes,
            resident_bytes: m.grown(n as int).resident_bytes,
            total_bytes: m.grown(n as int).total_bytes,
            ..m
        }),
        m.allocated_bytes + n <= usize::MAX ==> m.grown(n as int).allocated_bytes
            == m.allocated_bytes + n,
        m.resident_bytes + n <= usize::MAX ==> m.grown(n as int).resident_bytes == m.resident_bytes
            + n,
        m.total_bytes + n <= usize::MAX ==> m.grown(n as int).total_bytes == m.total_bytes + n,
        m.lost(n as int) == (PoolMetrics {
            allocated_bytes: m.lost(n as int).allocated_bytes,
            resident_bytes: m.lost(n as int).resident_bytes,
            total_bytes: m.lost(n as int).total_bytes,
            ..m
        }),
        m.allocated_bytes >= n ==> m.lost(n as int).allocated_bytes == m.allocated_bytes - n,
        m.resident_bytes >= n ==> m.lost(n as int).resident_bytes == m.resident_bytes - n,
        m.total_bytes >= n ==> m.lost(n as int).total_bytes == m.total_bytes - n,
        m.freed(n as int) == (PoolMetrics {
            available_bytes: m.freed(n as int).available_bytes,
            ..m
        }),
        m.available_bytes + n <= usize::MAX ==> m.freed(n as int).available_bytes
            == m.available_bytes + n,
        m.taken(n as int) == (PoolMetrics {
            available_bytes: m.taken(n as int).available_bytes,
            ..m
        }),
        m.available_bytes >= n ==> m.taken(n as int).available_bytes == m.available_bytes - n,
        m.lent() == (PoolMetrics {
            total_allocated: m.lent().total_allocated,
            active_buffers: m.lent().active_buffers,
            ..m
        }),
        m.total_allocated < usize::MAX ==> m.lent().total_allocated == m.total_allocated + 1,
        m.active_buffers < usize::MAX ==> m.lent().active_buffers == m.active_buffers + 1,
        m.missed() == (PoolMetrics { pool_misses: m.missed().pool_misses, ..m }),
        m.pool_misses < usize::MAX ==> m.missed().pool_misses == m.pool_misses + 1,
        m.returned() == (PoolMetrics {
            total_recycled: m.returned().total_recycled,
            active_buffers: m.returned().active_buffers,
            ..m
        }),
        m.total_recycled < usize::MAX ==> m.returned().total_recycled == m.total_recycled + 1,
        m.active_buffers > 0 ==> m.returned().active_buffers == m.active_buffers - 1,
        m.shrunk(n as int) == (PoolMetrics {
            available_bytes: m.taken(n as int).available_bytes,
            ..m.lost(n as int)
        }),
{
}

/// Giving up what was allocated, and taking what was freed, brings the counters back, as long as they
/// do not go round.
pub proof fn law_allocation_is_undone(m: PoolMetrics, n: usize)
    requires
        m.allocated_bytes + n <= usize::MAX,
        m.resident_bytes + n <= usize::MAX,
        m.total_bytes + n <= usize::MAX,
        m.available_bytes + n <= usize::MAX,
    ensures
        m.grown(n as int).lost(n as int) == m,
        m.freed(n as int).taken(n as int) == m,
        m.grown(n as int).freed(n as int).shrunk(n as int) == m,
{
}

/// The entry that serves a request is the first that is large enough.
pub proof fn law_first_entry_that_fits(capacities: Seq<usize>, min_capacity: int, at: int)
    requires
        0 <= at,
    ensures
        match fitting(capacities, min_capacity, at) {
            Some(i) => {
                &&& at <= i < capacities.len()
                &&& capacities[i] >= min_capacity
                &&& forall|k: int| at <= k < i ==> #[trigger] capacities[k] < min_capacity
            },
            None => forall|k: int|
                at <= k < capacities.len() ==> #[trigger] capacities[k] < min_capacity,
        },
    decreases capacities.len() - at,
{
    if at < capacities.len() {
        law_first_entry_that_fits(capacities, min_capacity, at + 1);
    }
}

/// Capacities add up, one more by what it is, up to the largest counter.
pub proof fn law_capacities_add_up(capacities: Seq<usize>, last: usize)
    ensures
        total_capacity(Seq::empty()) == 0,
        0 <= total_capacity(capacities) <= usize::MAX,
        total_capacity(capacities) + last <= usize::MAX ==> total_capacity(capacities.push(last))
            == total_capacity(capacities) + last,
        total_capacity(capacities) + last > usize::MAX ==> total_capacity(capacities.push(last))
            == usize::MAX,
    decreases capacities.len(),
{
    assert(capacities.push(last).drop_last() =~= capacities);
    if capacities.len() > 0 {
        law_capacities_add_up(capacities.drop_last(), last);
    }
}

/// A request that is served from the free list takes the capacity of the entry off what is available
/// and allocates nothing; one that is not is counted as missed, allocates and leaves the free list as
/// it is. Both lend one buffer.
pub proof fn law_lending_serves_or_allocates(
    before: PoolMetrics,
    rooms: Seq<int>,
    min_capacity: int,
    after: PoolMetrics,
    left: Seq<int>,
    room: int,
)
    requires
        lending(before, rooms, min_capacity, after, left, room),
        before.total_allocated < usize::MAX,
        before.active_buffers < usize::MAX,
        before.pool_misses < usize::MAX,
    ensures
        min_capacity <= room,
        after.total_allocated == before.total_allocated + 1,
        after.active_buffers == before.active_buffers + 1,
        after.total_recycled == before.total_recycled,
        after.failed_acquisitions == before.failed_acquisitions,
        left.len() == rooms.len() || left.len() == rooms.len() - 1,
        after.pool_misses == before.pool_misses || after.pool_misses == before.pool_misses + 1,
        left.len() == rooms.len() - 1 ==> after.pool_misses == before.pool_misses
            && after.allocated_bytes == before.allocated_bytes,
        left.len() == rooms.len() ==> left == rooms && after.pool_misses == before.pool_misses + 1
            && after.available_bytes == before.available_bytes && forall|k: int|
            0 <= k < rooms.len() ==> #[trigger] rooms[k] < min_capacity,
{
}

/// A report shows each counter under its own name.
pub proof fn law_reports_show_counters(stats: PoolStats, counters: PoolMetrics, slots: int)
    requires
        reported(stats, counters, slots),
    ensures
        stats.allocated_bytes == counters.allocated_bytes,
        stats.resident_bytes == counters.resident_bytes,
        stats.active_leases == counters.active_buffers,
        stats.available_bytes == counters.available_bytes,
        stats.pending_lease_requests == 0,
        stats.failed_acquisitions == counters.failed_acquisitions,
        stats.custom_dimensions@.len() == 6,
        stats.custom_dimensions@[0].key@ == "slab_free_slots"@,
        stats.custom_dimensions@[0].value == slots,
        stats.custom_dimensions@[1].key@ == "active_buffers"@,
        stats.custom_dimensions@[1].value == counters.active_buffers,
        stats.custom_dimensions@[2].key@ == "total_allocated"@,
        stats.custom_dimensions@[2].value == counters.total_allocated,
        stats.custom_dimensions@[3].key@ == "total_recycled"@,
        stats.custom_dimensions@[3].value == counters.total_recycled,
        stats.custom_dimensions@[4].key@ == "pool_misses"@,
        stats.custom_dimensions@[4].value == counters.pool_misses,
        stats.custom_dimensions@[5].key@ == "total_bytes"@,
        stats.custom_dimensions@[5].value == counters.total_bytes,
{
}

/// When a lease ends, one lease more has ended and one buffer less is lent. Storage that came back is
/// the last entry of the free list and its capacity is available; without storage its capacity is
/// given up.
pub proof fn law_ended_leases_are_counted(
    before: PoolMetrics,
    rooms: Seq<int>,
    capacity: usize,
    storage: Option<bytes::BytesMut>,
    after: PoolMetrics,
    left: Seq<int>,
)
    requires
        taken_back(before, rooms, capacity, storage, after, left),
        before.total_recycled < usize::MAX,
        before.active_buffers > 0,
        before.available_bytes + capacity <= usize::MAX,
    ensures
        after.total_recycled == before.total_recycled + 1,
        after.active_buffers == before.active_buffers - 1,
        after.total_allocated == before.total_allocated,
        after.pool_misses == before.pool_misses,
        storage is Some ==> after.available_bytes == before.available_bytes + capacity
            && after.allocated_bytes == before.allocated_bytes && left.len() == rooms.len() + 1,
        storage is None ==> after.available_bytes == before.available_bytes && left == rooms,
        storage is None && before.allocated_bytes >= capacity ==> after.allocated_bytes
            == before.allocated_bytes - capacity,
{
}

/// The entry that is taken out of the free list leaves all others in it, and the last one moves to its
/// place.
pub proof fn law_free_list_without_one(rooms: Seq<int>, i: int, k: int)
    requires
        0 <= i < rooms.len(),
        0 <= k < rooms.len() - 1,
    ensures
        swap_removed(rooms, i).len() == rooms.len() - 1,
        k != i ==> swap_removed(rooms, i)[k] == rooms[k],
        k == i ==> swap_removed(rooms, i)[k] == rooms[rooms.len() - 1],
        total_room(Seq::empty()) == 0,
        total_room(rooms) == total_room(rooms.drop_last()) + rooms.last(),
{
}

/// A fresh loan is a view that has the whole of a lease which goes on, of which nothing came back, and
/// which reports what was recorded; what a lease reports at its end is what its last view does.
pub proof fn law_fresh_loans(leased: LeasedBuffer)
    ensures
        fresh(leased) ==> {
            &&& leased.lease.live() && leased.lease.settled().len() == 0
            &&& leased.lease.storage() is None
            &&& leased.view.origin() == leased.lease.origin()
            &&& leased.view.halvings() == 0
            &&& leased.view.reports() == Some(leased.lease.recorded())
            &&& final_capacity(leased) == leased.lease.recorded()
        },
        leased.view.reports() matches Some(capacity) ==> final_capacity(leased) == capacity,
        leased.view.reports() is None ==> final_capacity(leased) == leased.lease.recorded(),
{
}

/// A pool grants every request.
pub proof fn law_requests_are_granted(pool: SlabBufferPool)
    ensures
        pool.generous(),
{
}

} // verus!
