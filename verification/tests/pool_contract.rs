use spark_codecs::buffer::contract::{BufferPool, PoolStats, ReadableBuffer, WritableBuffer};
use spark_codecs::buffer::pool::{first_fit, sum_capacities, LeasedBuffer, SlabBufferPool};
use spark_codecs::buffer::pooled::{BufferRecycler, ReclaimedBuffer};

fn dimension(stats: &PoolStats, key: &str) -> usize {
    stats
        .custom_dimensions
        .iter()
        .find(|dim| dim.key == key)
        .map(|dim| dim.value)
        .unwrap_or_default()
}

#[test]
fn reusable_capacity_returns_to_pool() {
    let mut pool = SlabBufferPool::new();
    {
        let mut leased = pool.alloc_writable(64).expect("a buffer is lent");
        assert!(leased.view.remaining_mut() >= 64);
        leased.view.put_slice(&[1, 2, 3, 4]).expect("bytes are written");
        assert!(pool.release(leased).is_none());
    }
    let snapshot = pool.statistics().expect("figures are given");
    assert!(snapshot.available_bytes >= 64);
    {
        let second = pool.alloc_writable(16).expect("a buffer is lent again");
        assert!(pool.release(second).is_none());
    }
    let after = pool.statistics().expect("figures are given");
    assert!(after.allocated_bytes >= snapshot.allocated_bytes);
}

#[test]
fn alloc_readable_preserves_payload() {
    let mut pool = SlabBufferPool::new();
    let payload = [9u8, 8, 7, 6];
    let mut readable = pool.alloc_readable(&payload).expect("a buffer is lent");
    let mut out = [0u8; 4];
    readable.view.copy_into_slice(&mut out).expect("the bytes are there");
    assert_eq!(out, payload);
}

#[test]
fn stats_track_allocation_lifecycle() {
    let mut pool = SlabBufferPool::new();
    let initial = pool.stats();
    assert_eq!(dimension(&initial, "total_allocated"), 0);
    assert_eq!(dimension(&initial, "total_recycled"), 0);
    assert_eq!(dimension(&initial, "pool_misses"), 0);

    {
        let first = pool.alloc_writable(32).expect("a buffer is lent");
        let during_first = pool.stats();
        assert_eq!(dimension(&during_first, "active_buffers"), 1);
        assert_eq!(dimension(&during_first, "total_allocated"), 1);
        assert_eq!(dimension(&during_first, "pool_misses"), 1);
        assert!(dimension(&during_first, "total_bytes") >= 32);
        assert!(pool.release(first).is_none());
    }

    let after_first = pool.stats();
    assert_eq!(dimension(&after_first, "active_buffers"), 0);
    assert_eq!(dimension(&after_first, "total_allocated"), 1);
    assert_eq!(dimension(&after_first, "total_recycled"), 1);

    {
        let second = pool.alloc_writable(8).expect("a buffer is lent again");
        let during_second = pool.stats();
        assert_eq!(dimension(&during_second, "active_buffers"), 1);
        assert_eq!(dimension(&during_second, "total_allocated"), 2);
        assert_eq!(dimension(&during_second, "pool_misses"), 1);
        assert!(pool.release(second).is_none());
    }

    let after_second = pool.stats();
    assert_eq!(dimension(&after_second, "active_buffers"), 0);
    assert_eq!(dimension(&after_second, "total_allocated"), 2);
    assert_eq!(dimension(&after_second, "total_recycled"), 2);
}

#[test]
fn shrink_to_fit_releases_cached_buffers() {
    let mut pool = SlabBufferPool::new();
    let cached_capacity = {
        let leased = pool.alloc_writable(48).expect("a buffer is lent");
        let capacity = leased.view.capacity();
        assert!(pool.release(leased).is_none());
        capacity
    };
    let reclaimed = pool.shrink_to_fit().expect("the free list is given up");
    assert!(reclaimed >= cached_capacity);
    let stats = pool.stats();
    assert_eq!(stats.available_bytes, 0);
}

#[test]
fn alloc_readable_accepts_empty_payload() {
    let mut pool = SlabBufferPool::new();
    let mut readable = pool.alloc_readable(&[]).expect("an empty buffer is lent");
    assert_eq!(readable.view.remaining(), 0);
    assert!(readable.view.copy_into_slice(&mut []).is_ok());
}

#[test]
fn the_first_buffer_that_is_large_enough_is_lent() {
    assert_eq!(first_fit(&[8, 64, 32], 16), Some(1));
    assert_eq!(first_fit(&[8, 64, 32], 8), Some(0));
    assert_eq!(first_fit(&[8, 64, 32], 65), None);
    assert_eq!(first_fit(&[], 0), None);
}

#[test]
fn capacities_are_added_up_to_the_largest_number() {
    assert_eq!(sum_capacities(&[1, 2, 3]), 6);
    assert_eq!(sum_capacities(&[usize::MAX, 1]), usize::MAX);
    assert_eq!(sum_capacities(&[]), 0);
}

#[test]
fn storage_that_came_back_is_lent_before_more_is_allocated() {
    let mut pool = SlabBufferPool::new();
    let first = pool.alloc_writable(32).expect("a buffer is lent");
    assert!(pool.release(first).is_none());
    let held = pool.alloc_writable(8).expect("a buffer is lent again");
    let stats = pool.stats();
    assert_eq!(stats.active_leases, 1);
    assert_eq!(dimension(&stats, "active_buffers"), 1);
    assert_eq!(dimension(&stats, "total_allocated"), 2);
    assert_eq!(dimension(&stats, "total_recycled"), 1);
    assert_eq!(dimension(&stats, "pool_misses"), 1);
    assert_eq!(dimension(&stats, "slab_free_slots"), 0);
    assert!(held.view.capacity() >= 32);
}

#[test]
fn a_lent_buffer_comes_back_when_all_its_parts_have() {
    let mut pool = SlabBufferPool::new();
    let mut leased = pool.alloc_readable(b"head and tail").expect("a buffer is lent");
    let head = leased.view.split_to(4).expect("four bytes are split off");
    let lease = pool.release(leased).expect("the head is alive");
    assert_eq!(pool.stats().active_leases, 1);
    assert_eq!(head.chunk(), b"head");
    assert!(pool.release(LeasedBuffer { view: head, lease }).is_none());
    assert_eq!(pool.stats().active_leases, 0);
}

#[test]
fn a_storage_that_is_lost_is_not_lent_again() {
    let mut pool = SlabBufferPool::new();
    let lost = pool.acquire_buffer(16);
    let capacity = lost.capacity();
    drop(lost);
    pool.reclaim(ReclaimedBuffer::new(capacity, None));
    let stats = pool.stats();
    assert_eq!(stats.available_bytes, 0);
    assert_eq!(stats.allocated_bytes, 0);
    assert_eq!(dimension(&stats, "active_buffers"), 0);
}

#[test]
fn storage_that_comes_back_is_empty() {
    let mut pool = SlabBufferPool::new();
    let mut leased = pool.alloc_writable(32).expect("a buffer is lent");
    leased.view.put_slice(b"old").expect("bytes are written");
    assert!(pool.release(leased).is_none());
    let again = pool.alloc_writable(1).expect("a buffer is lent again");
    assert_eq!(again.view.written(), 0);
    assert_eq!(dimension(&pool.stats(), "pool_misses"), 1);
}
