use bytes::BytesMut;
use spark_codecs::buffer::contract::{ReadableBuffer, WritableBuffer};
use spark_codecs::buffer::pool::SlabBufferPool;
use spark_codecs::buffer::pooled::{BufferRecycler, Lease, PooledBuffer, ReclaimedBuffer};
use spark_codecs::error::{APP_INVALID_ARGUMENT, PROTOCOL_DECODE};

struct RecordingRecycler {
    events: Vec<(usize, bool)>,
}

impl RecordingRecycler {
    fn new() -> Self {
        RecordingRecycler { events: Vec::new() }
    }

    fn take_events(&mut self) -> Vec<(usize, bool)> {
        self.events.drain(..).collect()
    }
}

impl BufferRecycler for RecordingRecycler {
    fn reclaim(&mut self, reclaimed: ReclaimedBuffer) {
        let capacity = reclaimed.capacity();
        let had_buffer = reclaimed.into_buffer().is_some();
        self.events.push((capacity, had_buffer));
    }
}

fn give_back(recycler: &mut RecordingRecycler, lease: &mut Lease, view: PooledBuffer) {
    if let Some(reclaimed) = lease.release(view) {
        recycler.reclaim(reclaimed);
    }
}

#[test]
fn freeze_transitions_to_read_only_and_recycles_buffer() {
    let mut recycler = RecordingRecycler::new();
    let (mut buffer, mut lease) = PooledBuffer::new(BytesMut::with_capacity(8));
    buffer.put_slice(b"abc").expect("bytes are written");
    let expected_capacity = buffer.written();
    let mut readable = buffer.freeze().expect("a writable buffer freezes");
    let mut out = [0u8; 3];
    readable.copy_into_slice(&mut out).expect("the bytes are there");
    assert_eq!(&out, b"abc");
    give_back(&mut recycler, &mut lease, readable);
    let events = recycler.take_events();
    assert_eq!(events, vec![(expected_capacity, true)]);
}

#[test]
fn chunk_mut_allows_zero_copy_write_followed_by_freeze() {
    let mut recycler = RecordingRecycler::new();
    let (mut buffer, mut lease) = PooledBuffer::new(BytesMut::with_capacity(4));
    let chunk = buffer.chunk_mut();
    assert!(chunk.len() >= 2);
    chunk[0] = b'X';
    chunk[1] = b'Y';
    buffer.advance_mut(2).expect("there is room for two bytes");
    assert_eq!(buffer.written(), 2);
    let mut readable = buffer.freeze().expect("a writable buffer freezes");
    let mut out = [0u8; 2];
    readable.copy_into_slice(&mut out).expect("the bytes are there");
    assert_eq!(&out, b"XY");
    give_back(&mut recycler, &mut lease, readable);
    let events = recycler.take_events();
    assert_eq!(events.len(), 1);
    assert!(events[0].1);
}

#[test]
fn split_to_preserves_lease_and_defer_recycle_until_all_views_drop() {
    let mut recycler = RecordingRecycler::new();
    let (mut buffer, mut lease) = PooledBuffer::new(BytesMut::with_capacity(16));
    buffer.put_slice(b"abcdef").expect("bytes are written");
    let mut head = buffer.split_to(2).expect("two bytes are split off");
    assert_eq!(head.remaining(), 2);
    head.advance(2).expect("both bytes are skipped");
    give_back(&mut recycler, &mut lease, head);
    assert!(recycler.take_events().is_empty());
    give_back(&mut recycler, &mut lease, buffer);
    let events = recycler.take_events();
    assert_eq!(events.len(), 1);
}

#[test]
fn split_to_and_read_operations_validate_bounds() {
    let mut recycler = RecordingRecycler::new();
    let (mut buffer, mut lease) = PooledBuffer::new(BytesMut::with_capacity(8));
    buffer.put_slice(b"rust").expect("bytes are written");
    assert!(buffer.split_to(10).is_err());
    buffer.advance(2).expect("two bytes are skipped");
    let mut dst = [0u8; 2];
    buffer.copy_into_slice(&mut dst).expect("the bytes are there");
    assert_eq!(&dst, b"st");
    assert!(buffer.copy_into_slice(&mut [0u8; 1]).is_err());
    give_back(&mut recycler, &mut lease, buffer);
    assert_eq!(recycler.take_events().len(), 1);
}

#[test]
fn a_lease_ends_with_the_last_view_in_any_order() {
    for order in [[0, 1, 2, 3], [3, 2, 1, 0], [1, 3, 0, 2], [2, 0, 3, 1]] {
        let mut recycler = RecordingRecycler::new();
        let (mut buffer, mut lease) = PooledBuffer::new(BytesMut::with_capacity(16));
        buffer.put_slice(b"abcdef").expect("bytes are written");
        let capacity = buffer.capacity();
        let mut head = buffer.split_to(3).expect("three bytes are split off");
        let front = head.split_to(1).expect("one byte is split off");
        assert!(head.split_to(3).is_err());
        let next = buffer.split_to(2).expect("two bytes are split off");
        let mut views = vec![Some(buffer), Some(head), Some(front), Some(next)];
        for (i, at) in order.iter().enumerate() {
            let view = views[*at].take().expect("each view is released once");
            give_back(&mut recycler, &mut lease, view);
            assert_eq!(recycler.events.len(), usize::from(i == 3));
        }
        assert_eq!(recycler.take_events(), vec![(capacity, true)]);
    }
}

#[test]
fn a_frozen_buffer_can_be_split_and_the_lease_waits_for_each_part() {
    let mut recycler = RecordingRecycler::new();
    let (mut buffer, mut lease) = PooledBuffer::new(BytesMut::with_capacity(8));
    buffer.put_slice(b"abcd").expect("bytes are written");
    let mut frozen = buffer.freeze().expect("a writable buffer freezes");
    let mut parts = Vec::new();
    for _ in 0..4 {
        parts.push(frozen.split_to(1).expect("a byte is split off"));
    }
    give_back(&mut recycler, &mut lease, frozen);
    for part in parts {
        assert!(recycler.events.is_empty());
        give_back(&mut recycler, &mut lease, part);
    }
    assert_eq!(recycler.take_events().len(), 1);
}

#[test]
fn room_that_was_filled_once_can_be_claimed_in_pieces() {
    let (mut buffer, _lease) = PooledBuffer::new(BytesMut::with_capacity(8));
    buffer.chunk_mut()[..4].copy_from_slice(b"abcd");
    buffer.advance_mut(2).expect("there is room for two bytes");
    assert_eq!(&buffer.chunk_mut()[..2], b"cd");
    buffer.advance_mut(2).expect("there is room for two more");
    assert_eq!(buffer.chunk(), b"abcd");
}

#[test]
fn growth_by_writing_is_recorded() {
    let mut recycler = RecordingRecycler::new();
    let (mut buffer, mut lease) = PooledBuffer::new(BytesMut::with_capacity(4));
    buffer.put_slice(&[7; 100]).expect("a writable buffer grows");
    let capacity = buffer.capacity();
    assert!(capacity >= 100);
    give_back(&mut recycler, &mut lease, buffer);
    assert_eq!(recycler.take_events(), vec![(capacity, true)]);

    let (mut full, mut lease) = PooledBuffer::new(BytesMut::with_capacity(4));
    full.put_slice(&vec![7; full.remaining_mut()]).expect("bytes are written");
    assert_eq!(full.remaining_mut(), 0);
    full.chunk_mut()[0] = 1;
    let capacity = full.capacity();
    assert!(capacity >= 64);
    give_back(&mut recycler, &mut lease, full);
    assert_eq!(recycler.take_events(), vec![(capacity, true)]);
}

#[test]
fn advance_mut_rejects_out_of_bounds_progress() {
    let mut recycler = RecordingRecycler::new();
    let (mut buffer, mut lease) = PooledBuffer::new(BytesMut::with_capacity(2));
    let span = buffer.chunk_mut().len();
    assert!(buffer.advance_mut(span + 1).is_err());
    give_back(&mut recycler, &mut lease, buffer);
    assert_eq!(recycler.take_events().len(), 1);
}

#[test]
fn write_from_moves_requested_bytes_and_updates_source() {
    let mut recycler = RecordingRecycler::new();
    let (mut buffer, mut lease) = PooledBuffer::new(BytesMut::with_capacity(16));
    let mut pool = SlabBufferPool::new();
    let mut src = pool.alloc_readable(b"12345").expect("a buffer is lent");
    buffer.write_from(&mut src.view, 3).expect("three bytes are there");
    assert_eq!(buffer.written(), 3);
    assert_eq!(src.view.remaining(), 2);
    assert!(buffer.write_from(&mut src.view, 10).is_err());
    give_back(&mut recycler, &mut lease, buffer);
    assert_eq!(recycler.take_events().len(), 1);
}

#[test]
fn reserve_refreshes_capacity_recorded_by_recycler() {
    let mut recycler = RecordingRecycler::new();
    let (mut buffer, mut lease) = PooledBuffer::new(BytesMut::with_capacity(4));
    let before = buffer.capacity();
    buffer.reserve(64).expect("a writable buffer grows");
    let after = buffer.capacity();
    assert!(after >= before);
    give_back(&mut recycler, &mut lease, buffer);
    let events = recycler.take_events();
    assert_eq!(events.len(), 1);
    assert_eq!(events[0].0, after);
    assert!(events[0].1);
}

#[test]
fn reclaimed_buffer_retains_metadata() {
    let capacity = 32;
    let buf = BytesMut::with_capacity(capacity);
    let reclaimed = ReclaimedBuffer::new(capacity, Some(buf));
    assert_eq!(reclaimed.capacity(), capacity);
    assert!(reclaimed.into_buffer().is_some());
}

#[test]
fn a_frozen_buffer_takes_no_bytes() {
    let (mut buffer, _lease) = PooledBuffer::new(BytesMut::with_capacity(8));
    buffer.put_slice(b"abc").expect("bytes are written");
    let mut frozen = buffer.freeze().expect("a writable buffer freezes");
    let err = frozen.put_slice(b"d").expect_err("the buffer is frozen");
    assert_eq!(err.code(), APP_INVALID_ARGUMENT);
    assert!(frozen.reserve(1).is_err());
    assert_eq!(frozen.chunk_mut().len(), 0);
    assert_eq!(frozen.remaining_mut(), 0);
    assert_eq!(frozen.chunk(), b"abc");
    let again = frozen.freeze().expect("freezing twice changes nothing");
    assert_eq!(again.chunk(), b"abc");
}

#[test]
fn bytes_are_read_in_the_order_they_were_written() {
    let (mut buffer, _lease) = PooledBuffer::new(BytesMut::new());
    buffer.put_slice(b"ab").expect("bytes are written");
    buffer.put_slice(b"cd").expect("bytes are written");
    let head = buffer.split_to(1).expect("one byte is there");
    assert_eq!(head.try_into_vec().expect("bytes"), b"a");
    buffer.advance(1).expect("one byte is there");
    let err = buffer.advance(3).expect_err("only two bytes are left");
    assert_eq!(err.code(), PROTOCOL_DECODE);
    assert_eq!(buffer.try_into_vec().expect("bytes"), b"cd");
}

#[test]
fn clearing_forgets_the_bytes() {
    let (mut buffer, _lease) = PooledBuffer::new(BytesMut::with_capacity(8));
    buffer.put_slice(b"abc").expect("bytes are written");
    buffer.clear();
    assert_eq!(buffer.written(), 0);
    assert_eq!(buffer.remaining(), 0);
}

#[test]
fn room_behind_the_bytes_can_be_filled_and_claimed() {
    let (mut buffer, _lease) = PooledBuffer::new(BytesMut::new());
    let free = buffer.chunk_mut().len();
    assert!(free > 0);
    buffer.advance_mut(free).expect("there is as much room as was shown");
    assert_eq!(buffer.written(), free);
    assert!(buffer.chunk().iter().all(|byte| *byte == 0));
    buffer.reserve(100).expect("a writable buffer grows");
    assert!(buffer.remaining_mut() >= 100);
}
