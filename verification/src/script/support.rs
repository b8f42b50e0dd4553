//! Simple buffers for running scripts.
use crate::buffer::contract::{BufferPool, PoolStats, ReadableBuffer, WritableBuffer};
use crate::buffer::{BufView, Chunks};
use crate::error::{CoreError, PROTOCOL_DECODE};
use crate::wire::write_at;
use vstd::prelude::*;
use vstd::slice::slice_to_vec;

verus! {

use crate::buffer::concat_chunks;
use crate::buffer::contract::{fits, Share};

/// An error unless the condition holds.
fn ensure(predicate: bool, message: &'static str) -> (r: Result<(), CoreError>)
    ensures
        match r {
            Ok(_) => predicate,
            Err(e) => !predicate && e.says(PROTOCOL_DECODE@, message@),
        },
{
    if predicate {
        Ok(())
    } else {
        Err(CoreError::new(PROTOCOL_DECODE, message.to_owned()))
    }
}

/// A pool that allocates every buffer and counts how often it was asked.
#[derive(Debug, Clone, Copy, PartialEq, Eq)]
pub struct FuzzBufferPool {
    leases: usize,
}

impl Default for FuzzBufferPool {
    fn default() -> (r: Self)
        ensures
            r.asked() == 0,
    {
        FuzzBufferPool { leases: 0 }
    }
}

impl FuzzBufferPool {
    /// How often the pool was asked for a buffer, modulo the size of a counter.
    pub closed spec fn asked(&self) -> usize {
        self.leases
    }

    /// How often the pool was asked for a buffer, modulo the size of a counter.
    pub fn lease_count(&self) -> (r: usize)
        ensures
            r == self.asked(),
    {
        self.leases
    }
}

impl BufferPool for FuzzBufferPool {
    type Buffer = LinearWritable;

    type Lease = ();

    open spec fn generous(&self) -> bool {
        true
    }

    open spec fn lends(lease: &(), share: Option<Share>) -> bool {
        share is None
    }

    open spec fn answers(
        &self,
        min_capacity: usize,
        answer: Result<(LinearWritable, ()), CoreError>,
        after: Self,
    ) -> bool {
        &&& answer matches Ok((buffer, _)) && room_asked_for(min_capacity) <= buffer.room()
        &&& after.asked() == (if self.asked() < usize::MAX {
            (self.asked() + 1) as usize
        } else {
            0
        })
    }

    /// Allocates a buffer.
    fn acquire(&mut self, min_capacity: usize) -> (r: Result<(LinearWritable, ()), CoreError>)
        ensures
            r matches Ok((buffer, _)) && room_asked_for(min_capacity) <= buffer.room(),
            final(self).asked() == (if old(self).asked() < usize::MAX {
                (old(self).asked() + 1) as usize
            } else {
                0
            }),
    {
        self.leases = self.leases.wrapping_add(1);
        Ok((LinearWritable::with_capacity(min_capacity), ()))
    }

    /// There is nothing to give up.
    fn shrink_to_fit(&mut self) -> (r: Result<usize, CoreError>)
        ensures
            r matches Ok(n) && n == 0,
            *final(self) == *old(self),
    {
        Ok(0)
    }

    /// There is nothing to report.
    fn statistics(&self) -> (r: Result<PoolStats, CoreError>)
        ensures
            r matches Ok(stats) && stats.allocated_bytes == 0 && stats.resident_bytes == 0
                && stats.active_leases == 0 && stats.available_bytes == 0
                && stats.pending_lease_requests == 0 && stats.failed_acquisitions == 0
                && stats.custom_dimensions@.len() == 0,
    {
        Ok(
            PoolStats {
                allocated_bytes: 0,
                resident_bytes: 0,
                active_leases: 0,
                available_bytes: 0,
                pending_lease_requests: 0,
                failed_acquisitions: 0,
                custom_dimensions: Vec::new(),
            },
        )
    }
}

/// Calls `Vec::capacity`. Taken on trust: there is room for what the vector holds. The room is up
/// to the allocator, so nothing more is stated.
#[verifier::external_body]
fn vec_capacity(data: &Vec<u8>) -> (r: usize)
    ensures
        data@.len() <= r,
{
    data.capacity()
}

/// A writable buffer in one vector, with the capacity that the vector had when it last grew.
#[derive(Debug)]
pub struct LinearWritable {
    data: Vec<u8>,
    measured: usize,
}

impl View for LinearWritable {
    type V = Seq<u8>;

    closed spec fn view(&self) -> Seq<u8> {
        self.data@
    }
}

/// The room that a new buffer is given at least: what is asked for, and one byte.
pub open spec fn room_asked_for(min_capacity: usize) -> int {
    if min_capacity > 1 {
        min_capacity as int
    } else {
        1
    }
}

/// Whether a buffer that needs room for `needed` bytes keeps its room if it is enough, and grows if
/// it is not. How far it grows is up to the allocator.
pub open spec fn grown_for(before: int, needed: int, after: int) -> bool {
    if needed <= before {
        after == before
    } else {
        needed <= after
    }
}

impl LinearWritable {
    /// How many bytes the buffer has room for, those that it holds included.
    pub closed spec fn room(&self) -> int {
        if self.measured < self.data@.len() {
            self.data@.len() as int
        } else {
            self.measured as int
        }
    }

    /// An empty buffer with room for at least `min_capacity` bytes, and for at least one.
    pub fn with_capacity(min_capacity: usize) -> (r: Self)
        requires
            fits(min_capacity as int),
        ensures
            r@ == Seq::<u8>::empty(),
            room_asked_for(min_capacity) <= r.room(),
    {
        let capacity: usize = if min_capacity > 1 {
            min_capacity
        } else {
            1
        };
        let mut r = LinearWritable { data: Vec::with_capacity(capacity), measured: 0 };
        r.measure(capacity);
        r
    }

    /// Takes the capacity of the vector, which is at least `needed` where that was asked for.
    fn measure(&mut self, needed: usize)
        ensures
            final(self)@ == old(self)@,
            needed <= final(self).room(),
            old(self)@.len() <= final(self).room(),
    {
        let capacity: usize = vec_capacity(&self.data);
        self.measured = if capacity < needed {
            needed
        } else {
            capacity
        };
    }

    /// Appends bytes.
    fn append(&mut self, src: &[u8])
        requires
            fits((old(self)@.len() + src@.len()) as int),
        ensures
            final(self)@ == old(self)@ + src@,
            grown_for(old(self).room(), (old(self)@.len() + src@.len()) as int, final(self).room()),
    {
        let ghost before = self.data@;
        let room: usize = self.capacity();
        self.data.extend_from_slice(src);
        assert(self.data@ =~= before + src@);
        if self.data.len() <= room {
            self.measured = room;
        } else {
            self.measure(0);
        }
    }
}

impl WritableBuffer for LinearWritable {
    type Frozen = LinearReadable;

    open spec fn contents(&self) -> Seq<u8> {
        self@
    }

    open spec fn accepts(&self) -> bool {
        true
    }

    open spec fn held(&self) -> Option<Share> {
        None
    }

    /// How many bytes fit without growing.
    fn capacity(&self) -> (r: usize)
        ensures
            r == self.room(),
    {
        if self.measured < self.data.len() {
            self.data.len()
        } else {
            self.measured
        }
    }

    /// How many more bytes fit without growing.
    fn remaining_mut(&self) -> (r: usize)
        ensures
            r == self.room() - self@.len(),
    {
        self.capacity().saturating_sub(self.data.len())
    }

    fn written(&self) -> (r: usize) {
        self.data.len()
    }

    /// Makes room for `additional` bytes behind those that are held. No room is lost.
    fn reserve(&mut self, additional: usize) -> (r: Result<(), CoreError>)
        ensures
            r is Ok,
            grown_for(old(self).room(), old(self)@.len() + additional, final(self).room()),
    {
        let room: usize = self.capacity();
        self.data.reserve(additional);
        let needed: usize = self.data.len() + additional;
        if needed > room {
            self.measure(needed);
        }
        Ok(())
    }

    fn put_slice(&mut self, src: &[u8]) -> (r: Result<(), CoreError>)
        ensures
            r is Ok,
            grown_for(old(self).room(), (old(self)@.len() + src@.len()) as int, final(self).room()),
    {
        self.append(src);
        Ok(())
    }

    /// Appends bytes that are read off the front of another buffer.
    fn write_from<R: ReadableBuffer>(&mut self, src: &mut R, len: usize) -> (r: Result<
        (),
        CoreError,
    >)
        ensures
            match r {
                Ok(_) => grown_for(old(self).room(), old(self)@.len() + len, final(self).room()),
                Err(e) => {
                    &&& *final(self) == *old(self)
                    &&& len > old(src).rest().len() ==> *final(src) == *old(src) && e.says(
                        PROTOCOL_DECODE@,
                        "source buffer exhausted"@,
                    )
                },
            },
    {
        match ensure(len <= src.remaining(), "source buffer exhausted") {
            Ok(_) => {},
            Err(e) => {
                return Err(e);
            },
        }
        let mut copied: Vec<u8> = Vec::new();
        copied.resize(len, 0);
        match src.copy_into_slice(copied.as_mut_slice()) {
            Ok(_) => {},
            Err(e) => {
                return Err(e);
            },
        }
        self.append(copied.as_slice());
        Ok(())
    }

    fn clear(&mut self)
        ensures
            final(self).room() == old(self).room(),
    {
        self.measured = self.capacity();
        self.data.clear();
    }

    fn freeze(self) -> (r: Result<LinearReadable, CoreError>)
        ensures
            r is Ok,
    {
        assert(self.data@.skip(0) =~= self.data@);
        Ok(LinearReadable { data: self.data, cursor: 0 })
    }
}

/// A readable buffer in one vector, with a position up to which it was read.
#[derive(Debug)]
pub struct LinearReadable {
    data: Vec<u8>,
    cursor: usize,
}

impl LinearReadable {
    #[verifier::type_invariant]
    spec fn is_within(&self) -> bool {
        self.cursor <= self.data@.len()
    }

    /// All bytes, read or not.
    pub closed spec fn all(&self) -> Seq<u8> {
        self.data@
    }

    /// The bytes that were not read yet.
    pub closed spec fn unread(&self) -> Seq<u8> {
        self.data@.skip(self.cursor as int)
    }

    /// A buffer of these bytes, none of which was read.
    pub fn from_vec(data: Vec<u8>) -> (r: Self)
        ensures
            r.all() == data@,
            r.unread() == data@,
    {
        assert(data@.skip(0) =~= data@);
        LinearReadable { data, cursor: 0 }
    }

    /// The buffer in a box.
    pub fn into_box(self) -> (r: Box<LinearReadable>)
        ensures
            *r == self,
    {
        Box::new(self)
    }
}

impl From<Vec<u8>> for LinearReadable {
    fn from(data: Vec<u8>) -> (r: Self)
        ensures
            r.all() == data@,
            r.unread() == data@,
    {
        assert(data@.skip(0) =~= data@);
        LinearReadable { data, cursor: 0 }
    }
}

impl vstd::std_specs::convert::FromSpecImpl<Vec<u8>> for LinearReadable {
    open spec fn obeys_from_spec() -> bool {
        true
    }

    closed spec fn from_spec(data: Vec<u8>) -> Self {
        LinearReadable { data, cursor: 0 }
    }
}

impl ReadableBuffer for LinearReadable {
    open spec fn rest(&self) -> Seq<u8> {
        self.unread()
    }

    open spec fn front(&self) -> Seq<u8> {
        self.unread()
    }

    open spec fn flat(&self) -> Seq<u8> {
        self.all()
    }

    open spec fn reliable(&self) -> bool {
        true
    }

    open spec fn share(&self) -> Option<Share> {
        None
    }

    fn remaining(&self) -> (r: usize) {
        proof {
            use_type_invariant(&*self);
        }
        self.data.len().saturating_sub(self.cursor)
    }

    fn chunk(&self) -> (r: &[u8]) {
        proof {
            use_type_invariant(&*self);
        }
        let all = self.data.as_slice();
        let r = &all[self.cursor..self.data.len()];
        assert(r@ =~= self.unread());
        assert(self.unread().take(self.unread().len() as int) =~= self.unread());
        r
    }

    fn split_to(&mut self, len: usize) -> (r: Result<Self, CoreError>)
        ensures
            r matches Err(e) ==> *final(self) == *old(self) && e.says(
                PROTOCOL_DECODE@,
                "split exceeds remaining bytes"@,
            ),
    {
        match ensure(len <= self.remaining(), "split exceeds remaining bytes") {
            Ok(_) => {},
            Err(e) => {
                return Err(e);
            },
        }
        proof {
            use_type_invariant(&*self);
        }
        let ghost before = self.unread();
        assert(self.data.len() == self.data@.len());
        let end: usize = self.cursor + len;
        let all = self.data.as_slice();
        let part = slice_to_vec(&all[self.cursor..end]);
        assert(part@ =~= before.take(len as int));
        self.cursor = end;
        assert(self.unread() =~= before.skip(len as int));
        Ok(LinearReadable::from_vec(part))
    }

    fn advance(&mut self, len: usize) -> (r: Result<(), CoreError>)
        ensures
            r matches Err(e) ==> *final(self) == *old(self) && e.says(
                PROTOCOL_DECODE@,
                "advance exceeds remaining bytes"@,
            ),
    {
        match ensure(len <= self.remaining(), "advance exceeds remaining bytes") {
            Ok(_) => {},
            Err(e) => {
                return Err(e);
            },
        }
        proof {
            use_type_invariant(&*self);
        }
        let ghost before = self.unread();
        assert(self.data.len() == self.data@.len());
        self.cursor = self.cursor + len;
        assert(self.unread() =~= before.skip(len as int));
        Ok(())
    }

    fn copy_into_slice(&mut self, dst: &mut [u8]) -> (r: Result<(), CoreError>)
        ensures
            r matches Err(e) ==> *final(self) == *old(self) && final(dst)@ == old(dst)@ && e.says(
                PROTOCOL_DECODE@,
                "insufficient bytes for copy"@,
            ),
    {
        match ensure(dst.len() <= self.remaining(), "insufficient bytes for copy") {
            Ok(_) => {},
            Err(e) => {
                return Err(e);
            },
        }
        proof {
            use_type_invariant(&*self);
        }
        let ghost before = self.unread();
        let n: usize = dst.len();
        assert(self.data.len() == self.data@.len());
        let end: usize = self.cursor + n;
        let all = self.data.as_slice();
        let part = &all[self.cursor..end];
        assert(part@ =~= before.take(n as int));
        write_at(dst, 0, part);
        assert(dst@ =~= before.take(n as int));
        self.cursor = end;
        assert(self.unread() =~= before.skip(n as int));
        Ok(())
    }

    /// All bytes of the buffer, read or not.
    fn try_into_vec(self) -> (r: Result<Vec<u8>, CoreError>)
        ensures
            r is Ok,
    {
        Ok(self.data)
    }
}

/// The chunks that are not empty.
pub open spec fn non_empty(chunks: Seq<Seq<u8>>) -> Seq<Seq<u8>>
    decreases chunks.len(),
{
    if chunks.len() == 0 {
        Seq::empty()
    } else if chunks.last().len() > 0 {
        non_empty(chunks.drop_last()).push(chunks.last())
    } else {
        non_empty(chunks.drop_last())
    }
}

/// Leaving out empty chunks leaves out no byte.
pub proof fn law_empty_chunks_do_not_matter(chunks: Seq<Seq<u8>>)
    ensures
        concat_chunks(non_empty(chunks)) == concat_chunks(chunks),
    decreases chunks.len(),
{
    if chunks.len() > 0 {
        law_empty_chunks_do_not_matter(chunks.drop_last());
        let before = non_empty(chunks.drop_last());
        if chunks.last().len() > 0 {
            assert(before.push(chunks.last()).drop_last() =~= before);
        } else {
            assert(concat_chunks(chunks) =~= concat_chunks(chunks.drop_last()));
        }
    }
}

/// Bytes cut into pieces of the given sizes. What the sizes leave over is the last piece.
pub open spec fn cut(bytes: Seq<u8>, sizes: Seq<usize>) -> Seq<Seq<u8>>
    decreases sizes.len(),
{
    if bytes.len() == 0 {
        Seq::empty()
    } else if sizes.len() == 0 {
        seq![bytes]
    } else {
        let n = if sizes[0] < bytes.len() {
            sizes[0] as int
        } else {
            bytes.len() as int
        };
        seq![bytes.take(n)] + cut(bytes.skip(n), sizes.drop_first())
    }
}

/// Joining one list of chunks to another joins their bytes.
pub proof fn lemma_concat_append(a: Seq<Seq<u8>>, b: Seq<Seq<u8>>)
    ensures
        concat_chunks(a + b) == concat_chunks(a) + concat_chunks(b),
    decreases b.len(),
{
    if b.len() == 0 {
        assert(a + b =~= a);
        assert(concat_chunks(a) + concat_chunks(b) =~= concat_chunks(a));
    } else {
        lemma_concat_append(a, b.drop_last());
        assert((a + b).drop_last() =~= a + b.drop_last());
        assert(concat_chunks(a + b) =~= concat_chunks(a) + concat_chunks(b));
    }
}

/// However bytes are cut, the pieces together are the bytes.
pub proof fn law_cutting_keeps_bytes(bytes: Seq<u8>, sizes: Seq<usize>)
    ensures
        concat_chunks(cut(bytes, sizes)) == bytes,
    decreases sizes.len(),
{
    reveal_with_fuel(concat_chunks, 2);
    if bytes.len() == 0 {
        assert(concat_chunks(cut(bytes, sizes)) =~= bytes);
    } else if sizes.len() == 0 {
        assert(seq![bytes].drop_last() =~= Seq::<Seq<u8>>::empty());
        assert(concat_chunks(seq![bytes]) =~= bytes);
    } else {
        let n = if sizes[0] < bytes.len() {
            sizes[0] as int
        } else {
            bytes.len() as int
        };
        let head = seq![bytes.take(n)];
        law_cutting_keeps_bytes(bytes.skip(n), sizes.drop_first());
        lemma_concat_append(head, cut(bytes.skip(n), sizes.drop_first()));
        assert(head.drop_last() =~= Seq::<Seq<u8>>::empty());
        assert(concat_chunks(head) =~= bytes.take(n));
        assert(bytes.take(n) + bytes.skip(n) =~= bytes);
    }
}

/// The contents of a list of fragments.
pub open spec fn fragment_views(list: Seq<Vec<u8>>) -> Seq<Seq<u8>> {
    Seq::new(list.len(), |i: int| list[i]@)
}

/// Bytes in several fragments, none of which is empty.
#[derive(Debug)]
pub struct FragmentedView {
    fragments: Vec<Vec<u8>>,
    total_len: usize,
}

impl FragmentedView {
    #[verifier::type_invariant]
    spec fn is_counted(&self) -> bool {
        self.total_len == concat_chunks(fragment_views(self.fragments@)).len()
    }

    /// The fragments.
    pub closed spec fn pieces(&self) -> Seq<Seq<u8>> {
        fragment_views(self.fragments@)
    }

    /// A view of these fragments, without the empty ones.
    pub fn from_fragments(fragments: Vec<Vec<u8>>) -> (r: Self)
        requires
            concat_chunks(fragment_views(fragments@)).len() <= usize::MAX,
        ensures
            r.pieces() == non_empty(fragment_views(fragments@)),
    {
        let ghost all = fragment_views(fragments@);
        let mut kept: Vec<Vec<u8>> = Vec::new();
        let mut total: usize = 0;
        let mut i: usize = 0;
        assert(fragment_views(kept@) =~= non_empty(all.take(0)));
        while i < fragments.len()
            invariant
                i <= fragments@.len(),
                all == fragment_views(fragments@),
                concat_chunks(all).len() <= usize::MAX,
                fragment_views(kept@) == non_empty(all.take(i as int)),
                total == concat_chunks(fragment_views(kept@)).len(),
            decreases fragments@.len() - i,
        {
            let ghost before = fragment_views(kept@);
            proof {
                assert(all.take(i + 1).drop_last() =~= all.take(i as int));
                law_empty_chunks_do_not_matter(all.take(i + 1));
                crate::buffer::lemma_concat_take(all, i + 1);
            }
            if fragments[i].len() > 0 {
                let piece = slice_to_vec(fragments[i].as_slice());
                assert(before.push(all[i as int]).drop_last() =~= before);
                assert(all.take(i + 1).last() == all[i as int]);
                total = total + piece.len();
                kept.push(piece);
                assert(fragment_views(kept@) =~= before.push(all[i as int]));
            }
            i += 1;
        }
        assert(all.take(i as int) =~= all);
        FragmentedView { fragments: kept, total_len: total }
    }

    /// A view of bytes that are cut into pieces of the given sizes.
    pub fn from_splits(bytes: Vec<u8>, splits: &[usize]) -> (r: Self)
        ensures
            r.pieces() == non_empty(cut(bytes@, splits@)),
            concat_chunks(r.pieces()) == bytes@,
    {
        let mut out: Vec<Vec<u8>> = Vec::new();
        let mut offset: usize = 0;
        let mut i: usize = 0;
        let total: usize = bytes.len();
        let ghost all = cut(bytes@, splits@);
        proof {
            assert(bytes@.skip(0) =~= bytes@);
            assert(splits@.skip(0) =~= splits@);
            assert(fragment_views(out@) + all =~= all);
        }
        while i < splits.len() && offset < total
            invariant
                i <= splits@.len(),
                offset <= total,
                total == bytes@.len(),
                all == cut(bytes@, splits@),
                all == fragment_views(out@) + cut(
                    bytes@.skip(offset as int),
                    splits@.skip(i as int),
                ),
            decreases splits@.len() - i,
        {
            let size: usize = splits[i];
            let end: usize = if size < total - offset {
                offset + size
            } else {
                total
            };
            let ghost before = fragment_views(out@);
            let ghost rest = bytes@.skip(offset as int);
            let source = bytes.as_slice();
            let piece = slice_to_vec(&source[offset..end]);
            out.push(piece);
            proof {
                let n = end - offset;
                assert(piece@ =~= rest.take(n));
                assert(fragment_views(out@) =~= before.push(piece@));
                assert(rest.skip(n) =~= bytes@.skip(end as int));
                assert(splits@.skip(i as int).drop_first() =~= splits@.skip(i + 1));
                assert(before + (seq![piece@] + cut(
                    bytes@.skip(end as int),
                    splits@.skip(i + 1),
                )) =~= fragment_views(out@) + cut(bytes@.skip(end as int), splits@.skip(i + 1)));
            }
            offset = end;
            i += 1;
        }
        if offset < total {
            let ghost before = fragment_views(out@);
            let source = bytes.as_slice();
            let piece = slice_to_vec(&source[offset..total]);
            out.push(piece);
            proof {
                assert(piece@ =~= bytes@.skip(offset as int));
                assert(splits@.skip(i as int).len() == 0);
                assert(fragment_views(out@) =~= before + seq![piece@]);
            }
        } else {
            proof {
                assert(bytes@.skip(offset as int).len() == 0);
            }
        }
        proof {
            assert(fragment_views(out@) =~= all);
            law_cutting_keeps_bytes(bytes@, splits@);
            law_empty_chunks_do_not_matter(all);
        }
        FragmentedView::from_fragments(out)
    }

    /// The number of bytes in all fragments together.
    pub fn len(&self) -> (r: usize)
        ensures
            r == concat_chunks(self.pieces()).len(),
    {
        proof {
            use_type_invariant(&*self);
        }
        self.total_len
    }
}

impl BufView for FragmentedView {
    open spec fn chunks(&self) -> Seq<Seq<u8>> {
        self.pieces()
    }

    fn as_chunks(&self) -> (r: Chunks<'_>) {
        proof {
            use_type_invariant(&*self);
        }
        let mut refs: Vec<&[u8]> = Vec::new();
        let mut i: usize = 0;
        while i < self.fragments.len()
            invariant
                i <= self.fragments@.len(),
                refs@.len() == i,
                forall|k: int| 0 <= k < i ==> (#[trigger] refs@[k])@ == self.fragments@[k]@,
            decreases self.fragments@.len() - i,
        {
            refs.push(self.fragments[i].as_slice());
            i += 1;
        }
        let r = Chunks::from_vec(refs);
        assert(r@ =~= self.pieces());
        r
    }

    fn len(&self) -> (r: usize) {
        proof {
            use_type_invariant(&*self);
        }
        self.total_len
    }
}

/// The chunks that are kept are those that hold something, all of them and in order.
pub proof fn law_chunks_that_are_kept(chunks: Seq<Seq<u8>>, last: Seq<u8>)
    ensures
        non_empty(Seq::empty()) == Seq::<Seq<u8>>::empty(),
        last.len() > 0 ==> non_empty(chunks.push(last)) == non_empty(chunks).push(last),
        last.len() == 0 ==> non_empty(chunks.push(last)) == non_empty(chunks),
{
    assert(chunks.push(last).drop_last() =~= chunks);
}

/// The first piece is as long as the first size, or all there is; the others are cut from what is left
/// by the sizes behind. Without sizes all bytes are one piece, and without bytes there is no piece.
pub proof fn law_sizes_of_pieces(bytes: Seq<u8>, size: usize, sizes: Seq<usize>)
    ensures
        bytes.len() == 0 ==> cut(bytes, sizes) == Seq::<Seq<u8>>::empty(),
        bytes.len() > 0 ==> cut(bytes, Seq::empty()) == seq![bytes],
        0 < bytes.len() && size <= bytes.len() ==> cut(bytes, seq![size] + sizes) == seq![
            bytes.take(size as int),
        ] + cut(bytes.skip(size as int), sizes),
        0 < bytes.len() < size ==> cut(bytes, seq![size] + sizes) == seq![bytes],
{
    let all = seq![size] + sizes;
    assert(all.drop_first() =~= sizes);
    if 0 < bytes.len() < size {
        let n = bytes.len() as int;
        assert(bytes.take(n) =~= bytes);
        assert(bytes.skip(n).len() == 0);
        assert(cut(bytes.skip(n), sizes) =~= Seq::<Seq<u8>>::empty());
        assert(all.len() > 0 && all[0] == size);
        assert(cut(bytes, all) == seq![bytes.take(n)] + cut(bytes.skip(n), all.drop_first()));
        assert(cut(bytes, all) =~= seq![bytes]);
    }
}

/// A new buffer has room for one byte at least; one that has room enough does not grow.
pub proof fn law_room_of_a_buffer(min_capacity: usize, before: int, needed: int, after: int)
    ensures
        min_capacity == 0 ==> room_asked_for(min_capacity) == 1,
        min_capacity > 0 ==> room_asked_for(min_capacity) == min_capacity,
        grown_for(before, needed, after) && needed <= before ==> after == before,
        grown_for(before, needed, after) && needed > before ==> after >= needed,
{
}

/// The contents of fragments are those of each, in order.
pub proof fn law_fragments_are_seen(list: Seq<Vec<u8>>)
    ensures
        fragment_views(list).len() == list.len(),
        forall|i: int| 0 <= i < list.len() ==> #[trigger] fragment_views(list)[i] == list[i]@,
{
}

/// Of bytes that are made readable, all are still unread.
pub proof fn law_all_bytes_are_unread(data: Vec<u8>)
    ensures
        <LinearReadable as vstd::std_specs::convert::FromSpec<Vec<u8>>>::obeys_from_spec(),
        <LinearReadable as vstd::std_specs::convert::FromSpec<Vec<u8>>>::from_spec(data).unread()
            == data@,
{
}

/// A pool grants every request, and a buffer serves every request that its remaining bytes can serve.
pub proof fn law_requests_are_granted(pool: FuzzBufferPool, buffer: LinearReadable)
    ensures
        pool.generous(),
        buffer.reliable(),
{
}

} // verus!
