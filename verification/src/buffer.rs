//! Read-only views of bytes that may lie in several chunks.
pub mod contract;
pub mod pool;
pub mod pooled;
pub mod storage;

use vstd::prelude::*;

verus! {

/// The bytes of all chunks, one chunk after the other.
pub open spec fn concat_chunks(chunks: Seq<Seq<u8>>) -> Seq<u8>
    decreases chunks.len(),
{
    if chunks.len() == 0 {
        Seq::empty()
    } else {
        concat_chunks(chunks.drop_last()) + chunks.last()
    }
}

/// The non-empty parts of the chunks that lie in `start..end` of their concatenation.
pub open spec fn clip_chunks(chunks: Seq<Seq<u8>>, start: int, end: int) -> Seq<Seq<u8>>
    decreases chunks.len(),
{
    if chunks.len() == 0 {
        Seq::empty()
    } else {
        let base = concat_chunks(chunks.drop_last()).len();
        let from = if start > base {
            start - base
        } else {
            0
        };
        let to = if end - base < chunks.last().len() {
            end - base
        } else {
            chunks.last().len() as int
        };
        let before = clip_chunks(chunks.drop_last(), start, end);
        if from < to {
            before.push(chunks.last().subrange(from, to))
        } else {
            before
        }
    }
}

/// Clipping chunks to a window and joining them gives the window of the joined chunks.
pub proof fn lemma_clip_is_window(chunks: Seq<Seq<u8>>, start: int, end: int)
    requires
        0 <= start <= end,
    ensures
        concat_chunks(clip_chunks(chunks, start, end)) == window(concat_chunks(chunks), start, end),
    decreases chunks.len(),
{
    if chunks.len() > 0 {
        lemma_clip_is_window(chunks.drop_last(), start, end);
        let base = concat_chunks(chunks.drop_last()).len();
        let from = if start > base {
            start - base
        } else {
            0
        };
        let to = if end - base < chunks.last().len() {
            end - base
        } else {
            chunks.last().len() as int
        };
        let before = clip_chunks(chunks.drop_last(), start, end);
        if from < to {
            let part = chunks.last().subrange(from, to);
            assert(before.push(part).drop_last() =~= before);
        }
        assert(concat_chunks(clip_chunks(chunks, start, end)) =~= window(
            concat_chunks(chunks),
            start,
            end,
        ));
    }
}

/// The bytes of `bytes` whose positions lie in `start..end`.
pub open spec fn window(bytes: Seq<u8>, start: int, end: int) -> Seq<u8> {
    let from = if start < bytes.len() {
        start
    } else {
        bytes.len() as int
    };
    let to = if end < bytes.len() {
        end
    } else {
        bytes.len() as int
    };
    bytes.subrange(from, to)
}

/// A prefix of the chunks joins to a prefix of the joined chunks.
pub proof fn lemma_concat_take(chunks: Seq<Seq<u8>>, n: int)
    requires
        0 <= n <= chunks.len(),
    ensures
        concat_chunks(chunks.take(n)).len() <= concat_chunks(chunks).len(),
        concat_chunks(chunks.take(n)) == concat_chunks(chunks).take(
            concat_chunks(chunks.take(n)).len() as int,
        ),
    decreases chunks.len(),
{
    if n == chunks.len() {
        assert(chunks.take(n) =~= chunks);
        assert(concat_chunks(chunks) =~= concat_chunks(chunks).take(
            concat_chunks(chunks).len() as int,
        ));
    } else {
        lemma_concat_take(chunks.drop_last(), n);
        assert(chunks.drop_last().take(n) =~= chunks.take(n));
        assert(concat_chunks(chunks.take(n)) =~= concat_chunks(chunks).take(
            concat_chunks(chunks.take(n)).len() as int,
        ));
    }
}

/// One more chunk appends its bytes.
pub proof fn lemma_concat_step(chunks: Seq<Seq<u8>>, n: int)
    requires
        0 <= n < chunks.len(),
    ensures
        concat_chunks(chunks.take(n + 1)) == concat_chunks(chunks.take(n)) + chunks[n],
{
    assert(chunks.take(n + 1).drop_last() =~= chunks.take(n));
}

/// An ordered list of byte slices.
#[derive(Debug, Clone)]
pub struct Chunks<'a> {
    parts: Vec<&'a [u8]>,
}

impl<'a> View for Chunks<'a> {
    type V = Seq<Seq<u8>>;

    closed spec fn view(&self) -> Seq<Seq<u8>> {
        Seq::new(self.parts@.len(), |i: int| self.parts@[i]@)
    }
}

impl<'a> Chunks<'a> {
    /// No chunk at all.
    pub fn empty() -> (r: Self)
        ensures
            r@ == Seq::<Seq<u8>>::empty(),
    {
        let r = Chunks { parts: Vec::new() };
        assert(r@ =~= Seq::<Seq<u8>>::empty());
        r
    }

    /// Exactly one chunk.
    pub fn single(part: &'a [u8]) -> (r: Self)
        ensures
            r@ == seq![part@],
    {
        let r = Chunks { parts: vec![part] };
        assert(r@ =~= seq![part@]);
        r
    }

    /// The given chunks, in order.
    pub fn from_vec(parts: Vec<&'a [u8]>) -> (r: Self)
        ensures
            r@ == Seq::new(parts@.len(), |i: int| parts@[i]@),
    {
        Chunks { parts }
    }

    /// How many chunks there are.
    pub fn count(&self) -> (r: usize)
        ensures
            r == self@.len(),
    {
        self.parts.len()
    }

    /// The chunk at position `i`.
    pub fn get(&self, i: usize) -> (r: &'a [u8])
        requires
            i < self@.len(),
        ensures
            r@ == self@[i as int],
    {
        self.parts[i]
    }
}

/// Read-only bytes, held in one or more chunks.
pub trait BufView {
    /// The chunks, in order.
    spec fn chunks(&self) -> Seq<Seq<u8>>;

    /// The chunks as slices.
    fn as_chunks(&self) -> (r: Chunks<'_>)
        ensures
            r@ == self.chunks(),
            concat_chunks(self.chunks()).len() <= usize::MAX,
    ;

    /// The number of bytes in all chunks together.
    fn len(&self) -> (r: usize)
        ensures
            r == concat_chunks(self.chunks()).len(),
    ;
}

/// The bytes that a view holds.
pub open spec fn view_bytes<V: BufView>(view: &V) -> Seq<u8> {
    concat_chunks(view.chunks())
}

/// Joining a single chunk gives that chunk.
pub proof fn lemma_concat_single(chunk: Seq<u8>)
    ensures
        concat_chunks(seq![chunk]) == chunk,
{
    reveal_with_fuel(concat_chunks, 2);
    assert(seq![chunk].drop_last() =~= Seq::<Seq<u8>>::empty());
    assert(concat_chunks(seq![chunk]) =~= chunk);
}

impl BufView for Vec<u8> {
    open spec fn chunks(&self) -> Seq<Seq<u8>> {
        seq![self@]
    }

    fn as_chunks(&self) -> (r: Chunks<'_>) {
        proof {
            lemma_concat_single(self@);
            assert(self.len() == self@.len());
        }
        Chunks::single(self.as_slice())
    }

    fn len(&self) -> (r: usize) {
        proof {
            lemma_concat_single(self@);
        }
        Vec::len(self)
    }
}

/// Copies every byte of a view into one vector.
pub fn flatten_view<V: BufView>(view: &V) -> (r: Vec<u8>)
    ensures
        r@ == view_bytes(view),
{
    let chunks = view.as_chunks();
    let mut out: Vec<u8> = Vec::new();
    let mut i: usize = 0;
    while i < chunks.count()
        invariant
            i <= chunks@.len(),
            chunks@ == view.chunks(),
            out@ == concat_chunks(chunks@.take(i as int)),
        decreases chunks@.len() - i,
    {
        let chunk = chunks.get(i);
        proof {
            lemma_concat_step(chunks@, i as int);
        }
        out.extend_from_slice(chunk);
        i += 1;
    }
    assert(chunks@.take(i as int) =~= chunks@);
    out
}

/// The bytes of chunks are those of the first chunks and then those of the others; no chunk holds none
/// and one chunk its own.
pub proof fn law_chunks_join(a: Seq<Seq<u8>>, b: Seq<Seq<u8>>, chunk: Seq<u8>)
    ensures
        concat_chunks(Seq::empty()) == Seq::<u8>::empty(),
        concat_chunks(seq![chunk]) == chunk,
        concat_chunks(a + b) == concat_chunks(a) + concat_chunks(b),
    decreases b.len(),
{
    lemma_concat_single(chunk);
    if b.len() == 0 {
        assert(a + b =~= a);
        assert(concat_chunks(a) + concat_chunks(b) =~= concat_chunks(a));
    } else {
        law_chunks_join(a, b.drop_last(), chunk);
        assert((a + b).drop_last() =~= a + b.drop_last());
        assert((a + b).last() == b.last());
        assert(concat_chunks(a + b) =~= concat_chunks(a) + concat_chunks(b));
    }
}

/// A window shows the bytes from its start up to its end, as far as there are any.
pub proof fn law_window(bytes: Seq<u8>, start: int, end: int)
    requires
        0 <= start <= end,
    ensures
        end <= bytes.len() ==> window(bytes, start, end).len() == end - start,
        start <= bytes.len() <= end ==> window(bytes, start, end).len() == bytes.len() - start,
        start > bytes.len() ==> window(bytes, start, end).len() == 0,
        forall|i: int|
            0 <= i < window(bytes, start, end).len() ==> #[trigger] window(bytes, start, end)[i]
                == bytes[start + i],
{
}

/// The parts that chunks are clipped to hold something each, and make up the window together.
pub proof fn law_clipped_parts(chunks: Seq<Seq<u8>>, start: int, end: int)
    requires
        0 <= start <= end,
    ensures
        clip_chunks(chunks, start, end).len() <= chunks.len(),
        forall|i: int|
            0 <= i < clip_chunks(chunks, start, end).len() ==> (#[trigger] clip_chunks(
                chunks,
                start,
                end,
            )[i]).len() > 0,
        concat_chunks(clip_chunks(chunks, start, end)) == window(concat_chunks(chunks), start, end),
    decreases chunks.len(),
{
    lemma_clip_is_window(chunks, start, end);
    if chunks.len() > 0 {
        law_clipped_parts(chunks.drop_last(), start, end);
    }
}

} // verus!
