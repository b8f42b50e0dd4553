//! Lines of text, each ended by a line feed.
use crate::buffer::contract::{BufferPool, ReadableBuffer, WritableBuffer};
use crate::error::{CoreError, PROTOCOL_BUDGET_EXCEEDED, PROTOCOL_DECODE};
use crate::text::{fault_text, push_decimal, utf8_text};
use vstd::prelude::*;
use vstd::string::*;

verus! {

use crate::buffer::contract::fits;
use crate::text::{
    decimal, lemma_absent_byte, lemma_text_of_bytes, utf8_fault, utf8_fault_text,
};
use vstd::utf8::{decode_utf8, encode_utf8, encode_utf8_decode_utf8, encode_utf8_valid_utf8, valid_utf8};

/// The byte that ends a line.
pub const NEWLINE: u8 = 10;

/// What a codec reads and writes.
#[derive(Debug, Clone, Copy, PartialEq, Eq)]
pub struct CodecDescriptor {
    /// Type of the contents.
    pub content_type: &'static str,
    /// Encoding of the contents.
    pub content_encoding: &'static str,
}

/// What an encoder may use.
#[derive(Debug)]
pub struct EncodeContext<P> {
    /// Where buffers come from.
    pub pool: P,
    /// The longest frame allowed, with its line feed.
    pub max_frame_size: Option<usize>,
}

impl<P: BufferPool> EncodeContext<P> {
    /// Frames of any length, in buffers of this pool.
    pub fn new(pool: P) -> (r: Self)
        ensures
            r.pool == pool,
            r.max_frame_size is None,
    {
        EncodeContext { pool, max_frame_size: None }
    }

    /// Frames of limited length, in buffers of this pool.
    pub fn with_max_frame_size(pool: P, max_frame_size: Option<usize>) -> (r: Self)
        ensures
            r.pool == pool,
            r.max_frame_size == max_frame_size,
    {
        EncodeContext { pool, max_frame_size }
    }
}

/// What a decoder may use.
#[derive(Debug, Clone, Copy, PartialEq, Eq)]
pub struct DecodeContext {
    /// The longest line allowed, without its line feed.
    pub max_frame_size: Option<usize>,
}

impl DecodeContext {
    /// Lines of any length.
    pub fn new() -> (r: Self)
        ensures
            r.max_frame_size is None,
    {
        DecodeContext { max_frame_size: None }
    }

    /// Lines of limited length.
    pub fn with_max_frame_size(max_frame_size: Option<usize>) -> (r: Self)
        ensures
            r.max_frame_size == max_frame_size,
    {
        DecodeContext { max_frame_size }
    }
}

/// An encoded frame, and what keeps track of its buffer.
#[derive(Debug)]
pub struct EncodedPayload<B, L> {
    /// The frame.
    pub buffer: B,
    /// What keeps track of the buffer.
    pub lease: L,
}

impl<B: ReadableBuffer, L> EncodedPayload<B, L> {
    /// The frame alone. What keeps track of its buffer is dropped, so a lent buffer does not come back;
    /// to give it back, keep both fields.
    pub fn into_buffer(self) -> (r: B)
        ensures
            r == self.buffer,
    {
        self.buffer
    }
}

/// What decoding gives.
#[derive(Debug, Clone, PartialEq, Eq)]
pub enum DecodeOutcome {
    /// A line.
    Complete(String),
    /// The line is not complete yet.
    Incomplete,
}

/// Whether a length is over a limit.
pub open spec fn exceeds(len: int, limit: Option<usize>) -> bool {
    limit matches Some(most) && len > most
}

/// The position of the first line feed from `at` on.
pub open spec fn newline_from(bytes: Seq<u8>, at: int) -> Option<int>
    decreases bytes.len() - at,
{
    if at >= bytes.len() {
        None
    } else if bytes[at] == 10 {
        Some(at)
    } else {
        newline_from(bytes, at + 1)
    }
}

/// The position of the first line feed.
pub open spec fn newline_of(bytes: Seq<u8>) -> Option<int> {
    newline_from(bytes, 0)
}

/// A line on the wire.
pub open spec fn line_bytes(text: Seq<char>) -> Seq<u8> {
    encode_utf8(text).push(10)
}

/// The error of a line that is too long to be encoded.
pub open spec fn encode_budget_text(len: int, limit: int) -> Seq<char> {
    "line payload length "@ + decimal(len) + " exceeds encode budget "@ + decimal(limit)
}

/// The error of a line that is too long to be decoded.
pub open spec fn decode_budget_text(len: int, limit: int) -> Seq<char> {
    "line payload length "@ + decimal(len) + " exceeds decode budget "@ + decimal(limit)
}

/// The error of bytes without a line feed that are too many for a line.
pub open spec fn chunk_budget_text(len: int, limit: int) -> Seq<char> {
    "current chunk length "@ + decimal(len) + " exceeds decode budget "@ + decimal(limit)
        + " before newline"@
}

/// The error of a line that is not UTF-8.
pub open spec fn not_utf8_text(bytes: Seq<u8>) -> Seq<char> {
    "line payload is not valid UTF-8: "@ + utf8_fault_text(utf8_fault(bytes))
}

/// Writes `head`, a number, `middle`, a number and `tail`.
fn two_numbers(
    head: &'static str,
    first: usize,
    middle: &'static str,
    second: usize,
    tail: &'static str,
) -> (r: String)
    ensures
        r@ == head@ + decimal(first as int) + middle@ + decimal(second as int) + tail@,
{
    let mut text = String::new();
    text.append(head);
    push_decimal(&mut text, first as u64);
    text.append(middle);
    push_decimal(&mut text, second as u64);
    text.append(tail);
    assert(text@ =~= head@ + decimal(first as int) + middle@ + decimal(second as int) + tail@);
    text
}

/// Finds the first line feed.
fn find_newline(bytes: &[u8]) -> (r: Option<usize>)
    ensures
        match r {
            Some(pos) => newline_of(bytes@) == Some(pos as int) && pos < bytes@.len()
                && bytes@[pos as int] == 10,
            None => newline_of(bytes@) is None,
        },
{
    let mut i: usize = 0;
    while i < bytes.len()
        invariant
            i <= bytes@.len(),
            newline_of(bytes@) == newline_from(bytes@, i as int),
        decreases bytes@.len() - i,
    {
        if bytes[i] == NEWLINE {
            return Some(i);
        }
        i += 1;
    }
    None
}

/// Encodes and decodes lines of text.
#[derive(Debug, Clone, Copy, PartialEq, Eq)]
pub struct LineDelimitedCodec {
    descriptor: CodecDescriptor,
}

/// What the line codec reads and writes: plain text in UTF-8, as it is.
pub open spec fn line_descriptor() -> CodecDescriptor {
    CodecDescriptor {
        content_type: "text/plain; charset=utf-8",
        content_encoding: "identity",
    }
}

/// Whether decoding a line from bytes that begin with `front` ends like this, in a buffer that goes
/// from `before` to `after`.
pub open spec fn decoded<B: ReadableBuffer>(
    before: B,
    limit: Option<usize>,
    r: Result<DecodeOutcome, CoreError>,
    after: B,
) -> bool {
    let front = before.front();
    &&& after.share() == before.share()
    &&& match newline_of(front) {
        Some(pos) => {
            let line = front.take(pos);
            if exceeds(pos, limit) {
                &&& after == before
                &&& r matches Err(e) && e.says(
                    PROTOCOL_BUDGET_EXCEEDED@,
                    decode_budget_text(pos, limit->0 as int),
                )
            } else {
                &&& r matches Ok(outcome) ==> {
                    &&& outcome matches DecodeOutcome::Complete(text)
                    &&& valid_utf8(line)
                    &&& text@ == decode_utf8(line)
                    &&& after.rest() == before.rest().skip(pos + 1)
                    &&& after.reliable() == before.reliable()
                }
                &&& r matches Err(e) ==> before.reliable() ==> {
                    &&& !valid_utf8(line)
                    &&& e.says(PROTOCOL_DECODE@, not_utf8_text(line))
                    &&& after.rest() == before.rest().skip(pos + 1)
                    &&& after.reliable()
                }
            }
        },
        None => {
            &&& after == before
            &&& if exceeds(front.len() as int, limit) {
                r matches Err(e) && e.says(
                    PROTOCOL_BUDGET_EXCEEDED@,
                    chunk_budget_text(front.len() as int, limit->0 as int),
                )
            } else {
                r matches Ok(outcome) && outcome is Incomplete
            }
        },
    }
}

/// What encoding does with the answer of a pool: its error is handed on, and its buffer is what the
/// frame is written to, unless the buffer refuses the bytes.
pub open spec fn handed_on<B: WritableBuffer, L>(
    lent: Result<(B, L), CoreError>,
    r: Result<EncodedPayload<B::Frozen, L>, CoreError>,
) -> bool {
    match lent {
        Ok((buffer, lease)) => {
            &&& buffer.accepts() ==> r is Ok
            &&& r matches Ok(payload) ==> payload.lease == lease && payload.buffer.share()
                == buffer.held()
        },
        Err(e) => r matches Err(error) && error == e,
    }
}

impl Default for LineDelimitedCodec {
    fn default() -> (r: Self)
        ensures
            r == LineDelimitedCodec::plain(),
    {
        LineDelimitedCodec::new()
    }
}

impl LineDelimitedCodec {
    #[verifier::type_invariant]
    spec fn is_plain(&self) -> bool {
        self.descriptor == line_descriptor()
    }

    /// The codec for lines of plain text. There is no other.
    pub closed spec fn plain() -> Self {
        LineDelimitedCodec { descriptor: line_descriptor() }
    }

    /// A codec for lines of plain text.
    pub fn new() -> (r: Self)
        ensures
            r == LineDelimitedCodec::plain(),
    {
        LineDelimitedCodec {
            descriptor: CodecDescriptor {
                content_type: "text/plain; charset=utf-8",
                content_encoding: "identity",
            },
        }
    }

    /// What the codec reads and writes: the same for every codec, at any time.
    pub fn descriptor(&self) -> (r: &CodecDescriptor)
        ensures
            *r == line_descriptor(),
            *self == LineDelimitedCodec::plain(),
    {
        proof {
            use_type_invariant(self);
        }
        &self.descriptor
    }

    /// Encodes a line into a buffer of the pool. A line that is longer than allowed, with its line
    /// feed, is refused; else only the pool and its buffers can refuse.
    pub fn encode<P: BufferPool>(&self, item: &String, ctx: &mut EncodeContext<P>) -> (r: Result<
        EncodedPayload<<P::Buffer as WritableBuffer>::Frozen, P::Lease>,
        CoreError,
    >)
        requires
            fits(line_bytes(item@).len() as int),
        ensures
            final(ctx).max_frame_size == old(ctx).max_frame_size,
            final(ctx).pool.generous() == old(ctx).pool.generous(),
            if exceeds(line_bytes(item@).len() as int, old(ctx).max_frame_size) {
                &&& final(ctx).pool == old(ctx).pool
                &&& r matches Err(e) && e.says(
                    PROTOCOL_BUDGET_EXCEEDED@,
                    encode_budget_text(
                        encode_utf8(item@).len() as int,
                        old(ctx).max_frame_size->0 as int,
                    ),
                )
            } else {
                &&& exists|lent: Result<(P::Buffer, P::Lease), CoreError>|
                    {
                        &&& #[trigger] old(ctx).pool.answers(
                            line_bytes(item@).len() as usize,
                            lent,
                            final(ctx).pool,
                        )
                        &&& handed_on(lent, r)
                    }
                &&& match r {
                    Ok(payload) => {
                        &&& payload.buffer.rest() == line_bytes(item@)
                        &&& payload.buffer.flat() == line_bytes(item@)
                        &&& P::lends(&payload.lease, payload.buffer.share())
                    },
                    Err(_) => !old(ctx).pool.generous(),
                }
            },
    {
        let bytes = item.as_str().as_bytes();
        let required: usize = bytes.len() + 1;
        match ctx.max_frame_size {
            Some(limit) => {
                if required > limit {
                    let text = two_numbers(
                        "line payload length ",
                        required - 1,
                        " exceeds encode budget ",
                        limit,
                        "",
                    );
                    proof {
                        reveal_strlit("");
                        assert(text@ =~= encode_budget_text(
                            encode_utf8(item@).len() as int,
                            limit as int,
                        ));
                    }
                    return Err(CoreError::new(PROTOCOL_BUDGET_EXCEEDED, text));
                }
            },
            None => {},
        }
        let lent = ctx.pool.acquire(required);
        let ghost answer = lent;
        assert(old(ctx).pool.answers(line_bytes(item@).len() as usize, answer, ctx.pool));
        let (buffer, lease) = match lent {
            Ok(pair) => pair,
            Err(e) => {
                return Err(e);
            },
        };
        let mut writable = buffer;
        match writable.put_slice(bytes) {
            Ok(_) => {},
            Err(e) => {
                return Err(e);
            },
        }
        match writable.put_slice(&[NEWLINE]) {
            Ok(_) => {},
            Err(e) => {
                return Err(e);
            },
        }
        assert(writable.contents() =~= line_bytes(item@));
        match writable.freeze() {
            Ok(buffer) => Ok(EncodedPayload { buffer, lease }),
            Err(e) => Err(e),
        }
    }

    /// Decodes the line at the front of a buffer. Bytes without a line feed stay where they are; a
    /// line that is too long, too.
    pub fn decode<B: ReadableBuffer>(&self, src: &mut B, ctx: &DecodeContext) -> (r: Result<
        DecodeOutcome,
        CoreError,
    >)
        ensures
            decoded(*old(src), ctx.max_frame_size, r, *final(src)),
    {
        let chunk = src.chunk();
        let ghost front = src.front();
        let ghost rest = src.rest();
        if chunk.len() == 0 {
            return Ok(DecodeOutcome::Incomplete);
        }
        match find_newline(chunk) {
            Some(pos) => {
                match ctx.max_frame_size {
                    Some(limit) => {
                        if pos > limit {
                            return Err(over_decode_budget(pos, limit));
                        }
                    },
                    None => {},
                }
                let mut raw: Vec<u8> = Vec::new();
                raw.resize(pos + 1, 0);
                // The frame is read, not split off, so that a lent buffer keeps its share.
                match src.copy_into_slice(raw.as_mut_slice()) {
                    Ok(_) => {},
                    Err(e) => {
                        return Err(e);
                    },
                }
                proof {
                    assert(rest.take(front.len() as int)[pos as int] == rest[pos as int]);
                    assert(rest.take(pos + 1).drop_last() =~= front.take(pos as int));
                }
                line_of_frame(raw)
            },
            None => {
                match ctx.max_frame_size {
                    Some(limit) => {
                        if chunk.len() > limit {
                            let text = two_numbers(
                                "current chunk length ",
                                chunk.len(),
                                " exceeds decode budget ",
                                limit,
                                " before newline",
                            );
                            return Err(CoreError::new(PROTOCOL_BUDGET_EXCEEDED, text));
                        }
                    },
                    None => {},
                }
                Ok(DecodeOutcome::Incomplete)
            },
        }
    }
}

/// The error of a line that is too long to be decoded.
fn over_decode_budget(len: usize, limit: usize) -> (r: CoreError)
    ensures
        r.says(PROTOCOL_BUDGET_EXCEEDED@, decode_budget_text(len as int, limit as int)),
{
    let text = two_numbers("line payload length ", len, " exceeds decode budget ", limit, "");
    proof {
        reveal_strlit("");
        assert(text@ =~= decode_budget_text(len as int, limit as int));
    }
    CoreError::new(PROTOCOL_BUDGET_EXCEEDED, text)
}

/// The line in a frame, or why there is none.
pub open spec fn frame_line(frame: Seq<u8>, r: Result<DecodeOutcome, CoreError>) -> bool {
    if frame.len() == 0 || frame.last() != 10 {
        r matches Err(e) && e.says(PROTOCOL_DECODE@, "line frame missing trailing newline"@)
    } else if valid_utf8(frame.drop_last()) {
        r matches Ok(outcome) && outcome matches DecodeOutcome::Complete(text) && text@
            == decode_utf8(frame.drop_last())
    } else {
        r matches Err(e) && e.says(PROTOCOL_DECODE@, not_utf8_text(frame.drop_last()))
    }
}

/// Takes the line out of a frame, which has to end with a line feed and to hold UTF-8.
pub fn line_of_frame(frame: Vec<u8>) -> (r: Result<DecodeOutcome, CoreError>)
    ensures
        frame_line(frame@, r),
{
    let ghost all = frame@;
    let mut raw = frame;
    let missing: bool = match raw.pop() {
        Some(byte) => byte != NEWLINE,
        None => true,
    };
    if missing {
        return Err(
            CoreError::new(PROTOCOL_DECODE, "line frame missing trailing newline".to_owned()),
        );
    }
    assert(raw@ =~= all.drop_last());
    match utf8_text(raw.as_slice()) {
        Ok(text) => {
            proof {
                lemma_text_of_bytes(text, raw@);
            }
            Ok(DecodeOutcome::Complete(text.to_owned()))
        },
        Err(fault) => {
            let mut text = String::new();
            text.append("line payload is not valid UTF-8: ");
            let words = fault_text(&fault);
            text.append(words.as_str());
            assert(text@ =~= not_utf8_text(raw@));
            Err(CoreError::new(PROTOCOL_DECODE, text))
        },
    }
}

/// The first line feed is where no line feed stands in front of it.
pub proof fn lemma_newline_at(bytes: Seq<u8>, at: int, pos: int)
    requires
        0 <= at <= pos < bytes.len(),
        bytes[pos] == 10,
        forall|i: int| at <= i < pos ==> #[trigger] bytes[i] != 10,
    ensures
        newline_from(bytes, at) == Some(pos),
    decreases pos - at,
{
    if at < pos {
        lemma_newline_at(bytes, at + 1, pos);
    }
}

/// Where bytes begin with an encoded line that has no line feed in it, the first line feed is the
/// one that ends the line.
pub proof fn lemma_line_in_front(text: Seq<char>, more: Seq<u8>)
    requires
        !text.contains('\n'),
    ensures
        newline_of(line_bytes(text) + more) == Some(encode_utf8(text).len() as int),
        (line_bytes(text) + more).take(encode_utf8(text).len() as int) == encode_utf8(text),
        (line_bytes(text) + more).skip((encode_utf8(text).len() + 1) as int) == more,
        valid_utf8(encode_utf8(text)),
        decode_utf8(encode_utf8(text)) == text,
{
    let bytes = line_bytes(text) + more;
    let n = encode_utf8(text).len() as int;
    assert forall|i: int| 0 <= i < text.len() implies #[trigger] text[i] as int != 10 by {
        if text[i] as int == 10 {
            assert(text[i] == '\n');
            assert(text.contains(text[i]));
        }
    }
    lemma_absent_byte(text, 10);
    assert forall|i: int| 0 <= i < n implies #[trigger] bytes[i] != 10 by {
        assert(bytes[i] == encode_utf8(text)[i]);
    }
    lemma_newline_at(bytes, 0, n);
    assert(bytes.take(n) =~= encode_utf8(text));
    assert(bytes.skip(n + 1) =~= more);
    encode_utf8_valid_utf8(text);
    encode_utf8_decode_utf8(text);
}

/// Decoding gives back a line that was encoded, and leaves what follows it, if the line has no line
/// feed in it, is not too long to be decoded, and stands at the front in one piece.
pub proof fn law_line_round_trip<B: ReadableBuffer>(
    text: Seq<char>,
    more: Seq<u8>,
    limit: Option<usize>,
    before: B,
    r: Result<DecodeOutcome, CoreError>,
    after: B,
)
    requires
        !text.contains('\n'),
        !exceeds(encode_utf8(text).len() as int, limit),
        before.front() == line_bytes(text) + more,
        before.rest() == before.front(),
        before.reliable(),
        decoded(before, limit, r, after),
    ensures
        r matches Ok(DecodeOutcome::Complete(line)) && line@ == text,
        after.rest() == more,
{
    lemma_line_in_front(text, more);
}

/// A line that may be encoded under a limit may be decoded under it.
pub proof fn law_encoded_lines_are_decodable(text: Seq<char>, limit: Option<usize>)
    requires
        !exceeds(line_bytes(text).len() as int, limit),
    ensures
        !exceeds(encode_utf8(text).len() as int, limit),
{
}

/// Bytes without a line feed are never a line, however few or many they are, and stay in the
/// buffer.
pub proof fn law_no_line_without_newline<B: ReadableBuffer>(
    limit: Option<usize>,
    before: B,
    r: Result<DecodeOutcome, CoreError>,
    after: B,
)
    requires
        !before.front().contains(10),
        decoded(before, limit, r, after),
    ensures
        after == before,
        !(r matches Ok(DecodeOutcome::Complete(_))),
{
    lemma_no_newline(before.front(), 0);
}

/// Without a line feed there is no first one.
pub proof fn lemma_no_newline(bytes: Seq<u8>, at: int)
    requires
        0 <= at,
        !bytes.contains(10),
    ensures
        newline_from(bytes, at) is None,
    decreases bytes.len() - at,
{
    if at < bytes.len() {
        assert(bytes.contains(bytes[at]));
        lemma_no_newline(bytes, at + 1);
    }
}

/// A line on the wire is its text in UTF-8 and one line feed. Without a limit nothing is too long, and
/// with a limit exactly what is longer than it.
pub proof fn law_lines_end_with_a_line_feed(text: Seq<char>, len: int, most: usize)
    ensures
        line_bytes(text).last() == 10,
        line_bytes(text).drop_last() == encode_utf8(text),
        !exceeds(len, None),
        exceeds(len, Some(most)) <==> len > most,
{
    assert(line_bytes(text).drop_last() =~= encode_utf8(text));
}

/// The line feed that counts is the first: none stands in front of it.
pub proof fn law_first_line_feed_counts(bytes: Seq<u8>, pos: int)
    ensures
        newline_of(bytes) == Some(pos) <==> {
            &&& 0 <= pos < bytes.len()
            &&& bytes[pos] == 10
            &&& forall|i: int| 0 <= i < pos ==> #[trigger] bytes[i] != 10
        },
        newline_of(bytes) is None <==> forall|i: int|
            0 <= i < bytes.len() ==> #[trigger] bytes[i] != 10,
{
    lemma_newline_found(bytes, 0);
    if 0 <= pos < bytes.len() && bytes[pos] == 10 && (forall|i: int|
        0 <= i < pos ==> #[trigger] bytes[i] != 10) {
        lemma_newline_at(bytes, 0, pos);
    }
}

proof fn lemma_newline_found(bytes: Seq<u8>, at: int)
    requires
        0 <= at,
    ensures
        match newline_from(bytes, at) {
            Some(pos) => {
                &&& at <= pos < bytes.len()
                &&& bytes[pos] == 10
                &&& forall|i: int| at <= i < pos ==> #[trigger] bytes[i] != 10
            },
            None => forall|i: int| at <= i < bytes.len() ==> #[trigger] bytes[i] != 10,
        },
    decreases bytes.len() - at,
{
    if at < bytes.len() {
        lemma_newline_found(bytes, at + 1);
    }
}

/// A line that is longer than allowed is refused and stays where it is; so are bytes without a line
/// feed of which there are more than allowed. Fewer wait for more.
pub proof fn law_decode_budget<B: ReadableBuffer>(
    most: usize,
    before: B,
    r: Result<DecodeOutcome, CoreError>,
    after: B,
)
    requires
        decoded(before, Some(most), r, after),
    ensures
        newline_of(before.front()) matches Some(pos) && pos > most ==> after == before && (
        r matches Err(e) && e.says(
            PROTOCOL_BUDGET_EXCEEDED@,
            decode_budget_text(newline_of(before.front())->0, most as int),
        )),
        newline_of(before.front()) is None && before.front().len() > most ==> after == before && (
        r matches Err(e) && e.says(
            PROTOCOL_BUDGET_EXCEEDED@,
            chunk_budget_text(before.front().len() as int, most as int),
        )),
        newline_of(before.front()) is None && before.front().len() <= most ==> after == before && (
        r matches Ok(DecodeOutcome::Incomplete)),
        (newline_of(before.front()) matches Some(pos) && pos <= most) && before.reliable() ==> {
            let pos = newline_of(before.front())->0;
            &&& after.rest() == before.rest().skip(pos + 1)
            &&& valid_utf8(before.front().take(pos)) <==> r is Ok
            &&& r matches Ok(outcome) ==> (outcome matches DecodeOutcome::Complete(text) && text@
                == decode_utf8(before.front().take(pos)))
        },
{
}

/// A frame is a line exactly if it ends with a line feed and is UTF-8 in front of it.
pub proof fn law_frames_are_lines(frame: Seq<u8>, r: Result<DecodeOutcome, CoreError>)
    requires
        frame_line(frame, r),
    ensures
        r is Ok <==> frame.len() > 0 && frame.last() == 10 && valid_utf8(frame.drop_last()),
        r matches Ok(outcome) ==> (outcome matches DecodeOutcome::Complete(text) && text@ == decode_utf8(
            frame.drop_last(),
        )),
        frame.len() == 0 || frame.last() != 10 ==> (r matches Err(e) && e.says(
            PROTOCOL_DECODE@,
            "line frame missing trailing newline"@,
        )),
{
}

/// The errors name first the length and then the limit, and the codec is one for plain text in UTF-8.
pub proof fn law_errors_name_length_and_limit(len: int, limit: int)
    ensures
        encode_budget_text(len, limit) == "line payload length "@ + decimal(len)
            + " exceeds encode budget "@ + decimal(limit),
        decode_budget_text(len, limit) == "line payload length "@ + decimal(len)
            + " exceeds decode budget "@ + decimal(limit),
        chunk_budget_text(len, limit) == "current chunk length "@ + decimal(len)
            + " exceeds decode budget "@ + decimal(limit) + " before newline"@,
        line_descriptor().content_type@ == "text/plain; charset=utf-8"@,
        line_descriptor().content_encoding@ == "identity"@,
{
}

/// The error of a pool is handed on as it is, and its buffer and lease are what the frame comes with.
pub proof fn law_answers_are_handed_on<B: WritableBuffer, L>(
    lent: Result<(B, L), CoreError>,
    r: Result<EncodedPayload<B::Frozen, L>, CoreError>,
)
    requires
        handed_on(lent, r),
    ensures
        lent matches Err(e) ==> r == Err::<EncodedPayload<B::Frozen, L>, CoreError>(e),
        lent matches Ok((buffer, lease)) ==> {
            &&& buffer.accepts() ==> r is Ok
            &&& r matches Ok(payload) ==> payload.lease == lease && payload.buffer.share()
                == buffer.held()
        },
{
}

} // verus!
