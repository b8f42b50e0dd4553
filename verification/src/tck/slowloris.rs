//! Readers that get their bytes slowly.
use crate::buffer::contract::{BufferPool, PoolStats, ReadableBuffer};
use crate::error::{CoreError, PROTOCOL_BUDGET_EXCEEDED, PROTOCOL_DECODE};
use crate::line::{DecodeContext, DecodeOutcome, LineDelimitedCodec};
use crate::script::support::LinearWritable;
use crate::tck::{TckCase, TckSuite};
use crate::text::push_decimal;
use crate::wire::write_at;
use vstd::prelude::*;
use vstd::slice::slice_to_vec;
use vstd::string::*;

verus! {

use crate::buffer::contract::Share;
use crate::line::{exceeds, newline_from, newline_of, not_utf8_text};
use crate::text::decimal;
use vstd::utf8::{decode_utf8, valid_utf8};

/// The suite of this topic.
pub fn suite() -> (r: TckSuite)
    ensures
        r.name@ == "slowloris"@,
        r.case_names() == seq![
            "slow_reader_drains_within_budget"@,
            "slow_reader_exceeding_budget_is_rejected"@,
        ],
{
    let mut cases: Vec<TckCase> = Vec::new();
    cases.push(TckCase { name: "slow_reader_drains_within_budget" });
    cases.push(TckCase { name: "slow_reader_exceeding_budget_is_rejected" });
    let r = TckSuite { name: "slowloris", cases };
    assert(r.case_names() =~= seq![
        "slow_reader_drains_within_budget"@,
        "slow_reader_exceeding_budget_is_rejected"@,
    ]);
    r
}

/// A buffer of which only the front can be seen, and more of it by and by. What is split off it is a
/// part, all of which can be seen.
#[derive(Debug)]
pub struct RateLimitedReadable {
    data: Vec<u8>,
    cursor: usize,
    visible: usize,
    step: usize,
    part: bool,
}

impl RateLimitedReadable {
    #[verifier::type_invariant]
    spec fn is_ordered(&self) -> bool {
        &&& self.cursor <= self.visible <= self.data@.len()
        &&& self.step > 0
        &&& self.part ==> self.visible == self.data@.len()
    }

    /// The bytes that can be seen and were not read yet.
    pub closed spec fn seen(&self) -> Seq<u8> {
        self.data@.subrange(self.cursor as int, self.visible as int)
    }

    /// The bytes that cannot be seen yet.
    pub closed spec fn hidden(&self) -> Seq<u8> {
        self.data@.skip(self.visible as int)
    }

    /// Whether this was split off another buffer.
    pub closed spec fn is_part(&self) -> bool {
        self.part
    }

    /// The bytes that were read or can be seen.
    pub closed spec fn shown(&self) -> Seq<u8> {
        self.data@.take(self.visible as int)
    }

    /// How many bytes come into sight at once.
    pub closed spec fn pace(&self) -> int {
        self.step as int
    }

    /// A buffer that shows `step` bytes at first, and as many more each time, at least one.
    pub fn new(data: Vec<u8>, step: usize) -> (r: Self)
        ensures
            r.seen() == data@.take(lesser(step as int, data@.len() as int)),
            r.hidden() == data@.skip(lesser(step as int, data@.len() as int)),
            r.shown() == r.seen(),
            !r.is_part(),
            r.pace() == (if step > 1 {
                step as int
            } else {
                1
            }),
    {
        let initial: usize = if step < data.len() {
            step
        } else {
            data.len()
        };
        let pace: usize = if step > 1 {
            step
        } else {
            1
        };
        assert(data@.subrange(0, initial as int) =~= data@.take(initial as int));
        RateLimitedReadable { data, cursor: 0, visible: initial, step: pace, part: false }
    }

    /// Shows more bytes, if there are any.
    pub fn reveal_next_window(&mut self) -> (r: bool)
        ensures
            r == (old(self).hidden().len() > 0),
            final(self).pace() == old(self).pace(),
            final(self).is_part() == old(self).is_part(),
            ({
                let n = lesser(old(self).pace(), old(self).hidden().len() as int);
                &&& final(self).shown() == old(self).shown() + old(self).hidden().take(n)
                &&& final(self).seen() == old(self).seen() + old(self).hidden().take(n)
                &&& final(self).hidden() == old(self).hidden().skip(n)
            }),
    {
        proof {
            use_type_invariant(&*self);
        }
        let ghost seen = self.seen();
        let ghost hidden = self.hidden();
        let ghost shown = self.shown();
        let total: usize = self.data.len();
        if self.visible >= total {
            assert(hidden.take(0) =~= Seq::<u8>::empty());
            assert(seen + hidden.take(0) =~= seen);
            assert(hidden.skip(0) =~= hidden);
            assert(shown + hidden.take(0) =~= shown);
            return false;
        }
        let next: usize = if self.step < total - self.visible {
            self.visible + self.step
        } else {
            total
        };
        self.visible = next;
        proof {
            let n = lesser(self.pace(), hidden.len() as int);
            assert(self.seen() =~= seen + hidden.take(n));
            assert(self.hidden() =~= hidden.skip(n));
            assert(self.shown() =~= shown + hidden.take(n));
        }
        true
    }
}

/// The lesser of two numbers.
pub open spec fn lesser(a: int, b: int) -> int {
    if a < b {
        a
    } else {
        b
    }
}

/// The error of a request for more than can be seen, in other words for a part.
fn out_of_sight(part: bool, text: &'static str, part_text: &'static str) -> (r: CoreError)
    ensures
        r.says(PROTOCOL_DECODE@, sight_text(part, text@, part_text@)),
{
    if part {
        CoreError::new(PROTOCOL_DECODE, part_text.to_owned())
    } else {
        CoreError::new(PROTOCOL_DECODE, text.to_owned())
    }
}

/// The words of an error, which differ for a part.
pub open spec fn sight_text(part: bool, text: Seq<char>, part_text: Seq<char>) -> Seq<char> {
    if part {
        part_text
    } else {
        text
    }
}

impl ReadableBuffer for RateLimitedReadable {
    open spec fn rest(&self) -> Seq<u8> {
        self.seen()
    }

    open spec fn front(&self) -> Seq<u8> {
        self.seen()
    }

    /// What can be seen and was not read yet; of a part all of it, read or not.
    open spec fn flat(&self) -> Seq<u8> {
        if self.is_part() {
            self.shown()
        } else {
            self.seen()
        }
    }

    open spec fn reliable(&self) -> bool {
        true
    }

    open spec fn share(&self) -> Option<Share> {
        None
    }

    fn remaining(&self) -> (r: usize) {
        proof {
            use_type_invariant(&*self);
        }
        self.visible.saturating_sub(self.cursor)
    }

    fn chunk(&self) -> (r: &[u8]) {
        proof {
            use_type_invariant(&*self);
            assert(self.seen().take(self.seen().len() as int) =~= self.seen());
        }
        let all = self.data.as_slice();
        &all[self.cursor..self.visible]
    }

    fn split_to(&mut self, len: usize) -> (r: Result<Self, CoreError>)
        ensures
            match r {
                Ok(part) => {
                    &&& part.is_part()
                    &&& part.shown() == part.seen()
                    &&& part.hidden() == Seq::<u8>::empty()
                    &&& final(self).hidden() == old(self).hidden()
                    &&& final(self).shown() == old(self).shown()
                    &&& final(self).is_part() == old(self).is_part()
                    &&& final(self).pace() == old(self).pace()
                },
                Err(e) => *final(self) == *old(self) && e.says(
                    PROTOCOL_DECODE@,
                    sight_text(
                        old(self).is_part(),
                        "split length exceeds visible window"@,
                        "owned buffer split overflow"@,
                    ),
                ),
            },
    {
        if len > self.remaining() {
            return Err(
                out_of_sight(
                    self.part,
                    "split length exceeds visible window",
                    "owned buffer split overflow",
                ),
            );
        }
        proof {
            use_type_invariant(&*self);
        }
        let ghost before = self.seen();
        let end: usize = self.cursor + len;
        let all = self.data.as_slice();
        let part = slice_to_vec(&all[self.cursor..end]);
        assert(part@ =~= before.take(len as int));
        self.cursor = end;
        assert(self.seen() =~= before.skip(len as int));
        let n: usize = part.len();
        assert(part@.subrange(0, n as int) =~= part@);
        assert(part@.take(n as int) =~= part@);
        assert(part@.skip(n as int) =~= Seq::<u8>::empty());
        Ok(RateLimitedReadable { data: part, cursor: 0, visible: n, step: 1, part: true })
    }

    fn advance(&mut self, len: usize) -> (r: Result<(), CoreError>)
        ensures
            match r {
                Ok(_) => {
                    &&& final(self).hidden() == old(self).hidden()
                    &&& final(self).shown() == old(self).shown()
                    &&& final(self).is_part() == old(self).is_part()
                    &&& final(self).pace() == old(self).pace()
                },
                Err(e) => *final(self) == *old(self) && e.says(
                    PROTOCOL_DECODE@,
                    sight_text(
                        old(self).is_part(),
                        "advance beyond visible window"@,
                        "owned buffer advance overflow"@,
                    ),
                ),
            },
    {
        if len > self.remaining() {
            return Err(
                out_of_sight(
                    self.part,
                    "advance beyond visible window",
                    "owned buffer advance overflow",
                ),
            );
        }
        proof {
            use_type_invariant(&*self);
        }
        let ghost before = self.seen();
        self.cursor = self.cursor + len;
        assert(self.seen() =~= before.skip(len as int));
        Ok(())
    }

    fn copy_into_slice(&mut self, dst: &mut [u8]) -> (r: Result<(), CoreError>)
        ensures
            match r {
                Ok(_) => {
                    &&& final(self).hidden() == old(self).hidden()
                    &&& final(self).shown() == old(self).shown()
                    &&& final(self).is_part() == old(self).is_part()
                    &&& final(self).pace() == old(self).pace()
                },
                Err(e) => *final(self) == *old(self) && final(dst)@ == old(dst)@ && e.says(
                    PROTOCOL_DECODE@,
                    sight_text(
                        old(self).is_part(),
                        "copy exceeds visible bytes"@,
                        "owned buffer copy overflow"@,
                    ),
                ),
            },
    {
        if dst.len() > self.remaining() {
            return Err(
                out_of_sight(
                    self.part,
                    "copy exceeds visible bytes",
                    "owned buffer copy overflow",
                ),
            );
        }
        proof {
            use_type_invariant(&*self);
        }
        let ghost before = self.seen();
        let n: usize = dst.len();
        let end: usize = self.cursor + n;
        let all = self.data.as_slice();
        let part = &all[self.cursor..end];
        assert(part@ =~= before.take(n as int));
        write_at(dst, 0, part);
        assert(dst@ =~= before.take(n as int));
        self.cursor = end;
        assert(self.seen() =~= before.skip(n as int));
        Ok(())
    }

    fn try_into_vec(self) -> (r: Result<Vec<u8>, CoreError>)
        ensures
            r is Ok,
    {
        proof {
            use_type_invariant(&self);
        }
        if self.part {
            assert(self.data@.take(self.visible as int) =~= self.data@);
            return Ok(self.data);
        }
        let all = self.data.as_slice();
        Ok(slice_to_vec(&all[self.cursor..self.visible]))
    }
}

/// A pool that lends nothing.
#[derive(Debug, Clone, Copy, PartialEq, Eq)]
pub struct DummyPool;

/// The error of a pool that lends nothing.
pub open spec fn no_loan_text(min_capacity: int) -> Seq<char> {
    "DummyPool 不支持租借缓冲（请求 "@ + decimal(min_capacity) + " 字节）"@
}

impl BufferPool for DummyPool {
    type Buffer = LinearWritable;

    type Lease = ();

    open spec fn generous(&self) -> bool {
        false
    }

    open spec fn lends(lease: &(), share: Option<Share>) -> bool {
        share is None
    }

    open spec fn answers(
        &self,
        min_capacity: usize,
        answer: Result<(LinearWritable, ()), CoreError>,
        after: Self,
    ) -> bool {
        answer matches Err(e) && e.says("buffer.disabled"@, no_loan_text(min_capacity as int))
    }

    /// Refuses.
    fn acquire(&mut self, min_capacity: usize) -> (r: Result<(LinearWritable, ()), CoreError>)
        ensures
            r matches Err(e) && e.says("buffer.disabled"@, no_loan_text(min_capacity as int)),
    {
        let mut text = String::new();
        text.append("DummyPool 不支持租借缓冲（请求 ");
        push_decimal(&mut text, min_capacity as u64);
        text.append(" 字节）");
        assert(text@ =~= no_loan_text(min_capacity as int));
        Err(CoreError::new("buffer.disabled", text))
    }

    fn shrink_to_fit(&mut self) -> (r: Result<usize, CoreError>)
        ensures
            r matches Ok(n) && n == 0,
    {
        Ok(0)
    }

    fn statistics(&self) -> (r: Result<PoolStats, CoreError>)
        ensures
            r matches Ok(stats) && stats.allocated_bytes == 0 && stats.resident_bytes == 0
                && stats.active_leases == 0 && stats.available_bytes == 0
                && stats.pending_lease_requests == 0 && stats.failed_acquisitions == 0
                && stats.custom_dimensions@.len() == 0,
    {
        Ok(
            PoolStats {
                allocated_bytes: 0,
                resident_bytes: 0,
                active_leases: 0,
                available_bytes: 0,
                pending_lease_requests: 0,
                failed_acquisitions: 0,
                custom_dimensions: Vec::new(),
            },
        )
    }
}

/// More bytes behind do not move the first line feed, and a later one lies behind what has none.
proof fn lemma_newline_of_more(a: Seq<u8>, b: Seq<u8>, at: int)
    requires
        0 <= at <= a.len(),
    ensures
        newline_from(a, at) matches Some(pos) ==> at <= pos < a.len() && newline_from(a + b, at)
            == Some(pos),
        newline_from(a, at) is None ==> (newline_from(a + b, at) matches Some(pos) ==> pos
            >= a.len()),
    decreases a.len() - at,
{
    if at < a.len() {
        assert((a + b)[at] == a[at]);
        if a[at] != 10 {
            lemma_newline_of_more(a, b, at + 1);
        }
    } else {
        lemma_newline_behind(a + b, at);
    }
}

/// The first line feed from a position on does not lie in front of it.
proof fn lemma_newline_behind(bytes: Seq<u8>, at: int)
    requires
        0 <= at,
    ensures
        newline_from(bytes, at) matches Some(pos) ==> at <= pos < bytes.len(),
    decreases bytes.len() - at,
{
    if at < bytes.len() && bytes[at] != 10 {
        lemma_newline_behind(bytes, at + 1);
    }
}

/// What reading the line at the front of `data` gives, however slowly its bytes come into sight: a
/// line within the limit is read, and anything over it is refused.
pub open spec fn read_result(
    data: Seq<u8>,
    limit: Option<usize>,
    r: Result<DecodeOutcome, CoreError>,
) -> bool {
    match newline_of(data) {
        Some(pos) => {
            let line = data.take(pos);
            if exceeds(pos, limit) {
                r matches Err(e) && e.code_text() == PROTOCOL_BUDGET_EXCEEDED@
            } else if valid_utf8(line) {
                r matches Ok(DecodeOutcome::Complete(text)) && text@ == decode_utf8(line)
            } else {
                r matches Err(e) && e.says(PROTOCOL_DECODE@, not_utf8_text(line))
            }
        },
        None => if exceeds(data.len() as int, limit) {
            r matches Err(e) && e.code_text() == PROTOCOL_BUDGET_EXCEEDED@
        } else {
            r matches Ok(DecodeOutcome::Incomplete)
        },
    }
}

/// Reads the line at the front of `data`, which comes into sight `step` bytes at a time.
pub fn read_slowly(data: Vec<u8>, step: usize, limit: Option<usize>) -> (r: Result<
    DecodeOutcome,
    CoreError,
>)
    ensures
        read_result(data@, limit, r),
{
    let ghost all = data@;
    let codec = LineDelimitedCodec::new();
    let ctx = DecodeContext::with_max_frame_size(limit);
    let mut buffer = RateLimitedReadable::new(data, step);
    proof {
        let n = lesser(step as int, all.len() as int);
        assert(all.take(n) + all.skip(n) =~= all);
    }
    loop
        invariant
            ctx.max_frame_size == limit,
            all == data@,
            buffer.seen() + buffer.hidden() == all,
            buffer.pace() > 0,
        decreases buffer.hidden().len(),
    {
        let ghost seen = buffer.seen();
        let ghost hidden = buffer.hidden();
        proof {
            lemma_newline_of_more(seen, hidden, 0);
            lemma_newline_behind(all, 0);
        }
        let r = codec.decode(&mut buffer, &ctx);
        match r {
            Ok(DecodeOutcome::Incomplete) => {
                if !buffer.reveal_next_window() {
                    assert(seen =~= all);
                    return r;
                }
                proof {
                    let n = lesser(buffer.pace(), hidden.len() as int);
                    assert(buffer.seen() + buffer.hidden() =~= seen + hidden);
                }
            },
            _ => {
                proof {
                    if newline_of(seen) is Some {
                        let pos = newline_of(seen)->0;
                        assert(seen.take(pos) =~= all.take(pos));
                    }
                }
                return r;
            },
        }
    }
}

/// However slowly bytes come into sight, a line is read exactly if its line feed is there, it is not
/// longer than allowed, and it is UTF-8.
pub proof fn law_slow_reading(
    data: Seq<u8>,
    limit: Option<usize>,
    r: Result<DecodeOutcome, CoreError>,
)
    requires
        read_result(data, limit, r),
    ensures
        r matches Ok(DecodeOutcome::Complete(text)) ==> {
            &&& newline_of(data) matches Some(pos)
            &&& limit matches Some(most) ==> pos <= most
            &&& valid_utf8(data.take(pos))
            &&& text@ == decode_utf8(data.take(pos))
        },
        r matches Ok(DecodeOutcome::Incomplete) <==> newline_of(data) is None && (
        limit matches Some(most) ==> data.len() <= most),
        (newline_of(data) matches Some(pos) && valid_utf8(data.take(pos)) && (
        limit matches Some(most) ==> pos <= most)) ==> r is Ok,
        (limit matches Some(most) && (newline_of(data) matches Some(pos) && pos > most
            || newline_of(data) is None && data.len() > most)) ==> (r matches Err(e)
            && e.code_text() == PROTOCOL_BUDGET_EXCEEDED@),
{
}

/// The lesser of two numbers is one of them, and not more than either; a part is spoken of in its own
/// words.
pub proof fn law_lesser_and_words(a: int, b: int, text: Seq<char>, part_text: Seq<char>)
    ensures
        lesser(a, b) <= a && lesser(a, b) <= b,
        lesser(a, b) == a || lesser(a, b) == b,
        sight_text(true, text, part_text) == part_text,
        sight_text(false, text, part_text) == text,
        no_loan_text(a) == "DummyPool 不支持租借缓冲（请求 "@ + decimal(a) + " 字节）"@,
{
}

/// A slow buffer still serves every request that its remaining bytes can serve.
pub proof fn law_slow_bytes_are_served(buffer: RateLimitedReadable)
    ensures
        buffer.reliable(),
{
}

} // verus!
