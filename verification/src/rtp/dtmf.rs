//! Telephone events in RTP payloads.
use crate::text::push_decimal;
use crate::wire::{read_be16, to_be16, write_at};
use vstd::prelude::*;
use vstd::string::*;

verus! {

use crate::text::decimal;
use crate::wire::{be16, be16_bytes, flag, lemma_be16_round_trip};

/// A telephone event.
#[derive(Debug, Clone, Copy, PartialEq, Eq, Structural)]
pub struct DtmfEvent {
    /// Which event.
    pub event_code: u8,
    /// Whether the event has ended.
    pub end: bool,
    /// Volume, as attenuation.
    pub volume: u8,
    /// Duration in units of the media clock.
    pub duration: u16,
}

impl DtmfEvent {
    /// An event with these values.
    pub fn new(event_code: u8, end: bool, volume: u8, duration: u16) -> (r: Self)
        ensures
            r == (DtmfEvent { event_code, end, volume, duration }),
    {
        DtmfEvent { event_code, end, volume, duration }
    }
}

/// Why a payload is no telephone event.
#[derive(Debug, Clone, Copy, PartialEq, Eq, Structural)]
pub enum DtmfDecodeError {
    /// The payload type is not dynamic.
    InvalidPayloadType(u8),
    /// The payload is shorter than one block.
    PayloadTooShort,
    /// The payload does not fill whole blocks.
    MisalignedPayload,
    /// A block has its reserved bit set.
    ReservedBitSet,
    /// Two blocks name different events.
    InconsistentEvent,
}

/// Why an event cannot be written.
#[derive(Debug, Clone, Copy, PartialEq, Eq, Structural)]
pub enum DtmfEncodeError {
    /// The payload type is not dynamic.
    InvalidPayloadType(u8),
    /// The destination is shorter than one block.
    BufferTooSmall,
    /// The volume takes more than six bits.
    VolumeOutOfRange(u8),
}

impl DtmfDecodeError {
    /// What the error means, in words.
    pub open spec fn text(&self) -> Seq<char> {
        match self {
            DtmfDecodeError::InvalidPayloadType(pt) =>
                "DTMF payload type 必须位于 96-127 范围，实际为 "@ + decimal(*pt as int),
            DtmfDecodeError::PayloadTooShort => "DTMF payload 长度不足 4 字节"@,
            DtmfDecodeError::MisalignedPayload => "DTMF payload 长度必须是 4 的倍数"@,
            DtmfDecodeError::ReservedBitSet => "DTMF payload 的保留位 (bit7) 被置位"@,
            DtmfDecodeError::InconsistentEvent => "同一 RTP 包内出现多个不同事件号"@,
        }
    }

    /// What the error means, in words.
    pub fn message(&self) -> (r: String)
        ensures
            r@ == self.text(),
    {
        let mut out = String::new();
        match self {
            DtmfDecodeError::InvalidPayloadType(pt) => {
                out.append("DTMF payload type 必须位于 96-127 范围，实际为 ");
                push_decimal(&mut out, *pt as u64);
            },
            DtmfDecodeError::PayloadTooShort => {
                out.append("DTMF payload 长度不足 4 字节");
            },
            DtmfDecodeError::MisalignedPayload => {
                out.append("DTMF payload 长度必须是 4 的倍数");
            },
            DtmfDecodeError::ReservedBitSet => {
                out.append("DTMF payload 的保留位 (bit7) 被置位");
            },
            DtmfDecodeError::InconsistentEvent => {
                out.append("同一 RTP 包内出现多个不同事件号");
            },
        }
        assert(out@ =~= self.text());
        out
    }
}

impl DtmfEncodeError {
    /// What the error means, in words.
    pub open spec fn text(&self) -> Seq<char> {
        match self {
            DtmfEncodeError::InvalidPayloadType(pt) =>
                "DTMF payload type 必须位于 96-127 范围，实际为 "@ + decimal(*pt as int),
            DtmfEncodeError::BufferTooSmall => "输出缓冲区不足 4 字节"@,
            DtmfEncodeError::VolumeOutOfRange(v) => "DTMF 音量字段必须位于 0-63，实际为 "@
                + decimal(*v as int),
        }
    }

    /// What the error means, in words.
    pub fn message(&self) -> (r: String)
        ensures
            r@ == self.text(),
    {
        let mut out = String::new();
        match self {
            DtmfEncodeError::InvalidPayloadType(pt) => {
                out.append("DTMF payload type 必须位于 96-127 范围，实际为 ");
                push_decimal(&mut out, *pt as u64);
            },
            DtmfEncodeError::BufferTooSmall => {
                out.append("输出缓冲区不足 4 字节");
            },
            DtmfEncodeError::VolumeOutOfRange(v) => {
                out.append("DTMF 音量字段必须位于 0-63，实际为 ");
                push_decimal(&mut out, *v as u64);
            },
        }
        assert(out@ =~= self.text());
        out
    }
}

/// Payload types that are assigned by negotiation.
pub open spec fn is_dynamic_payload_type(pt: u8) -> bool {
    96 <= pt <= 127
}

/// The event in the block that begins at `at`.
pub open spec fn event_at(payload: Seq<u8>, at: int) -> DtmfEvent {
    DtmfEvent {
        event_code: payload[at],
        end: payload[at + 1] as int / 64 % 2 == 1,
        volume: (payload[at + 1] % 64) as u8,
        duration: be16(payload, at + 2) as u16,
    }
}

/// The first thing wrong with the first `n` blocks: a reserved bit, or an event other than in the
/// block before.
pub open spec fn blocks_defect(payload: Seq<u8>, n: int) -> Option<DtmfDecodeError>
    decreases n,
{
    if n <= 0 {
        None
    } else {
        match blocks_defect(payload, n - 1) {
            Some(e) => Some(e),
            None => if payload[4 * (n - 1) + 1] >= 128 {
                Some(DtmfDecodeError::ReservedBitSet)
            } else if n > 1 && payload[4 * (n - 1)] != payload[4 * (n - 2)] {
                Some(DtmfDecodeError::InconsistentEvent)
            } else {
                None
            },
        }
    }
}

/// The event that a payload denotes: that of its last block.
pub open spec fn dtmf_of(payload_type: u8, payload: Seq<u8>) -> Result<DtmfEvent, DtmfDecodeError> {
    if !is_dynamic_payload_type(payload_type) {
        Err(DtmfDecodeError::InvalidPayloadType(payload_type))
    } else if payload.len() < 4 {
        Err(DtmfDecodeError::PayloadTooShort)
    } else if payload.len() % 4 != 0 {
        Err(DtmfDecodeError::MisalignedPayload)
    } else {
        match blocks_defect(payload, payload.len() as int / 4) {
            Some(e) => Err(e),
            None => Ok(event_at(payload, payload.len() - 4)),
        }
    }
}

/// The block of an event on the wire.
pub open spec fn event_bytes(event: DtmfEvent) -> Seq<u8> {
    seq![event.event_code, (flag(event.end) * 64 + event.volume) as u8] + be16_bytes(
        event.duration,
    )
}

/// Decodes a payload of one or more blocks.
pub fn decode_dtmf(payload_type: u8, payload: &[u8]) -> (r: Result<DtmfEvent, DtmfDecodeError>)
    ensures
        r == dtmf_of(payload_type, payload@),
{
    if payload_type < 96 || payload_type > 127 {
        return Err(DtmfDecodeError::InvalidPayloadType(payload_type));
    }
    let n: usize = payload.len();
    if n < 4 {
        return Err(DtmfDecodeError::PayloadTooShort);
    }
    if n % 4 != 0 {
        return Err(DtmfDecodeError::MisalignedPayload);
    }
    let blocks: usize = n / 4;
    let mut i: usize = 0;
    let ghost whole = blocks_defect(payload@, blocks as int);
    proof {
        lemma_first_defect(payload@, 0, blocks as int);
    }
    while i < blocks
        invariant
            i <= blocks,
            n == payload@.len(),
            n == 4 * blocks,
            is_dynamic_payload_type(payload_type),
            n >= 4,
            whole == blocks_defect(payload@, blocks as int),
            blocks_defect(payload@, i as int) is None,
        decreases blocks - i,
    {
        let at: usize = 4 * i;
        proof {
            lemma_first_defect(payload@, i + 1, blocks as int);
        }
        if payload[at + 1] >= 128 {
            return Err(DtmfDecodeError::ReservedBitSet);
        }
        if i > 0 && payload[at] != payload[at - 4] {
            return Err(DtmfDecodeError::InconsistentEvent);
        }
        i += 1;
    }
    let at: usize = n - 4;
    Ok(
        DtmfEvent {
            event_code: payload[at],
            end: payload[at + 1] / 64 % 2 == 1,
            volume: payload[at + 1] % 64,
            duration: read_be16(payload, at + 2),
        },
    )
}

/// A defect in the first blocks is a defect of all.
proof fn lemma_first_defect(payload: Seq<u8>, m: int, n: int)
    requires
        0 <= m <= n,
    ensures
        blocks_defect(payload, m) is Some ==> blocks_defect(payload, n) == blocks_defect(
            payload,
            m,
        ),
    decreases n - m,
{
    if m < n {
        lemma_first_defect(payload, m, n - 1);
    }
}

/// Writes an event to the front of `output` and returns the length of its block. Bytes of `output`
/// behind the block keep their value, and on an error so do all of them.
pub fn encode_dtmf(payload_type: u8, event: &DtmfEvent, output: &mut [u8]) -> (r: Result<
    usize,
    DtmfEncodeError,
>)
    ensures
        final(output)@.len() == old(output)@.len(),
        match r {
            Ok(n) => {
                &&& is_dynamic_payload_type(payload_type)
                &&& old(output)@.len() >= 4
                &&& event.volume <= 63
                &&& n == 4
                &&& final(output)@ == event_bytes(*event) + old(output)@.skip(4)
            },
            Err(e) => {
                &&& final(output)@ == old(output)@
                &&& e == (if !is_dynamic_payload_type(payload_type) {
                    DtmfEncodeError::InvalidPayloadType(payload_type)
                } else if old(output)@.len() < 4 {
                    DtmfEncodeError::BufferTooSmall
                } else {
                    DtmfEncodeError::VolumeOutOfRange(event.volume)
                })
                &&& is_dynamic_payload_type(payload_type) && old(output)@.len() >= 4
                    ==> event.volume > 63
            },
        },
{
    if payload_type < 96 || payload_type > 127 {
        return Err(DtmfEncodeError::InvalidPayloadType(payload_type));
    }
    if output.len() < 4 {
        return Err(DtmfEncodeError::BufferTooSmall);
    }
    if event.volume > 63 {
        return Err(DtmfEncodeError::VolumeOutOfRange(event.volume));
    }
    let end_bit: u8 = if event.end {
        64
    } else {
        0
    };
    let duration = to_be16(event.duration);
    let block: [u8; 4] = [event.event_code, end_bit + event.volume, duration[0], duration[1]];
    write_at(output, 0, &block);
    proof {
        assert(block@ =~= event_bytes(*event));
        assert(output@ =~= event_bytes(*event) + old(output)@.skip(4));
    }
    Ok(4)
}

/// Decoding a written block gives the event back.
pub proof fn law_dtmf_round_trip(payload_type: u8, event: DtmfEvent)
    requires
        is_dynamic_payload_type(payload_type),
        event.volume <= 63,
    ensures
        dtmf_of(payload_type, event_bytes(event)) == Ok::<DtmfEvent, DtmfDecodeError>(event),
{
    let b = event_bytes(event);
    lemma_be16_round_trip(event.duration);
    reveal_with_fuel(blocks_defect, 2);
    assert(be16(b, 2) == be16(be16_bytes(event.duration), 0));
}

/// The blocks of several events, one after the other.
pub open spec fn events_bytes(events: Seq<DtmfEvent>) -> Seq<u8>
    decreases events.len(),
{
    if events.len() == 0 {
        Seq::empty()
    } else {
        events_bytes(events.drop_last()) + event_bytes(events.last())
    }
}

/// Blocks of one event have no defect.
proof fn lemma_one_event(events: Seq<DtmfEvent>)
    requires
        forall|i: int| 0 <= i < events.len() ==> (#[trigger] events[i]).volume <= 63,
        forall|i: int|
            0 <= i < events.len() ==> (#[trigger] events[i]).event_code == events[0].event_code,
    ensures
        events_bytes(events).len() == 4 * events.len(),
        blocks_defect(events_bytes(events), events.len() as int) is None,
    decreases events.len(),
{
    if events.len() > 0 {
        let init = events.drop_last();
        let last = events.last();
        let front = events_bytes(init);
        let all = events_bytes(events);
        let n = events.len() as int;
        assert(last == events[n - 1]);
        assert forall|i: int| 0 <= i < init.len() implies (#[trigger] init[i]).volume <= 63
            && init[i].event_code == init[0].event_code by {
            assert(init[i] == events[i]);
            assert(init[0] == events[0]);
        }
        lemma_one_event(init);
        assert(front =~= all.take(front.len() as int));
        lemma_same_blocks(front, all, n - 1);
        assert(all[4 * (n - 1)] == last.event_code);
        assert(all[4 * (n - 1) + 1] < 128);
        if n > 1 {
            let before = events_bytes(init.drop_last());
            assert(init.last() == events[n - 2]);
            assert(front == before + event_bytes(init.last()));
            lemma_one_event_len(init.drop_last());
            assert(all[4 * (n - 2)] == front[4 * (n - 2)]);
            assert(front[4 * (n - 2)] == init.last().event_code);
        }
    }
}

proof fn lemma_one_event_len(events: Seq<DtmfEvent>)
    ensures
        events_bytes(events).len() == 4 * events.len(),
    decreases events.len(),
{
    if events.len() > 0 {
        lemma_one_event_len(events.drop_last());
    }
}

/// Decoding any number of written blocks that name the same event gives what the last one says.
pub proof fn law_last_block_decides(payload_type: u8, events: Seq<DtmfEvent>)
    requires
        is_dynamic_payload_type(payload_type),
        events.len() > 0,
        forall|i: int| 0 <= i < events.len() ==> (#[trigger] events[i]).volume <= 63,
        forall|i: int|
            0 <= i < events.len() ==> (#[trigger] events[i]).event_code == events[0].event_code,
    ensures
        dtmf_of(payload_type, events_bytes(events)) == Ok::<DtmfEvent, DtmfDecodeError>(
            events.last(),
        ),
{
    let last = events.last();
    let b = event_bytes(last);
    let all = events_bytes(events);
    let n = all.len() as int;
    lemma_one_event(events);
    assert(last == events[events.len() - 1]);
    lemma_be16_round_trip(last.duration);
    assert(be16(b, 2) == be16(be16_bytes(last.duration), 0));
    assert(all[n - 4] == b[0] && all[n - 3] == b[1] && all[n - 2] == b[2] && all[n - 1] == b[3]);
}

/// Sending a block again, as is done against loss, does not change what is decoded.
pub proof fn law_repeated_blocks_decode_alike(payload_type: u8, payload: Seq<u8>)
    requires
        dtmf_of(payload_type, payload) is Ok,
    ensures
        dtmf_of(payload_type, payload + payload.skip(payload.len() - 4)) == dtmf_of(
            payload_type,
            payload,
        ),
{
    let n = payload.len() as int;
    let longer = payload + payload.skip(n - 4);
    assert(payload =~= longer.take(n));
    lemma_same_blocks(payload, longer, n / 4);
    assert(blocks_defect(payload, n / 4) is None);
    assert(payload[4 * (n / 4 - 1) + 1] < 128);
    assert(longer[n + 1] == payload[n - 3]);
    assert(longer[n] == payload[n - 4]);
    assert(longer[n + 2] == payload[n - 2]);
    assert(longer[n + 3] == payload[n - 1]);
    assert(longer.len() / 4 == n / 4 + 1);
}

proof fn lemma_same_blocks(a: Seq<u8>, b: Seq<u8>, n: int)
    requires
        0 <= 4 * n <= a.len() <= b.len(),
        a == b.take(a.len() as int),
    ensures
        blocks_defect(a, n) == blocks_defect(b, n),
    decreases n,
{
    if n > 0 {
        lemma_same_blocks(a, b, n - 1);
        assert(forall|k: int| 0 <= k < a.len() ==> a[k] == b.take(a.len() as int)[k]);
        assert(a[4 * (n - 1) + 1] == b[4 * (n - 1) + 1]);
        assert(a[4 * (n - 1)] == b[4 * (n - 1)]);
        if n > 1 {
            assert(a[4 * (n - 2)] == b[4 * (n - 2)]);
        }
    }
}

} // verus!
