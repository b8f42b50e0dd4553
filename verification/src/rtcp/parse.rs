//! Parsing of compound packets.
use crate::buffer::{flatten_view, BufView};
use crate::rtcp::error::RtcpError;
use crate::rtcp::packet::{
    Goodbye, ReceiverReport, ReceptionReport, RtcpPacket, SdesChunk, SdesItem, SenderInfo,
    SenderReport, SourceDescription,
};
use crate::rtcp::{new_packet_vec, RtcpPacketVec};
use crate::text::utf8_text;
use crate::wire::{read_be16, read_be32, read_be64};
use vstd::prelude::*;
use vstd::slice::slice_to_vec;
use vstd::string::*;

verus! {

use crate::buffer::view_bytes;
use crate::text::lemma_text_of_bytes;
use crate::wire::{be16, be16_bytes, be32, be64, bit, lemma_be16_round_trip};
use vstd::utf8::{decode_utf8, valid_utf8};

/// How many packets a compound packet has room for without an allocation.
pub const DEFAULT_COMPOUND_CAPACITY: usize = 4;

/// The contents of a sender report.
pub struct SenderReportView {
    /// The sender.
    pub sender_ssrc: u32,
    /// What it reports about itself.
    pub sender_info: SenderInfo,
    /// What it reports about others.
    pub reports: Seq<ReceptionReport>,
    /// Extensions of the profile.
    pub profile_extensions: Seq<u8>,
}

/// The contents of a receiver report.
pub struct ReceiverReportView {
    /// The receiver.
    pub reporter_ssrc: u32,
    /// What it reports about others.
    pub reports: Seq<ReceptionReport>,
    /// Extensions of the profile.
    pub profile_extensions: Seq<u8>,
}

/// An item of a source description: which item, and its value.
pub struct SdesItemView {
    /// Which item.
    pub item_type: u8,
    /// Its value.
    pub value: Seq<u8>,
}

/// What is said of one source.
pub struct SdesChunkView {
    /// The source.
    pub source: u32,
    /// What is said of it.
    pub items: Seq<SdesItemView>,
}

/// The contents of a packet.
pub enum RtcpPacketView {
    /// A sender report.
    SenderReport(SenderReportView),
    /// A receiver report.
    ReceiverReport(ReceiverReportView),
    /// A source description.
    SourceDescription(Seq<SdesChunkView>),
    /// Sources that leave, and why.
    Goodbye(Seq<u32>, Option<Seq<char>>),
}

/// The contents of a list of items.
pub open spec fn item_views(list: Seq<SdesItem>) -> Seq<SdesItemView> {
    Seq::new(
        list.len(),
        |i: int| SdesItemView { item_type: list[i].item_type, value: list[i].value@ },
    )
}

/// The contents of a list of chunks.
pub open spec fn chunk_views(list: Seq<SdesChunk>) -> Seq<SdesChunkView> {
    Seq::new(
        list.len(),
        |i: int| SdesChunkView { source: list[i].source, items: item_views(list[i].items@) },
    )
}

impl View for SenderReport {
    type V = SenderReportView;

    open spec fn view(&self) -> SenderReportView {
        SenderReportView {
            sender_ssrc: self.sender_ssrc,
            sender_info: self.sender_info,
            reports: self.reports@,
            profile_extensions: self.profile_extensions@,
        }
    }
}

impl View for ReceiverReport {
    type V = ReceiverReportView;

    open spec fn view(&self) -> ReceiverReportView {
        ReceiverReportView {
            reporter_ssrc: self.reporter_ssrc,
            reports: self.reports@,
            profile_extensions: self.profile_extensions@,
        }
    }
}

impl View for RtcpPacket {
    type V = RtcpPacketView;

    open spec fn view(&self) -> RtcpPacketView {
        match self {
            RtcpPacket::SenderReport(report) => RtcpPacketView::SenderReport(report@),
            RtcpPacket::ReceiverReport(report) => RtcpPacketView::ReceiverReport(report@),
            RtcpPacket::SourceDescription(sdes) => RtcpPacketView::SourceDescription(
                chunk_views(sdes.chunks@),
            ),
            RtcpPacket::Goodbye(bye) => RtcpPacketView::Goodbye(
                bye.sources@,
                match bye.reason {
                    Some(reason) => Some(reason@),
                    None => None,
                },
            ),
        }
    }
}

/// The contents of a list of packets.
pub open spec fn packet_views(list: Seq<RtcpPacket>) -> Seq<RtcpPacketView> {
    Seq::new(list.len(), |i: int| list[i]@)
}

/// The signed number of 24 bits stored at `at`, in two's complement.
pub open spec fn be24_signed(bytes: Seq<u8>, at: int) -> int {
    let value = bytes[at] * 0x1_0000 + be16(bytes, at + 1);
    if value >= 0x80_0000 {
        value - 0x100_0000
    } else {
        value
    }
}

/// The report block at `at`.
pub open spec fn report_at(bytes: Seq<u8>, at: int) -> ReceptionReport {
    ReceptionReport {
        source_ssrc: be32(bytes, at) as u32,
        fraction_lost: bytes[at + 4],
        cumulative_lost: be24_signed(bytes, at + 5) as i32,
        extended_highest_sequence: be32(bytes, at + 8) as u32,
        interarrival_jitter: be32(bytes, at + 12) as u32,
        last_sr_timestamp: be32(bytes, at + 16) as u32,
        delay_since_last_sr: be32(bytes, at + 20) as u32,
    }
}

/// The report blocks from `at` on.
pub open spec fn reports_at(bytes: Seq<u8>, at: int, count: int) -> Seq<ReceptionReport> {
    Seq::new(count as nat, |i: int| report_at(bytes, at + 24 * i))
}

/// The report blocks and the profile extensions behind `fixed` bytes.
pub open spec fn blocks_of(payload: Seq<u8>, fixed: int, count: int) -> Result<
    (Seq<ReceptionReport>, Seq<u8>),
    RtcpError,
> {
    if payload.len() < fixed {
        Err(
            RtcpError::ReceptionReportTruncated {
                expected_blocks: count as usize,
                available_bytes: payload.len() as usize,
            },
        )
    } else if payload.len() - fixed < 24 * count {
        Err(
            RtcpError::ReceptionReportTruncated {
                expected_blocks: count as usize,
                available_bytes: (payload.len() - fixed) as usize,
            },
        )
    } else if (payload.len() - fixed - 24 * count) % 4 != 0 {
        Err(
            RtcpError::ProfileExtensionMisaligned {
                remaining_bytes: (payload.len() - fixed - 24 * count) as usize,
            },
        )
    } else {
        Ok((reports_at(payload, fixed, count), payload.skip(fixed + 24 * count)))
    }
}

/// The sender report in a payload.
pub open spec fn sender_report_of(payload: Seq<u8>, count: int) -> Result<
    RtcpPacketView,
    RtcpError,
> {
    match blocks_of(payload, 24, count) {
        Ok((reports, profile_extensions)) => Ok(
            RtcpPacketView::SenderReport(
                SenderReportView {
                    sender_ssrc: be32(payload, 0) as u32,
                    sender_info: SenderInfo {
                        ntp_timestamp: be64(payload, 4) as u64,
                        rtp_timestamp: be32(payload, 12) as u32,
                        sender_packet_count: be32(payload, 16) as u32,
                        sender_octet_count: be32(payload, 20) as u32,
                    },
                    reports,
                    profile_extensions,
                },
            ),
        ),
        Err(e) => Err(e),
    }
}

/// The receiver report in a payload.
pub open spec fn receiver_report_of(payload: Seq<u8>, count: int) -> Result<
    RtcpPacketView,
    RtcpError,
> {
    match blocks_of(payload, 4, count) {
        Ok((reports, profile_extensions)) => Ok(
            RtcpPacketView::ReceiverReport(
                ReceiverReportView {
                    reporter_ssrc: be32(payload, 0) as u32,
                    reports,
                    profile_extensions,
                },
            ),
        ),
        Err(e) => Err(e),
    }
}

/// Whether every byte from `at` on is zero.
pub open spec fn zero_from(bytes: Seq<u8>, at: int) -> bool {
    forall|k: int| at <= k < bytes.len() ==> #[trigger] bytes[k] == 0
}

/// The position behind the zero bytes that fill up a chunk to whole words.
pub open spec fn sdes_padding_end(bytes: Seq<u8>, at: int, start: int, index: int) -> Result<
    int,
    RtcpError,
>
    decreases bytes.len() - at,
{
    if (at - start) % 4 == 0 {
        Ok(at)
    } else if at >= bytes.len() {
        Err(
            RtcpError::SdesChunkTruncated {
                chunk_index: index as usize,
                reason: "padding-out-of-range",
            },
        )
    } else if bytes[at] != 0 {
        Err(RtcpError::SdesPaddingCorrupted { chunk_index: index as usize })
    } else {
        sdes_padding_end(bytes, at + 1, start, index)
    }
}

/// The items from `at` on, and the position behind the chunk that began at `start`. A zero byte
/// ends the items.
pub open spec fn sdes_items_of(bytes: Seq<u8>, at: int, start: int, index: int) -> Result<
    (Seq<SdesItemView>, int),
    RtcpError,
>
    decreases bytes.len() - at,
{
    if at < 0 || at >= bytes.len() {
        Err(
            RtcpError::SdesChunkTruncated {
                chunk_index: index as usize,
                reason: "missing-terminator",
            },
        )
    } else if bytes[at] == 0 {
        match sdes_padding_end(bytes, at + 1, start, index) {
            Ok(end) => Ok((Seq::empty(), end)),
            Err(e) => Err(e),
        }
    } else if at + 1 >= bytes.len() {
        Err(
            RtcpError::SdesChunkTruncated {
                chunk_index: index as usize,
                reason: "missing-item-length",
            },
        )
    } else if bytes.len() - (at + 2) < bytes[at + 1] {
        Err(
            RtcpError::SdesChunkTruncated {
                chunk_index: index as usize,
                reason: "item-value-truncated",
            },
        )
    } else {
        let next = at + 2 + bytes[at + 1];
        let item = SdesItemView {
            item_type: bytes[at],
            value: bytes.subrange(at + 2, next),
        };
        match sdes_items_of(bytes, next, start, index) {
            Ok((items, end)) => Ok((seq![item] + items, end)),
            Err(e) => Err(e),
        }
    }
}

/// The chunks from number `index` on. Only zero bytes may follow the last one.
pub open spec fn sdes_chunks_of(bytes: Seq<u8>, at: int, index: int, count: int) -> Result<
    Seq<SdesChunkView>,
    RtcpError,
>
    decreases count - index,
{
    if index >= count {
        if zero_from(bytes, at) {
            Ok(Seq::empty())
        } else {
            Err(RtcpError::TrailingNonZeroPadding { packet_type: 202 })
        }
    } else if bytes.len() - at < 4 {
        Err(
            RtcpError::SdesChunkTruncated {
                chunk_index: index as usize,
                reason: "missing-ssrc",
            },
        )
    } else {
        match sdes_items_of(bytes, at + 4, at + 4, index) {
            Ok((items, end)) => match sdes_chunks_of(bytes, end, index + 1, count) {
                Ok(others) => Ok(
                    seq![SdesChunkView { source: be32(bytes, at) as u32, items }] + others,
                ),
                Err(e) => Err(e),
            },
            Err(e) => Err(e),
        }
    }
}

/// The leaving sources in a payload, and the reason if there is one that is text. Only zero bytes
/// may follow.
pub open spec fn bye_of(payload: Seq<u8>, count: int) -> Result<RtcpPacketView, RtcpError> {
    let at = 4 * count;
    if payload.len() < at {
        Err(
            RtcpError::ByeSourcesTruncated {
                expected_sources: count as usize,
                available_bytes: payload.len() as usize,
            },
        )
    } else {
        let sources = Seq::new(count as nat, |i: int| be32(payload, 4 * i) as u32);
        if payload.len() == at {
            Ok(RtcpPacketView::Goodbye(sources, None))
        } else if payload.len() - (at + 1) < payload[at] {
            Err(
                RtcpError::ByeReasonTruncated {
                    declared: payload[at] as usize,
                    available: (payload.len() - (at + 1)) as usize,
                },
            )
        } else {
            let end = at + 1 + payload[at];
            let text = payload.subrange(at + 1, end);
            if !zero_from(payload, end) {
                Err(RtcpError::TrailingNonZeroPadding { packet_type: 203 })
            } else if valid_utf8(text) {
                Ok(RtcpPacketView::Goodbye(sources, Some(decode_utf8(text))))
            } else {
                Ok(RtcpPacketView::Goodbye(sources, None))
            }
        }
    }
}

/// The length that the packet at the front declares.
pub open spec fn packet_len(bytes: Seq<u8>) -> int {
    4 * (be16(bytes, 2) + 1)
}

/// The payload of the packet at the front, or why it has none. The last byte of padding is how many
/// bytes of it there are, itself included; those in front of it must be zero.
pub open spec fn payload_of(bytes: Seq<u8>) -> Result<Seq<u8>, RtcpError> {
    if bytes.len() < 4 {
        Err(RtcpError::PacketTooShort { remaining: bytes.len() as usize })
    } else if bytes[0] / 64 != 2 {
        Err(RtcpError::InvalidVersion { version: (bytes[0] / 64) as u8 })
    } else if packet_len(bytes) > bytes.len() {
        Err(
            RtcpError::InvalidLengthField {
                declared_words: be16(bytes, 2) as usize,
                available_bytes: bytes.len() as usize,
            },
        )
    } else {
        let n = packet_len(bytes);
        let packet = bytes.take(n);
        let padding = packet[n - 1];
        if !bit(bytes[0], 32) {
            Ok(packet.skip(4))
        } else if padding == 0 || padding > n - 4 {
            Err(RtcpError::InvalidPadding { padding, payload_len: (n - 4) as usize })
        } else if !zero_from(packet.drop_last(), n - padding) {
            Err(RtcpError::TrailingNonZeroPadding { packet_type: bytes[1] })
        } else {
            Ok(packet.subrange(4, n - padding))
        }
    }
}

/// The packet at the front. The first packet of a compound has to be a report.
pub open spec fn packet_of(bytes: Seq<u8>, first: bool) -> Result<RtcpPacketView, RtcpError> {
    match payload_of(bytes) {
        Ok(payload) => {
            let count = bytes[0] as int % 32;
            let packet_type = bytes[1];
            if first && packet_type != 200 && packet_type != 201 {
                Err(RtcpError::FirstPacketNotReport { packet_type })
            } else if packet_type == 200 {
                sender_report_of(payload, count)
            } else if packet_type == 201 {
                receiver_report_of(payload, count)
            } else if packet_type == 202 {
                match sdes_chunks_of(payload, 0, 0, count) {
                    Ok(chunks) => Ok(RtcpPacketView::SourceDescription(chunks)),
                    Err(e) => Err(e),
                }
            } else if packet_type == 203 {
                bye_of(payload, count)
            } else {
                Err(RtcpError::UnsupportedPacketType { packet_type })
            }
        },
        Err(e) => Err(e),
    }
}

/// The packets of a compound, or the first error.
pub open spec fn packets_of(bytes: Seq<u8>, first: bool) -> Result<Seq<RtcpPacketView>, RtcpError>
    decreases bytes.len(),
    via packets_decreases
{
    if bytes.len() == 0 {
        Ok(Seq::empty())
    } else {
        match packet_of(bytes, first) {
            Ok(packet) => match packets_of(bytes.skip(packet_len(bytes)), false) {
                Ok(others) => Ok(seq![packet] + others),
                Err(e) => Err(e),
            },
            Err(e) => Err(e),
        }
    }
}

#[via_fn]
proof fn packets_decreases(bytes: Seq<u8>, first: bool) {
}

/// The compound packet that bytes denote.
pub open spec fn compound_of(bytes: Seq<u8>) -> Result<Seq<RtcpPacketView>, RtcpError> {
    if bytes.len() == 0 {
        Err(RtcpError::EmptyCompound)
    } else {
        packets_of(bytes, true)
    }
}

/// A packet of this type and count, with padding behind its payload.
pub open spec fn padded_packet(packet_type: u8, count: u8, payload: Seq<u8>, padding: u8) -> Seq<u8> {
    seq![(160 + count) as u8, packet_type] + be16_bytes(
        ((payload.len() + padding) / 4) as u16,
    ) + payload + Seq::new((padding - 1) as nat, |i: int| 0u8) + seq![padding]
}

/// Padding is taken off: behind whichever payload, the packet reads as the payload alone.
pub proof fn law_padding_is_taken_off(
    packet_type: u8,
    count: u8,
    payload: Seq<u8>,
    padding: u8,
    more: Seq<u8>,
)
    requires
        count < 32,
        padding > 0,
        (payload.len() + padding) % 4 == 0,
        (payload.len() + padding) / 4 <= u16::MAX,
    ensures
        payload_of(padded_packet(packet_type, count, payload, padding) + more) == Ok::<
            Seq<u8>,
            RtcpError,
        >(payload),
        packet_len(padded_packet(packet_type, count, payload, padding) + more) == padded_packet(
            packet_type,
            count,
            payload,
            padding,
        ).len(),
        padded_packet(packet_type, count, payload, padding)[0] % 32 == count,
        padded_packet(packet_type, count, payload, padding)[1] == packet_type,
{
    let words = ((payload.len() + padding) / 4) as u16;
    let alone = padded_packet(packet_type, count, payload, padding);
    let bytes = alone + more;
    let n = alone.len() as int;
    lemma_be16_round_trip(words);
    assert(be16(bytes, 2) == be16(be16_bytes(words), 0));
    assert(bytes.take(n) =~= alone);
    assert(zero_from(alone.drop_last(), n - padding)) by {
        assert forall|k: int| n - padding <= k < n - 1 implies #[trigger] alone.drop_last()[k] == 0 by {}
    }
    assert(alone.subrange(4, n - padding) =~= payload);
}

/// A byte of padding that is neither zero nor the count is refused.
pub proof fn law_padding_is_zero(bytes: Seq<u8>, at: int)
    requires
        payload_of(bytes) matches Ok(payload) && 4 + payload.len() <= at < packet_len(bytes) - 1,
    ensures
        bit(bytes[0], 32),
        bytes[at] == 0,
{
    let n = packet_len(bytes);
    assert(bytes.take(n).drop_last()[at] == bytes[at]);
}

/// Reads a signed number of 24 bits.
fn parse_i24(bytes: &[u8], at: usize) -> (r: i32)
    requires
        at + 3 <= bytes@.len(),
    ensures
        r == be24_signed(bytes@, at as int),
{
    assert(bytes.len() == bytes@.len());
    let value: i32 = bytes[at] as i32 * 0x1_0000 + read_be16(bytes, at + 1) as i32;
    if value >= 0x80_0000 {
        value - 0x100_0000
    } else {
        value
    }
}

/// Reads a report block.
fn parse_reception_report_block(bytes: &[u8], at: usize) -> (r: ReceptionReport)
    requires
        at + 24 <= bytes@.len(),
    ensures
        r == report_at(bytes@, at as int),
{
    assert(bytes.len() == bytes@.len());
    ReceptionReport {
        source_ssrc: read_be32(bytes, at),
        fraction_lost: bytes[at + 4],
        cumulative_lost: parse_i24(bytes, at + 5),
        extended_highest_sequence: read_be32(bytes, at + 8),
        interarrival_jitter: read_be32(bytes, at + 12),
        last_sr_timestamp: read_be32(bytes, at + 16),
        delay_since_last_sr: read_be32(bytes, at + 20),
    }
}

/// Reads report blocks and profile extensions.
fn parse_blocks(payload: &[u8], fixed: usize, count: usize) -> (r: Result<
    (Vec<ReceptionReport>, Vec<u8>),
    RtcpError,
>)
    requires
        count <= 31,
        fixed <= 24,
    ensures
        match r {
            Ok((reports, extensions)) => blocks_of(payload@, fixed as int, count as int) == Ok::<
                (Seq<ReceptionReport>, Seq<u8>),
                RtcpError,
            >((reports@, extensions@)),
            Err(e) => blocks_of(payload@, fixed as int, count as int) == Err::<
                (Seq<ReceptionReport>, Seq<u8>),
                RtcpError,
            >(e),
        },
{
    let n: usize = payload.len();
    if n < fixed {
        return Err(
            RtcpError::ReceptionReportTruncated { expected_blocks: count, available_bytes: n },
        );
    }
    if n - fixed < count * 24 {
        return Err(
            RtcpError::ReceptionReportTruncated {
                expected_blocks: count,
                available_bytes: n - fixed,
            },
        );
    }
    let mut reports: Vec<ReceptionReport> = Vec::new();
    let mut i: usize = 0;
    let ghost all = reports_at(payload@, fixed as int, count as int);
    while i < count
        invariant
            i <= count <= 31,
            fixed <= 24,
            n == payload@.len(),
            fixed + 24 * count <= n,
            all == reports_at(payload@, fixed as int, count as int),
            reports@ == all.take(i as int),
        decreases count - i,
    {
        reports.push(parse_reception_report_block(payload, fixed + i * 24));
        assert(reports@ =~= all.take(i + 1));
        i += 1;
    }
    assert(reports@ =~= all);
    let cursor: usize = fixed + count * 24;
    let remaining: usize = n - cursor;
    if remaining % 4 != 0 {
        return Err(RtcpError::ProfileExtensionMisaligned { remaining_bytes: remaining });
    }
    let tail = &payload[cursor..n];
    assert(tail@ =~= payload@.skip(cursor as int));
    Ok((reports, slice_to_vec(tail)))
}

/// Parses a sender report.
fn parse_sender_report(count: usize, payload: &[u8]) -> (r: Result<SenderReport, RtcpError>)
    requires
        count <= 31,
    ensures
        match r {
            Ok(report) => sender_report_of(payload@, count as int) == Ok::<
                RtcpPacketView,
                RtcpError,
            >(RtcpPacketView::SenderReport(report@)),
            Err(e) => sender_report_of(payload@, count as int) == Err::<RtcpPacketView, RtcpError>(
                e,
            ),
        },
{
    let (reports, profile_extensions) = match parse_blocks(payload, 24, count) {
        Ok(blocks) => blocks,
        Err(e) => {
            return Err(e);
        },
    };
    Ok(
        SenderReport {
            sender_ssrc: read_be32(payload, 0),
            sender_info: SenderInfo {
                ntp_timestamp: read_be64(payload, 4),
                rtp_timestamp: read_be32(payload, 12),
                sender_packet_count: read_be32(payload, 16),
                sender_octet_count: read_be32(payload, 20),
            },
            reports,
            profile_extensions,
        },
    )
}

/// Parses a receiver report.
fn parse_receiver_report(count: usize, payload: &[u8]) -> (r: Result<ReceiverReport, RtcpError>)
    requires
        count <= 31,
    ensures
        match r {
            Ok(report) => receiver_report_of(payload@, count as int) == Ok::<
                RtcpPacketView,
                RtcpError,
            >(RtcpPacketView::ReceiverReport(report@)),
            Err(e) => receiver_report_of(payload@, count as int) == Err::<
                RtcpPacketView,
                RtcpError,
            >(e),
        },
{
    let (reports, profile_extensions) = match parse_blocks(payload, 4, count) {
        Ok(blocks) => blocks,
        Err(e) => {
            return Err(e);
        },
    };
    Ok(ReceiverReport { reporter_ssrc: read_be32(payload, 0), reports, profile_extensions })
}

/// Whether every byte from `at` on is zero.
fn all_zero_from(bytes: &[u8], at: usize) -> (r: bool)
    ensures
        r == zero_from(bytes@, at as int),
{
    let mut i: usize = at;
    while i < bytes.len()
        invariant
            at <= i,
            forall|k: int| at <= k < i && k < bytes@.len() ==> #[trigger] bytes@[k] == 0,
        decreases bytes@.len() - i,
    {
        if bytes[i] != 0 {
            return false;
        }
        i += 1;
    }
    true
}

/// Skips the zero bytes that fill up a chunk to whole words.
fn skip_sdes_padding(payload: &[u8], from: usize, start: usize, chunk_index: usize) -> (r: Result<
    usize,
    RtcpError,
>)
    requires
        start <= from <= payload@.len(),
    ensures
        match r {
            Ok(end) => from <= end <= payload@.len() && sdes_padding_end(
                payload@,
                from as int,
                start as int,
                chunk_index as int,
            ) == Ok::<int, RtcpError>(end as int),
            Err(e) => sdes_padding_end(
                payload@,
                from as int,
                start as int,
                chunk_index as int,
            ) == Err::<int, RtcpError>(e),
        },
{
    let mut cursor: usize = from;
    assert(payload.len() == payload@.len());
    while (cursor - start) % 4 != 0
        invariant
            start <= from <= cursor <= payload@.len() <= usize::MAX,
            sdes_padding_end(payload@, from as int, start as int, chunk_index as int)
                == sdes_padding_end(payload@, cursor as int, start as int, chunk_index as int),
        decreases payload@.len() - cursor,
    {
        if cursor >= payload.len() {
            return Err(
                RtcpError::SdesChunkTruncated { chunk_index, reason: "padding-out-of-range" },
            );
        }
        if payload[cursor] != 0 {
            return Err(RtcpError::SdesPaddingCorrupted { chunk_index });
        }
        cursor += 1;
    }
    Ok(cursor)
}

/// Parses the items of a chunk.
fn parse_sdes_items(payload: &[u8], start: usize, chunk_index: usize) -> (r: Result<
    (Vec<SdesItem>, usize),
    RtcpError,
>)
    requires
        start <= payload@.len(),
    ensures
        match r {
            Ok((items, end)) => start <= end <= payload@.len() && sdes_items_of(
                payload@,
                start as int,
                start as int,
                chunk_index as int,
            ) == Ok::<(Seq<SdesItemView>, int), RtcpError>((item_views(items@), end as int)),
            Err(e) => sdes_items_of(payload@, start as int, start as int, chunk_index as int)
                == Err::<(Seq<SdesItemView>, int), RtcpError>(e),
        },
{
    let mut items: Vec<SdesItem> = Vec::new();
    let mut cursor: usize = start;
    let n: usize = payload.len();
    let ghost whole = sdes_items_of(payload@, start as int, start as int, chunk_index as int);
    proof {
        if let Ok((others, _)) = whole {
            assert(item_views(items@) + others =~= others);
        }
    }
    loop
        invariant
            n == payload@.len(),
            start <= cursor <= n,
            whole == sdes_items_of(payload@, start as int, start as int, chunk_index as int),
            whole == (match sdes_items_of(
                payload@,
                cursor as int,
                start as int,
                chunk_index as int,
            ) {
                Ok((others, end)) => Ok((item_views(items@) + others, end)),
                Err(e) => Err(e),
            }),
        decreases n - cursor,
    {
        if cursor >= n {
            return Err(
                RtcpError::SdesChunkTruncated { chunk_index, reason: "missing-terminator" },
            );
        }
        let item_type: u8 = payload[cursor];
        if item_type == 0 {
            return match skip_sdes_padding(payload, cursor + 1, start, chunk_index) {
                Ok(end) => {
                    assert(item_views(items@) + Seq::<SdesItemView>::empty() =~= item_views(items@));
                    Ok((items, end))
                },
                Err(e) => Err(e),
            };
        }
        if cursor + 1 >= n {
            return Err(
                RtcpError::SdesChunkTruncated { chunk_index, reason: "missing-item-length" },
            );
        }
        let item_len: usize = payload[cursor + 1] as usize;
        let value_at: usize = cursor + 2;
        if n - value_at < item_len {
            return Err(
                RtcpError::SdesChunkTruncated { chunk_index, reason: "item-value-truncated" },
            );
        }
        let value = slice_to_vec(&payload[value_at..value_at + item_len]);
        let ghost so_far = item_views(items@);
        let ghost item = SdesItemView { item_type, value: value@ };
        items.push(SdesItem { item_type, value });
        cursor = value_at + item_len;
        proof {
            assert(item_views(items@) =~= so_far.push(item));
            if let Ok((others, _)) = sdes_items_of(
                payload@,
                cursor as int,
                start as int,
                chunk_index as int,
            ) {
                assert(so_far + (seq![item] + others) =~= item_views(items@) + others);
            }
        }
    }
}

/// Parses a source description.
fn parse_sdes(count: usize, payload: &[u8]) -> (r: Result<SourceDescription, RtcpError>)
    ensures
        match r {
            Ok(sdes) => sdes_chunks_of(payload@, 0, 0, count as int) == Ok::<
                Seq<SdesChunkView>,
                RtcpError,
            >(chunk_views(sdes.chunks@)),
            Err(e) => sdes_chunks_of(payload@, 0, 0, count as int) == Err::<
                Seq<SdesChunkView>,
                RtcpError,
            >(e),
        },
{
    let n: usize = payload.len();
    let mut chunks: Vec<SdesChunk> = Vec::new();
    let mut cursor: usize = 0;
    let mut chunk_index: usize = 0;
    let ghost whole = sdes_chunks_of(payload@, 0, 0, count as int);
    proof {
        if let Ok(others) = whole {
            assert(chunk_views(chunks@) + others =~= others);
        }
    }
    while chunk_index < count
        invariant
            n == payload@.len(),
            cursor <= n,
            chunk_index <= count,
            whole == sdes_chunks_of(payload@, 0, 0, count as int),
            whole == (match sdes_chunks_of(
                payload@,
                cursor as int,
                chunk_index as int,
                count as int,
            ) {
                Ok(others) => Ok(chunk_views(chunks@) + others),
                Err(e) => Err(e),
            }),
        decreases count - chunk_index,
    {
        if n - cursor < 4 {
            return Err(RtcpError::SdesChunkTruncated { chunk_index, reason: "missing-ssrc" });
        }
        let source: u32 = read_be32(payload, cursor);
        let (items, end) = match parse_sdes_items(payload, cursor + 4, chunk_index) {
            Ok(found) => found,
            Err(e) => {
                return Err(e);
            },
        };
        let ghost so_far = chunk_views(chunks@);
        let ghost chunk = SdesChunkView { source, items: item_views(items@) };
        chunks.push(SdesChunk { source, items });
        cursor = end;
        chunk_index += 1;
        proof {
            assert(chunk_views(chunks@) =~= so_far.push(chunk));
            if let Ok(others) = sdes_chunks_of(
                payload@,
                cursor as int,
                chunk_index as int,
                count as int,
            ) {
                assert(so_far + (seq![chunk] + others) =~= chunk_views(chunks@) + others);
            }
        }
    }
    if !all_zero_from(payload, cursor) {
        return Err(RtcpError::TrailingNonZeroPadding { packet_type: 202 });
    }
    assert(chunk_views(chunks@) + Seq::<SdesChunkView>::empty() =~= chunk_views(chunks@));
    Ok(SourceDescription { chunks })
}

/// Parses a list of leaving sources.
fn parse_bye(count: usize, payload: &[u8]) -> (r: Result<Goodbye, RtcpError>)
    requires
        count <= 31,
    ensures
        match r {
            Ok(bye) => bye_of(payload@, count as int) == Ok::<RtcpPacketView, RtcpError>(
                RtcpPacket::Goodbye(bye)@,
            ),
            Err(e) => bye_of(payload@, count as int) == Err::<RtcpPacketView, RtcpError>(e),
        },
{
    let n: usize = payload.len();
    if n < count * 4 {
        return Err(
            RtcpError::ByeSourcesTruncated { expected_sources: count, available_bytes: n },
        );
    }
    let mut sources: Vec<u32> = Vec::new();
    let mut i: usize = 0;
    let ghost all = Seq::new(count as nat, |i: int| be32(payload@, 4 * i) as u32);
    while i < count
        invariant
            i <= count <= 31,
            n == payload@.len(),
            4 * count <= n,
            all == Seq::new(count as nat, |i: int| be32(payload@, 4 * i) as u32),
            sources@ == all.take(i as int),
        decreases count - i,
    {
        sources.push(read_be32(payload, i * 4));
        assert(sources@ =~= all.take(i + 1));
        i += 1;
    }
    assert(sources@ =~= all);
    let mut cursor: usize = count * 4;
    let mut reason: Option<String> = None;
    if cursor < n {
        let reason_len: usize = payload[cursor] as usize;
        cursor += 1;
        if n - cursor < reason_len {
            return Err(
                RtcpError::ByeReasonTruncated { declared: reason_len, available: n - cursor },
            );
        }
        let bytes = &payload[cursor..cursor + reason_len];
        cursor += reason_len;
        if let Ok(text) = utf8_text(bytes) {
            proof {
                lemma_text_of_bytes(text, bytes@);
            }
            reason = Some(text.to_owned());
        }
    }
    if !all_zero_from(payload, cursor) {
        return Err(RtcpError::TrailingNonZeroPadding { packet_type: 203 });
    }
    Ok(Goodbye { sources, reason })
}

/// The bounds of the payload of the packet that begins at `offset`, and the end of the packet.
fn parse_bounds(buffer: &[u8], offset: usize) -> (r: Result<(usize, usize), RtcpError>)
    requires
        offset < buffer@.len(),
    ensures
        match r {
            Ok((payload_end, packet_end)) => {
                let bytes = buffer@.skip(offset as int);
                &&& offset + 4 <= payload_end <= packet_end <= buffer@.len()
                &&& packet_end == offset + packet_len(bytes)
                &&& payload_of(bytes) == Ok::<Seq<u8>, RtcpError>(
                    buffer@.subrange(offset + 4, payload_end as int),
                )
            },
            Err(e) => payload_of(buffer@.skip(offset as int)) == Err::<Seq<u8>, RtcpError>(e),
        },
{
    let ghost bytes = buffer@.skip(offset as int);
    let remaining: usize = buffer.len() - offset;
    if remaining < 4 {
        return Err(RtcpError::PacketTooShort { remaining });
    }
    assert(forall|k: int| 0 <= k < bytes.len() ==> #[trigger] bytes[k] == buffer@[offset + k]);
    let version: u8 = buffer[offset] / 64;
    if version != 2 {
        return Err(RtcpError::InvalidVersion { version });
    }
    let length_words: usize = read_be16(buffer, offset + 2) as usize;
    assert(be16(bytes, 2) == be16(buffer@, offset + 2));
    let packet_size: usize = (length_words + 1) * 4;
    if packet_size > remaining {
        return Err(
            RtcpError::InvalidLengthField {
                declared_words: length_words,
                available_bytes: remaining,
            },
        );
    }
    let packet_end: usize = offset + packet_size;
    let ghost packet = bytes.take(packet_size as int);
    if buffer[offset] / 32 % 2 == 1 {
        let padding: u8 = buffer[packet_end - 1];
        assert(packet[packet_size - 1] == padding);
        let payload_len: usize = packet_size - 4;
        if padding == 0 || padding as usize > payload_len {
            return Err(RtcpError::InvalidPadding { padding, payload_len });
        }
        let payload_end: usize = packet_end - padding as usize;
        let tail = &buffer[payload_end..packet_end - 1];
        proof {
            let front = packet.drop_last();
            assert(zero_from(front, packet_size - padding) == zero_from(tail@, 0)) by {
                assert(forall|k: int|
                    0 <= k < tail@.len() ==> #[trigger] tail@[k] == front[packet_size - padding
                        + k]);
                if zero_from(tail@, 0) {
                    assert forall|k: int| packet_size - padding <= k < front.len() implies
                        #[trigger] front[k] == 0 by {
                        assert(tail@[k - (packet_size - padding)] == front[k]);
                    }
                }
            }
        }
        if !all_zero_from(tail, 0) {
            return Err(RtcpError::TrailingNonZeroPadding { packet_type: buffer[offset + 1] });
        }
        assert(packet.subrange(4, packet_size - padding) =~= buffer@.subrange(
            offset + 4,
            payload_end as int,
        ));
        return Ok((payload_end, packet_end));
    }
    assert(packet.skip(4) =~= buffer@.subrange(offset + 4, packet_end as int));
    Ok((packet_end, packet_end))
}

/// Parses the packet that begins at `offset`, and returns it with the position behind it.
fn parse_packet(buffer: &[u8], offset: usize, first: bool) -> (r: Result<
    (RtcpPacket, usize),
    RtcpError,
>)
    requires
        offset < buffer@.len(),
    ensures
        match r {
            Ok((packet, end)) => {
                let bytes = buffer@.skip(offset as int);
                &&& offset < end <= buffer@.len()
                &&& end == offset + packet_len(bytes)
                &&& packet_of(bytes, first) == Ok::<RtcpPacketView, RtcpError>(packet@)
            },
            Err(e) => packet_of(buffer@.skip(offset as int), first) == Err::<
                RtcpPacketView,
                RtcpError,
            >(e),
        },
{
    let (payload_end, packet_end) = match parse_bounds(buffer, offset) {
        Ok(bounds) => bounds,
        Err(e) => {
            return Err(e);
        },
    };
    let payload = &buffer[offset + 4..payload_end];
    let count: usize = (buffer[offset] % 32) as usize;
    let packet_type: u8 = buffer[offset + 1];
    if first && packet_type != 200 && packet_type != 201 {
        return Err(RtcpError::FirstPacketNotReport { packet_type });
    }
    let packet = if packet_type == 200 {
        match parse_sender_report(count, payload) {
            Ok(report) => RtcpPacket::SenderReport(report),
            Err(e) => {
                return Err(e);
            },
        }
    } else if packet_type == 201 {
        match parse_receiver_report(count, payload) {
            Ok(report) => RtcpPacket::ReceiverReport(report),
            Err(e) => {
                return Err(e);
            },
        }
    } else if packet_type == 202 {
        match parse_sdes(count, payload) {
            Ok(sdes) => RtcpPacket::SourceDescription(sdes),
            Err(e) => {
                return Err(e);
            },
        }
    } else if packet_type == 203 {
        match parse_bye(count, payload) {
            Ok(bye) => RtcpPacket::Goodbye(bye),
            Err(e) => {
                return Err(e);
            },
        }
    } else {
        return Err(RtcpError::UnsupportedPacketType { packet_type });
    };
    Ok((packet, packet_end))
}

/// Parses a compound packet.
pub fn parse_rtcp<V: BufView>(view: &V) -> (r: Result<RtcpPacketVec, RtcpError>)
    ensures
        match r {
            Ok(packets) => compound_of(view_bytes(view)) == Ok::<Seq<RtcpPacketView>, RtcpError>(
                packet_views(packets@),
            ),
            Err(e) => compound_of(view_bytes(view)) == Err::<Seq<RtcpPacketView>, RtcpError>(e),
        },
{
    let flat = flatten_view(view);
    let buffer: &[u8] = flat.as_slice();
    let n: usize = buffer.len();
    if n == 0 {
        return Err(RtcpError::EmptyCompound);
    }
    let mut packets = new_packet_vec();
    let mut offset: usize = 0;
    let mut first: bool = true;
    proof {
        assert(buffer@.skip(0) =~= buffer@);
        if let Ok(others) = packets_of(buffer@, true) {
            assert(packet_views(packets@) + others =~= others);
        }
    }
    while offset < n
        invariant
            n == buffer@.len(),
            buffer@ == view_bytes(view),
            offset <= n,
            packets_of(buffer@, true) == (match packets_of(buffer@.skip(offset as int), first) {
                Ok(others) => Ok(packet_views(packets@) + others),
                Err(e) => Err(e),
            }),
            n > 0,
        decreases n - offset,
    {
        let (packet, end) = match parse_packet(buffer, offset, first) {
            Ok(found) => found,
            Err(e) => {
                return Err(e);
            },
        };
        let ghost so_far = packet_views(packets@);
        packets.push(packet);
        proof {
            let bytes = buffer@.skip(offset as int);
            assert(bytes.skip(packet_len(bytes)) =~= buffer@.skip(end as int));
            assert(packet_views(packets@) =~= so_far.push(packet@));
            if let Ok(others) = packets_of(buffer@.skip(end as int), false) {
                assert(so_far + (seq![packet@] + others) =~= packet_views(packets@) + others);
            }
        }
        offset = end;
        first = false;
    }
    proof {
        assert(buffer@.skip(offset as int) =~= Seq::<u8>::empty());
        assert(packet_views(packets@) + Seq::<RtcpPacketView>::empty() =~= packet_views(packets@));
    }
    Ok(packets)
}

} // verus!
