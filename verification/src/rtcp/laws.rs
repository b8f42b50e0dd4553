//! What packets mean on the wire, byte by byte, and what reports carry.
use vstd::prelude::*;

verus! {

use crate::rtcp::error::RtcpError;
use crate::rtcp::packet::{Goodbye, ReceptionReport, RtcpPacket, SdesChunk, SdesItem, SenderInfo};
use crate::rtcp::parse::{
    be24_signed, bye_of, chunk_views, compound_of, item_views, packet_len, packet_of, packet_views,
    packets_of, payload_of, receiver_report_of, report_at, reports_at, sdes_chunks_of,
    sdes_items_of, sdes_padding_end, sender_report_of, zero_from, ReceiverReportView,
    RtcpPacketView, SdesChunkView, SdesItemView, SenderReportView,
};
use crate::rtcp::stats::{
    blocks_from, delay_units, receiver_report_from, sender_report_from, Elapsed,
    ReceiverStatistics, ReceptionStatistics, SenderStatistics,
};
use crate::wire::{
    be16, be16_bytes, be32, be32_bytes, be64, be64_bytes, lemma_be16_round_trip,
    lemma_be32_round_trip, lemma_be64_round_trip,
};
use vstd::utf8::{decode_utf8, encode_utf8, encode_utf8_decode_utf8, encode_utf8_valid_utf8, valid_utf8};

/// Zero bytes.
pub open spec fn zeros(n: int) -> Seq<u8> {
    Seq::new(n as nat, |i: int| 0u8)
}

/// An item on the wire: type, length of the value, value.
pub open spec fn item_wire(item: SdesItemView) -> Seq<u8> {
    seq![item.item_type, item.value.len() as u8] + item.value
}

/// Items on the wire, one behind the other.
pub open spec fn items_wire(items: Seq<SdesItemView>) -> Seq<u8>
    decreases items.len(),
{
    if items.len() == 0 {
        Seq::empty()
    } else {
        item_wire(items[0]) + items_wire(items.drop_first())
    }
}

/// Whether items can be told apart on the wire: no type is zero, no value longer than a byte counts.
pub open spec fn items_are_plain(items: Seq<SdesItemView>) -> bool {
    forall|i: int|
        0 <= i < items.len() ==> (#[trigger] items[i]).item_type != 0 && items[i].value.len() <= 255
}

/// A chunk on the wire: source, items, a zero byte, and zero bytes up to a whole word.
pub open spec fn chunk_wire(chunk: SdesChunkView) -> Seq<u8> {
    let items = items_wire(chunk.items);
    be32_bytes(chunk.source) + items + zeros(4 - items.len() % 4)
}

/// Chunks on the wire, one behind the other.
pub open spec fn chunks_wire(chunks: Seq<SdesChunkView>) -> Seq<u8>
    decreases chunks.len(),
{
    if chunks.len() == 0 {
        Seq::empty()
    } else {
        chunk_wire(chunks[0]) + chunks_wire(chunks.drop_first())
    }
}

/// Whether the items of every chunk can be told apart on the wire.
pub open spec fn chunks_are_plain(chunks: Seq<SdesChunkView>) -> bool {
    forall|i: int| 0 <= i < chunks.len() ==> items_are_plain((#[trigger] chunks[i]).items)
}

proof fn lemma_padding_end(bytes: Seq<u8>, at: int, start: int, index: int, end: int)
    requires
        0 <= at <= end <= bytes.len(),
        end - at < 4,
        (end - start) % 4 == 0,
        forall|k: int| at <= k < end ==> #[trigger] bytes[k] == 0,
    ensures
        sdes_padding_end(bytes, at, start, index) == Ok::<int, RtcpError>(end),
    decreases end - at,
{
    if at < end {
        assert((at - start) % 4 != 0);
        assert(bytes[at] == 0);
        lemma_padding_end(bytes, at + 1, start, index, end);
    }
}

/// Items are read back from the wire, all of them and in order, and the reading ends behind the zero
/// bytes that close the chunk.
pub proof fn law_items_are_read(
    before: Seq<u8>,
    items: Seq<SdesItemView>,
    fill: int,
    behind: Seq<u8>,
    start: int,
    index: int,
)
    requires
        items_are_plain(items),
        1 <= fill <= 4,
        (before.len() + items_wire(items).len() + fill - start) % 4 == 0,
    ensures
        sdes_items_of(
            before + items_wire(items) + zeros(fill) + behind,
            before.len() as int,
            start,
            index,
        ) == Ok::<(Seq<SdesItemView>, int), RtcpError>(
            (items, before.len() + items_wire(items).len() + fill),
        ),
    decreases items.len(),
{
    let wire = items_wire(items);
    let bytes = before + wire + zeros(fill) + behind;
    let at = before.len() as int;
    if items.len() == 0 {
        assert(forall|k: int| at <= k < at + fill ==> #[trigger] bytes[k] == 0);
        assert(bytes[at] == 0);
        lemma_padding_end(bytes, at + 1, start, index, at + fill);
        assert(items =~= Seq::<SdesItemView>::empty());
    } else {
        let item = items[0];
        let rest = items.drop_first();
        assert(item.item_type != 0 && item.value.len() <= 255);
        assert forall|i: int| 0 <= i < rest.len() implies (#[trigger] rest[i]).item_type != 0
            && rest[i].value.len() <= 255 by {
            assert(rest[i] == items[i + 1]);
        }
        let head = item_wire(item);
        assert(wire == head + items_wire(rest));
        let next = before + head;
        assert(bytes =~= next + items_wire(rest) + zeros(fill) + behind);
        law_items_are_read(next, rest, fill, behind, start, index);
        assert(bytes[at] == head[0]);
        assert(bytes[at + 1] == head[1]);
        assert(bytes.subrange(at + 2, at + 2 + item.value.len()) =~= item.value);
        assert(seq![item] + rest =~= items);
    }
}

/// Chunks are read back from the wire: every source with all of its items, in order, for any number of
/// chunks and items, wherever in the bytes they stand.
pub proof fn law_chunks_are_read(
    before: Seq<u8>,
    chunks: Seq<SdesChunkView>,
    index: int,
    trail: int,
)
    requires
        chunks_are_plain(chunks),
        trail >= 0,
    ensures
        sdes_chunks_of(
            before + chunks_wire(chunks) + zeros(trail),
            before.len() as int,
            index,
            index + chunks.len(),
        ) == Ok::<Seq<SdesChunkView>, RtcpError>(chunks),
    decreases chunks.len(),
{
    let bytes = before + chunks_wire(chunks) + zeros(trail);
    let at = before.len() as int;
    if chunks.len() == 0 {
        assert(zero_from(bytes, at));
        assert(chunks =~= Seq::<SdesChunkView>::empty());
    } else {
        let chunk = chunks[0];
        let rest = chunks.drop_first();
        assert(items_are_plain(chunk.items));
        assert forall|i: int| 0 <= i < rest.len() implies items_are_plain(
            (#[trigger] rest[i]).items,
        ) by {
            assert(rest[i] == chunks[i + 1]);
        }
        let items = items_wire(chunk.items);
        let fill = 4 - items.len() % 4;
        let front = before + be32_bytes(chunk.source);
        let behind = chunks_wire(rest) + zeros(trail);
        assert(bytes =~= front + items + zeros(fill) + behind);
        law_items_are_read(front, chunk.items, fill, behind, at + 4, index);
        let next = before + chunk_wire(chunk);
        assert(bytes =~= next + chunks_wire(rest) + zeros(trail));
        law_chunks_are_read(next, rest, index + 1, trail);
        lemma_be32_round_trip(chunk.source);
        assert(be32(bytes, at) == be32(be32_bytes(chunk.source), 0));
        assert(seq![chunk] + rest =~= chunks);
    }
}

/// A packet on the wire without padding: version and count, type, length in words less one, payload.
pub open spec fn packet_wire(packet_type: u8, count: int, payload: Seq<u8>) -> Seq<u8> {
    seq![(128 + count) as u8, packet_type] + be16_bytes((payload.len() / 4) as u16) + payload
}

/// The payload of a packet without padding is all that stands behind its four header bytes, whatever
/// follows the packet.
pub proof fn law_payload_is_behind_the_header(
    packet_type: u8,
    count: int,
    payload: Seq<u8>,
    more: Seq<u8>,
)
    requires
        0 <= count < 32,
        payload.len() % 4 == 0,
        payload.len() / 4 <= u16::MAX,
    ensures
        ({
            let wire = packet_wire(packet_type, count, payload);
            &&& wire.len() == 4 + payload.len()
            &&& payload_of(wire + more) == Ok::<Seq<u8>, RtcpError>(payload)
            &&& packet_len(wire + more) == wire.len()
            &&& (wire + more)[0] as int % 32 == count
            &&& (wire + more)[1] == packet_type
            &&& (wire + more).skip(wire.len() as int) == more
        }),
{
    let wire = packet_wire(packet_type, count, payload);
    let bytes = wire + more;
    let words = (payload.len() / 4) as u16;
    lemma_be16_round_trip(words);
    assert(be16(bytes, 2) == be16(be16_bytes(words), 0));
    assert(bytes[0] == 128 + count);
    assert(bytes.take(wire.len() as int) =~= wire);
    assert(wire.skip(4) =~= payload);
    assert(bytes.skip(wire.len() as int) =~= more);
}

/// A source description is read back from the wire: each source with all of its items, in order.
pub proof fn law_source_description_round_trip(chunks: Seq<SdesChunkView>, more: Seq<u8>)
    requires
        chunks_are_plain(chunks),
        chunks.len() < 32,
        chunks_wire(chunks).len() / 4 <= u16::MAX,
    ensures
        packet_of(packet_wire(202, chunks.len() as int, chunks_wire(chunks)) + more, false) == Ok::<
            RtcpPacketView,
            RtcpError,
        >(RtcpPacketView::SourceDescription(chunks)),
{
    lemma_chunks_are_whole_words(chunks);
    let payload = chunks_wire(chunks);
    law_payload_is_behind_the_header(202, chunks.len() as int, payload, more);
    law_chunks_are_read(Seq::empty(), chunks, 0, 0);
    assert(Seq::<u8>::empty() + payload + zeros(0) =~= payload);
}

proof fn lemma_chunks_are_whole_words(chunks: Seq<SdesChunkView>)
    ensures
        chunks_wire(chunks).len() % 4 == 0,
    decreases chunks.len(),
{
    if chunks.len() > 0 {
        lemma_chunks_are_whole_words(chunks.drop_first());
    }
}

/// Sources on the wire, one behind the other.
pub open spec fn sources_wire(sources: Seq<u32>) -> Seq<u8>
    decreases sources.len(),
{
    if sources.len() == 0 {
        Seq::empty()
    } else {
        sources_wire(sources.drop_last()) + be32_bytes(sources.last())
    }
}

proof fn lemma_source_at(sources: Seq<u32>, i: int, more: Seq<u8>)
    ensures
        sources_wire(sources).len() == 4 * sources.len(),
        0 <= i < sources.len() ==> be32(sources_wire(sources) + more, 4 * i) == sources[i],
    decreases sources.len(),
{
    if sources.len() > 0 {
        let init = sources.drop_last();
        let wire = sources_wire(sources);
        let last = be32_bytes(sources.last());
        lemma_source_at(init, i, last + more);
        assert(wire + more =~= sources_wire(init) + (last + more));
        if i == sources.len() - 1 {
            lemma_be32_round_trip(sources.last());
            assert(be32(wire + more, 4 * i) == be32(last, 0));
        } else if 0 <= i < sources.len() {
            assert(init[i] == sources[i]);
        }
    }
}

/// A goodbye names all of its sources, in order; behind them may stand a reason, its length in front
/// and zero bytes behind it. A reason that is no text is left out.
pub proof fn law_goodbye_round_trip(sources: Seq<u32>, reason: Seq<u8>, fill: int)
    requires
        reason.len() <= 255,
        fill >= 0,
    ensures
        bye_of(sources_wire(sources), sources.len() as int) == Ok::<RtcpPacketView, RtcpError>(
            RtcpPacketView::Goodbye(sources, None),
        ),
        bye_of(
            sources_wire(sources) + seq![reason.len() as u8] + reason + zeros(fill),
            sources.len() as int,
        ) == Ok::<RtcpPacketView, RtcpError>(
            RtcpPacketView::Goodbye(
                sources,
                if valid_utf8(reason) {
                    Some(decode_utf8(reason))
                } else {
                    None
                },
            ),
        ),
{
    let wire = sources_wire(sources);
    let none = Seq::<u8>::empty();
    let tail = seq![reason.len() as u8] + reason + zeros(fill);
    let payload = wire + seq![reason.len() as u8] + reason + zeros(fill);
    assert(payload =~= wire + tail);
    let n = sources.len() as int;
    lemma_source_at(sources, 0, none);
    assert(wire + none =~= wire);
    assert forall|i: int| 0 <= i < n implies #[trigger] be32(wire, 4 * i) as u32 == sources[i] by {
        lemma_source_at(sources, i, none);
    }
    assert forall|i: int| 0 <= i < n implies #[trigger] be32(payload, 4 * i) as u32 == sources[i] by {
        lemma_source_at(sources, i, tail);
    }
    assert(Seq::new(n as nat, |i: int| be32(wire, 4 * i) as u32) =~= sources);
    assert(Seq::new(n as nat, |i: int| be32(payload, 4 * i) as u32) =~= sources);
    let at = 4 * n;
    assert(payload[at] == reason.len());
    assert(payload.subrange(at + 1, at + 1 + reason.len()) =~= reason);
    assert(zero_from(payload, at + 1 + reason.len()));
}

/// A reason that was written as text is read as that text.
pub proof fn law_goodbye_reason_is_text(sources: Seq<u32>, reason: Seq<char>, fill: int)
    requires
        encode_utf8(reason).len() <= 255,
        fill >= 0,
    ensures
        bye_of(
            sources_wire(sources) + seq![encode_utf8(reason).len() as u8] + encode_utf8(reason)
                + zeros(fill),
            sources.len() as int,
        ) == Ok::<RtcpPacketView, RtcpError>(RtcpPacketView::Goodbye(sources, Some(reason))),
{
    law_goodbye_round_trip(sources, encode_utf8(reason), fill);
    encode_utf8_decode_utf8(reason);
    encode_utf8_valid_utf8(reason);
}

/// A number of lost packets on the wire: three bytes in two's complement.
pub open spec fn lost_wire(lost: i32) -> Seq<u8> {
    let bits = if lost < 0 {
        lost + 16777216
    } else {
        lost as int
    };
    seq![(bits / 65536) as u8, (bits / 256 % 256) as u8, (bits % 256) as u8]
}

/// A report block on the wire: source, fraction lost, packets lost, highest sequence number, jitter,
/// last report, delay since then.
pub open spec fn block_wire(report: ReceptionReport) -> Seq<u8> {
    be32_bytes(report.source_ssrc) + seq![report.fraction_lost] + lost_wire(report.cumulative_lost)
        + be32_bytes(report.extended_highest_sequence) + be32_bytes(report.interarrival_jitter)
        + be32_bytes(report.last_sr_timestamp) + be32_bytes(report.delay_since_last_sr)
}

/// Report blocks on the wire, one behind the other.
pub open spec fn blocks_wire(list: Seq<ReceptionReport>) -> Seq<u8>
    decreases list.len(),
{
    if list.len() == 0 {
        Seq::empty()
    } else {
        blocks_wire(list.drop_last()) + block_wire(list.last())
    }
}

/// Whether every number of lost packets fits in 24 signed bits.
pub open spec fn blocks_are_plain(list: Seq<ReceptionReport>) -> bool {
    forall|i: int|
        0 <= i < list.len() ==> -8388608 <= (#[trigger] list[i]).cumulative_lost <= 8388607
}

/// A report block is read back from wherever it stands.
#[verifier::rlimit(60)]
#[verifier::spinoff_prover]
pub proof fn law_block_is_read(before: Seq<u8>, report: ReceptionReport, behind: Seq<u8>)
    requires
        -8388608 <= report.cumulative_lost <= 8388607,
    ensures
        block_wire(report).len() == 24,
        report_at(before + block_wire(report) + behind, before.len() as int) == report,
{
    let wire = block_wire(report);
    let bytes = before + wire + behind;
    let at = before.len() as int;
    lemma_be32_round_trip(report.source_ssrc);
    lemma_be32_round_trip(report.extended_highest_sequence);
    lemma_be32_round_trip(report.interarrival_jitter);
    lemma_be32_round_trip(report.last_sr_timestamp);
    lemma_be32_round_trip(report.delay_since_last_sr);
    assert(be32(bytes, at) == be32(be32_bytes(report.source_ssrc), 0));
    assert(bytes[at + 4] == report.fraction_lost);
    assert(be24_signed(bytes, at + 5) == be24_signed(lost_wire(report.cumulative_lost), 0));
    assert(be32(bytes, at + 8) == be32(be32_bytes(report.extended_highest_sequence), 0));
    assert(be32(bytes, at + 12) == be32(be32_bytes(report.interarrival_jitter), 0));
    assert(be32(bytes, at + 16) == be32(be32_bytes(report.last_sr_timestamp), 0));
    assert(be32(bytes, at + 20) == be32(be32_bytes(report.delay_since_last_sr), 0));
}

proof fn lemma_blocks_len(list: Seq<ReceptionReport>)
    ensures
        blocks_wire(list).len() == 24 * list.len(),
    decreases list.len(),
{
    if list.len() > 0 {
        lemma_blocks_len(list.drop_last());
    }
}

proof fn lemma_block_is_read_at(
    before: Seq<u8>,
    list: Seq<ReceptionReport>,
    behind: Seq<u8>,
    i: int,
)
    requires
        blocks_are_plain(list),
        0 <= i < list.len(),
    ensures
        report_at(before + blocks_wire(list) + behind, before.len() + 24 * i) == list[i],
    decreases list.len(),
{
    let init = list.drop_last();
    let last = block_wire(list.last());
    let front = blocks_wire(init);
    lemma_blocks_len(init);
    assert(blocks_wire(list) == front + last);
    if i < init.len() {
        assert forall|k: int| 0 <= k < init.len() implies -8388608 <= (
        #[trigger] init[k]).cumulative_lost <= 8388607 by {
            assert(init[k] == list[k]);
        }
        assert(before + blocks_wire(list) + behind =~= before + front + (last + behind));
        lemma_block_is_read_at(before, init, last + behind, i);
        assert(init[i] == list[i]);
    } else {
        assert(list[i] == list.last());
        assert(before + blocks_wire(list) + behind =~= (before + front) + last + behind);
        law_block_is_read(before + front, list[i], behind);
    }
}

proof fn lemma_blocks_are_read(before: Seq<u8>, list: Seq<ReceptionReport>, behind: Seq<u8>)
    requires
        blocks_are_plain(list),
    ensures
        blocks_wire(list).len() == 24 * list.len(),
        reports_at(before + blocks_wire(list) + behind, before.len() as int, list.len() as int)
            == list,
{
    let bytes = before + blocks_wire(list) + behind;
    let at = before.len() as int;
    lemma_blocks_len(list);
    let read = reports_at(bytes, at, list.len() as int);
    assert forall|i: int| 0 <= i < list.len() implies #[trigger] read[i] == list[i] by {
        lemma_block_is_read_at(before, list, behind, i);
    }
    assert(read =~= list);
}

/// A receiver report is read back: reporter, all blocks in order, and the extensions behind them.
pub proof fn law_receiver_report_is_read(
    reporter: u32,
    reports: Seq<ReceptionReport>,
    extensions: Seq<u8>,
)
    requires
        blocks_are_plain(reports),
        extensions.len() % 4 == 0,
    ensures
        receiver_report_of(
            be32_bytes(reporter) + blocks_wire(reports) + extensions,
            reports.len() as int,
        ) == Ok::<RtcpPacketView, RtcpError>(
            RtcpPacketView::ReceiverReport(
                ReceiverReportView {
                    reporter_ssrc: reporter,
                    reports,
                    profile_extensions: extensions,
                },
            ),
        ),
{
    let fixed = be32_bytes(reporter);
    let payload = fixed + blocks_wire(reports) + extensions;
    lemma_be32_round_trip(reporter);
    lemma_blocks_are_read(fixed, reports, extensions);
    assert(be32(payload, 0) == be32(fixed, 0));
    assert(payload.skip(4 + 24 * (reports.len() as int)) =~= extensions);
}

/// A sender report is read back: sender, wall clock time, media time, packet and byte count, all
/// blocks in order, and the extensions behind them.
pub proof fn law_sender_report_is_read(
    sender: u32,
    info: SenderInfo,
    reports: Seq<ReceptionReport>,
    extensions: Seq<u8>,
)
    requires
        blocks_are_plain(reports),
        extensions.len() % 4 == 0,
    ensures
        sender_report_of(
            be32_bytes(sender) + be64_bytes(info.ntp_timestamp) + be32_bytes(info.rtp_timestamp)
                + be32_bytes(info.sender_packet_count) + be32_bytes(info.sender_octet_count)
                + blocks_wire(reports) + extensions,
            reports.len() as int,
        ) == Ok::<RtcpPacketView, RtcpError>(
            RtcpPacketView::SenderReport(
                SenderReportView {
                    sender_ssrc: sender,
                    sender_info: info,
                    reports,
                    profile_extensions: extensions,
                },
            ),
        ),
{
    let fixed = be32_bytes(sender) + be64_bytes(info.ntp_timestamp) + be32_bytes(
        info.rtp_timestamp,
    ) + be32_bytes(info.sender_packet_count) + be32_bytes(info.sender_octet_count);
    let payload = fixed + blocks_wire(reports) + extensions;
    lemma_be32_round_trip(sender);
    lemma_be64_round_trip(info.ntp_timestamp);
    lemma_be32_round_trip(info.rtp_timestamp);
    lemma_be32_round_trip(info.sender_packet_count);
    lemma_be32_round_trip(info.sender_octet_count);
    lemma_blocks_are_read(fixed, reports, extensions);
    assert(fixed.len() == 24);
    assert(be32(payload, 0) == be32(be32_bytes(sender), 0));
    assert(be64(payload, 4) == be64(be64_bytes(info.ntp_timestamp), 0));
    assert(be32(payload, 12) == be32(be32_bytes(info.rtp_timestamp), 0));
    assert(be32(payload, 16) == be32(be32_bytes(info.sender_packet_count), 0));
    assert(be32(payload, 20) == be32(be32_bytes(info.sender_octet_count), 0));
    assert(payload.skip(24 + 24 * (reports.len() as int)) =~= extensions);
}

/// Packets are told by their type: 200 is a sender report, 201 a receiver report, 202 a source
/// description, 203 a goodbye; there is no other. Only a report may come first.
pub proof fn law_packets_are_told_by_type(bytes: Seq<u8>, first: bool)
    requires
        payload_of(bytes) is Ok,
    ensures
        packet_of(bytes, first) matches Ok(packet) ==> {
            &&& bytes[1] == 200 <==> packet is SenderReport
            &&& bytes[1] == 201 <==> packet is ReceiverReport
            &&& bytes[1] == 202 <==> packet is SourceDescription
            &&& bytes[1] == 203 <==> packet is Goodbye
        },
        first && bytes[1] != 200 && bytes[1] != 201 ==> packet_of(bytes, first) == Err::<
            RtcpPacketView,
            RtcpError,
        >(RtcpError::FirstPacketNotReport { packet_type: bytes[1] }),
        !first && (bytes[1] < 200 || bytes[1] > 203) ==> packet_of(bytes, first) == Err::<
            RtcpPacketView,
            RtcpError,
        >(RtcpError::UnsupportedPacketType { packet_type: bytes[1] }),
        bytes[1] == 200 || bytes[1] == 201 ==> packet_of(bytes, true) == packet_of(bytes, false),
        ({
            let payload = payload_of(bytes)->Ok_0;
            let count = bytes[0] as int % 32;
            &&& bytes[1] == 200 ==> packet_of(bytes, first) == sender_report_of(payload, count)
            &&& bytes[1] == 201 ==> packet_of(bytes, first) == receiver_report_of(payload, count)
            &&& bytes[1] == 203 && !first ==> packet_of(bytes, first) == bye_of(payload, count)
        }),
{
}

/// A compound is its packets one behind the other: each is read on its own, and the first that cannot
/// be read is what the compound is refused for.
pub proof fn law_compound_is_its_packets(wire: Seq<u8>, more: Seq<u8>, first: bool)
    requires
        wire.len() > 0,
        packet_of(wire + more, first) is Ok ==> packet_len(wire + more) == wire.len(),
    ensures
        compound_of(Seq::empty()) == Err::<Seq<RtcpPacketView>, RtcpError>(RtcpError::EmptyCompound),
        packets_of(Seq::empty(), first) == Ok::<Seq<RtcpPacketView>, RtcpError>(Seq::empty()),
        compound_of(wire + more) == packets_of(wire + more, true),
        match packet_of(wire + more, first) {
            Ok(packet) => match packets_of(more, false) {
                Ok(others) => packets_of(wire + more, first) == Ok::<Seq<RtcpPacketView>, RtcpError>(
                    seq![packet] + others,
                ),
                Err(e) => packets_of(wire + more, first) == Err::<Seq<RtcpPacketView>, RtcpError>(e),
            },
            Err(e) => packets_of(wire + more, first) == Err::<Seq<RtcpPacketView>, RtcpError>(e),
        },
{
    assert((wire + more).skip(wire.len() as int) =~= more);
}

/// The view of packets holds what their fields hold, one for one and in order.
pub proof fn law_packets_are_seen(
    packet: RtcpPacket,
    list: Seq<RtcpPacket>,
    chunks: Seq<SdesChunk>,
    items: Seq<SdesItem>,
)
    ensures
        packet matches RtcpPacket::SenderReport(report) ==> packet@ == RtcpPacketView::SenderReport(
            report@,
        ) && report@.sender_ssrc == report.sender_ssrc && report@.sender_info == report.sender_info
            && report@.reports == report.reports@ && report@.profile_extensions
            == report.profile_extensions@,
        packet matches RtcpPacket::ReceiverReport(report) ==> packet@
            == RtcpPacketView::ReceiverReport(report@) && report@.reporter_ssrc
            == report.reporter_ssrc && report@.reports == report.reports@
            && report@.profile_extensions == report.profile_extensions@,
        packet matches RtcpPacket::SourceDescription(sdes) ==> packet@
            == RtcpPacketView::SourceDescription(chunk_views(sdes.chunks@)),
        packet matches RtcpPacket::Goodbye(bye) ==> (packet@ matches RtcpPacketView::Goodbye(s, r)
            && s == bye.sources@ && match bye.reason {
            Some(reason) => r == Some(reason@),
            None => r is None,
        }),
        packet_views(list).len() == list.len(),
        forall|i: int| 0 <= i < list.len() ==> #[trigger] packet_views(list)[i] == list[i]@,
        chunk_views(chunks).len() == chunks.len(),
        forall|i: int|
            0 <= i < chunks.len() ==> (#[trigger] chunk_views(chunks)[i]).source == chunks[i].source
                && chunk_views(chunks)[i].items == item_views(chunks[i].items@),
        item_views(items).len() == items.len(),
        forall|i: int|
            0 <= i < items.len() ==> (#[trigger] item_views(items)[i]).item_type
                == items[i].item_type && item_views(items)[i].value == items[i].value@,
{
}

/// Block `i` of a built report carries what was measured about source `i`: the source, the fraction
/// lost, the highest sequence number and the jitter as they are, the packets lost as far as 24 signed
/// bits go, and of the last sender report the middle of its timestamp and the time since, zero where
/// there was none.
pub proof fn law_blocks_carry_their_measurements(list: Seq<ReceptionStatistics>, i: int)
    requires
        0 <= i < list.len(),
    ensures
        blocks_from(list).len() == list.len(),
        blocks_from(list)[i].source_ssrc == list[i].source_ssrc,
        blocks_from(list)[i].fraction_lost == list[i].fraction_lost,
        blocks_from(list)[i].extended_highest_sequence == list[i].extended_highest_sequence,
        blocks_from(list)[i].interarrival_jitter == list[i].interarrival_jitter,
        -8388608 <= list[i].cumulative_lost <= 8388607 ==> blocks_from(list)[i].cumulative_lost
            == list[i].cumulative_lost,
        list[i].cumulative_lost > 8388607 ==> blocks_from(list)[i].cumulative_lost == 8388607,
        list[i].cumulative_lost < -8388608 ==> blocks_from(list)[i].cumulative_lost == -8388608,
        list[i].last_sr is None ==> blocks_from(list)[i].last_sr_timestamp == 0,
        list[i].last_sr matches Some(ntp) ==> blocks_from(list)[i].last_sr_timestamp == (
        ntp.seconds as int % 65536) * 65536 + ntp.fraction as int / 65536,
        list[i].delay_since_last_sr is None ==> blocks_from(list)[i].delay_since_last_sr == 0,
        list[i].delay_since_last_sr matches Some(delay) ==> blocks_from(list)[i].delay_since_last_sr
            == delay_units(delay),
{
    if let Some(ntp) = list[i].last_sr {
        let s = ntp.seconds as int;
        let f = ntp.fraction as int;
        assert((s * 0x1_0000_0000 + f) / 0x1_0000 % 0x1_0000_0000 == (s % 65536) * 65536 + f / 65536);
    }
}

/// A delay is reported in 65536ths of a second, rounded down, and as the largest number of 32 bits
/// where that is less.
pub proof fn law_delay_counts_fractions(delay: Elapsed)
    requires
        delay.nanos < 1_000_000_000,
    ensures
        ({
            let nanos = delay.secs * 1_000_000_000 + delay.nanos;
            let units = delay_units(delay);
            &&& 0 <= units <= 4294967295
            &&& units * 1_000_000_000 <= nanos * 65536
            &&& units < 4294967295 ==> nanos * 65536 < (units + 1) * 1_000_000_000
        }),
{
}

/// The reports that are built carry the statistics that they are built from, with a block for each
/// measurement.
pub proof fn law_reports_carry_their_statistics(
    sender: &SenderStatistics<'_>,
    rtp_timestamp: u32,
    receiver: &ReceiverStatistics<'_>,
)
    ensures
        ({
            &&& sender_report_from(sender, rtp_timestamp) matches RtcpPacketView::SenderReport(r)
            &&& r.sender_ssrc == sender.sender_ssrc
            &&& r.sender_info.ntp_timestamp as int == sender.capture_ntp.seconds * 4294967296
                + sender.capture_ntp.fraction
            &&& r.sender_info.rtp_timestamp == rtp_timestamp
            &&& r.sender_info.sender_packet_count == sender.sender_packet_count
            &&& r.sender_info.sender_octet_count == sender.sender_octet_count
            &&& r.reports == blocks_from(sender.reports@)
            &&& r.profile_extensions == sender.profile_extensions@
        }),
        ({
            &&& receiver_report_from(receiver) matches RtcpPacketView::ReceiverReport(r)
            &&& r.reporter_ssrc == receiver.reporter_ssrc
            &&& r.reports == blocks_from(receiver.reports@)
            &&& r.profile_extensions == receiver.profile_extensions@
        }),
{
}

/// A packet has a payload exactly if it has its four header bytes, is of version two, is as long as it
/// says, and its padding, where there is any, is at least one byte, fits behind the header and is zero
/// up to its last byte, which is its length. Else the first of these that fails is named.
pub proof fn law_packets_without_payload(bytes: Seq<u8>)
    requires
        bytes.len() <= usize::MAX,
    ensures
        ({
            let words = bytes[2] * 256 + bytes[3];
            let n = 4 * (words + 1);
            let padded = bytes[0] as int / 32 % 2 == 1;
            let padding = bytes[n - 1];
            let r = payload_of(bytes);
            &&& bytes.len() < 4 ==> (r matches Err(RtcpError::PacketTooShort { remaining })
                && remaining == bytes.len())
            &&& bytes.len() >= 4 && bytes[0] as int / 64 != 2 ==> (r matches Err(
                RtcpError::InvalidVersion { version },
            ) && version == bytes[0] as int / 64)
            &&& bytes.len() >= 4 && bytes[0] as int / 64 == 2 ==> {
                &&& n > bytes.len() ==> (r matches Err(RtcpError::InvalidLengthField {
                    declared_words,
                    available_bytes,
                }) && declared_words == words && available_bytes == bytes.len())
                &&& n <= bytes.len() ==> {
                    let sound = forall|k: int| n - padding <= k < n - 1 ==> #[trigger] bytes[k] == 0;
                    &&& !padded ==> r == Ok::<Seq<u8>, RtcpError>(bytes.subrange(4, n))
                    &&& padded && (padding == 0 || padding > n - 4) ==> (r matches Err(
                        RtcpError::InvalidPadding { padding: p, payload_len },
                    ) && p == padding && payload_len == n - 4)
                    &&& padded && 0 < padding <= n - 4 && sound ==> r == Ok::<Seq<u8>, RtcpError>(
                        bytes.subrange(4, n - padding),
                    )
                    &&& padded && 0 < padding <= n - 4 && !sound ==> r == Err::<Seq<u8>, RtcpError>(
                        RtcpError::TrailingNonZeroPadding { packet_type: bytes[1] },
                    )
                }
            }
        }),
{
    let n = 4 * (bytes[2] * 256 + bytes[3] + 1);
    if bytes.len() >= 4 && n <= bytes.len() {
        let packet = bytes.take(n);
        let padding = bytes[n - 1];
        let inner = packet.drop_last();
        assert(packet.skip(4) =~= bytes.subrange(4, n));
        let sound = forall|k: int| n - padding <= k < n - 1 ==> #[trigger] bytes[k] == 0;
        if 0 < padding <= n - 4 {
            assert(packet.subrange(4, n - padding) =~= bytes.subrange(4, n - padding));
            if sound {
                assert forall|k: int| n - padding <= k < inner.len() implies #[trigger] inner[k]
                    == 0 by {
                    assert(inner[k] == bytes[k]);
                }
            }
            if zero_from(inner, n - padding) {
                assert forall|k: int| n - padding <= k < n - 1 implies #[trigger] bytes[k] == 0 by {
                    assert(inner[k] == bytes[k]);
                }
            }
        }
    }
}

/// Reports have their fixed part, as many blocks as their header counts, and extensions that fill whole
/// words. Else it is said how many blocks were expected of how many bytes, or how many bytes are left
/// over.
pub proof fn law_cut_short_reports(payload: Seq<u8>, count: usize)
    requires
        payload.len() <= usize::MAX,
        count < 32,
    ensures
        receiver_report_of(payload, count as int) is Ok <==> payload.len() >= 4 + 24 * count && (
        payload.len() - 4) % 4 == 0,
        sender_report_of(payload, count as int) is Ok <==> payload.len() >= 24 + 24 * count && (
        payload.len() - 24) % 4 == 0,
        payload.len() < 4 ==> (receiver_report_of(payload, count as int) matches Err(
            RtcpError::ReceptionReportTruncated { expected_blocks, available_bytes },
        ) && expected_blocks == count && available_bytes == payload.len()),
        4 <= payload.len() < 4 + 24 * count ==> (receiver_report_of(payload, count as int) matches Err(
            RtcpError::ReceptionReportTruncated { expected_blocks, available_bytes },
        ) && expected_blocks == count && available_bytes == payload.len() - 4),
        24 <= payload.len() < 24 + 24 * count ==> (sender_report_of(payload, count as int) matches Err(
            RtcpError::ReceptionReportTruncated { expected_blocks, available_bytes },
        ) && expected_blocks == count && available_bytes == payload.len() - 24),
        payload.len() >= 4 + 24 * count && (payload.len() - 4) % 4 != 0 ==> (receiver_report_of(
            payload,
            count as int,
        ) matches Err(RtcpError::ProfileExtensionMisaligned { remaining_bytes }) && remaining_bytes
            == payload.len() - 4 - 24 * count),
{
}

/// A goodbye has all the sources that its header counts, and its reason as long as it says, with
/// nothing but zeros behind it.
pub proof fn law_cut_short_goodbyes(payload: Seq<u8>, count: usize, k: int)
    requires
        payload.len() <= usize::MAX,
        count < 32,
    ensures
        ({
            let at = 4 * count;
            let r = bye_of(payload, count as int);
            &&& payload.len() < at ==> (r matches Err(RtcpError::ByeSourcesTruncated {
                expected_sources,
                available_bytes,
            }) && expected_sources == count && available_bytes == payload.len())
            &&& payload.len() > at && payload.len() < at + 1 + payload[at as int] ==> (r matches Err(
                RtcpError::ByeReasonTruncated { declared, available },
            ) && declared == payload[at as int] && available == payload.len() - at - 1)
            &&& payload.len() > at && at + 1 + payload[at as int] <= k < payload.len() && payload[k]
                != 0 ==> r == Err::<RtcpPacketView, RtcpError>(
                RtcpError::TrailingNonZeroPadding { packet_type: 203 },
            )
        }),
{
}

/// What a source description is refused for: a chunk without its source, items without an end, an item
/// without its length or with less than its length, and bytes other than zero where a chunk is filled
/// up or behind the last one.
pub proof fn law_cut_short_descriptions(bytes: Seq<u8>, at: int, start: int, index: usize, count: int)
    requires
        0 <= at,
    ensures
        at >= bytes.len() ==> sdes_items_of(bytes, at, start, index as int) == Err::<
            (Seq<SdesItemView>, int),
            RtcpError,
        >(RtcpError::SdesChunkTruncated { chunk_index: index, reason: "missing-terminator" }),
        at + 1 == bytes.len() && bytes[at] != 0 ==> sdes_items_of(bytes, at, start, index as int)
            == Err::<(Seq<SdesItemView>, int), RtcpError>(
            RtcpError::SdesChunkTruncated { chunk_index: index, reason: "missing-item-length" },
        ),
        at + 1 < bytes.len() < at + 2 + bytes[at + 1] && bytes[at] != 0 ==> sdes_items_of(
            bytes,
            at,
            start,
            index as int,
        ) == Err::<(Seq<SdesItemView>, int), RtcpError>(
            RtcpError::SdesChunkTruncated { chunk_index: index, reason: "item-value-truncated" },
        ),
        (at - start) % 4 != 0 && at >= bytes.len() ==> sdes_padding_end(bytes, at, start, index as int)
            == Err::<int, RtcpError>(
            RtcpError::SdesChunkTruncated { chunk_index: index, reason: "padding-out-of-range" },
        ),
        (at - start) % 4 != 0 && at < bytes.len() && bytes[at] != 0 ==> sdes_padding_end(
            bytes,
            at,
            start,
            index as int,
        ) == Err::<int, RtcpError>(RtcpError::SdesPaddingCorrupted { chunk_index: index }),
        index < count && bytes.len() < at + 4 ==> sdes_chunks_of(bytes, at, index as int, count)
            == Err::<Seq<SdesChunkView>, RtcpError>(
            RtcpError::SdesChunkTruncated { chunk_index: index, reason: "missing-ssrc" },
        ),
        index >= count && (exists|k: int| at <= k < bytes.len() && #[trigger] bytes[k] != 0)
            ==> sdes_chunks_of(bytes, at, index as int, count) == Err::<
            Seq<SdesChunkView>,
            RtcpError,
        >(RtcpError::TrailingNonZeroPadding { packet_type: 202 }),
{
}

} // verus!
