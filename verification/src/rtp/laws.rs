//! Where the fields of packets and telephone events stand, byte by byte.
use vstd::prelude::*;

verus! {

use crate::buffer::BufView;
use crate::rtp::dtmf::{
    blocks_defect, dtmf_of, event_bytes, is_dynamic_payload_type, DtmfDecodeError,
    DtmfEncodeError, DtmfEvent,
};
use crate::rtp::{
    csrc_end, header_end, header_matches, lemma_words_bytes_len, padding_size, rtp_defect,
    rtp_image, rtp_image_defect, seq_precedes, RtpEncodeError, RtpHeader, RtpPacket, RtpPacketBuilder,
    RtpParseError,
};
use crate::text::decimal;

/// The number that four bytes hold, the first counting most.
pub open spec fn four_bytes(bytes: Seq<u8>, at: int) -> int {
    bytes[at] * 16777216 + bytes[at + 1] * 65536 + bytes[at + 2] * 256 + bytes[at + 3]
}

/// The number that two bytes hold, the first counting most.
pub open spec fn two_bytes(bytes: Seq<u8>, at: int) -> int {
    bytes[at] * 256 + bytes[at + 1]
}

/// One where the condition holds, zero else.
pub open spec fn one_if(condition: bool) -> int {
    if condition {
        1
    } else {
        0
    }
}

/// A header is what the first bytes say: in the first byte version, padding, extension and number of
/// contributing sources, in the second marker and payload type, then sequence number, timestamp,
/// source, and the contributing sources in order.
pub proof fn law_header_fields(header: &RtpHeader, bytes: Seq<u8>)
    requires
        header_matches(header, bytes),
    ensures
        bytes[0] as int == 64 * header.version + 32 * one_if(header.padding) + 16 * one_if(
            header.extension,
        ) + header.csrc_count,
        header.version < 4,
        header.csrc_count < 16,
        bytes[1] as int == 128 * one_if(header.marker) + header.payload_type,
        header.payload_type < 128,
        header.sequence_number == two_bytes(bytes, 2),
        header.timestamp == four_bytes(bytes, 4),
        header.ssrc == four_bytes(bytes, 8),
        forall|i: int|
            0 <= i < header.csrc_count ==> #[trigger] header.csrcs@[i] == four_bytes(
                bytes,
                12 + 4 * i,
            ),
{
    let b = bytes[0] as int;
    assert(b == 64 * (b / 64) + 32 * (b / 32 % 2) + 16 * (b / 16 % 2) + b % 16);
    let c = bytes[1] as int;
    assert(c == 128 * (c / 128 % 2) + c % 128);
    assert forall|i: int| 0 <= i < header.csrc_count implies #[trigger] header.csrcs@[i] == four_bytes(
        bytes,
        12 + 4 * i,
    ) by {
        assert(header.csrc_list()[i] == header.csrcs@[i]);
    }
}

/// Behind the twelve fixed bytes stand four for each contributing source; then, if the bit of weight
/// sixteen is set, a tag of two bytes, a count of two bytes and as many words; then the payload; and
/// at the end, if the bit of weight 32 is set, as many bytes of padding as the last byte says.
pub proof fn law_parts_of_a_packet(bytes: Seq<u8>)
    ensures
        ({
            let sources = bytes[0] as int % 16;
            let extended = bytes[0] as int / 16 % 2 == 1;
            let padded = bytes[0] as int / 32 % 2 == 1;
            let at = 12 + 4 * sources;
            &&& csrc_end(bytes) == at
            &&& extended ==> header_end(bytes) == at + 4 + 4 * two_bytes(bytes, at + 2)
            &&& !extended ==> header_end(bytes) == at
            &&& padded ==> padding_size(bytes) == bytes[bytes.len() - 1]
            &&& !padded ==> padding_size(bytes) == 0
        }),
{
}

/// Bytes are a packet exactly if there are twelve of them, the version is two, sources and extension
/// are complete, and padding, where it is declared, is at least one byte and leaves the header whole.
/// Else the first of these that fails is named.
pub proof fn law_defects_of_a_packet(bytes: Seq<u8>)
    ensures
        ({
            let n = bytes.len() as int;
            let version = bytes[0] as int / 64;
            let extended = bytes[0] as int / 16 % 2 == 1;
            let padded = bytes[0] as int / 32 % 2 == 1;
            let at = 12 + 4 * (bytes[0] as int % 16);
            let end = header_end(bytes);
            let fill = bytes[n - 1] as int;
            &&& n < 12 ==> rtp_defect(bytes) == Some(RtpParseError::HeaderTooShort)
            &&& n >= 12 && version != 2 ==> rtp_defect(bytes) == Some(
                RtpParseError::UnsupportedVersion(version as u8),
            )
            &&& n >= 12 && version == 2 ==> {
                &&& n < at ==> rtp_defect(bytes) == Some(RtpParseError::InvalidCsrcLength)
                &&& n >= at && extended && (n < at + 4 || n < end) ==> rtp_defect(bytes) == Some(
                    RtpParseError::InvalidExtension,
                )
                &&& n >= at && (extended ==> n >= at + 4 && n >= end) ==> {
                    &&& padded && (fill == 0 || n < end + fill) ==> rtp_defect(bytes) == Some(
                        RtpParseError::InvalidPadding,
                    )
                    &&& !padded || (fill > 0 && n >= end + fill) ==> rtp_defect(bytes) is None
                }
            }
        }),
{
}

/// A parsed packet has the header of its bytes, as payload what stands between header and padding,
/// and the extension where the header says so.
pub proof fn law_parsed_parts<V: BufView>(packet: &RtpPacket<'_, V>, bytes: Seq<u8>)
    requires
        packet.describes(bytes),
    ensures
        header_matches(&packet.header_value(), bytes),
        packet.payload_region().start() == header_end(bytes),
        packet.payload_region().start() + packet.payload_region().size() + packet.padding_value()
            == bytes.len(),
        packet.padding_value() == padding_size(bytes),
        packet.extension_value() is Some <==> packet.header_value().extension,
        packet.extension_value() matches Some(ext) ==> {
            let at = 12 + 4 * packet.header_value().csrc_count;
            &&& ext.profile == two_bytes(bytes, at)
            &&& ext.span.start() == at + 4
            &&& ext.span.size() == 4 * two_bytes(bytes, at + 2)
            &&& ext.span.start() + ext.span.size() == packet.payload_region().start()
        },
{
}

/// A packet that is written is the fixed header, the sources, the extension, the payload, and the
/// padding, each byte of which is the length of the padding.
pub proof fn law_written_packet(
    header: RtpHeader,
    extension: Option<(u16, Seq<u8>)>,
    payload: Seq<u8>,
    padding_len: u8,
)
    requires
        header.csrc_count <= 15,
    ensures
        ({
            let image = rtp_image(&header, extension, payload, padding_len);
            let at = 12 + 4 * header.csrc_count;
            let end = at + (match extension {
                Some((_, data)) => 4 + data.len(),
                None => 0,
            });
            &&& image.len() == end + payload.len() + padding_len
            &&& forall|i: int|
                end + payload.len() <= i < image.len() ==> #[trigger] image[i] == padding_len
            &&& image.subrange(end as int, end + payload.len()) == payload
            &&& extension matches Some((_, data)) ==> image.subrange(at + 4, end as int) == data
        }),
{
    let image = rtp_image(&header, extension, payload, padding_len);
    lemma_words_bytes_len(header.csrc_list());
    let at = 12 + 4 * header.csrc_count;
    let end = at + (match extension {
        Some((_, data)) => 4 + data.len(),
        None => 0,
    });
    assert(image.subrange(end as int, end + payload.len()) =~= payload);
    if let Some((_, data)) = extension {
        assert(image.subrange(at + 4, end as int) =~= data);
    }
}

/// A packet can be written exactly if the version is two, the payload type has seven bits, there are
/// at most fifteen sources, the extension is there if and only if the header says so and fills whole
/// words, and there is padding if and only if the header says so.
pub proof fn law_writable_packets(
    header: RtpHeader,
    extension: Option<(u16, Seq<u8>)>,
    padding_len: u8,
)
    ensures
        rtp_image_defect(&header, extension, padding_len) is None <==> {
            &&& header.version == 2
            &&& header.payload_type < 128
            &&& header.csrc_count < 16
            &&& header.extension <==> extension is Some
            &&& extension matches Some((_, data)) ==> data.len() % 4 == 0
            &&& header.padding <==> padding_len > 0
        },
        header.version != 2 ==> rtp_image_defect(&header, extension, padding_len) == Some(
            RtpEncodeError::InvalidField("version"),
        ),
        header.version == 2 && header.payload_type >= 128 ==> rtp_image_defect(
            &header,
            extension,
            padding_len,
        ) == Some(RtpEncodeError::InvalidField("payload_type")),
        header.version == 2 && header.payload_type < 128 && header.csrc_count >= 16
            ==> rtp_image_defect(&header, extension, padding_len) == Some(
            RtpEncodeError::InvalidField("csrc_count"),
        ),
{
}

/// Half the ring apart neither number is older, and a number is older than another exactly if a step
/// of less than half the ring leads from it to the other.
pub proof fn law_half_the_ring(a: u16, b: u16)
    ensures
        a < b ==> (seq_precedes(a, b) <==> b - a < 32768),
        a > b ==> (seq_precedes(a, b) <==> a - b > 32768),
        a == b ==> !seq_precedes(a, b),
{
}

/// A block of a telephone event: code; end in the bit of weight 64 and volume in the six bits below;
/// duration in two bytes.
pub proof fn law_event_fields(event: DtmfEvent)
    requires
        event.volume <= 63,
    ensures
        event_bytes(event).len() == 4,
        event_bytes(event)[0] == event.event_code,
        event_bytes(event)[1] as int == 64 * one_if(event.end) + event.volume,
        two_bytes(event_bytes(event), 2) == event.duration,
{
}

/// Whether block `i` is one that an event may be read from: its reserved bit is clear, and it names
/// the event that the first block names.
pub open spec fn is_sound_block(payload: Seq<u8>, i: int) -> bool {
    payload[4 * i + 1] < 128 && payload[4 * i] == payload[0]
}

proof fn lemma_sound_blocks(payload: Seq<u8>, n: int)
    ensures
        blocks_defect(payload, n) is None <==> forall|i: int|
            0 <= i < n ==> #[trigger] is_sound_block(payload, i),
    decreases n,
{
    if n > 0 {
        lemma_sound_blocks(payload, n - 1);
        if blocks_defect(payload, n) is None {
            assert forall|i: int| 0 <= i < n implies #[trigger] is_sound_block(payload, i) by {
                if i == n - 1 && n > 1 {
                    assert(is_sound_block(payload, n - 2));
                }
            }
        }
        if forall|i: int| 0 <= i < n ==> #[trigger] is_sound_block(payload, i) {
            assert(is_sound_block(payload, n - 1));
            if n > 1 {
                assert(is_sound_block(payload, n - 2));
            }
        }
    }
}

proof fn lemma_first_unsound(payload: Seq<u8>, n: int, k: int)
    requires
        0 <= k < n,
        !is_sound_block(payload, k),
        forall|i: int| 0 <= i < k ==> #[trigger] is_sound_block(payload, i),
    ensures
        blocks_defect(payload, n) == Some(
            if payload[4 * k + 1] >= 128 {
                DtmfDecodeError::ReservedBitSet
            } else {
                DtmfDecodeError::InconsistentEvent
            },
        ),
    decreases n,
{
    if k == n - 1 {
        lemma_sound_blocks(payload, k);
        if k > 0 {
            assert(is_sound_block(payload, k - 1));
        }
    } else {
        lemma_first_unsound(payload, n - 1, k);
    }
}

/// An event is read exactly if the payload type is one from 96 to 127 and the payload is one or more
/// whole blocks, all sound; it is then what the last block says.
pub proof fn law_events_are_read(payload_type: u8, payload: Seq<u8>)
    ensures
        ({
            let n = payload.len() as int;
            let known = 96 <= payload_type <= 127;
            &&& is_dynamic_payload_type(payload_type) <==> known
            &&& dtmf_of(payload_type, payload) is Ok <==> {
                &&& known
                &&& n >= 4
                &&& n % 4 == 0
                &&& forall|i: int| 0 <= i < n / 4 ==> #[trigger] is_sound_block(payload, i)
            }
            &&& dtmf_of(payload_type, payload) matches Ok(event) ==> {
                &&& event.event_code == payload[n - 4]
                &&& event.end <==> payload[n - 3] >= 64
                &&& event.volume as int == payload[n - 3] as int % 64
                &&& event.duration == two_bytes(payload, n - 2)
            }
            &&& !known ==> dtmf_of(payload_type, payload) == Err::<DtmfEvent, DtmfDecodeError>(
                DtmfDecodeError::InvalidPayloadType(payload_type),
            )
            &&& known && n < 4 ==> dtmf_of(payload_type, payload) == Err::<DtmfEvent, DtmfDecodeError>(
                DtmfDecodeError::PayloadTooShort,
            )
            &&& known && n >= 4 && n % 4 != 0 ==> dtmf_of(payload_type, payload) == Err::<
                DtmfEvent,
                DtmfDecodeError,
            >(DtmfDecodeError::MisalignedPayload)
        }),
{
    let n = payload.len() as int;
    lemma_sound_blocks(payload, n / 4);
    if dtmf_of(payload_type, payload) is Ok {
        assert(4 * (n / 4 - 1) == n - 4);
        assert(is_sound_block(payload, n / 4 - 1));
    }
}

/// The first block that is not sound is what a payload is refused for: its reserved bit if that is
/// set, else the event that it names.
pub proof fn law_unsound_blocks_are_refused(payload_type: u8, payload: Seq<u8>, k: int)
    requires
        96 <= payload_type <= 127,
        payload.len() >= 4,
        payload.len() % 4 == 0,
        0 <= k < payload.len() / 4,
        !is_sound_block(payload, k),
        forall|i: int| 0 <= i < k ==> #[trigger] is_sound_block(payload, i),
    ensures
        dtmf_of(payload_type, payload) == Err::<DtmfEvent, DtmfDecodeError>(
            if payload[4 * k + 1] >= 128 {
                DtmfDecodeError::ReservedBitSet
            } else {
                DtmfDecodeError::InconsistentEvent
            },
        ),
{
    lemma_first_unsound(payload, payload.len() as int / 4, k);
}

/// What the errors are called in words.
pub proof fn law_errors_have_their_words(n: u8, words: &'static str)
    ensures
        RtpParseError::HeaderTooShort.text() == "RTP 头部不足 12 字节"@,
        RtpParseError::UnsupportedVersion(n).text() == "不支持的 RTP 版本号："@ + decimal(n as int)
            + " (仅支持 2)"@,
        RtpParseError::InvalidCsrcLength.text() == "CSRC 列表长度非法或字节不足"@,
        RtpParseError::InvalidExtension.text() == "扩展头字段与实际数据不一致"@,
        RtpParseError::InvalidPadding.text() == "Padding 标记非法或填充长度不足"@,
        RtpEncodeError::BufferTooSmall.text() == "输出缓冲区不足"@,
        RtpEncodeError::HeaderMismatch(words).text() == "Header 与生成配置不一致："@ + words@,
        RtpEncodeError::InvalidField(words).text() == "字段取值非法："@ + words@,
        DtmfDecodeError::InvalidPayloadType(n).text()
            == "DTMF payload type 必须位于 96-127 范围，实际为 "@ + decimal(n as int),
        DtmfDecodeError::PayloadTooShort.text() == "DTMF payload 长度不足 4 字节"@,
        DtmfDecodeError::MisalignedPayload.text() == "DTMF payload 长度必须是 4 的倍数"@,
        DtmfDecodeError::ReservedBitSet.text() == "DTMF payload 的保留位 (bit7) 被置位"@,
        DtmfDecodeError::InconsistentEvent.text() == "同一 RTP 包内出现多个不同事件号"@,
        DtmfEncodeError::InvalidPayloadType(n).text()
            == "DTMF payload type 必须位于 96-127 范围，实际为 "@ + decimal(n as int),
        DtmfEncodeError::BufferTooSmall.text() == "输出缓冲区不足 4 字节"@,
        DtmfEncodeError::VolumeOutOfRange(n).text() == "DTMF 音量字段必须位于 0-63，实际为 "@
            + decimal(n as int),
{
}

/// The contributing sources of a header are the first of its list, as many as it counts; two headers
/// are the same but for these where every other field is.
pub proof fn law_sources_of_a_header(a: &RtpHeader, b: &RtpHeader, i: int)
    requires
        a.csrc_count <= 15,
    ensures
        a.csrc_list().len() == a.csrc_count,
        0 <= i < a.csrc_count ==> a.csrc_list()[i] == a.csrcs@[i],
        a.same_but_csrcs(b) <==> {
            &&& a.version == b.version && a.padding == b.padding && a.extension == b.extension
            &&& a.marker == b.marker && a.payload_type == b.payload_type
            &&& a.sequence_number == b.sequence_number && a.timestamp == b.timestamp
            &&& a.ssrc == b.ssrc
        },
{
}

/// What a builder writes is the packet of its header, extension, payload and padding.
pub proof fn law_builders_write_their_parts<V: BufView>(builder: &RtpPacketBuilder<'_, V>)
    ensures
        builder.image() == rtp_image(
            &builder.header_value(),
            builder.extension_value(),
            builder.payload_bytes(),
            builder.padding_value(),
        ),
        builder.defect() == rtp_image_defect(
            &builder.header_value(),
            builder.extension_value(),
            builder.padding_value(),
        ),
{
}

} // verus!
