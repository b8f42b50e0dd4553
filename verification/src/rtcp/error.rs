//! Why bytes are not a compound packet.
use crate::text::push_decimal;
use vstd::prelude::*;
use vstd::string::*;

verus! {

use crate::text::decimal;

/// Why bytes are not a compound packet.
#[derive(Debug, Clone, PartialEq, Eq)]
pub enum RtcpError {
    /// No byte at all.
    EmptyCompound,
    /// Fewer bytes than a header takes.
    PacketTooShort {
        /// The bytes that are left.
        remaining: usize,
    },
    /// A version other than two.
    InvalidVersion {
        /// The version.
        version: u8,
    },
    /// A packet that is cut short.
    InvalidLengthField {
        /// The length field.
        declared_words: usize,
        /// The bytes that are left.
        available_bytes: usize,
    },
    /// A padding count that is zero or reaches into the header.
    InvalidPadding {
        /// The count.
        padding: u8,
        /// The bytes behind the header.
        payload_len: usize,
    },
    /// A compound that does not begin with a report.
    FirstPacketNotReport {
        /// Type of the first packet.
        packet_type: u8,
    },
    /// A packet type without a meaning.
    UnsupportedPacketType {
        /// The type.
        packet_type: u8,
    },
    /// Fewer report blocks than announced.
    ReceptionReportTruncated {
        /// The blocks that were announced.
        expected_blocks: usize,
        /// The bytes that are left.
        available_bytes: usize,
    },
    /// Profile extensions that do not fill whole words.
    ProfileExtensionMisaligned {
        /// Their length.
        remaining_bytes: usize,
    },
    /// A chunk of a source description that is cut short.
    SdesChunkTruncated {
        /// Which chunk.
        chunk_index: usize,
        /// What is missing.
        reason: &'static str,
    },
    /// A chunk whose padding is not zero.
    SdesPaddingCorrupted {
        /// Which chunk.
        chunk_index: usize,
    },
    /// Fewer leaving sources than announced.
    ByeSourcesTruncated {
        /// The sources that were announced.
        expected_sources: usize,
        /// The bytes that are left.
        available_bytes: usize,
    },
    /// A reason that is cut short.
    ByeReasonTruncated {
        /// The length that was announced.
        declared: usize,
        /// The bytes that are left.
        available: usize,
    },
    /// Bytes behind the contents that are not zero.
    TrailingNonZeroPadding {
        /// Type of the packet.
        packet_type: u8,
    },
}

/// A number between two texts.
pub open spec fn with_number(lead: Seq<char>, number: int, tail: Seq<char>) -> Seq<char> {
    lead + decimal(number) + tail
}

impl RtcpError {
    /// What the error means, in words.
    pub open spec fn text(&self) -> Seq<char> {
        match self {
            RtcpError::EmptyCompound => "RTCP 复合报文为空"@,
            RtcpError::PacketTooShort { remaining } => with_number(
                "剩余字节 ("@,
                *remaining as int,
                ") 不足以解析 RTCP 头部"@,
            ),
            RtcpError::InvalidVersion { version } => with_number(
                "RTCP 版本号 "@,
                *version as int,
                " 非法，期望值为 2"@,
            ),
            RtcpError::InvalidLengthField { declared_words, available_bytes } => with_number(
                "长度字段声明 "@,
                *declared_words as int,
                with_number(" 个 32-bit 单元，但仅剩 "@, *available_bytes as int, " 字节"@),
            ),
            RtcpError::InvalidPadding { padding, payload_len } => with_number(
                "Padding 标志开启但声明填充 "@,
                *padding as int,
                with_number(" 超过 payload 长度 "@, *payload_len as int, Seq::empty()),
            ),
            RtcpError::FirstPacketNotReport { packet_type } => with_number(
                "复合报文首分组类型 "@,
                *packet_type as int,
                " 不是 Sender/Receiver Report"@,
            ),
            RtcpError::UnsupportedPacketType { packet_type } => with_number(
                "当前实现不支持的 RTCP 类型 "@,
                *packet_type as int,
                Seq::empty(),
            ),
            RtcpError::ReceptionReportTruncated { expected_blocks, available_bytes } => with_number(
                "接收报告数量 "@,
                *expected_blocks as int,
                with_number(" 与剩余 "@, *available_bytes as int, " 字节不匹配"@),
            ),
            RtcpError::ProfileExtensionMisaligned { remaining_bytes } => with_number(
                "SR/RR 扩展字段长度 "@,
                *remaining_bytes as int,
                " 不是 32-bit 对齐"@,
            ),
            RtcpError::SdesChunkTruncated { chunk_index, reason } => with_number(
                "SDES 分块 "@,
                *chunk_index as int,
                " 被截断，缺少 "@ + reason@,
            ),
            RtcpError::SdesPaddingCorrupted { chunk_index } => with_number(
                "SDES 分块 "@,
                *chunk_index as int,
                " 的填充区出现非零字节"@,
            ),
            RtcpError::ByeSourcesTruncated { expected_sources, available_bytes } => with_number(
                "BYE 声明 "@,
                *expected_sources as int,
                with_number(" 个源，但仅剩 "@, *available_bytes as int, " 字节"@),
            ),
            RtcpError::ByeReasonTruncated { declared, available } => with_number(
                "BYE 原因字段声明长度 "@,
                *declared as int,
                with_number("，但仅剩 "@, *available as int, " 字节"@),
            ),
            RtcpError::TrailingNonZeroPadding { packet_type } => with_number(
                "RTCP 类型 "@,
                *packet_type as int,
                " 的尾部填充包含非零字节，违反规范"@,
            ),
        }
    }

    /// What the error means, in words.
    pub fn message(&self) -> (r: String)
        ensures
            r@ == self.text(),
    {
        let mut out = String::new();
        match self {
            RtcpError::EmptyCompound => {
                out.append("RTCP 复合报文为空");
            },
            RtcpError::PacketTooShort { remaining } => {
                push_number(&mut out, "剩余字节 (", *remaining, ") 不足以解析 RTCP 头部");
            },
            RtcpError::InvalidVersion { version } => {
                push_number(&mut out, "RTCP 版本号 ", *version as usize, " 非法，期望值为 2");
            },
            RtcpError::InvalidLengthField { declared_words, available_bytes } => {
                push_lead(&mut out, "长度字段声明 ", *declared_words);
                push_number(&mut out, " 个 32-bit 单元，但仅剩 ", *available_bytes, " 字节");
            },
            RtcpError::InvalidPadding { padding, payload_len } => {
                push_lead(&mut out, "Padding 标志开启但声明填充 ", *padding as usize);
                push_lead(&mut out, " 超过 payload 长度 ", *payload_len);
            },
            RtcpError::FirstPacketNotReport { packet_type } => {
                push_number(
                    &mut out,
                    "复合报文首分组类型 ",
                    *packet_type as usize,
                    " 不是 Sender/Receiver Report",
                );
            },
            RtcpError::UnsupportedPacketType { packet_type } => {
                push_lead(&mut out, "当前实现不支持的 RTCP 类型 ", *packet_type as usize);
            },
            RtcpError::ReceptionReportTruncated { expected_blocks, available_bytes } => {
                push_lead(&mut out, "接收报告数量 ", *expected_blocks);
                push_number(&mut out, " 与剩余 ", *available_bytes, " 字节不匹配");
            },
            RtcpError::ProfileExtensionMisaligned { remaining_bytes } => {
                push_number(&mut out, "SR/RR 扩展字段长度 ", *remaining_bytes, " 不是 32-bit 对齐");
            },
            RtcpError::SdesChunkTruncated { chunk_index, reason } => {
                push_number(&mut out, "SDES 分块 ", *chunk_index, " 被截断，缺少 ");
                out.append(reason);
            },
            RtcpError::SdesPaddingCorrupted { chunk_index } => {
                push_number(&mut out, "SDES 分块 ", *chunk_index, " 的填充区出现非零字节");
            },
            RtcpError::ByeSourcesTruncated { expected_sources, available_bytes } => {
                push_lead(&mut out, "BYE 声明 ", *expected_sources);
                push_number(&mut out, " 个源，但仅剩 ", *available_bytes, " 字节");
            },
            RtcpError::ByeReasonTruncated { declared, available } => {
                push_lead(&mut out, "BYE 原因字段声明长度 ", *declared);
                push_number(&mut out, "，但仅剩 ", *available, " 字节");
            },
            RtcpError::TrailingNonZeroPadding { packet_type } => {
                push_number(
                    &mut out,
                    "RTCP 类型 ",
                    *packet_type as usize,
                    " 的尾部填充包含非零字节，违反规范",
                );
            },
        }
        assert(out@ =~= self.text());
        out
    }
}

/// Appends a text and a number.
fn push_lead(out: &mut String, lead: &str, number: usize)
    ensures
        final(out)@ == old(out)@ + lead@ + decimal(number as int),
{
    out.append(lead);
    push_decimal(out, number as u64);
}

/// Appends a number between two texts.
fn push_number(out: &mut String, lead: &str, number: usize, tail: &str)
    ensures
        final(out)@ == old(out)@ + with_number(lead@, number as int, tail@),
{
    let ghost before = out@;
    out.append(lead);
    push_decimal(out, number as u64);
    out.append(tail);
    assert(out@ =~= before + with_number(lead@, number as int, tail@));
}

/// What the errors are called in words, with their numbers in this order.
pub proof fn law_errors_have_their_words(a: usize, b: usize, n: u8, reason: &'static str)
    ensures
        RtcpError::EmptyCompound.text() == "RTCP 复合报文为空"@,
        (RtcpError::PacketTooShort { remaining: a }).text() == "剩余字节 ("@ + decimal(a as int)
            + ") 不足以解析 RTCP 头部"@,
        (RtcpError::InvalidVersion { version: n }).text() == "RTCP 版本号 "@ + decimal(n as int)
            + " 非法，期望值为 2"@,
        (RtcpError::InvalidLengthField { declared_words: a, available_bytes: b }).text()
            == "长度字段声明 "@ + decimal(a as int) + (" 个 32-bit 单元，但仅剩 "@ + decimal(
            b as int,
        ) + " 字节"@),
        (RtcpError::InvalidPadding { padding: n, payload_len: b }).text()
            == "Padding 标志开启但声明填充 "@ + decimal(n as int) + (" 超过 payload 长度 "@
            + decimal(b as int)),
        (RtcpError::FirstPacketNotReport { packet_type: n }).text() == "复合报文首分组类型 "@
            + decimal(n as int) + " 不是 Sender/Receiver Report"@,
        (RtcpError::UnsupportedPacketType { packet_type: n }).text()
            == "当前实现不支持的 RTCP 类型 "@ + decimal(n as int),
        (RtcpError::ReceptionReportTruncated { expected_blocks: a, available_bytes: b }).text()
            == "接收报告数量 "@ + decimal(a as int) + (" 与剩余 "@ + decimal(b as int)
            + " 字节不匹配"@),
        (RtcpError::ProfileExtensionMisaligned { remaining_bytes: a }).text()
            == "SR/RR 扩展字段长度 "@ + decimal(a as int) + " 不是 32-bit 对齐"@,
        (RtcpError::SdesChunkTruncated { chunk_index: a, reason }).text() == "SDES 分块 "@ + decimal(
            a as int,
        ) + (" 被截断，缺少 "@ + reason@),
        (RtcpError::SdesPaddingCorrupted { chunk_index: a }).text() == "SDES 分块 "@ + decimal(
            a as int,
        ) + " 的填充区出现非零字节"@,
        (RtcpError::ByeSourcesTruncated { expected_sources: a, available_bytes: b }).text()
            == "BYE 声明 "@ + decimal(a as int) + (" 个源，但仅剩 "@ + decimal(b as int)
            + " 字节"@),
        (RtcpError::ByeReasonTruncated { declared: a, available: b }).text()
            == "BYE 原因字段声明长度 "@ + decimal(a as int) + ("，但仅剩 "@ + decimal(b as int)
            + " 字节"@),
        (RtcpError::TrailingNonZeroPadding { packet_type: n }).text() == "RTCP 类型 "@ + decimal(
            n as int,
        ) + " 的尾部填充包含非零字节，违反规范"@,
{
    assert("Padding 标志开启但声明填充 "@ + decimal(n as int) + (" 超过 payload 长度 "@ + decimal(
        b as int,
    )) =~= (RtcpError::InvalidPadding { padding: n, payload_len: b }).text());
    assert("当前实现不支持的 RTCP 类型 "@ + decimal(n as int) =~= (
    RtcpError::UnsupportedPacketType { packet_type: n }).text());
}

} // verus!
