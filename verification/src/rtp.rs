//! RTP packets: zero-copy parsing, generation, and sequence number order.
pub mod dtmf;
pub mod laws;

use crate::buffer::{BufView, Chunks};
use crate::text::push_decimal;
use crate::wire::{push_be16, push_be32, read_be16, read_be32, to_be32, write_at};
use vstd::prelude::*;
use vstd::string::*;

verus! {

use crate::buffer::{clip_chunks, concat_chunks, lemma_clip_is_window, lemma_concat_step, lemma_concat_take, view_bytes, window};
use crate::text::decimal;
use crate::wire::{be16, be16_bytes, be32, be32_bytes, bit, flag};

/// The RTP version that this module reads and writes.
pub const RTP_VERSION: u8 = 2;

/// Length of the fixed part of the header.
pub const RTP_HEADER_MIN_LEN: usize = 12;

/// The most contributing sources a header can list.
pub const MAX_CSRC_COUNT: usize = 15;

/// A position and a length inside a buffer.
#[derive(Debug, Clone, Copy, PartialEq, Eq)]
pub struct ByteSpan {
    offset: usize,
    len: usize,
}

impl ByteSpan {
    /// First position of the span.
    pub closed spec fn start(&self) -> int {
        self.offset as int
    }

    /// Number of bytes in the span.
    pub closed spec fn size(&self) -> int {
        self.len as int
    }

    /// The span of `len` bytes that begins at `offset`.
    pub fn new(offset: usize, len: usize) -> (r: Self)
        ensures
            r.start() == offset,
            r.size() == len,
    {
        ByteSpan { offset, len }
    }

    /// Number of bytes in the span.
    pub fn len(&self) -> (r: usize)
        ensures
            r == self.size(),
    {
        self.len
    }

    /// Whether the span holds no byte.
    pub fn is_empty(&self) -> (r: bool)
        ensures
            r <==> self.size() == 0,
    {
        self.len == 0
    }

    /// The position behind the span, unless it does not fit in a `usize`.
    fn end(&self) -> (r: Option<usize>)
        ensures
            match r {
                Some(end) => end == self.start() + self.size(),
                None => self.start() + self.size() > usize::MAX,
            },
    {
        self.offset.checked_add(self.len)
    }
}

/// The parts of the view that lie inside the span, as slices of the view.
fn slice_chunks<'a, V: BufView>(view: &'a V, span: ByteSpan) -> (r: Chunks<'a>)
    ensures
        r@ == (if span.start() + span.size() > usize::MAX {
            Seq::empty()
        } else {
            clip_chunks(view.chunks(), span.start(), span.start() + span.size())
        }),
        span.start() + span.size() <= usize::MAX ==> concat_chunks(r@) == window(
            view_bytes(view),
            span.start(),
            span.start() + span.size(),
        ),
{
    let end: usize = match span.end() {
        Some(end) => end,
        None => {
            return Chunks::empty();
        },
    };
    let chunks = view.as_chunks();
    let mut collected: Vec<&'a [u8]> = Vec::new();
    let ghost mut parts: Seq<Seq<u8>> = Seq::empty();
    let mut offset: usize = 0;
    let mut i: usize = 0;
    while i < chunks.count()
        invariant
            i <= chunks@.len(),
            chunks@ == view.chunks(),
            view_bytes(view).len() <= usize::MAX,
            end == span.start() + span.size(),
            offset == concat_chunks(chunks@.take(i as int)).len(),
            parts == clip_chunks(chunks@.take(i as int), span.start(), end as int),
            parts =~= Seq::new(collected@.len(), |k: int| collected@[k]@),
        decreases chunks@.len() - i,
    {
        let chunk = chunks.get(i);
        proof {
            lemma_concat_step(chunks@, i as int);
            lemma_concat_take(chunks@, i + 1);
            assert(chunks@.take(i + 1).drop_last() =~= chunks@.take(i as int));
        }
        let chunk_end: usize = offset + chunk.len();
        let from: usize = span.offset.saturating_sub(offset);
        let to: usize = if end < chunk_end {
            end.saturating_sub(offset)
        } else {
            chunk.len()
        };
        if from < to {
            let part: &'a [u8] = &chunk[from..to];
            collected.push(part);
            proof {
                parts = parts.push(part@);
            }
        }
        offset = chunk_end;
        i += 1;
    }
    proof {
        assert(chunks@.take(i as int) =~= chunks@);
        lemma_clip_is_window(chunks@, span.start(), end as int);
    }
    Chunks::from_vec(collected)
}

/// Copies `buf.len()` bytes of the view, from `offset` on, into `buf`.
fn read_into<V: BufView>(view: &V, offset: usize, buf: &mut [u8]) -> (r: bool)
    ensures
        final(buf)@.len() == old(buf)@.len(),
        r <==> old(buf)@.len() == 0 || offset + old(buf)@.len() <= view_bytes(view).len(),
        r ==> old(buf)@.len() == 0 || final(buf)@ == view_bytes(view).subrange(
            offset as int,
            offset + old(buf)@.len(),
        ),
{
    let end: usize = match offset.checked_add(buf.len()) {
        Some(end) => end,
        None => {
            let _total: usize = view.len();
            return false;
        },
    };
    let ghost size = buf@.len();
    let chunks = view.as_chunks();
    let mut written: usize = 0;
    let mut cursor: usize = 0;
    let mut i: usize = 0;
    while i < chunks.count()
        invariant
            i <= chunks@.len(),
            chunks@ == view.chunks(),
            view_bytes(view).len() <= usize::MAX,
            size == buf@.len(),
            end == offset + size,
            cursor == concat_chunks(chunks@.take(i as int)).len(),
            written == (if cursor <= offset {
                0
            } else if cursor < end {
                cursor - offset
            } else {
                size as int
            }),
            buf@.take(written as int) =~= window(
                concat_chunks(chunks@.take(i as int)),
                offset as int,
                end as int,
            ),
        decreases chunks@.len() - i,
    {
        let chunk = chunks.get(i);
        proof {
            lemma_concat_step(chunks@, i as int);
            lemma_concat_take(chunks@, i + 1);
        }
        let chunk_end: usize = cursor + chunk.len();
        let from: usize = offset.saturating_sub(cursor);
        let to: usize = if end < chunk_end {
            end.saturating_sub(cursor)
        } else {
            chunk.len()
        };
        if from < to {
            let part = &chunk[from..to];
            let ghost before = buf@;
            write_at(buf, written, part);
            written += part.len();
            assert(buf@.take(written as int) =~= before.take(written - part@.len()) + part@);
        }
        assert(buf@.take(written as int) =~= window(
            concat_chunks(chunks@.take(i + 1)),
            offset as int,
            end as int,
        ));
        cursor = chunk_end;
        i += 1;
    }
    proof {
        assert(chunks@.take(i as int) =~= chunks@);
        assert(buf@.take(size as int) =~= buf@);
    }
    written == buf.len()
}

/// The byte of the view at `offset`.
fn read_u8<V: BufView>(view: &V, offset: usize) -> (r: Option<u8>)
    ensures
        r == (if offset < view_bytes(view).len() {
            Some(view_bytes(view)[offset as int])
        } else {
            None
        }),
{
    let mut buf: [u8; 1] = [0u8; 1];
    if read_into(view, offset, &mut buf) {
        Some(buf[0])
    } else {
        None
    }
}

/// Why bytes are not an RTP packet.
#[derive(Debug, Clone, PartialEq, Eq)]
pub enum RtpParseError {
    /// Fewer bytes than the fixed header takes.
    HeaderTooShort,
    /// The version field holds this value.
    UnsupportedVersion(u8),
    /// The list of contributing sources is cut short.
    InvalidCsrcLength,
    /// The header extension is cut short.
    InvalidExtension,
    /// The padding count is zero or reaches into the header.
    InvalidPadding,
}

/// Why a packet cannot be written.
#[derive(Debug, Clone, PartialEq, Eq)]
pub enum RtpEncodeError {
    /// The destination is shorter than the packet.
    BufferTooSmall,
    /// A header flag contradicts the rest of the packet.
    HeaderMismatch(&'static str),
    /// A header field is out of range.
    InvalidField(&'static str),
}

impl RtpParseError {
    /// What the error means, in words.
    pub open spec fn text(&self) -> Seq<char> {
        match self {
            RtpParseError::HeaderTooShort => "RTP 头部不足 12 字节"@,
            RtpParseError::UnsupportedVersion(v) => "不支持的 RTP 版本号："@ + decimal(*v as int)
                + " (仅支持 2)"@,
            RtpParseError::InvalidCsrcLength => "CSRC 列表长度非法或字节不足"@,
            RtpParseError::InvalidExtension => "扩展头字段与实际数据不一致"@,
            RtpParseError::InvalidPadding => "Padding 标记非法或填充长度不足"@,
        }
    }

    /// What the error means, in words.
    pub fn message(&self) -> (r: String)
        ensures
            r@ == self.text(),
    {
        let mut out = String::new();
        match self {
            RtpParseError::HeaderTooShort => {
                out.append("RTP 头部不足 12 字节");
            },
            RtpParseError::UnsupportedVersion(v) => {
                out.append("不支持的 RTP 版本号：");
                push_decimal(&mut out, *v as u64);
                out.append(" (仅支持 2)");
            },
            RtpParseError::InvalidCsrcLength => {
                out.append("CSRC 列表长度非法或字节不足");
            },
            RtpParseError::InvalidExtension => {
                out.append("扩展头字段与实际数据不一致");
            },
            RtpParseError::InvalidPadding => {
                out.append("Padding 标记非法或填充长度不足");
            },
        }
        assert(out@ =~= self.text());
        out
    }
}

impl RtpEncodeError {
    /// What the error means, in words.
    pub open spec fn text(&self) -> Seq<char> {
        match self {
            RtpEncodeError::BufferTooSmall => "输出缓冲区不足"@,
            RtpEncodeError::HeaderMismatch(msg) => "Header 与生成配置不一致："@ + msg@,
            RtpEncodeError::InvalidField(field) => "字段取值非法："@ + field@,
        }
    }

    /// What the error means, in words.
    pub fn message(&self) -> (r: String)
        ensures
            r@ == self.text(),
    {
        let mut out = String::new();
        match self {
            RtpEncodeError::BufferTooSmall => {
                out.append("输出缓冲区不足");
            },
            RtpEncodeError::HeaderMismatch(msg) => {
                out.append("Header 与生成配置不一致：");
                out.append(msg);
            },
            RtpEncodeError::InvalidField(field) => {
                out.append("字段取值非法：");
                out.append(field);
            },
        }
        assert(out@ =~= self.text());
        out
    }
}

/// Marker for the RTP codec.
#[derive(Debug, Clone, Copy)]
pub struct RtpCodecScaffold;

impl Default for RtpCodecScaffold {
    fn default() -> (r: Self)
        ensures
            r == RtpCodecScaffold,
    {
        RtpCodecScaffold
    }
}

impl RtpCodecScaffold {
    /// The marker.
    pub fn new() -> (r: Self)
        ensures
            r == RtpCodecScaffold,
    {
        RtpCodecScaffold
    }
}

/// The header of a packet.
#[derive(Debug, Clone, PartialEq, Eq)]
pub struct RtpHeader {
    /// Protocol version.
    pub version: u8,
    /// Whether padding follows the payload.
    pub padding: bool,
    /// Whether a header extension is present.
    pub extension: bool,
    /// Number of contributing sources.
    pub csrc_count: u8,
    /// The marker bit.
    pub marker: bool,
    /// Payload type.
    pub payload_type: u8,
    /// Sequence number.
    pub sequence_number: u16,
    /// Timestamp in units of the media clock.
    pub timestamp: u32,
    /// Synchronization source.
    pub ssrc: u32,
    /// Contributing sources, of which the first `csrc_count` are meant.
    pub csrcs: [u32; 15],
}

impl Default for RtpHeader {
    fn default() -> (r: Self)
        ensures
            r.version == RTP_VERSION,
            !r.padding,
            !r.extension,
            r.csrc_count == 0,
            !r.marker,
            r.payload_type == 0,
            r.sequence_number == 0,
            r.timestamp == 0,
            r.ssrc == 0,
            r.csrc_list() == Seq::<u32>::empty(),
    {
        let r = RtpHeader {
            version: RTP_VERSION,
            padding: false,
            extension: false,
            csrc_count: 0,
            marker: false,
            payload_type: 0,
            sequence_number: 0,
            timestamp: 0,
            ssrc: 0,
            csrcs: [0u32; 15],
        };
        assert(r.csrc_list() =~= Seq::<u32>::empty());
        r
    }
}

impl RtpHeader {
    /// The contributing sources, as many as the count says.
    pub open spec fn csrc_list(&self) -> Seq<u32> {
        self.csrcs@.take(self.csrc_count as int)
    }

    /// Whether two headers agree in all but the contributing sources.
    pub open spec fn same_but_csrcs(&self, other: &RtpHeader) -> bool {
        &&& self.version == other.version
        &&& self.padding == other.padding
        &&& self.extension == other.extension
        &&& self.marker == other.marker
        &&& self.payload_type == other.payload_type
        &&& self.sequence_number == other.sequence_number
        &&& self.timestamp == other.timestamp
        &&& self.ssrc == other.ssrc
    }

    /// The contributing sources.
    pub fn csrcs(&self) -> (r: &[u32])
        requires
            self.csrc_count <= MAX_CSRC_COUNT,
        ensures
            r@ == self.csrc_list(),
            r@.len() == self.csrc_count,
    {
        let all: &[u32] = &self.csrcs;
        &all[0..self.csrc_count as usize]
    }

    /// Replaces the contributing sources.
    pub fn set_csrcs(&mut self, csrcs: &[u32]) -> (r: Result<(), RtpEncodeError>)
        ensures
            match r {
                Ok(_) => {
                    &&& csrcs@.len() <= MAX_CSRC_COUNT
                    &&& final(self).csrc_count == csrcs@.len()
                    &&& final(self).csrc_list() == csrcs@
                    &&& final(self).same_but_csrcs(old(self))
                },
                Err(e) => {
                    &&& csrcs@.len() > MAX_CSRC_COUNT
                    &&& e == RtpEncodeError::InvalidField("csrc_count")
                    &&& *final(self) == *old(self)
                },
            },
    {
        if csrcs.len() > MAX_CSRC_COUNT {
            return Err(RtpEncodeError::InvalidField("csrc_count"));
        }
        self.csrc_count = csrcs.len() as u8;
        let mut i: usize = 0;
        while i < csrcs.len()
            invariant
                i <= csrcs@.len() <= MAX_CSRC_COUNT,
                self.csrc_count == csrcs@.len(),
                self.same_but_csrcs(old(self)),
                forall|k: int| 0 <= k < i ==> #[trigger] self.csrcs@[k] == csrcs@[k],
            decreases csrcs@.len() - i,
        {
            self.csrcs[i] = csrcs[i];
            i += 1;
        }
        assert(self.csrc_list() =~= csrcs@);
        Ok(())
    }
}

/// Position behind the list of contributing sources.
pub open spec fn csrc_end(bytes: Seq<u8>) -> int {
    12 + 4 * (bytes[0] as int % 16)
}

/// Position behind the whole header, extension data included.
pub open spec fn header_end(bytes: Seq<u8>) -> int {
    if bit(bytes[0], 16) {
        csrc_end(bytes) + 4 + 4 * be16(bytes, csrc_end(bytes) + 2)
    } else {
        csrc_end(bytes)
    }
}

/// The number of padding bytes that the packet declares.
pub open spec fn padding_size(bytes: Seq<u8>) -> int {
    if bit(bytes[0], 32) {
        bytes.last() as int
    } else {
        0
    }
}

/// The reason why the bytes are not a packet, if there is one.
pub open spec fn rtp_defect(bytes: Seq<u8>) -> Option<RtpParseError> {
    if bytes.len() < 12 {
        Some(RtpParseError::HeaderTooShort)
    } else if bytes[0] / 64 != 2 {
        Some(RtpParseError::UnsupportedVersion((bytes[0] / 64) as u8))
    } else if bytes.len() < csrc_end(bytes) {
        Some(RtpParseError::InvalidCsrcLength)
    } else if bit(bytes[0], 16) && (bytes.len() < csrc_end(bytes) + 4 || bytes.len() < header_end(
        bytes,
    )) {
        Some(RtpParseError::InvalidExtension)
    } else if bit(bytes[0], 32) && (padding_size(bytes) == 0 || header_end(bytes) + padding_size(
        bytes,
    ) > bytes.len()) {
        Some(RtpParseError::InvalidPadding)
    } else {
        None
    }
}

/// Whether the header holds what the first bytes of a packet say.
pub open spec fn header_matches(header: &RtpHeader, bytes: Seq<u8>) -> bool {
    &&& header.version == bytes[0] / 64
    &&& header.padding == bit(bytes[0], 32)
    &&& header.extension == bit(bytes[0], 16)
    &&& header.csrc_count == bytes[0] % 16
    &&& header.marker == bit(bytes[1], 128)
    &&& header.payload_type == bytes[1] % 128
    &&& header.sequence_number == be16(bytes, 2)
    &&& header.timestamp == be32(bytes, 4)
    &&& header.ssrc == be32(bytes, 8)
    &&& header.csrc_list().len() == bytes[0] % 16
    &&& forall|i: int|
        0 <= i < header.csrc_list().len() ==> #[trigger] header.csrc_list()[i] == be32(
            bytes,
            12 + 4 * i,
        )
}

/// Where the extension data of a packet lies.
#[derive(Debug, Clone, Copy, PartialEq, Eq)]
pub struct RtpHeaderExtension {
    /// Profile-defined tag of the extension.
    pub profile: u16,
    /// Where the extension data lies.
    pub span: ByteSpan,
}

impl RtpHeaderExtension {
    /// Where the extension data lies.
    pub fn span(&self) -> (r: ByteSpan)
        ensures
            r == self.span,
    {
        self.span
    }
}

/// A region of a buffer, read in place.
#[derive(Debug, Clone, Copy)]
pub struct RtpByteSection<'a, V: BufView> {
    view: &'a V,
    span: ByteSpan,
}

impl<'a, V: BufView> RtpByteSection<'a, V> {
    /// The buffer that the region belongs to.
    pub closed spec fn source(&self) -> V {
        *self.view
    }

    /// The region itself.
    pub closed spec fn region(&self) -> ByteSpan {
        self.span
    }

    fn new(view: &'a V, span: ByteSpan) -> (r: Self)
        ensures
            r.source() == *view,
            r.region() == span,
    {
        RtpByteSection { view, span }
    }

    /// Number of bytes in the region.
    pub fn len(&self) -> (r: usize)
        ensures
            r == self.region().size(),
    {
        self.span.len()
    }

    /// Whether the region holds no byte.
    pub fn is_empty(&self) -> (r: bool)
        ensures
            r <==> self.region().size() == 0,
    {
        self.span.is_empty()
    }

    /// The region as slices of the buffer.
    pub fn as_chunks(&self) -> (r: Chunks<'a>)
        ensures
            r@ == (if self.region().start() + self.region().size() > usize::MAX {
                Seq::empty()
            } else {
                clip_chunks(
                    self.source().chunks(),
                    self.region().start(),
                    self.region().start() + self.region().size(),
                )
            }),
            self.region().start() + self.region().size() <= usize::MAX ==> concat_chunks(r@)
                == window(
                view_bytes(&self.source()),
                self.region().start(),
                self.region().start() + self.region().size(),
            ),
    {
        slice_chunks(self.view, self.span)
    }
}

/// A header extension of a parsed packet.
#[derive(Debug, Clone, Copy)]
pub struct RtpHeaderExtensionView<'a, V: BufView> {
    /// Profile-defined tag of the extension.
    pub profile: u16,
    /// The extension data.
    pub data: RtpByteSection<'a, V>,
}

/// A parsed packet, which borrows the buffer it was parsed from.
#[derive(Clone)]
pub struct RtpPacket<'a, V: BufView> {
    header: RtpHeader,
    view: &'a V,
    payload: ByteSpan,
    extension: Option<RtpHeaderExtension>,
    padding_len: u8,
}

impl<'a, V: BufView> RtpPacket<'a, V> {
    /// The buffer that the packet was parsed from.
    pub closed spec fn source(&self) -> V {
        *self.view
    }

    /// The parsed header.
    pub closed spec fn header_value(&self) -> RtpHeader {
        self.header
    }

    /// Where the payload lies.
    pub closed spec fn payload_region(&self) -> ByteSpan {
        self.payload
    }

    /// Tag and place of the extension.
    pub closed spec fn extension_value(&self) -> Option<RtpHeaderExtension> {
        self.extension
    }

    /// Number of padding bytes.
    pub closed spec fn padding_value(&self) -> u8 {
        self.padding_len
    }

    /// Whether the packet is what the given bytes say.
    pub open spec fn describes(&self, bytes: Seq<u8>) -> bool {
        &&& header_matches(&self.header_value(), bytes)
        &&& self.payload_region().start() == header_end(bytes)
        &&& self.payload_region().size() == bytes.len() - header_end(bytes) - padding_size(bytes)
        &&& self.padding_value() == padding_size(bytes)
        &&& self.extension_value() is Some <==> bit(bytes[0], 16)
        &&& self.extension_value() matches Some(ext) ==> {
            &&& ext.profile == be16(bytes, csrc_end(bytes))
            &&& ext.span.start() == csrc_end(bytes) + 4
            &&& ext.span.size() == 4 * be16(bytes, csrc_end(bytes) + 2)
        }
    }

    /// The header.
    pub fn header(&self) -> (r: &RtpHeader)
        ensures
            *r == self.header_value(),
    {
        &self.header
    }

    /// The payload, without padding.
    pub fn payload(&self) -> (r: RtpByteSection<'a, V>)
        ensures
            r.source() == self.source(),
            r.region() == self.payload_region(),
    {
        RtpByteSection::new(self.view, self.payload)
    }

    /// The header extension.
    pub fn extension(&self) -> (r: Option<RtpHeaderExtensionView<'a, V>>)
        ensures
            match (r, self.extension_value()) {
                (Some(got), Some(ext)) => {
                    &&& got.profile == ext.profile
                    &&& got.data.source() == self.source()
                    &&& got.data.region() == ext.span
                },
                (None, None) => true,
                _ => false,
            },
    {
        match self.extension {
            Some(ext) => Some(
                RtpHeaderExtensionView {
                    profile: ext.profile,
                    data: RtpByteSection::new(self.view, ext.span),
                },
            ),
            None => None,
        }
    }

    /// Number of padding bytes, the count byte included.
    pub fn padding_len(&self) -> (r: u8)
        ensures
            r == self.padding_value(),
    {
        self.padding_len
    }
}

/// Parses the bytes of the view as one packet, without copying the payload.
pub fn parse_rtp<'a, V: BufView>(buffer: &'a V) -> (r: Result<RtpPacket<'a, V>, RtpParseError>)
    ensures
        match r {
            Ok(packet) => {
                &&& rtp_defect(view_bytes(buffer)) is None
                &&& packet.source() == *buffer
                &&& packet.describes(view_bytes(buffer))
            },
            Err(e) => rtp_defect(view_bytes(buffer)) == Some(e),
        },
{
    let ghost bytes = view_bytes(buffer);
    let total_len: usize = buffer.len();
    if total_len < RTP_HEADER_MIN_LEN {
        return Err(RtpParseError::HeaderTooShort);
    }
    let mut fixed: [u8; 12] = [0u8; 12];
    if !read_into(buffer, 0, &mut fixed) {
        return Err(RtpParseError::HeaderTooShort);
    }
    assert(fixed@ == bytes.subrange(0, 12));
    assert(forall|k: int| 0 <= k < 12 ==> fixed@[k] == bytes[k]);
    let version: u8 = fixed[0] / 64;
    if version != RTP_VERSION {
        return Err(RtpParseError::UnsupportedVersion(version));
    }
    let padding: bool = fixed[0] / 32 % 2 == 1;
    let extension: bool = fixed[0] / 16 % 2 == 1;
    let csrc_count: u8 = fixed[0] % 16;
    let fixed_bytes: &[u8] = &fixed;
    let mut header = RtpHeader {
        version,
        padding,
        extension,
        csrc_count,
        marker: fixed[1] / 128 % 2 == 1,
        payload_type: fixed[1] % 128,
        sequence_number: read_be16(fixed_bytes, 2),
        timestamp: read_be32(fixed_bytes, 4),
        ssrc: read_be32(fixed_bytes, 8),
        csrcs: [0u32; 15],
    };
    let csrc_bytes: usize = csrc_count as usize * 4;
    let mut cursor: usize = RTP_HEADER_MIN_LEN + csrc_bytes;
    if total_len < cursor {
        return Err(RtpParseError::InvalidCsrcLength);
    }
    let mut i: usize = 0;
    let ghost fixed_header = header;
    while i < csrc_count as usize
        invariant
            i <= csrc_count <= 15,
            bytes == view_bytes(buffer),
            bytes.len() <= usize::MAX,
            12 + 4 * csrc_count <= bytes.len(),
            header.same_but_csrcs(&fixed_header),
            header.csrc_count == csrc_count,
            forall|k: int| 0 <= k < i ==> #[trigger] header.csrcs@[k] == be32(bytes, 12 + 4 * k),
        decreases csrc_count - i,
    {
        let mut word: [u8; 4] = [0u8; 4];
        let at: usize = RTP_HEADER_MIN_LEN + i * 4;
        if !read_into(buffer, at, &mut word) {
            return Err(RtpParseError::InvalidCsrcLength);
        }
        let word_bytes: &[u8] = &word;
        header.csrcs[i] = read_be32(word_bytes, 0);
        i += 1;
    }
    assert(header.csrc_list() =~= header.csrcs@.subrange(0, csrc_count as int));
    assert(header_matches(&header, bytes));
    let mut extension_meta: Option<RtpHeaderExtension> = None;
    if extension {
        if total_len - cursor < 4 {
            return Err(RtpParseError::InvalidExtension);
        }
        let mut ext_header: [u8; 4] = [0u8; 4];
        if !read_into(buffer, cursor, &mut ext_header) {
            return Err(RtpParseError::InvalidExtension);
        }
        let ext_bytes: &[u8] = &ext_header;
        let profile: u16 = read_be16(ext_bytes, 0);
        let extension_len: usize = read_be16(ext_bytes, 2) as usize * 4;
        cursor += 4;
        if total_len - cursor < extension_len {
            return Err(RtpParseError::InvalidExtension);
        }
        extension_meta = Some(
            RtpHeaderExtension { profile, span: ByteSpan::new(cursor, extension_len) },
        );
        cursor += extension_len;
    }
    assert(cursor == header_end(bytes));
    let mut padding_len: u8 = 0;
    if padding {
        let pad_value: u8 = match read_u8(buffer, total_len - 1) {
            Some(value) => value,
            None => {
                return Err(RtpParseError::InvalidPadding);
            },
        };
        if pad_value == 0 || pad_value as usize > total_len - cursor {
            return Err(RtpParseError::InvalidPadding);
        }
        padding_len = pad_value;
    }
    let payload_len: usize = total_len - cursor - padding_len as usize;
    Ok(
        RtpPacket {
            header,
            view: buffer,
            payload: ByteSpan::new(cursor, payload_len),
            extension: extension_meta,
            padding_len,
        },
    )
}

/// Whether `b` lies less than half the ring of sequence numbers ahead of `a`.
pub open spec fn seq_precedes(a: u16, b: u16) -> bool {
    0 < (b - a) % 0x1_0000 < 0x8000
}

/// No number is older than itself, and of two numbers at most one is older. Exactly one is, unless
/// they are equal or lie half the ring apart.
pub proof fn law_seq_order(a: u16, b: u16)
    ensures
        !seq_precedes(a, a),
        !(seq_precedes(a, b) && seq_precedes(b, a)),
        a != b && (b - a) % 0x1_0000 != 0x8000 ==> seq_precedes(a, b) != seq_precedes(b, a),
{
}

/// A step of less than half the ring leads to a newer number, across the wrap-around too.
pub proof fn law_seq_step_is_newer(a: u16, step: u16)
    requires
        0 < step < 0x8000,
    ensures
        seq_precedes(a, ((a + step) % 0x1_0000) as u16),
{
}

/// Whether `a` is older than `b` on the ring of 16-bit sequence numbers, that is, whether `b` lies
/// less than half the ring ahead of `a`.
pub fn seq_less(a: u16, b: u16) -> (r: bool)
    ensures
        r == seq_precedes(a, b),
{
    let diff: u16 = b.wrapping_sub(a);
    diff != 0 && diff < 0x8000
}

/// The bytes of a list of 32-bit words, each in big-endian form.
pub open spec fn words_bytes(words: Seq<u32>) -> Seq<u8>
    decreases words.len(),
{
    if words.len() == 0 {
        Seq::empty()
    } else {
        words_bytes(words.drop_last()) + be32_bytes(words.last())
    }
}

/// The twelve bytes that every header begins with.
pub open spec fn fixed_header_bytes(header: &RtpHeader) -> Seq<u8> {
    seq![
        (header.version * 64 + flag(header.padding) * 32 + flag(header.extension) * 16
            + header.csrc_count % 16) as u8,
        (flag(header.marker) * 128 + header.payload_type % 128) as u8,
    ] + be16_bytes(header.sequence_number) + be32_bytes(header.timestamp) + be32_bytes(header.ssrc)
}

/// A header extension on the wire: tag, length in words, data.
pub open spec fn extension_bytes_of(extension: Option<(u16, Seq<u8>)>) -> Seq<u8> {
    match extension {
        Some((profile, data)) => be16_bytes(profile) + be16_bytes(
            (data.len() / 4 % 0x1_0000) as u16,
        ) + data,
        None => Seq::empty(),
    }
}

/// A whole packet on the wire.
pub open spec fn rtp_image(
    header: &RtpHeader,
    extension: Option<(u16, Seq<u8>)>,
    payload: Seq<u8>,
    padding_len: u8,
) -> Seq<u8> {
    fixed_header_bytes(header) + words_bytes(header.csrc_list()) + extension_bytes_of(extension)
        + payload + Seq::new(padding_len as nat, |i: int| padding_len)
}

/// The reason why a packet has no valid form on the wire, if there is one.
pub open spec fn rtp_image_defect(
    header: &RtpHeader,
    extension: Option<(u16, Seq<u8>)>,
    padding_len: u8,
) -> Option<RtpEncodeError> {
    if header.version != 2 {
        Some(RtpEncodeError::InvalidField("version"))
    } else if header.payload_type > 127 {
        Some(RtpEncodeError::InvalidField("payload_type"))
    } else if header.csrc_count > 15 {
        Some(RtpEncodeError::InvalidField("csrc_count"))
    } else if header.extension && extension is None {
        Some(RtpEncodeError::HeaderMismatch("header.extension=1 但未提供扩展数据"))
    } else if !header.extension && extension is Some {
        Some(RtpEncodeError::HeaderMismatch("header.extension=0 但调用方提供了扩展数据"))
    } else if (extension matches Some((_, data)) && data.len() % 4 != 0) {
        Some(RtpEncodeError::HeaderMismatch("扩展数据长度必须按 32-bit word 对齐"))
    } else if header.padding && padding_len == 0 {
        Some(RtpEncodeError::HeaderMismatch("header.padding=1 但未指定 padding 长度"))
    } else if !header.padding && padding_len > 0 {
        Some(RtpEncodeError::HeaderMismatch("header.padding=0 但仍然指定了 padding"))
    } else {
        None
    }
}

/// The length of a list of words is four bytes for each word.
pub proof fn lemma_words_bytes_len(words: Seq<u32>)
    ensures
        words_bytes(words).len() == 4 * words.len(),
    decreases words.len(),
{
    if words.len() > 0 {
        lemma_words_bytes_len(words.drop_last());
    }
}

/// Each word can be read back from its place.
proof fn lemma_words_bytes_at(words: Seq<u32>, i: int)
    requires
        0 <= i < words.len(),
    ensures
        words_bytes(words).len() == 4 * words.len(),
        be32(words_bytes(words), 4 * i) == words[i],
    decreases words.len(),
{
    lemma_words_bytes_len(words);
    lemma_words_bytes_len(words.drop_last());
    if i < words.len() - 1 {
        lemma_words_bytes_at(words.drop_last(), i);
    }
}

/// Extension data that a builder will write.
#[derive(Debug, Clone, Copy)]
struct RtpPacketBuilderExtension<'a> {
    profile: u16,
    data: &'a [u8],
}

/// Puts a packet together from its parts.
#[derive(Clone)]
pub struct RtpPacketBuilder<'a, V: BufView> {
    header: RtpHeader,
    payload: Option<&'a V>,
    extension: Option<RtpPacketBuilderExtension<'a>>,
    padding_len: u8,
}

/// Whether `after` is `before` with `added` written at `from`, and `to` is the position behind it.
#[verifier::opaque]
spec fn written(before: Seq<u8>, from: int, after: Seq<u8>, to: int, added: Seq<u8>) -> bool {
    &&& 0 <= from <= to <= before.len()
    &&& after.len() == before.len()
    &&& to == from + added.len()
    &&& after.take(to) == before.take(from) + added
    &&& forall|k: int| to <= k < before.len() ==> #[trigger] after[k] == before[k]
}

/// A write stays inside the destination and moves the cursor by what it writes.
proof fn lemma_written_bounds(before: Seq<u8>, from: int, after: Seq<u8>, to: int, added: Seq<u8>)
    requires
        written(before, from, after, to, added),
    ensures
        after.len() == before.len(),
        to == from + added.len(),
        to <= before.len(),
{
    reveal(written);
}

/// What was written from the start stands at the front.
proof fn lemma_written_image(before: Seq<u8>, after: Seq<u8>, to: int, image: Seq<u8>)
    requires
        written(before, 0, after, to, image),
    ensures
        after.len() == before.len(),
        to == image.len(),
        to <= before.len(),
        after.take(to) == image,
        after.skip(to) == before.skip(to),
{
    reveal(written);
    assert(before.take(0) + image =~= image);
    assert(after.skip(to) =~= before.skip(to));
}

/// Two writes in a row amount to one.
proof fn lemma_written_twice(
    first: Seq<u8>,
    from: int,
    second: Seq<u8>,
    mid: int,
    third: Seq<u8>,
    to: int,
    one: Seq<u8>,
    two: Seq<u8>,
)
    requires
        written(first, from, second, mid, one),
        written(second, mid, third, to, two),
    ensures
        written(first, from, third, to, one + two),
{
    reveal(written);
    assert(third.take(to) =~= first.take(from) + (one + two));
}

/// Writes `src` at the cursor and moves the cursor behind it.
fn put(dst: &mut [u8], cursor: &mut usize, src: &[u8])
    requires
        *old(cursor) + src@.len() <= old(dst)@.len(),
    ensures
        written(old(dst)@, *old(cursor) as int, final(dst)@, *final(cursor) as int, src@),
{
    reveal(written);
    assert(dst.len() == dst@.len());
    write_at(dst, *cursor, src);
    *cursor = *cursor + src.len();
    assert(dst@.take(*cursor as int) =~= old(dst)@.take(*old(cursor) as int) + src@);
}

/// Writes the fixed header at the cursor.
fn put_fixed_header(dst: &mut [u8], cursor: &mut usize, header: &RtpHeader)
    requires
        header.version == 2,
        *old(cursor) + 12 <= old(dst)@.len(),
    ensures
        written(
            old(dst)@,
            *old(cursor) as int,
            final(dst)@,
            *final(cursor) as int,
            fixed_header_bytes(header),
        ),
{
    let padding_bit: u8 = if header.padding {
        32
    } else {
        0
    };
    let extension_bit: u8 = if header.extension {
        16
    } else {
        0
    };
    let marker_bit: u8 = if header.marker {
        128
    } else {
        0
    };
    let mut fixed: Vec<u8> = Vec::new();
    fixed.push(header.version * 64 + padding_bit + extension_bit + header.csrc_count % 16);
    fixed.push(marker_bit + header.payload_type % 128);
    push_be16(&mut fixed, header.sequence_number);
    push_be32(&mut fixed, header.timestamp);
    push_be32(&mut fixed, header.ssrc);
    assert(fixed@ =~= fixed_header_bytes(header));
    put(dst, cursor, fixed.as_slice());
}

/// Writes 32-bit words at the cursor.
fn put_words(dst: &mut [u8], cursor: &mut usize, words: &[u32])
    requires
        *old(cursor) + 4 * words@.len() <= old(dst)@.len(),
    ensures
        written(
            old(dst)@,
            *old(cursor) as int,
            final(dst)@,
            *final(cursor) as int,
            words_bytes(words@),
        ),
{
    let mut i: usize = 0;
    proof {
        assert(words@.take(0) =~= Seq::<u32>::empty());
        reveal(written);
        assert(dst@.take(*cursor as int) =~= dst@.take(*cursor as int) + words_bytes(
            words@.take(0),
        ));
    }
    while i < words.len()
        invariant
            i <= words@.len(),
            *old(cursor) + 4 * words@.len() <= old(dst)@.len(),
            words_bytes(words@.take(i as int)).len() == 4 * i,
            written(
                old(dst)@,
                *old(cursor) as int,
                dst@,
                *cursor as int,
                words_bytes(words@.take(i as int)),
            ),
        decreases words@.len() - i,
    {
        let ghost mid = dst@;
        let ghost at = *cursor as int;
        proof {
            lemma_written_bounds(
                old(dst)@,
                *old(cursor) as int,
                dst@,
                at,
                words_bytes(words@.take(i as int)),
            );
        }
        put(dst, cursor, &to_be32(words[i]));
        proof {
            assert(words@.take(i + 1).drop_last() =~= words@.take(i as int));
            lemma_written_twice(
                old(dst)@,
                *old(cursor) as int,
                mid,
                at,
                dst@,
                *cursor as int,
                words_bytes(words@.take(i as int)),
                be32_bytes(words@[i as int]),
            );
        }
        i += 1;
    }
    assert(words@.take(i as int) =~= words@);
}

/// Writes all bytes of a view at the cursor.
fn put_view<V: BufView>(dst: &mut [u8], cursor: &mut usize, view: &V)
    requires
        *old(cursor) + view_bytes(view).len() <= old(dst)@.len(),
    ensures
        written(
            old(dst)@,
            *old(cursor) as int,
            final(dst)@,
            *final(cursor) as int,
            view_bytes(view),
        ),
{
    let chunks = view.as_chunks();
    let mut k: usize = 0;
    proof {
        reveal(written);
        assert(dst@.take(*cursor as int) =~= dst@.take(*cursor as int) + concat_chunks(
            chunks@.take(0),
        ));
    }
    while k < chunks.count()
        invariant
            k <= chunks@.len(),
            chunks@ == view.chunks(),
            *old(cursor) + view_bytes(view).len() <= old(dst)@.len(),
            written(
                old(dst)@,
                *old(cursor) as int,
                dst@,
                *cursor as int,
                concat_chunks(chunks@.take(k as int)),
            ),
        decreases chunks@.len() - k,
    {
        let chunk = chunks.get(k);
        let ghost mid = dst@;
        let ghost at = *cursor as int;
        proof {
            lemma_concat_step(chunks@, k as int);
            lemma_concat_take(chunks@, k + 1);
            lemma_written_bounds(
                old(dst)@,
                *old(cursor) as int,
                dst@,
                at,
                concat_chunks(chunks@.take(k as int)),
            );
        }
        put(dst, cursor, chunk);
        proof {
            lemma_written_twice(
                old(dst)@,
                *old(cursor) as int,
                mid,
                at,
                dst@,
                *cursor as int,
                concat_chunks(chunks@.take(k as int)),
                chunk@,
            );
        }
        k += 1;
    }
    assert(chunks@.take(k as int) =~= chunks@);
}

/// Writes a header extension at the cursor, if there is one.
fn put_extension(
    dst: &mut [u8],
    cursor: &mut usize,
    extension: Option<RtpPacketBuilderExtension<'_>>,
)
    requires
        *old(cursor) + extension_bytes_of(extension_parts(extension)).len() <= old(dst)@.len(),
    ensures
        written(
            old(dst)@,
            *old(cursor) as int,
            final(dst)@,
            *final(cursor) as int,
            extension_bytes_of(extension_parts(extension)),
        ),
{
    let mut block: Vec<u8> = Vec::new();
    if let Some(ext) = extension {
        push_be16(&mut block, ext.profile);
        push_be16(&mut block, (ext.data.len() / 4 % 0x1_0000) as u16);
        block.extend_from_slice(ext.data);
    }
    assert(block@ =~= extension_bytes_of(extension_parts(extension)));
    put(dst, cursor, block.as_slice());
}

/// Tag and data of an extension.
spec fn extension_parts(extension: Option<RtpPacketBuilderExtension<'_>>) -> Option<(u16, Seq<u8>)> {
    match extension {
        Some(ext) => Some((ext.profile, ext.data@)),
        None => None,
    }
}

/// Writes a payload at the cursor, if there is one.
fn put_payload<V: BufView>(dst: &mut [u8], cursor: &mut usize, payload: Option<&V>)
    requires
        *old(cursor) + payload_parts(payload).len() <= old(dst)@.len(),
    ensures
        written(
            old(dst)@,
            *old(cursor) as int,
            final(dst)@,
            *final(cursor) as int,
            payload_parts(payload),
        ),
{
    match payload {
        Some(view) => put_view(dst, cursor, view),
        None => {
            let nothing: Vec<u8> = Vec::new();
            put(dst, cursor, nothing.as_slice());
        },
    }
}

/// The bytes of an optional payload.
spec fn payload_parts<V: BufView>(payload: Option<&V>) -> Seq<u8> {
    match payload {
        Some(view) => view_bytes(view),
        None => Seq::empty(),
    }
}

impl<'a, V: BufView> RtpPacketBuilder<'a, V> {
    /// The header to write.
    pub closed spec fn header_value(&self) -> RtpHeader {
        self.header
    }

    /// The payload to write.
    pub closed spec fn payload_bytes(&self) -> Seq<u8> {
        payload_parts(self.payload)
    }

    /// Tag and data of the extension to write.
    pub closed spec fn extension_value(&self) -> Option<(u16, Seq<u8>)> {
        extension_parts(self.extension)
    }

    /// Number of padding bytes to write.
    pub closed spec fn padding_value(&self) -> u8 {
        self.padding_len
    }

    /// What the finished packet looks like on the wire.
    pub open spec fn image(&self) -> Seq<u8> {
        rtp_image(
            &self.header_value(),
            self.extension_value(),
            self.payload_bytes(),
            self.padding_value(),
        )
    }

    /// Why the packet cannot be written, if it cannot.
    pub open spec fn defect(&self) -> Option<RtpEncodeError> {
        rtp_image_defect(&self.header_value(), self.extension_value(), self.padding_value())
    }

    /// Checks that header, extension and padding agree.
    fn find_defect(&self) -> (r: Option<RtpEncodeError>)
        ensures
            r == self.defect(),
    {
        if self.header.version != RTP_VERSION {
            return Some(RtpEncodeError::InvalidField("version"));
        }
        if self.header.payload_type > 127 {
            return Some(RtpEncodeError::InvalidField("payload_type"));
        }
        if self.header.csrc_count as usize > MAX_CSRC_COUNT {
            return Some(RtpEncodeError::InvalidField("csrc_count"));
        }
        match self.extension {
            Some(ext) => {
                if !self.header.extension {
                    return Some(
                        RtpEncodeError::HeaderMismatch(
                            "header.extension=0 但调用方提供了扩展数据",
                        ),
                    );
                }
                if ext.data.len() % 4 != 0 {
                    return Some(
                        RtpEncodeError::HeaderMismatch("扩展数据长度必须按 32-bit word 对齐"),
                    );
                }
            },
            None => {
                if self.header.extension {
                    return Some(
                        RtpEncodeError::HeaderMismatch("header.extension=1 但未提供扩展数据"),
                    );
                }
            },
        }
        if self.header.padding {
            if self.padding_len == 0 {
                return Some(
                    RtpEncodeError::HeaderMismatch("header.padding=1 但未指定 padding 长度"),
                );
            }
        } else if self.padding_len > 0 {
            return Some(RtpEncodeError::HeaderMismatch("header.padding=0 但仍然指定了 padding"));
        }
        None
    }

    /// A packet with this header and nothing else.
    pub fn new(header: RtpHeader) -> (r: Self)
        ensures
            r.header_value() == header,
            r.payload_bytes() == Seq::<u8>::empty(),
            r.extension_value() is None,
            r.padding_value() == 0,
    {
        RtpPacketBuilder { header, payload: None, extension: None, padding_len: 0 }
    }

    /// Takes the payload from a view.
    pub fn payload_view(self, payload: &'a V) -> (r: Self)
        ensures
            r.header_value() == self.header_value(),
            r.payload_bytes() == view_bytes(payload),
            r.extension_value() == self.extension_value(),
            r.padding_value() == self.padding_value(),
    {
        RtpPacketBuilder {
            header: self.header,
            payload: Some(payload),
            extension: self.extension,
            padding_len: self.padding_len,
        }
    }

    /// Sets tag and data of the header extension; the data must fill whole 32-bit words.
    pub fn extension_bytes(self, profile: u16, data: &'a [u8]) -> (r: Result<Self, RtpEncodeError>)
        ensures
            match r {
                Ok(b) => {
                    &&& data@.len() % 4 == 0
                    &&& b.header_value() == self.header_value()
                    &&& b.payload_bytes() == self.payload_bytes()
                    &&& b.extension_value() == Some((profile, data@))
                    &&& b.padding_value() == self.padding_value()
                },
                Err(e) => {
                    &&& data@.len() % 4 != 0
                    &&& e == RtpEncodeError::HeaderMismatch(
                        "扩展数据长度必须是 32-bit word 的整数倍",
                    )
                },
            },
    {
        if data.len() % 4 != 0 {
            return Err(
                RtpEncodeError::HeaderMismatch("扩展数据长度必须是 32-bit word 的整数倍"),
            );
        }
        Ok(
            RtpPacketBuilder {
                header: self.header,
                payload: self.payload,
                extension: Some(RtpPacketBuilderExtension { profile, data }),
                padding_len: self.padding_len,
            },
        )
    }

    /// Sets the number of padding bytes.
    pub fn padding(self, padding_len: u8) -> (r: Self)
        ensures
            r.header_value() == self.header_value(),
            r.payload_bytes() == self.payload_bytes(),
            r.extension_value() == self.extension_value(),
            r.padding_value() == padding_len,
    {
        RtpPacketBuilder {
            header: self.header,
            payload: self.payload,
            extension: self.extension,
            padding_len,
        }
    }

    /// Writes the packet to the front of `dst` and returns its length. Bytes of `dst` behind the
    /// packet keep their value, and on an error so do all of them.
    pub fn encode_into(self, dst: &mut [u8]) -> (r: Result<usize, RtpEncodeError>)
        ensures
            final(dst)@.len() == old(dst)@.len(),
            match r {
                Ok(n) => {
                    &&& self.defect() is None
                    &&& n == self.image().len()
                    &&& n <= old(dst)@.len()
                    &&& final(dst)@.take(n as int) == self.image()
                    &&& final(dst)@.skip(n as int) == old(dst)@.skip(n as int)
                },
                Err(e) => {
                    &&& final(dst)@ == old(dst)@
                    &&& match self.defect() {
                        Some(defect) => e == defect,
                        None => e == RtpEncodeError::BufferTooSmall && old(dst)@.len()
                            < self.image().len(),
                    }
                },
            },
    {
        let defect = self.find_defect();
        if let Some(defect) = defect {
            return Err(defect);
        }
        let payload_len: usize = match self.payload {
            Some(view) => view.len(),
            None => 0,
        };
        let ext_len: usize = match self.extension {
            Some(ext) => ext.data.len(),
            None => 0,
        };
        let ext_header_len: usize = if self.header.extension {
            4
        } else {
            0
        };
        let fixed_len: usize = RTP_HEADER_MIN_LEN + self.header.csrc_count as usize * 4
            + ext_header_len + self.padding_len as usize;
        let fits: bool = match fixed_len.checked_add(ext_len) {
            Some(sum) => match sum.checked_add(payload_len) {
                Some(required) => required <= dst.len(),
                None => false,
            },
            None => false,
        };
        let ghost before = dst@;
        let ghost csrcs = words_bytes(self.header.csrc_list());
        proof {
            lemma_words_bytes_len(self.header.csrc_list());
            assert(dst.len() == dst@.len());
            assert(self.image().len() == fixed_len + ext_len + payload_len);
        }
        if !fits {
            return Err(RtpEncodeError::BufferTooSmall);
        }
        let ghost lead = fixed_header_bytes(&self.header);
        let ghost ext_image = extension_bytes_of(self.extension_value());
        let ghost payload = self.payload_bytes();
        let mut cursor: usize = 0;
        put_fixed_header(dst, &mut cursor, &self.header);
        let ghost (first, at) = (dst@, cursor as int);
        proof {
            lemma_written_bounds(before, 0, first, at, lead);
        }
        put_words(dst, &mut cursor, self.header.csrcs());
        let ghost (second, at2) = (dst@, cursor as int);
        proof {
            lemma_written_twice(before, 0, first, at, second, at2, lead, csrcs);
            lemma_written_bounds(before, 0, second, at2, lead + csrcs);
        }
        put_extension(dst, &mut cursor, self.extension);
        let ghost (third, at3) = (dst@, cursor as int);
        proof {
            lemma_written_twice(before, 0, second, at2, third, at3, lead + csrcs, ext_image);
            lemma_written_bounds(before, 0, third, at3, lead + csrcs + ext_image);
        }
        put_payload(dst, &mut cursor, self.payload);
        let ghost (fourth, at4) = (dst@, cursor as int);
        proof {
            lemma_written_twice(
                before,
                0,
                third,
                at3,
                fourth,
                at4,
                lead + csrcs + ext_image,
                payload,
            );
            lemma_written_bounds(before, 0, fourth, at4, lead + csrcs + ext_image + payload);
        }
        let pad: Vec<u8> = vec![self.padding_len; self.padding_len as usize];
        put(dst, &mut cursor, pad.as_slice());
        proof {
            assert(pad@ =~= Seq::new(self.padding_len as nat, |i: int| self.padding_len));
            lemma_written_twice(
                before,
                0,
                fourth,
                at4,
                dst@,
                cursor as int,
                lead + csrcs + ext_image + payload,
                pad@,
            );
            lemma_written_image(before, dst@, cursor as int, self.image());
        }
        Ok(cursor)
    }
}

/// The fixed header carries each of its fields.
proof fn lemma_fixed_header(header: &RtpHeader)
    requires
        header.version == 2,
        header.payload_type <= 127,
        header.csrc_count <= 15,
    ensures
        fixed_header_bytes(header).len() == 12,
        fixed_header_bytes(header)[0] / 64 == 2,
        bit(fixed_header_bytes(header)[0], 32) == header.padding,
        bit(fixed_header_bytes(header)[0], 16) == header.extension,
        fixed_header_bytes(header)[0] % 16 == header.csrc_count,
        bit(fixed_header_bytes(header)[1], 128) == header.marker,
        fixed_header_bytes(header)[1] % 128 == header.payload_type,
        be16(fixed_header_bytes(header), 2) == header.sequence_number,
        be32(fixed_header_bytes(header), 4) == header.timestamp,
        be32(fixed_header_bytes(header), 8) == header.ssrc,
{
}

/// The header of a packet stands at the front of it, whatever follows.
proof fn lemma_image_header(header: &RtpHeader, rest: Seq<u8>)
    requires
        header.version == 2,
        header.payload_type <= 127,
        header.csrc_count <= 15,
    ensures
        ({
            let image = fixed_header_bytes(header) + words_bytes(header.csrc_list()) + rest;
            &&& header_matches(header, image)
            &&& csrc_end(image) == 12 + 4 * header.csrc_count
            &&& image.skip(csrc_end(image)) == rest
            &&& image.len() == csrc_end(image) + rest.len()
        }),
{
    let lead = fixed_header_bytes(header);
    let csrcs = words_bytes(header.csrc_list());
    let image = lead + csrcs + rest;
    lemma_fixed_header(header);
    lemma_words_bytes_len(header.csrc_list());
    assert(forall|k: int| 0 <= k < 12 ==> #[trigger] image[k] == lead[k]);
    assert(be16(image, 2) == be16(lead, 2));
    assert(be32(image, 4) == be32(lead, 4));
    assert(be32(image, 8) == be32(lead, 8));
    assert forall|i: int| 0 <= i < header.csrc_list().len() implies #[trigger] header.csrc_list()[i]
        == be32(image, 12 + 4 * i) by {
        lemma_words_bytes_at(header.csrc_list(), i);
        assert(forall|k: int| 0 <= k < csrcs.len() ==> image[12 + k] == #[trigger] csrcs[k]);
        assert(be32(image, 12 + 4 * i) == be32(csrcs, 4 * i));
    }
    assert(image.skip(csrc_end(image)) =~= rest);
}

/// Parsing a packet that was written gives back its header, extension, payload and padding. The
/// length field of an extension counts words in 16 bits, so longer extension data is left out.
pub proof fn law_rtp_round_trip(
    header: RtpHeader,
    extension: Option<(u16, Seq<u8>)>,
    payload: Seq<u8>,
    padding_len: u8,
)
    requires
        rtp_image_defect(&header, extension, padding_len) is None,
        extension matches Some((_, data)) ==> data.len() <= 4 * 0xffff,
    ensures
        ({
            let image = rtp_image(&header, extension, payload, padding_len);
            &&& rtp_defect(image) is None
            &&& header_matches(&header, image)
            &&& padding_size(image) == padding_len
            &&& image.subrange(header_end(image), image.len() - padding_size(image)) == payload
            &&& extension matches Some((profile, data)) ==> {
                &&& be16(image, csrc_end(image)) == profile
                &&& image.subrange(csrc_end(image) + 4, header_end(image)) == data
            }
        }),
{
    let image = rtp_image(&header, extension, payload, padding_len);
    let ext_image = extension_bytes_of(extension);
    let pad = Seq::new(padding_len as nat, |i: int| padding_len);
    let rest = ext_image + payload + pad;
    assert(image =~= fixed_header_bytes(&header) + words_bytes(header.csrc_list()) + rest);
    lemma_image_header(&header, rest);
    let at = csrc_end(image);
    let tail = payload + pad;
    assert(rest =~= ext_image + tail);
    if let Some((profile, data)) = extension {
        lemma_image_extension(image, profile, data, tail, at);
    } else {
        assert(ext_image + tail =~= tail);
    }
    let end = header_end(image);
    assert(image.skip(end) == tail);
    if padding_len > 0 {
        assert(image.last() == image.skip(end).last());
        assert(tail.last() == pad.last());
    }
    lemma_tail_front(image, end, payload, pad);
}

/// The extension of a packet stands behind the contributing sources.
proof fn lemma_image_extension(
    image: Seq<u8>,
    profile: u16,
    data: Seq<u8>,
    tail: Seq<u8>,
    at: int,
)
    requires
        0 <= at <= image.len(),
        image.skip(at) == extension_bytes_of(Some((profile, data))) + tail,
        data.len() % 4 == 0,
        data.len() <= 4 * 0xffff,
    ensures
        be16(image, at) == profile,
        4 * be16(image, at + 2) == data.len(),
        at + 4 + data.len() <= image.len(),
        image.subrange(at + 4, at + 4 + data.len()) == data,
        image.skip(at + 4 + data.len()) == tail,
{
    let ext = extension_bytes_of(Some((profile, data)));
    let rest = ext + tail;
    assert(ext.len() == 4 + data.len());
    assert(image.len() - at == rest.len());
    assert(forall|k: int| 0 <= k < rest.len() ==> #[trigger] rest[k] == image[at + k]) by {
        assert(forall|k: int| 0 <= k < rest.len() ==> image.skip(at)[k] == #[trigger] rest[k]);
    }
    assert(rest[0] == ext[0] && rest[1] == ext[1] && rest[2] == ext[2] && rest[3] == ext[3]);
    assert(be16(image, at) == be16(ext, 0));
    assert(be16(image, at + 2) == be16(ext, 2));
    assert(be16(ext, 2) == data.len() / 4);
    assert forall|k: int| 0 <= k < data.len() implies #[trigger] data[k] == image[at + 4 + k] by {
        assert(data[k] == rest[4 + k]);
    }
    assert(image.subrange(at + 4, at + 4 + data.len()) =~= data);
    assert forall|k: int| 0 <= k < tail.len() implies #[trigger] tail[k] == image[at + 4
        + data.len() + k] by {
        assert(tail[k] == rest[ext.len() + k]);
    }
    assert(image.skip(at + 4 + data.len()) =~= tail);
}

/// The front of a tail is a subrange.
proof fn lemma_tail_front(image: Seq<u8>, end: int, payload: Seq<u8>, pad: Seq<u8>)
    requires
        0 <= end <= image.len(),
        image.skip(end) == payload + pad,
    ensures
        image.subrange(end, image.len() - pad.len()) == payload,
{
    let tail = image.skip(end);
    assert(tail.len() == image.len() - end);
    assert(tail.len() == (payload + pad).len());
    assert forall|k: int| 0 <= k < payload.len() implies #[trigger] payload[k] == image[end + k] by {
        assert(tail[k] == (payload + pad)[k]);
        assert(tail[k] == image[end + k]);
    }
    assert(image.subrange(end, image.len() - pad.len()) =~= payload);
}

} // verus!
