//! WebSocket frames on the wire and the SIP messages they carry.
use crate::buffer::{flatten_view, BufView};
use crate::text::{fault_text, push_decimal, push_hex, utf8_text};
use crate::wire::{push_be16, push_be64, read_be16, read_be64};
use vstd::prelude::*;
use vstd::string::*;

verus! {

use crate::buffer::view_bytes;
use crate::text::{decimal, prefixed_hex, utf8_fault, utf8_fault_text};
use crate::wire::{be16, be16_bytes, be64, be64_bytes, lemma_be16_round_trip, lemma_be64_round_trip};
use vstd::utf8::valid_utf8;

/// Opcode of a frame that continues a message.
pub const OPCODE_CONTINUATION: u8 = 0;

/// Opcode of a text frame.
pub const OPCODE_TEXT: u8 = 1;

/// Opcode of a binary frame.
pub const OPCODE_BINARY: u8 = 2;

/// Opcode of a close frame.
pub const OPCODE_CLOSE: u8 = 8;

/// Opcode of a ping frame.
pub const OPCODE_PING: u8 = 9;

/// Opcode of a pong frame.
pub const OPCODE_PONG: u8 = 10;

/// What kind of frames a message travels in.
#[derive(Debug, Clone, Copy, PartialEq, Eq, Structural)]
pub enum FrameKind {
    /// Text frames.
    Text,
    /// Binary frames.
    Binary,
}

/// A SIP message as it travels over a WebSocket.
#[derive(Debug, Clone, PartialEq, Eq)]
pub struct SipMessage {
    frame_kind: FrameKind,
    payload: Vec<u8>,
}

/// Kind and bytes of a message.
pub struct WsMessageView {
    /// What kind of frames the message travels in.
    pub kind: FrameKind,
    /// The bytes of the message.
    pub payload: Seq<u8>,
}

impl View for SipMessage {
    type V = WsMessageView;

    closed spec fn view(&self) -> WsMessageView {
        WsMessageView { kind: self.frame_kind, payload: self.payload@ }
    }
}

/// Why frames do not make up messages.
#[derive(Debug, PartialEq, Eq)]
pub enum WsSipError {
    /// A frame without the two bytes that every header begins with.
    FrameTooShort {
        /// Length of the frame.
        actual: usize,
    },
    /// A frame whose header is cut short.
    IncompleteHeader {
        /// Length that the header needs.
        expected: usize,
        /// Length of the frame.
        actual: usize,
    },
    /// A payload length beyond what this machine can hold.
    PayloadLengthOverflow {
        /// The declared length.
        declared: u64,
    },
    /// A payload that is not as long as declared.
    PayloadLengthMismatch {
        /// The declared length.
        expected: usize,
        /// The length that is there.
        actual: usize,
    },
    /// A control frame that is not whole.
    FragmentedControl {
        /// Its opcode.
        opcode: u8,
    },
    /// An opcode without a meaning.
    UnsupportedOpcode {
        /// The opcode.
        opcode: u8,
    },
    /// A continuation without a message to continue.
    UnexpectedContinuation,
    /// A new message before the last one is complete.
    MessageInterleaving {
        /// Opcode of the new message.
        opcode: u8,
    },
    /// A message that never becomes complete.
    DanglingFragment,
    /// A text message that is not UTF-8.
    InvalidTextPayload(core::str::Utf8Error),
}

impl WsSipError {
    /// What the error means, in words.
    pub open spec fn text(&self) -> Seq<char> {
        match self {
            WsSipError::FrameTooShort { actual } => "WebSocket 帧长度不足，实际 "@ + decimal(
                *actual as int,
            ) + " 字节"@,
            WsSipError::IncompleteHeader { expected, actual } =>
                "WebSocket 帧头部不完整，期望 "@ + decimal(*expected as int) + " 字节但仅收到 "@
                    + decimal(*actual as int),
            WsSipError::PayloadLengthOverflow { declared } => "payload 长度 "@ + decimal(
                *declared as int,
            ) + " 超出平台 usize 上限"@,
            WsSipError::PayloadLengthMismatch { expected, actual } =>
                "payload 长度不匹配，声明 "@ + decimal(*expected as int) + " 字节，实际收到 "@
                    + decimal(*actual as int),
            WsSipError::FragmentedControl { opcode } => "控制帧 opcode="@ + prefixed_hex(*opcode)
                + " 不允许分片"@,
            WsSipError::UnsupportedOpcode { opcode } => "不支持的 WebSocket opcode="@
                + prefixed_hex(*opcode),
            WsSipError::UnexpectedContinuation => "收到 continuation 帧但不存在待续消息"@,
            WsSipError::MessageInterleaving { opcode } =>
                "上一条消息尚未 FIN，却收到新的数据帧 opcode="@ + prefixed_hex(*opcode),
            WsSipError::DanglingFragment => "输入结束时存在未完成的帧分片"@,
            WsSipError::InvalidTextPayload(fault) => "文本帧 payload 不是合法 UTF-8："@
                + utf8_fault_text(*fault),
        }
    }

    /// What the error means, in words.
    pub fn message(&self) -> (r: String)
        ensures
            r@ == self.text(),
    {
        let mut out = String::new();
        match self {
            WsSipError::FrameTooShort { actual } => {
                out.append("WebSocket 帧长度不足，实际 ");
                push_decimal(&mut out, *actual as u64);
                out.append(" 字节");
            },
            WsSipError::IncompleteHeader { expected, actual } => {
                out.append("WebSocket 帧头部不完整，期望 ");
                push_decimal(&mut out, *expected as u64);
                out.append(" 字节但仅收到 ");
                push_decimal(&mut out, *actual as u64);
            },
            WsSipError::PayloadLengthOverflow { declared } => {
                out.append("payload 长度 ");
                push_decimal(&mut out, *declared);
                out.append(" 超出平台 usize 上限");
            },
            WsSipError::PayloadLengthMismatch { expected, actual } => {
                out.append("payload 长度不匹配，声明 ");
                push_decimal(&mut out, *expected as u64);
                out.append(" 字节，实际收到 ");
                push_decimal(&mut out, *actual as u64);
            },
            WsSipError::FragmentedControl { opcode } => {
                out.append("控制帧 opcode=");
                push_hex(&mut out, *opcode);
                out.append(" 不允许分片");
            },
            WsSipError::UnsupportedOpcode { opcode } => {
                out.append("不支持的 WebSocket opcode=");
                push_hex(&mut out, *opcode);
            },
            WsSipError::UnexpectedContinuation => {
                out.append("收到 continuation 帧但不存在待续消息");
            },
            WsSipError::MessageInterleaving { opcode } => {
                out.append("上一条消息尚未 FIN，却收到新的数据帧 opcode=");
                push_hex(&mut out, *opcode);
            },
            WsSipError::DanglingFragment => {
                out.append("输入结束时存在未完成的帧分片");
            },
            WsSipError::InvalidTextPayload(fault) => {
                out.append("文本帧 payload 不是合法 UTF-8：");
                let words = fault_text(fault);
                out.append(words.as_str());
            },
        }
        assert(out@ =~= self.text());
        out
    }
}

impl Clone for WsSipError {
    fn clone(&self) -> (r: Self)
        ensures
            r == *self,
    {
        match self {
            WsSipError::FrameTooShort { actual } => WsSipError::FrameTooShort { actual: *actual },
            WsSipError::IncompleteHeader { expected, actual } => WsSipError::IncompleteHeader {
                expected: *expected,
                actual: *actual,
            },
            WsSipError::PayloadLengthOverflow { declared } => WsSipError::PayloadLengthOverflow {
                declared: *declared,
            },
            WsSipError::PayloadLengthMismatch { expected, actual } => {
                WsSipError::PayloadLengthMismatch { expected: *expected, actual: *actual }
            },
            WsSipError::FragmentedControl { opcode } => WsSipError::FragmentedControl {
                opcode: *opcode,
            },
            WsSipError::UnsupportedOpcode { opcode } => WsSipError::UnsupportedOpcode {
                opcode: *opcode,
            },
            WsSipError::UnexpectedContinuation => WsSipError::UnexpectedContinuation,
            WsSipError::MessageInterleaving { opcode } => WsSipError::MessageInterleaving {
                opcode: *opcode,
            },
            WsSipError::DanglingFragment => WsSipError::DanglingFragment,
            WsSipError::InvalidTextPayload(fault) => WsSipError::InvalidTextPayload(*fault),
        }
    }
}

impl From<core::str::Utf8Error> for WsSipError {
    fn from(value: core::str::Utf8Error) -> (r: Self) {
        WsSipError::InvalidTextPayload(value)
    }
}

impl vstd::std_specs::convert::FromSpecImpl<core::str::Utf8Error> for WsSipError {
    open spec fn obeys_from_spec() -> bool {
        true
    }

    open spec fn from_spec(value: core::str::Utf8Error) -> Self {
        WsSipError::InvalidTextPayload(value)
    }
}

/// The message that a kind and bytes make up. Text has to be UTF-8.
pub open spec fn message_of(kind: FrameKind, payload: Seq<u8>) -> Result<WsMessageView, WsSipError> {
    match kind {
        FrameKind::Text => if valid_utf8(payload) {
            Ok(WsMessageView { kind, payload })
        } else {
            Err(WsSipError::InvalidTextPayload(utf8_fault(payload)))
        },
        FrameKind::Binary => Ok(WsMessageView { kind, payload }),
    }
}

impl SipMessage {
    /// A message that travels as text; the bytes must be UTF-8.
    pub fn text(payload: Vec<u8>) -> (r: Result<Self, WsSipError>)
        ensures
            match r {
                Ok(message) => message_of(FrameKind::Text, payload@) == Ok::<
                    WsMessageView,
                    WsSipError,
                >(message@),
                Err(e) => message_of(FrameKind::Text, payload@) == Err::<
                    WsMessageView,
                    WsSipError,
                >(e),
            },
    {
        match utf8_text(payload.as_slice()) {
            Ok(_) => {},
            Err(e) => {
                return Err(WsSipError::InvalidTextPayload(e));
            },
        }
        Ok(SipMessage { frame_kind: FrameKind::Text, payload })
    }

    /// A message that travels as binary data.
    pub fn binary(payload: Vec<u8>) -> (r: Self)
        ensures
            r@ == (WsMessageView { kind: FrameKind::Binary, payload: payload@ }),
    {
        SipMessage { frame_kind: FrameKind::Binary, payload }
    }

    /// The bytes of the message.
    pub fn payload(&self) -> (r: &[u8])
        ensures
            r@ == self@.payload,
    {
        self.payload.as_slice()
    }

    /// What kind of frames the message travels in.
    pub fn frame_kind(&self) -> (r: FrameKind)
        ensures
            r == self@.kind,
    {
        self.frame_kind
    }
}

/// A frame without its header.
struct Frame {
    fin: bool,
    opcode: u8,
    payload: Vec<u8>,
}

/// The contents of a frame.
pub struct FrameView {
    /// Whether the frame completes a message.
    pub fin: bool,
    /// The opcode.
    pub opcode: u8,
    /// The payload, unmasked.
    pub payload: Seq<u8>,
}

impl Frame {
    spec fn view(&self) -> FrameView {
        FrameView { fin: self.fin, opcode: self.opcode, payload: self.payload@ }
    }
}

/// Length of the header up to the mask: two bytes, then an extended length of two or eight bytes
/// where the short length is 126 or 127.
pub open spec fn length_end(raw: Seq<u8>) -> int {
    let short = raw[1] % 128;
    if short == 126 {
        4
    } else if short == 127 {
        10
    } else {
        2
    }
}

/// The declared length of the payload.
pub open spec fn declared_len(raw: Seq<u8>) -> int {
    let short = raw[1] % 128;
    if short == 126 {
        be16(raw, 2)
    } else if short == 127 {
        be64(raw, 2)
    } else {
        short as int
    }
}

/// Whether the payload is masked.
pub open spec fn is_masked(raw: Seq<u8>) -> bool {
    raw[1] / 128 == 1
}

/// Length of the whole header.
pub open spec fn ws_header_end(raw: Seq<u8>) -> int {
    length_end(raw) + if is_masked(raw) {
        4int
    } else {
        0
    }
}

/// Bytes combined with a key that is repeated as often as needed.
pub open spec fn masked_with(payload: Seq<u8>, key: Seq<u8>) -> Seq<u8> {
    Seq::new(payload.len(), |i: int| payload[i] ^ key[i % 4])
}

/// The frame that bytes denote, or why they denote none.
pub open spec fn frame_of(raw: Seq<u8>) -> Result<FrameView, WsSipError> {
    if raw.len() < 2 {
        Err(WsSipError::FrameTooShort { actual: raw.len() as usize })
    } else if raw.len() < length_end(raw) {
        Err(
            WsSipError::IncompleteHeader {
                expected: length_end(raw) as usize,
                actual: raw.len() as usize,
            },
        )
    } else if raw.len() < ws_header_end(raw) {
        Err(
            WsSipError::IncompleteHeader {
                expected: ws_header_end(raw) as usize,
                actual: raw.len() as usize,
            },
        )
    } else if declared_len(raw) > usize::MAX {
        Err(WsSipError::PayloadLengthOverflow { declared: declared_len(raw) as u64 })
    } else if raw.len() - ws_header_end(raw) != declared_len(raw) {
        Err(
            WsSipError::PayloadLengthMismatch {
                expected: declared_len(raw) as usize,
                actual: (raw.len() - ws_header_end(raw)) as usize,
            },
        )
    } else {
        let body = raw.skip(ws_header_end(raw));
        Ok(
            FrameView {
                fin: raw[0] / 128 == 1,
                opcode: raw[0] % 16,
                payload: if is_masked(raw) {
                    masked_with(body, raw.subrange(length_end(raw), length_end(raw) + 4))
                } else {
                    body
                },
            },
        )
    }
}

/// Removes a mask from bytes.
fn unmask(body: &[u8], key: &[u8]) -> (r: Vec<u8>)
    requires
        key@.len() == 4,
    ensures
        r@ == masked_with(body@, key@),
{
    let mut out: Vec<u8> = Vec::new();
    let mut i: usize = 0;
    while i < body.len()
        invariant
            i <= body@.len(),
            key@.len() == 4,
            out@ == masked_with(body@, key@).take(i as int),
        decreases body@.len() - i,
    {
        out.push(body[i] ^ key[i % 4]);
        assert(out@ =~= masked_with(body@, key@).take(i + 1));
        i += 1;
    }
    assert(out@ =~= masked_with(body@, key@));
    out
}

/// Parses one frame.
fn parse_frame<V: BufView>(view: &V) -> (r: Result<Frame, WsSipError>)
    ensures
        match r {
            Ok(frame) => frame_of(view_bytes(view)) == Ok::<FrameView, WsSipError>(frame.view()),
            Err(e) => frame_of(view_bytes(view)) == Err::<FrameView, WsSipError>(e),
        },
{
    let flat = flatten_view(view);
    let raw: &[u8] = flat.as_slice();
    let n: usize = raw.len();
    if n < 2 {
        return Err(WsSipError::FrameTooShort { actual: n });
    }
    let fin: bool = raw[0] / 128 == 1;
    let opcode: u8 = raw[0] % 16;
    let masked: bool = raw[1] / 128 == 1;
    let short: u8 = raw[1] % 128;
    let mut payload_len: u64 = short as u64;
    let mut offset: usize = 2;
    if short == 126 {
        if n < 4 {
            return Err(WsSipError::IncompleteHeader { expected: 4, actual: n });
        }
        payload_len = read_be16(raw, 2) as u64;
        offset = 4;
    } else if short == 127 {
        if n < 10 {
            return Err(WsSipError::IncompleteHeader { expected: 10, actual: n });
        }
        payload_len = read_be64(raw, 2);
        offset = 10;
    }
    if masked {
        if n < offset + 4 {
            return Err(WsSipError::IncompleteHeader { expected: offset + 4, actual: n });
        }
        offset = offset + 4;
    }
    if payload_len > usize::MAX as u64 {
        return Err(WsSipError::PayloadLengthOverflow { declared: payload_len });
    }
    let expected: usize = payload_len as usize;
    if n - offset != expected {
        return Err(WsSipError::PayloadLengthMismatch { expected, actual: n - offset });
    }
    let body = &raw[offset..n];
    assert(body@ =~= raw@.skip(offset as int));
    let payload: Vec<u8> = if masked {
        let key = &raw[offset - 4..offset];
        unmask(body, key)
    } else {
        let mut copy: Vec<u8> = Vec::new();
        copy.extend_from_slice(body);
        assert(copy@ =~= body@);
        copy
    };
    Ok(Frame { fin, opcode, payload })
}

/// What the frames read so far amount to.
pub struct Assembly {
    /// Kind of the message that is not yet complete.
    pub kind: Option<FrameKind>,
    /// What is there of that message.
    pub partial: Seq<u8>,
    /// Complete messages, in order.
    pub messages: Seq<WsMessageView>,
}

/// Nothing read.
pub open spec fn no_frames() -> Assembly {
    Assembly { kind: None, partial: Seq::empty(), messages: Seq::empty() }
}

/// More bytes of a message arrive; the last frame completes it.
pub open spec fn extend_message(
    a: Assembly,
    kind: FrameKind,
    payload: Seq<u8>,
    fin: bool,
) -> Result<Assembly, WsSipError> {
    let all = a.partial + payload;
    if fin {
        match message_of(kind, all) {
            Ok(message) => Ok(
                Assembly {
                    kind: None,
                    partial: Seq::empty(),
                    messages: a.messages.push(message),
                },
            ),
            Err(e) => Err(e),
        }
    } else {
        Ok(Assembly { kind: Some(kind), partial: all, messages: a.messages })
    }
}

/// What one more frame does. Whole control frames are passed over.
pub open spec fn add_frame(a: Assembly, frame: FrameView) -> Result<Assembly, WsSipError> {
    let opcode = frame.opcode;
    if opcode == 0 {
        match a.kind {
            Some(kind) => extend_message(a, kind, frame.payload, frame.fin),
            None => Err(WsSipError::UnexpectedContinuation),
        }
    } else if opcode == 1 || opcode == 2 {
        if a.kind is Some {
            Err(WsSipError::MessageInterleaving { opcode })
        } else {
            let kind = if opcode == 1 {
                FrameKind::Text
            } else {
                FrameKind::Binary
            };
            extend_message(a, kind, frame.payload, frame.fin)
        }
    } else if opcode == 8 || opcode == 9 || opcode == 10 {
        if frame.fin {
            Ok(a)
        } else {
            Err(WsSipError::FragmentedControl { opcode })
        }
    } else {
        Err(WsSipError::UnsupportedOpcode { opcode })
    }
}

/// What a list of raw frames amounts to, or the first error.
pub open spec fn add_frames(a: Assembly, frames: Seq<Seq<u8>>) -> Result<Assembly, WsSipError>
    decreases frames.len(),
{
    if frames.len() == 0 {
        Ok(a)
    } else {
        match frame_of(frames[0]) {
            Ok(frame) => match add_frame(a, frame) {
                Ok(next) => add_frames(next, frames.drop_first()),
                Err(e) => Err(e),
            },
            Err(e) => Err(e),
        }
    }
}

/// The messages that raw frames carry. A message that is not complete at the end is an error.
pub open spec fn messages_of(frames: Seq<Seq<u8>>) -> Result<Seq<WsMessageView>, WsSipError> {
    match add_frames(no_frames(), frames) {
        Ok(a) => if a.kind is Some || a.partial.len() > 0 {
            Err(WsSipError::DanglingFragment)
        } else {
            Ok(a.messages)
        },
        Err(e) => Err(e),
    }
}

/// The raw frames that a list of views holds.
pub open spec fn raw_frames<V: BufView>(frames: Seq<&V>) -> Seq<Seq<u8>> {
    Seq::new(frames.len(), |i: int| view_bytes(frames[i]))
}

/// The contents of a list of messages.
pub open spec fn message_views(list: Seq<SipMessage>) -> Seq<WsMessageView> {
    Seq::new(list.len(), |i: int| list[i]@)
}

/// Builds a message of the given kind.
fn build_message(kind: FrameKind, payload: Vec<u8>) -> (r: Result<SipMessage, WsSipError>)
    ensures
        match r {
            Ok(message) => message_of(kind, payload@) == Ok::<WsMessageView, WsSipError>(message@),
            Err(e) => message_of(kind, payload@) == Err::<WsMessageView, WsSipError>(e),
        },
{
    match kind {
        FrameKind::Text => SipMessage::text(payload),
        FrameKind::Binary => Ok(SipMessage::binary(payload)),
    }
}

/// Puts the messages together that a list of frames carries.
pub fn ws_to_sip<V: BufView>(frames: &[&V]) -> (r: Result<Vec<SipMessage>, WsSipError>)
    ensures
        match r {
            Ok(messages) => messages_of(raw_frames(frames@)) == Ok::<
                Seq<WsMessageView>,
                WsSipError,
            >(message_views(messages@)),
            Err(e) => messages_of(raw_frames(frames@)) == Err::<Seq<WsMessageView>, WsSipError>(e),
        },
{
    let ghost all = raw_frames(frames@);
    let mut messages: Vec<SipMessage> = Vec::new();
    let mut assembling: Vec<u8> = Vec::new();
    let mut current_kind: Option<FrameKind> = None;
    let mut i: usize = 0;
    proof {
        assert(all.skip(0) =~= all);
        assert(assembling@ =~= Seq::<u8>::empty());
        assert(message_views(messages@) =~= Seq::<WsMessageView>::empty());
    }
    while i < frames.len()
        invariant
            i <= frames@.len(),
            all == raw_frames(frames@),
            add_frames(no_frames(), all) == add_frames(
                Assembly {
                    kind: current_kind,
                    partial: assembling@,
                    messages: message_views(messages@),
                },
                all.skip(i as int),
            ),
        decreases frames@.len() - i,
    {
        let view = frames[i];
        proof {
            assert(all.skip(i as int)[0] == view_bytes(view));
            assert(all.skip(i as int).drop_first() =~= all.skip(i + 1));
        }
        let frame = match parse_frame(view) {
            Ok(frame) => frame,
            Err(e) => {
                return Err(e);
            },
        };
        let opcode: u8 = frame.opcode;
        let mut target: Option<FrameKind> = None;
        if opcode == OPCODE_CONTINUATION {
            match current_kind {
                Some(kind) => {
                    target = Some(kind);
                },
                None => {
                    return Err(WsSipError::UnexpectedContinuation);
                },
            }
        } else if opcode == OPCODE_TEXT || opcode == OPCODE_BINARY {
            if current_kind.is_some() {
                return Err(WsSipError::MessageInterleaving { opcode });
            }
            target = Some(
                if opcode == OPCODE_TEXT {
                    FrameKind::Text
                } else {
                    FrameKind::Binary
                },
            );
        } else if opcode == OPCODE_CLOSE || opcode == OPCODE_PING || opcode == OPCODE_PONG {
            if !frame.fin {
                return Err(WsSipError::FragmentedControl { opcode });
            }
        } else {
            return Err(WsSipError::UnsupportedOpcode { opcode });
        }
        if let Some(kind) = target {
            let ghost partial = assembling@;
            assembling.extend_from_slice(frame.payload.as_slice());
            assert(assembling@ =~= partial + frame.payload@);
            current_kind = Some(kind);
            if frame.fin {
                let ghost so_far = message_views(messages@);
                match build_message(kind, assembling) {
                    Ok(message) => {
                        messages.push(message);
                        assert(message_views(messages@) =~= so_far.push(message@));
                    },
                    Err(e) => {
                        return Err(e);
                    },
                }
                assembling = Vec::new();
                assert(assembling@ =~= Seq::<u8>::empty());
                current_kind = None;
            }
        }
        i += 1;
    }
    assert(all.skip(i as int).len() == 0);
    if current_kind.is_some() || assembling.len() > 0 {
        return Err(WsSipError::DanglingFragment);
    }
    Ok(messages)
}

/// The length field of a header without a mask.
pub open spec fn length_bytes(len: int) -> Seq<u8> {
    if len <= 125 {
        seq![len as u8]
    } else if len <= 0xffff {
        seq![126u8] + be16_bytes(len as u16)
    } else {
        seq![127u8] + be64_bytes(len as u64)
    }
}

/// The opcode of the first frame of a message.
pub open spec fn opcode_of(kind: FrameKind) -> u8 {
    match kind {
        FrameKind::Text => 1,
        FrameKind::Binary => 2,
    }
}

/// A whole message in one frame without a mask.
pub open spec fn frame_image(kind: FrameKind, payload: Seq<u8>) -> Seq<u8> {
    seq![(128 + opcode_of(kind)) as u8] + length_bytes(payload.len() as int) + payload
}

/// Writes the length field of a header.
fn encode_length(len: usize, out: &mut Vec<u8>)
    ensures
        final(out)@ == old(out)@ + length_bytes(len as int),
{
    let ghost before = out@;
    if len <= 125 {
        out.push(len as u8);
    } else if len <= 0xffff {
        out.push(126);
        push_be16(out, len as u16);
    } else {
        out.push(127);
        push_be64(out, len as u64);
    }
    assert(out@ =~= before + length_bytes(len as int));
}

/// Appends a frame that carries the whole message, without a mask.
pub fn sip_to_ws(message: &SipMessage, out_frames: &mut Vec<Vec<u8>>)
    ensures
        final(out_frames)@.len() == old(out_frames)@.len() + 1,
        final(out_frames)@.drop_last() == old(out_frames)@,
        final(out_frames)@.last()@ == frame_image(message@.kind, message@.payload),
{
    let opcode: u8 = match message.frame_kind {
        FrameKind::Text => OPCODE_TEXT,
        FrameKind::Binary => OPCODE_BINARY,
    };
    let payload = message.payload();
    let mut frame: Vec<u8> = Vec::new();
    frame.push(128 + opcode);
    encode_length(payload.len(), &mut frame);
    frame.extend_from_slice(payload);
    assert(frame@ =~= frame_image(message@.kind, message@.payload));
    out_frames.push(frame);
    assert(out_frames@.drop_last() =~= old(out_frames)@);
}

/// What a client sends: one frame of a message, masked with a key.
pub open spec fn client_frame_image(
    fin: bool,
    opcode: u8,
    payload: Seq<u8>,
    key: Seq<u8>,
) -> Seq<u8> {
    let lead = (if fin {
        128int
    } else {
        0
    }) + opcode;
    let length = length_bytes(payload.len() as int);
    seq![lead as u8, (128 + length[0]) as u8] + length.skip(1) + key + masked_with(payload, key)
}

/// Masking twice with the same key gives the bytes back.
pub proof fn law_mask_is_an_involution(payload: Seq<u8>, key: Seq<u8>)
    requires
        key.len() == 4,
    ensures
        masked_with(masked_with(payload, key), key) == payload,
{
    let once = masked_with(payload, key);
    assert forall|i: int| 0 <= i < payload.len() implies #[trigger] masked_with(once, key)[i]
        == payload[i] by {
        let a = payload[i];
        let k = key[i % 4];
        assert((a ^ k) ^ k == a) by (bit_vector);
    }
    assert(masked_with(once, key) =~= payload);
}

proof fn lemma_length_bytes(len: int)
    requires
        0 <= len <= usize::MAX,
    ensures
        ({
            let b = length_bytes(len);
            &&& b.len() >= 1
            &&& b[0] <= 127
            &&& b.len() == (if b[0] == 126 {
                3int
            } else if b[0] == 127 {
                9int
            } else {
                1int
            })
            &&& b[0] < 126 ==> b[0] == len
            &&& b[0] == 126 ==> be16(b, 1) == len
            &&& b[0] == 127 ==> be64(b, 1) == len
        }),
{
    if len > 125 && len <= 0xffff {
        lemma_be16_round_trip(len as u16);
        assert(be16(length_bytes(len), 1) == be16(be16_bytes(len as u16), 0));
    } else if len > 0xffff {
        lemma_be64_round_trip(len as u64);
        let b = length_bytes(len);
        let c = be64_bytes(len as u64);
        assert(forall|i: int| 0 <= i < 8 ==> b[i + 1] == #[trigger] c[i]);
        assert(be64(b, 1) == be64(c, 0));
    }
}

/// A written frame is read back as the whole message it was written for.
pub proof fn law_frame_round_trip(kind: FrameKind, payload: Seq<u8>)
    requires
        payload.len() <= usize::MAX,
    ensures
        frame_of(frame_image(kind, payload)) == Ok::<FrameView, WsSipError>(
            FrameView { fin: true, opcode: opcode_of(kind), payload },
        ),
{
    let len = payload.len() as int;
    let b = length_bytes(len);
    let raw = frame_image(kind, payload);
    lemma_length_bytes(len);
    assert(raw[0] == 128 + opcode_of(kind));
    assert(forall|i: int| 0 <= i < b.len() ==> raw[i + 1] == #[trigger] b[i]);
    assert(raw[1] == b[0]);
    assert(length_end(raw) == 1 + b.len());
    if b[0] == 126 {
        assert(be16(raw, 2) == be16(b, 1)) by {
            assert(raw[2] == b[1] && raw[3] == b[2]);
        }
    } else if b[0] == 127 {
        assert(be64(raw, 2) == be64(b, 1)) by {
            assert(raw[2] == b[1] && raw[3] == b[2] && raw[4] == b[3] && raw[5] == b[4]);
            assert(raw[6] == b[5] && raw[7] == b[6] && raw[8] == b[7] && raw[9] == b[8]);
        }
    }
    assert(raw.skip(ws_header_end(raw)) =~= payload);
}

/// A masked frame of a client is read back with its payload in the clear.
pub proof fn law_client_frame_round_trip(fin: bool, opcode: u8, payload: Seq<u8>, key: Seq<u8>)
    requires
        payload.len() <= usize::MAX,
        opcode < 16,
        key.len() == 4,
    ensures
        frame_of(client_frame_image(fin, opcode, payload, key)) == Ok::<FrameView, WsSipError>(
            FrameView { fin, opcode, payload },
        ),
{
    let len = payload.len() as int;
    let b = length_bytes(len);
    let raw = client_frame_image(fin, opcode, payload, key);
    let hidden = masked_with(payload, key);
    lemma_length_bytes(len);
    assert(raw[1] == 128 + b[0]);
    assert(forall|i: int| 1 <= i < b.len() ==> raw[i + 1] == #[trigger] b[i]);
    assert(raw[1] % 128 == b[0]);
    assert(raw[1] / 128 == 1);
    assert(raw[0] / 128 == 1 <==> fin);
    assert(raw[0] % 16 == opcode);
    assert(length_end(raw) == 1 + b.len());
    if b[0] == 126 {
        assert(be16(raw, 2) == be16(b, 1)) by {
            assert(raw[2] == b[1] && raw[3] == b[2]);
        }
    } else if b[0] == 127 {
        assert(be64(raw, 2) == be64(b, 1)) by {
            assert(raw[2] == b[1] && raw[3] == b[2] && raw[4] == b[3] && raw[5] == b[4]);
            assert(raw[6] == b[5] && raw[7] == b[6] && raw[8] == b[7] && raw[9] == b[8]);
        }
    }
    assert(raw.skip(ws_header_end(raw)) =~= hidden);
    assert(raw.subrange(length_end(raw), length_end(raw) + 4) =~= key);
    law_mask_is_an_involution(payload, key);
}

/// A message that is written as a frame and read again is the same message.
pub proof fn law_message_round_trip(kind: FrameKind, payload: Seq<u8>)
    requires
        payload.len() <= usize::MAX,
        kind is Text ==> valid_utf8(payload),
    ensures
        messages_of(seq![frame_image(kind, payload)]) == Ok::<Seq<WsMessageView>, WsSipError>(
            seq![WsMessageView { kind, payload }],
        ),
{
    law_frame_round_trip(kind, payload);
    let frames = seq![frame_image(kind, payload)];
    reveal_with_fuel(add_frames, 2);
    assert(frames.drop_first() =~= Seq::<Seq<u8>>::empty());
    assert(Seq::<u8>::empty() + payload =~= payload);
    assert(Seq::<WsMessageView>::empty().push(WsMessageView { kind, payload }) =~= seq![
        WsMessageView { kind, payload },
    ]);
}

/// How a message is cut into frames makes no difference: two frames amount to one with both
/// payloads, and a whole control frame between them changes nothing.
pub proof fn law_fragments_join(
    a: Assembly,
    kind: FrameKind,
    first: Seq<u8>,
    second: Seq<u8>,
    fin: bool,
    control: FrameView,
)
    requires
        a.kind is None,
        a.partial.len() == 0,
        control.opcode == 8 || control.opcode == 9 || control.opcode == 10,
        control.fin,
    ensures
        ({
            let head = FrameView { fin: false, opcode: opcode_of(kind), payload: first };
            let tail = FrameView { fin, opcode: 0, payload: second };
            let whole = FrameView { fin, opcode: opcode_of(kind), payload: first + second };
            add_frame(a, head) matches Ok(mid) && {
                &&& add_frame(mid, control) == Ok::<Assembly, WsSipError>(mid)
                &&& add_frame(mid, tail) == add_frame(a, whole)
            }
        }),
{
    assert(a.partial + first =~= first);
    assert(a.partial + (first + second) =~= first + second);
}

} // verus!
