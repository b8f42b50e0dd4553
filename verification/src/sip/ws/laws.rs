//! What frames mean byte by byte, and which messages they carry.
use vstd::prelude::*;

verus! {

use crate::buffer::{view_bytes, BufView};
use crate::sip::parse::request::request_of;
use crate::sip::parse::response::response_of;
use crate::sip::types::{MessageView, SipMessage};
use crate::sip::ws::frame_text_binary::{
    add_frame, add_frames, frame_image, frame_of, message_views, messages_of, no_frames,
    opcode_of, raw_frames, Assembly, FrameKind, FrameView, WsMessageView, WsSipError as FrameError,
};
use crate::sip::ws::{
    frame_message, frames_hold, sip_text_of, SipWebSocketFrame, WsFrameFormat, WsSipError,
};
use crate::text::{decimal, prefixed_hex, utf8_fault};
use crate::wire::be64;
use vstd::utf8::{decode_utf8, valid_utf8};

/// How long the header is up to the mask.
pub open spec fn header_without_mask(raw: Seq<u8>) -> int {
    if raw[1] as int % 128 == 126 {
        4
    } else if raw[1] as int % 128 == 127 {
        10
    } else {
        2
    }
}

/// How long the payload is said to be: in the second byte up to 125, else in two bytes, else in eight.
pub open spec fn said_length(raw: Seq<u8>) -> int {
    if raw[1] as int % 128 == 126 {
        raw[2] * 256 + raw[3]
    } else if raw[1] as int % 128 == 127 {
        raw[2] * 0x100_0000_0000_0000 + raw[3] * 0x1_0000_0000_0000 + raw[4] * 0x100_0000_0000 + raw[5]
            * 0x1_0000_0000 + raw[6] * 0x100_0000 + raw[7] * 0x1_0000 + raw[8] * 0x100 + raw[9]
    } else {
        raw[1] as int % 128
    }
}

/// A frame is read exactly if it has its header, with four more bytes where the bit of weight 128 in
/// the second byte says that it is masked, and behind that as many bytes as it says. The bit of weight
/// 128 in the first byte says that a message is complete, the four bits of lowest weight are the
/// opcode, and each byte of the payload is combined with the byte of the mask whose turn it is.
pub proof fn law_frames_are_read(raw: Seq<u8>)
    ensures
        ({
            let n = raw.len() as int;
            let lead = header_without_mask(raw);
            let masked = raw[1] >= 128;
            let end = lead + if masked {
                4int
            } else {
                0
            };
            &&& frame_of(raw) is Ok <==> {
                &&& n >= 2
                &&& n >= end
                &&& said_length(raw) <= usize::MAX
                &&& n - end == said_length(raw)
            }
            &&& frame_of(raw) matches Ok(frame) ==> {
                &&& frame.fin <==> raw[0] >= 128
                &&& frame.opcode as int == raw[0] as int % 16
                &&& frame.payload.len() == n - end
                &&& forall|i: int|
                    0 <= i < n - end ==> #[trigger] frame.payload[i] == if masked {
                        raw[end + i] ^ raw[lead + i % 4]
                    } else {
                        raw[end + i]
                    }
            }
        }),
{
    let masked = raw[1] >= 128;
    assert(raw[1] / 128 == 1 <==> masked);
    assert(raw[0] / 128 == 1 <==> raw[0] >= 128);
    if raw[1] as int % 128 == 127 {
        lemma_eight_bytes(raw);
    }
}

proof fn lemma_eight_bytes(raw: Seq<u8>)
    ensures
        be64(raw, 2) == raw[2] * 0x100_0000_0000_0000 + raw[3] * 0x1_0000_0000_0000 + raw[4]
            * 0x100_0000_0000 + raw[5] * 0x1_0000_0000 + raw[6] * 0x100_0000 + raw[7] * 0x1_0000
            + raw[8] * 0x100 + raw[9],
{
}

/// A frame that is written is complete, opcode one for text and two for binary data; its length
/// stands in one byte up to 125, in two behind 126 up to 65535, and in eight behind 127 beyond that;
/// then comes the payload, without a mask.
pub proof fn law_frames_are_written(kind: FrameKind, payload: Seq<u8>)
    requires
        payload.len() <= usize::MAX,
    ensures
        ({
            let raw = frame_image(kind, payload);
            let n = payload.len() as int;
            &&& kind == FrameKind::Text ==> raw[0] == 129
            &&& kind == FrameKind::Binary ==> raw[0] == 130
            &&& raw.len() == header_without_mask(raw) + n
            &&& raw.skip(header_without_mask(raw)) == payload
            &&& n <= 125 ==> raw[1] as int == n
            &&& 126 <= n <= 65535 ==> raw[1] == 126
            &&& n > 65535 ==> raw[1] == 127
            &&& said_length(raw) == n
        }),
{
    let raw = frame_image(kind, payload);
    let n = payload.len() as int;
    crate::sip::ws::frame_text_binary::law_frame_round_trip(kind, payload);
    law_frames_are_read(raw);
    assert(raw.skip(header_without_mask(raw)) =~= payload);
}

/// What frames do to messages. Opcode one begins a text and opcode two a binary message where none is
/// open; opcode zero continues the open one; eight, nine and ten are passed over if they are complete.
/// Everything else is refused, each for its reason.
pub proof fn law_frames_make_messages(a: Assembly, frame: FrameView)
    ensures
        ({
            let r = add_frame(a, frame);
            let bytes = a.partial + frame.payload;
            let op = frame.opcode;
            let open = a.kind is Some;
            &&& op == 0 && !open ==> r == Err::<Assembly, FrameError>(FrameError::UnexpectedContinuation)
            &&& (op == 1 || op == 2) && open ==> r == Err::<Assembly, FrameError>(FrameError::MessageInterleaving { opcode: op })
            &&& (op == 8 || op == 9 || op == 10) && frame.fin ==> r == Ok::<Assembly, FrameError>(a)
            &&& (op == 8 || op == 9 || op == 10) && !frame.fin ==> r == Err::<Assembly, FrameError>(FrameError::FragmentedControl { opcode: op })
            &&& (3 <= op <= 7 || op > 10) ==> r == Err::<Assembly, FrameError>(FrameError::UnsupportedOpcode { opcode: op })
            &&& (op == 0 && open) || ((op == 1 || op == 2) && !open) ==> {
                let kind = if op == 0 {
                    a.kind->0
                } else if op == 1 {
                    FrameKind::Text
                } else {
                    FrameKind::Binary
                };
                &&& !frame.fin ==> r == Ok::<Assembly, FrameError>(Assembly { kind: Some(kind), partial: bytes, messages: a.messages })
                &&& frame.fin && (kind == FrameKind::Binary || valid_utf8(bytes)) ==> r == Ok::<Assembly, FrameError>(
                    Assembly {
                        kind: None,
                        partial: Seq::empty(),
                        messages: a.messages.push(WsMessageView { kind, payload: bytes }),
                    },
                )
                &&& frame.fin && kind == FrameKind::Text && !valid_utf8(bytes) ==> r == Err::<Assembly, FrameError>(
                    FrameError::InvalidTextPayload(
                        utf8_fault(bytes),
                    ),
                )
            }
        }),
{
}

/// Frames are taken in one behind the other.
proof fn lemma_add_frames_concat(a: Assembly, first: Seq<Seq<u8>>, second: Seq<Seq<u8>>)
    ensures
        add_frames(a, first + second) == (match add_frames(a, first) {
            Ok(next) => add_frames(next, second),
            Err(e) => Err(e),
        }),
    decreases first.len(),
{
    if first.len() == 0 {
        assert(first + second =~= second);
    } else {
        assert((first + second).drop_first() =~= first.drop_first() + second);
        if let Ok(frame) = frame_of(first[0]) {
            if let Ok(next) = add_frame(a, frame) {
                lemma_add_frames_concat(next, first.drop_first(), second);
            }
        }
    }
}

/// Messages that are complete already stand in front of those that come.
proof fn lemma_earlier_messages(a: Assembly, frames: Seq<Seq<u8>>, before: Seq<WsMessageView>)
    ensures
        ({
            let b = Assembly { messages: before + a.messages, ..a };
            match add_frames(a, frames) {
                Ok(x) => add_frames(b, frames) == Ok::<Assembly, FrameError>(Assembly { messages: before + x.messages, ..x }),
                Err(e) => add_frames(b, frames) == Err::<Assembly, FrameError>(e),
            }
        }),
    decreases frames.len(),
{
    let b = Assembly { messages: before + a.messages, ..a };
    if frames.len() > 0 {
        if let Ok(frame) = frame_of(frames[0]) {
            if let Ok(next) = add_frame(a, frame) {
                lemma_earlier_messages(next, frames.drop_first(), before);
                let other = add_frame(b, frame)->Ok_0;
                assert(other.messages =~= before + next.messages);
            }
        }
    }
}

/// The messages of frames that follow complete ones follow the messages of those, in order.
pub proof fn law_messages_follow_each_other(first: Seq<Seq<u8>>, second: Seq<Seq<u8>>)
    requires
        messages_of(first) is Ok,
    ensures
        messages_of(Seq::empty()) == Ok::<Seq<WsMessageView>, FrameError>(Seq::empty()),
        match messages_of(second) {
            Ok(others) => messages_of(first + second) == Ok::<Seq<WsMessageView>, FrameError>(messages_of(first)->Ok_0 + others),
            Err(e) => messages_of(first + second) == Err::<Seq<WsMessageView>, FrameError>(e),
        },
{
    let a = add_frames(no_frames(), first)->Ok_0;
    lemma_add_frames_concat(no_frames(), first, second);
    lemma_earlier_messages(no_frames(), second, a.messages);
    assert(a.messages + no_frames().messages =~= a.messages);
    assert(a.partial =~= Seq::<u8>::empty());
    assert(a == (Assembly { messages: a.messages + no_frames().messages, ..no_frames() }));
}

/// The first frame that begins a message and leaves it open makes the end an error, unless a complete
/// continuation comes.
pub proof fn law_open_messages_dangle(kind: FrameKind, frame: Seq<u8>)
    requires
        frame_of(frame) matches Ok(f) && !f.fin && f.opcode == opcode_of(kind),
    ensures
        messages_of(seq![frame]) == Err::<Seq<WsMessageView>, FrameError>(FrameError::DanglingFragment),
        opcode_of(FrameKind::Text) == 1,
        opcode_of(FrameKind::Binary) == 2,
{
    reveal_with_fuel(add_frames, 2);
    assert(seq![frame].drop_first() =~= Seq::<Seq<u8>>::empty());
}

/// The raw frames and the messages of a list are those of its elements, one for one and in order.
pub proof fn law_lists_are_seen<V: BufView>(
    frames: Seq<&V>,
    messages: Seq<crate::sip::ws::frame_text_binary::SipMessage>,
)
    ensures
        raw_frames(frames).len() == frames.len(),
        forall|i: int|
            0 <= i < frames.len() ==> #[trigger] raw_frames(frames)[i] == view_bytes(frames[i]),
        message_views(messages).len() == messages.len(),
        forall|i: int|
            0 <= i < messages.len() ==> #[trigger] message_views(messages)[i] == messages[i]@,
{
}

/// A text is read as a request if it is one, else as a response if it is one, and else refused for
/// what is wrong with it as a request.
pub proof fn law_texts_are_messages(text: Seq<char>)
    ensures
        request_of(text) is Ok ==> sip_text_of(text) == request_of(text),
        request_of(text) is Err && response_of(text) is Ok ==> sip_text_of(text) == response_of(text),
        request_of(text) is Err && response_of(text) is Err ==> sip_text_of(text) == request_of(text),
{
}

/// A frame holds a message exactly if it is one chunk of text that is one; else it is refused for the
/// number of its chunks, for its bytes or for its text, with its position.
pub proof fn law_frames_hold_texts(chunks: Seq<Seq<u8>>, format: WsFrameFormat, index: usize)
    ensures
        ({
            let r = frame_message(chunks, format, index as int);
            &&& chunks.len() == 0 ==> r == Err::<MessageView, WsSipError>(
                WsSipError::EmptyPayload { index },
            )
            &&& 1 < chunks.len() <= usize::MAX ==> (r matches Err(WsSipError::FragmentedPayload {
                index: at,
                observed_chunks,
            }) && at == index && observed_chunks == chunks.len())
            &&& chunks.len() == 1 && !valid_utf8(chunks[0]) ==> r == Err::<MessageView, WsSipError>(
                WsSipError::Utf8 { index, format, source: utf8_fault(chunks[0]) },
            )
            &&& chunks.len() == 1 && valid_utf8(chunks[0]) ==> match sip_text_of(
                decode_utf8(chunks[0]),
            ) {
                Ok(message) => r == Ok::<MessageView, WsSipError>(message),
                Err(source) => r == Err::<MessageView, WsSipError>(
                    WsSipError::Parse { index, source },
                ),
            }
        }),
{
}

/// Each message comes from the frame at its own position.
pub proof fn law_each_frame_has_its_message<F: SipWebSocketFrame>(
    frames: Seq<F>,
    messages: Seq<SipMessage<'_>>,
    k: int,
)
    requires
        frames_hold(frames, messages),
        0 <= k < messages.len(),
    ensures
        k < frames.len(),
        frame_message(frames[k].chunks(), frames[k].format_of(), k) == Ok::<MessageView, WsSipError>(
            messages[k]@,
        ),
{
    assert(frames[k].chunks() == frames[k].chunks());
}

/// What the errors are called in words, with their numbers in this order.
pub proof fn law_errors_have_their_words(a: usize, b: usize, n: u8, long: u64)
    ensures
        (FrameError::FrameTooShort { actual: a }).text() == "WebSocket 帧长度不足，实际 "@ + decimal(
            a as int,
        ) + " 字节"@,
        (FrameError::IncompleteHeader { expected: a, actual: b }).text()
            == "WebSocket 帧头部不完整，期望 "@ + decimal(a as int) + " 字节但仅收到 "@ + decimal(
            b as int,
        ),
        (FrameError::PayloadLengthOverflow { declared: long }).text() == "payload 长度 "@ + decimal(
            long as int,
        ) + " 超出平台 usize 上限"@,
        (FrameError::PayloadLengthMismatch { expected: a, actual: b }).text()
            == "payload 长度不匹配，声明 "@ + decimal(a as int) + " 字节，实际收到 "@ + decimal(
            b as int,
        ),
        (FrameError::FragmentedControl { opcode: n }).text() == "控制帧 opcode="@ + prefixed_hex(n)
            + " 不允许分片"@,
        (FrameError::UnsupportedOpcode { opcode: n }).text() == "不支持的 WebSocket opcode="@
            + prefixed_hex(n),
        FrameError::UnexpectedContinuation.text() == "收到 continuation 帧但不存在待续消息"@,
        (FrameError::MessageInterleaving { opcode: n }).text()
            == "上一条消息尚未 FIN，却收到新的数据帧 opcode="@ + prefixed_hex(n),
        FrameError::DanglingFragment.text() == "输入结束时存在未完成的帧分片"@,
        (WsSipError::EmptyPayload { index: a }).text() == "frame #"@ + decimal(a as int)
            + " payload is empty, cannot build SIP message"@,
        (WsSipError::FragmentedPayload { index: a, observed_chunks: b }).text() == "frame #"@
            + decimal(a as int) + " is composed of "@ + decimal(b as int)
            + " chunks; zero-copy SIP mapping requires a single contiguous slice"@,
        WsFrameFormat::Text.name() == "text"@,
        WsFrameFormat::Binary.name() == "binary"@,
{
}

/// Text that is not UTF-8 becomes the error that carries the fault.
pub proof fn law_faults_are_carried(fault: core::str::Utf8Error)
    ensures
        <FrameError as vstd::std_specs::convert::FromSpec<core::str::Utf8Error>>::obeys_from_spec(),
        <FrameError as vstd::std_specs::convert::FromSpec<core::str::Utf8Error>>::from_spec(fault)
            == FrameError::InvalidTextPayload(fault),
{
}

} // verus!
