//! SIP over WebSocket: frames whose payload is one whole message.
pub mod frame_text_binary;
pub mod laws;

use crate::buffer::{BufView, Chunks};
use crate::sip::error::{SipFormatError, SipParseError};
use crate::sip::fmt::write_message;
use crate::sip::parse::request::parse_request;
use crate::sip::parse::response::parse_response;
use crate::sip::types::SipMessage;
use crate::text::{push_decimal, utf8_text};
use vstd::prelude::*;
use vstd::string::*;

verus! {

use crate::buffer::lemma_concat_single;
use crate::sip::fmt::{head_text, start_line_text};
use crate::sip::parse::request::{request_of, result_means};
use crate::sip::parse::response::response_of;
use crate::sip::types::MessageView;
use crate::text::{decimal, lemma_text_of_bytes, utf8_fault};
use vstd::utf8::{decode_utf8, encode_utf8, valid_utf8};

/// How the payload of a frame is marked.
#[derive(Debug, Clone, Copy, PartialEq, Eq, Structural)]
pub enum WsFrameFormat {
    /// A text frame.
    Text,
    /// A binary frame.
    Binary,
}

impl WsFrameFormat {
    /// The name of the format.
    pub open spec fn name(&self) -> Seq<char> {
        match self {
            WsFrameFormat::Text => "text"@,
            WsFrameFormat::Binary => "binary"@,
        }
    }

    /// The name of the format.
    pub fn as_str(&self) -> (r: &'static str)
        ensures
            r@ == self.name(),
    {
        match self {
            WsFrameFormat::Text => "text",
            WsFrameFormat::Binary => "binary",
        }
    }
}

/// A frame: bytes and their format.
pub trait SipWebSocketFrame: BufView {
    /// The format of the frame.
    spec fn format_of(&self) -> WsFrameFormat;

    /// The format of the frame.
    fn frame_format(&self) -> (r: WsFrameFormat)
        ensures
            r == self.format_of(),
    ;
}

/// A frame that borrows its payload.
pub struct WsFrameRef<'a, B: BufView> {
    format: WsFrameFormat,
    payload: &'a B,
}

impl<'a, B: BufView> WsFrameRef<'a, B> {
    /// The borrowed payload.
    pub closed spec fn source(&self) -> B {
        *self.payload
    }

    /// The format of the frame.
    pub closed spec fn tag(&self) -> WsFrameFormat {
        self.format
    }

    /// A frame of this format around a payload.
    pub fn new(format: WsFrameFormat, payload: &'a B) -> (r: Self)
        ensures
            r.tag() == format,
            r.source() == *payload,
    {
        WsFrameRef { format, payload }
    }

    /// The format of the frame.
    pub fn format(&self) -> (r: WsFrameFormat)
        ensures
            r == self.tag(),
    {
        self.format
    }

    /// The payload.
    pub fn payload(&self) -> (r: &'a B)
        ensures
            *r == self.source(),
    {
        self.payload
    }
}

impl<'a, B: BufView> BufView for WsFrameRef<'a, B> {
    open spec fn chunks(&self) -> Seq<Seq<u8>> {
        self.source().chunks()
    }

    fn as_chunks(&self) -> (r: Chunks<'_>) {
        self.payload.as_chunks()
    }

    fn len(&self) -> (r: usize) {
        self.payload.len()
    }
}

impl<'a, B: BufView> SipWebSocketFrame for WsFrameRef<'a, B> {
    open spec fn format_of(&self) -> WsFrameFormat {
        self.tag()
    }

    fn frame_format(&self) -> (r: WsFrameFormat) {
        self.format
    }
}

/// A frame that owns its payload.
#[derive(Debug, Clone, PartialEq, Eq)]
pub struct WsFrameOwned {
    format: WsFrameFormat,
    payload: Vec<u8>,
}

/// The contents of an owned frame.
pub struct WsFrameView {
    /// The format of the frame.
    pub format: WsFrameFormat,
    /// The payload.
    pub payload: Seq<u8>,
}

impl View for WsFrameOwned {
    type V = WsFrameView;

    closed spec fn view(&self) -> WsFrameView {
        WsFrameView { format: self.format, payload: self.payload@ }
    }
}

impl WsFrameOwned {
    /// A frame of this format with a payload.
    pub fn new(format: WsFrameFormat, payload: Vec<u8>) -> (r: Self)
        ensures
            r@ == (WsFrameView { format, payload: payload@ }),
    {
        WsFrameOwned { format, payload }
    }

    /// The format of the frame.
    pub fn format(&self) -> (r: WsFrameFormat)
        ensures
            r == self@.format,
    {
        self.format
    }

    /// The payload.
    pub fn payload(&self) -> (r: &[u8])
        ensures
            r@ == self@.payload,
    {
        self.payload.as_slice()
    }

    /// Gives the payload away.
    pub fn into_payload(self) -> (r: Vec<u8>)
        ensures
            r@ == self@.payload,
    {
        self.payload
    }
}

impl BufView for WsFrameOwned {
    open spec fn chunks(&self) -> Seq<Seq<u8>> {
        seq![self@.payload]
    }

    fn as_chunks(&self) -> (r: Chunks<'_>) {
        proof {
            lemma_concat_single(self@.payload);
            assert(self.payload.len() == self@.payload.len());
        }
        Chunks::single(self.payload.as_slice())
    }

    fn len(&self) -> (r: usize) {
        proof {
            lemma_concat_single(self@.payload);
        }
        self.payload.len()
    }
}

impl SipWebSocketFrame for WsFrameOwned {
    open spec fn format_of(&self) -> WsFrameFormat {
        self@.format
    }

    fn frame_format(&self) -> (r: WsFrameFormat) {
        self.format
    }
}

/// Why frames and messages cannot be turned into each other.
#[derive(Debug)]
pub enum WsSipError {
    /// A frame without any chunk.
    EmptyPayload {
        /// Position of the frame.
        index: usize,
    },
    /// A frame of more than one chunk.
    FragmentedPayload {
        /// Position of the frame.
        index: usize,
        /// How many chunks it has.
        observed_chunks: usize,
    },
    /// A frame that is not UTF-8.
    Utf8 {
        /// Position of the frame.
        index: usize,
        /// Format of the frame.
        format: WsFrameFormat,
        /// What is wrong with its bytes.
        source: core::str::Utf8Error,
    },
    /// A frame that is not a message.
    Parse {
        /// Position of the frame.
        index: usize,
        /// Why it is not a request.
        source: SipParseError,
    },
    /// A message that cannot be written.
    Format {
        /// Why.
        source: SipFormatError,
    },
}

impl WsSipError {
    /// What the error means, in words.
    pub open spec fn text(&self) -> Seq<char> {
        match self {
            WsSipError::EmptyPayload { index } => "frame #"@ + decimal(*index as int)
                + " payload is empty, cannot build SIP message"@,
            WsSipError::FragmentedPayload { index, observed_chunks } => "frame #"@ + decimal(
                *index as int,
            ) + " is composed of "@ + decimal(*observed_chunks as int)
                + " chunks; zero-copy SIP mapping requires a single contiguous slice"@,
            WsSipError::Utf8 { index, format, .. } => format.name() + " frame #"@ + decimal(
                *index as int,
            ) + " contains non UTF-8 bytes"@,
            WsSipError::Parse { index, source } => "failed to parse SIP message from frame #"@
                + decimal(*index as int) + ": "@ + source.message_spec()@,
            WsSipError::Format { source } => "failed to format SIP message into text: "@
                + source.message_spec()@,
        }
    }

    /// What the error means, in words.
    pub fn message(&self) -> (r: String)
        ensures
            r@ == self.text(),
    {
        let mut out = String::new();
        match self {
            WsSipError::EmptyPayload { index } => {
                out.append("frame #");
                push_decimal(&mut out, *index as u64);
                out.append(" payload is empty, cannot build SIP message");
            },
            WsSipError::FragmentedPayload { index, observed_chunks } => {
                out.append("frame #");
                push_decimal(&mut out, *index as u64);
                out.append(" is composed of ");
                push_decimal(&mut out, *observed_chunks as u64);
                out.append(" chunks; zero-copy SIP mapping requires a single contiguous slice");
            },
            WsSipError::Utf8 { index, format, .. } => {
                out.append(format.as_str());
                out.append(" frame #");
                push_decimal(&mut out, *index as u64);
                out.append(" contains non UTF-8 bytes");
            },
            WsSipError::Parse { index, source } => {
                out.append("failed to parse SIP message from frame #");
                push_decimal(&mut out, *index as u64);
                out.append(": ");
                out.append(source.message());
            },
            WsSipError::Format { source } => {
                out.append("failed to format SIP message into text: ");
                out.append(source.message());
            },
        }
        assert(out@ =~= self.text());
        out
    }
}

/// The message that a text denotes: a request, else a response. Where it is neither, the error is
/// that of the request.
pub open spec fn sip_text_of(text: Seq<char>) -> Result<MessageView, SipParseError> {
    match request_of(text) {
        Ok(request) => Ok(request),
        Err(e) => match response_of(text) {
            Ok(response) => Ok(response),
            Err(_) => Err(e),
        },
    }
}

/// The message in a frame.
pub open spec fn frame_message(chunks: Seq<Seq<u8>>, format: WsFrameFormat, index: int) -> Result<
    MessageView,
    WsSipError,
> {
    if chunks.len() == 0 {
        Err(WsSipError::EmptyPayload { index: index as usize })
    } else if chunks.len() > 1 {
        Err(
            WsSipError::FragmentedPayload {
                index: index as usize,
                observed_chunks: chunks.len() as usize,
            },
        )
    } else if !valid_utf8(chunks[0]) {
        Err(WsSipError::Utf8 { index: index as usize, format, source: utf8_fault(chunks[0]) })
    } else {
        match sip_text_of(decode_utf8(chunks[0])) {
            Ok(message) => Ok(message),
            Err(e) => Err(WsSipError::Parse { index: index as usize, source: e }),
        }
    }
}

/// Whether the first `n` frames all hold messages, and these are they.
pub open spec fn frames_hold<F: SipWebSocketFrame>(
    frames: Seq<F>,
    messages: Seq<SipMessage<'_>>,
) -> bool {
    &&& messages.len() <= frames.len()
    &&& forall|k: int|
        0 <= k < messages.len() ==> frame_message(
            #[trigger] frames[k].chunks(),
            frames[k].format_of(),
            k,
        ) == Ok::<MessageView, WsSipError>(messages[k]@)
}

/// The only chunk of a frame.
fn borrow_single_chunk<'a, F: SipWebSocketFrame>(frame: &'a F, index: usize) -> (r: Result<
    &'a [u8],
    WsSipError,
>)
    ensures
        match r {
            Ok(chunk) => frame.chunks().len() == 1 && chunk@ == frame.chunks()[0],
            Err(e) => frame.chunks().len() != 1 && frame_message(
                frame.chunks(),
                frame.format_of(),
                index as int,
            ) == Err::<MessageView, WsSipError>(e),
        },
{
    let chunks = frame.as_chunks();
    let n: usize = chunks.count();
    if n == 0 {
        return Err(WsSipError::EmptyPayload { index });
    }
    if n > 1 {
        return Err(WsSipError::FragmentedPayload { index, observed_chunks: n });
    }
    Ok(chunks.get(0))
}

/// Parses a text as a request, else as a response.
pub fn parse_sip_text<'a>(text: &'a str) -> (r: Result<SipMessage<'a>, SipParseError>)
    ensures
        result_means(r, sip_text_of(text@)),
{
    match parse_request(text) {
        Ok(request) => Ok(request),
        Err(e) => match parse_response(text) {
            Ok(response) => Ok(response),
            Err(_) => Err(e),
        },
    }
}

/// Parses one message from each frame, without copying. The first frame that holds none is reported.
pub fn ws_to_sip<'a, F: SipWebSocketFrame>(frames: &'a [F]) -> (r: Result<
    Vec<SipMessage<'a>>,
    WsSipError,
>)
    ensures
        match r {
            Ok(messages) => messages@.len() == frames@.len() && frames_hold(frames@, messages@),
            Err(e) => exists|k: int|
                {
                    &&& 0 <= k < frames@.len()
                    &&& frame_message(#[trigger] frames@[k].chunks(), frames@[k].format_of(), k)
                        == Err::<MessageView, WsSipError>(e)
                    &&& forall|j: int|
                        0 <= j < k ==> frame_message(
                            #[trigger] frames@[j].chunks(),
                            frames@[j].format_of(),
                            j,
                        ) is Ok
                },
        },
{
    let mut messages: Vec<SipMessage<'a>> = Vec::new();
    let mut index: usize = 0;
    while index < frames.len()
        invariant
            index <= frames@.len(),
            messages@.len() == index,
            frames_hold(frames@, messages@),
        decreases frames@.len() - index,
    {
        let frame = &frames[index];
        assert(frames@[index as int].chunks() == frame.chunks());
        let bytes = match borrow_single_chunk(frame, index) {
            Ok(bytes) => bytes,
            Err(e) => {
                return Err(e);
            },
        };
        let text = match utf8_text(bytes) {
            Ok(text) => text,
            Err(source) => {
                return Err(WsSipError::Utf8 { index, format: frame.frame_format(), source });
            },
        };
        proof {
            lemma_text_of_bytes(text, bytes@);
        }
        let message = match parse_sip_text(text) {
            Ok(message) => message,
            Err(source) => {
                return Err(WsSipError::Parse { index, source });
            },
        };
        messages.push(message);
        index += 1;
    }
    Ok(messages)
}

/// The text of a message whose body is text.
pub open spec fn message_text(message: MessageView) -> Seq<char> {
    head_text(start_line_text(message.start_line), message.headers) + decode_utf8(message.body)
}

/// Appends the message as a text frame and as a binary frame.
pub fn sip_to_ws(message: &SipMessage<'_>, out_frames: &mut Vec<WsFrameOwned>) -> (r: Result<
    (),
    WsSipError,
>)
    ensures
        match r {
            Ok(_) => {
                let bytes = encode_utf8(message_text(message@));
                let n = old(out_frames)@.len() as int;
                &&& valid_utf8(message@.body)
                &&& final(out_frames)@.len() == n + 2
                &&& final(out_frames)@.take(n) == old(out_frames)@
                &&& final(out_frames)@[n]@ == (WsFrameView {
                    format: WsFrameFormat::Text,
                    payload: bytes,
                })
                &&& final(out_frames)@[n + 1]@ == (WsFrameView {
                    format: WsFrameFormat::Binary,
                    payload: bytes,
                })
            },
            Err(e) => {
                &&& !valid_utf8(message@.body)
                &&& e == WsSipError::Format { source: SipFormatError::NonUtf8Body }
                &&& final(out_frames)@ == old(out_frames)@
            },
        },
{
    let mut buffer = String::new();
    match write_message(&mut buffer, message) {
        Ok(_) => {},
        Err(source) => {
            return Err(WsSipError::Format { source });
        },
    }
    assert(buffer@ =~= message_text(message@));
    let text_bytes = buffer.as_str().as_bytes_vec();
    let binary_bytes = buffer.as_str().as_bytes_vec();
    let text_frame = WsFrameOwned::new(WsFrameFormat::Text, text_bytes);
    let binary_frame = WsFrameOwned::new(WsFrameFormat::Binary, binary_bytes);
    out_frames.push(text_frame);
    out_frames.push(binary_frame);
    assert(out_frames@.take(old(out_frames)@.len() as int) =~= old(out_frames)@);
    Ok(())
}

} // verus!
