//! Running scripts.
use crate::buffer::contract::{ReadableBuffer, WritableBuffer};
use crate::buffer::{BufView, Chunks};
use crate::line::{DecodeContext, DecodeOutcome, EncodeContext, LineDelimitedCodec};
use crate::rtp::parse_rtp;
use crate::script::support::{FragmentedView, FuzzBufferPool, LinearReadable};
use crate::script::{
    decode_escaped, decode_hex, find_limit, find_option, parse_header, parse_usize_list, Protocol,
};
use crate::sdp::parse_sdp;
use crate::sip::parse::request::parse_request;
use crate::sip::parse::response::parse_response;
use crate::sip::types::Header;
use crate::text::{
    contains_char, first_char, split_lines, strip_prefix, text_eq, to_crlf, trim, utf8_text,
};
use vstd::prelude::*;
use vstd::string::*;

verus! {

use crate::buffer::contract::fits;
use crate::buffer::{concat_chunks, lemma_concat_step, lemma_concat_take};
use crate::line::{exceeds, lemma_line_in_front, line_bytes, newline_from, newline_of};
use crate::rtp::{csrc_end, header_end, padding_size, rtp_defect};
use crate::script::{header_of, hex_bytes, limit_of, starts_comment, unescaped};
use crate::sdp::{sdp_of, MediaView, SdpParseError, SessionView};
use crate::sip::parse::request::request_of;
use crate::sip::parse::response::response_of;
use crate::sip::types::{header_views, HeaderView};
use crate::text::{
    lemma_absent_byte, lemma_text_of_bytes, lines_of, string_views, texts, trimmed, with_crlf,
};
use crate::wire::{be16, be32, bit};
use vstd::utf8::{decode_utf8, encode_utf8, valid_utf8};

/// What a script can find wrong.
#[derive(Debug, Clone, Copy, PartialEq, Eq, Structural)]
pub enum ScriptFailure {
    /// The decoded lines are not the encoded ones.
    LineFramesDiffer,
    /// More lines are decoded than were encoded.
    LineFramesSurplus,
    /// The chunks of an extension are not as long as the extension.
    RtpExtensionLength,
    /// Payload and padding are longer than the packet.
    RtpPayloadLength,
    /// A request without a `Via` header.
    SipViaMissing,
    /// A response with less than two headers.
    SipHeadersMissing,
    /// A session description without media.
    SdpMediaMissing,
    /// Media without formats.
    SdpFormatsMissing,
}

impl ScriptFailure {
    /// What the failure means, in words.
    pub open spec fn message_spec(&self) -> &'static str {
        match self {
            ScriptFailure::LineFramesDiffer => "LINE 解码结果与期望不一致",
            ScriptFailure::LineFramesSurplus => "LINE 解码结果数量异常",
            ScriptFailure::RtpExtensionLength => "RTP 扩展长度不一致",
            ScriptFailure::RtpPayloadLength => "RTP 负载长度超出报文",
            ScriptFailure::SipViaMissing => "SIP 请求样本应至少包含一个 Via 头",
            ScriptFailure::SipHeadersMissing => "SIP 响应应包含若干头部",
            ScriptFailure::SdpMediaMissing => "SDP 样本需至少包含一个媒体描述",
            ScriptFailure::SdpFormatsMissing => "媒体描述必须提供至少一个编码格式",
        }
    }

    /// What the failure means, in words.
    pub fn message(&self) -> (r: &'static str)
        ensures
            r == self.message_spec(),
    {
        match self {
            ScriptFailure::LineFramesDiffer => "LINE 解码结果与期望不一致",
            ScriptFailure::LineFramesSurplus => "LINE 解码结果数量异常",
            ScriptFailure::RtpExtensionLength => "RTP 扩展长度不一致",
            ScriptFailure::RtpPayloadLength => "RTP 负载长度超出报文",
            ScriptFailure::SipViaMissing => "SIP 请求样本应至少包含一个 Via 头",
            ScriptFailure::SipHeadersMissing => "SIP 响应应包含若干头部",
            ScriptFailure::SdpMediaMissing => "SDP 样本需至少包含一个媒体描述",
            ScriptFailure::SdpFormatsMissing => "媒体描述必须提供至少一个编码格式",
        }
    }
}

/// Whether a line of a script says nothing: it is empty or a comment.
pub open spec fn is_idle(line: Seq<char>) -> bool {
    trimmed(line).len() == 0 || starts_comment(trimmed(line))
}

/// What follows a keyword at the front of a line.
pub open spec fn behind_keyword(line: Seq<char>, keyword: Seq<char>) -> Option<Seq<char>> {
    if !is_idle(line) && keyword.is_prefix_of(trimmed(line)) {
        Some(trimmed(line).skip(keyword.len() as int))
    } else {
        None
    }
}

/// Whether a line of a script says nothing.
fn says_nothing(line: &str) -> (r: bool)
    ensures
        r == is_idle(line@),
{
    match first_char(trim(line)) {
        Some(c) => c == '#',
        None => true,
    }
}

/// Takes a keyword off the front of a line.
fn strip_keyword<'a>(line: &'a str, keyword: &str) -> (r: Option<&'a str>)
    ensures
        match r {
            Some(rest) => behind_keyword(line@, keyword@) == Some(rest@),
            None => behind_keyword(line@, keyword@) is None,
        },
{
    if says_nothing(line) {
        return None;
    }
    strip_prefix(trim(line), keyword)
}

/// What a line of a script does.
#[derive(Debug, Clone, PartialEq, Eq)]
pub enum LineAction {
    /// Encodes a line.
    Emit(String),
    /// Encodes a line and leaves out its end.
    Truncate(String),
}

/// The contents of an action.
pub enum LineActionView {
    /// Encodes a line.
    Emit(Seq<char>),
    /// Encodes a line and leaves out its end.
    Truncate(Seq<char>),
}

impl View for LineAction {
    type V = LineActionView;

    open spec fn view(&self) -> LineActionView {
        match self {
            LineAction::Emit(text) => LineActionView::Emit(text@),
            LineAction::Truncate(text) => LineActionView::Truncate(text@),
        }
    }
}

/// The contents of a list of actions.
pub open spec fn action_views(list: Seq<LineAction>) -> Seq<LineActionView> {
    Seq::new(list.len(), |i: int| list[i]@)
}

/// What a line of a script does.
pub open spec fn action_of(line: Seq<char>) -> Option<LineActionView> {
    match behind_keyword(line, "frame:"@) {
        Some(payload) => Some(LineActionView::Emit(unescaped(trimmed(payload)))),
        None => match behind_keyword(line, "truncate:"@) {
            Some(payload) => Some(LineActionView::Truncate(unescaped(trimmed(payload)))),
            None => None,
        },
    }
}

/// What the lines of a script do.
pub open spec fn actions_of(lines: Seq<Seq<char>>) -> Seq<LineActionView>
    decreases lines.len(),
{
    if lines.len() == 0 {
        Seq::empty()
    } else {
        match action_of(lines.last()) {
            Some(action) => actions_of(lines.drop_last()).push(action),
            None => actions_of(lines.drop_last()),
        }
    }
}

/// Reads what the lines of a script do.
pub fn parse_line_actions(lines: &[&str]) -> (r: Vec<LineAction>)
    ensures
        action_views(r@) == actions_of(texts(lines@)),
{
    let ghost all = texts(lines@);
    let mut out: Vec<LineAction> = Vec::new();
    let mut i: usize = 0;
    assert(action_views(out@) =~= actions_of(all.take(0)));
    while i < lines.len()
        invariant
            i <= lines@.len(),
            all == texts(lines@),
            action_views(out@) == actions_of(all.take(i as int)),
        decreases lines@.len() - i,
    {
        let ghost so_far = action_views(out@);
        proof {
            assert(all.take(i + 1).drop_last() =~= all.take(i as int));
            assert(all.take(i + 1).last() == lines@[i as int]@);
        }
        match strip_keyword(lines[i], "frame:") {
            Some(payload) => {
                let text = decode_escaped(trim(payload));
                out.push(LineAction::Emit(text));
                assert(action_views(out@) =~= so_far.push(LineActionView::Emit(text@)));
            },
            None => match strip_keyword(lines[i], "truncate:") {
                Some(payload) => {
                    let text = decode_escaped(trim(payload));
                    out.push(LineAction::Truncate(text));
                    assert(action_views(out@) =~= so_far.push(LineActionView::Truncate(text@)));
                },
                None => {},
            },
        }
        i += 1;
    }
    assert(all.take(i as int) =~= all);
    out
}

/// Lines with a line feed between each two.
pub open spec fn joined(lines: Seq<Seq<char>>) -> Seq<char>
    decreases lines.len(),
{
    if lines.len() == 0 {
        Seq::empty()
    } else if lines.len() == 1 {
        lines[0]
    } else {
        joined(lines.drop_last()).push('\n') + lines.last()
    }
}

/// Joins lines with a line feed between each two.
pub fn join_lines(lines: &[&str]) -> (r: String)
    ensures
        r@ == joined(texts(lines@)),
{
    let ghost all = texts(lines@);
    let mut out = String::new();
    let mut i: usize = 0;
    assert(out@ =~= joined(all.take(0)));
    while i < lines.len()
        invariant
            i <= lines@.len(),
            all == texts(lines@),
            out@ == joined(all.take(i as int)),
        decreases lines@.len() - i,
    {
        proof {
            assert(all.take(i + 1).drop_last() =~= all.take(i as int));
            assert(all.take(i + 1).last() == lines@[i as int]@);
        }
        if i > 0 {
            out.push('\n');
        }
        out.append(lines[i]);
        assert(out@ =~= joined(all.take(i + 1)));
        i += 1;
    }
    assert(all.take(i as int) =~= all);
    out
}

/// The bytes that the lines of a script give in hexadecimal.
pub open spec fn payload_of(lines: Seq<Seq<char>>) -> Seq<u8>
    decreases lines.len(),
{
    if lines.len() == 0 {
        Seq::empty()
    } else {
        match behind_keyword(lines.last(), "hex:"@) {
            Some(data) => payload_of(lines.drop_last()) + hex_bytes(data),
            None => payload_of(lines.drop_last()),
        }
    }
}

/// Collects the bytes that the lines of a script give in hexadecimal.
pub fn collect_hex_payload(lines: &[&str]) -> (r: Vec<u8>)
    ensures
        r@ == payload_of(texts(lines@)),
{
    let ghost all = texts(lines@);
    let mut out: Vec<u8> = Vec::new();
    let mut i: usize = 0;
    while i < lines.len()
        invariant
            i <= lines@.len(),
            all == texts(lines@),
            out@ == payload_of(all.take(i as int)),
        decreases lines@.len() - i,
    {
        proof {
            assert(all.take(i + 1).drop_last() =~= all.take(i as int));
            assert(all.take(i + 1).last() == lines@[i as int]@);
        }
        match strip_keyword(lines[i], "hex:") {
            Some(data) => {
                let mut bytes = decode_hex(data);
                let ghost before = out@;
                let ghost more = bytes@;
                out.append(&mut bytes);
                assert(out@ =~= before + more);
            },
            None => {},
        }
        i += 1;
    }
    assert(all.take(i as int) =~= all);
    out
}

/// Whether a line can be encoded under a limit.
pub open spec fn permitted(text: Seq<char>, limit: Option<usize>) -> bool {
    fits(line_bytes(text).len() as int) && !exceeds(line_bytes(text).len() as int, limit)
}

/// What actions put on the wire under a limit.
pub open spec fn stream_of(actions: Seq<LineActionView>, limit: Option<usize>) -> Seq<u8>
    decreases actions.len(),
{
    if actions.len() == 0 {
        Seq::empty()
    } else {
        let before = stream_of(actions.drop_last(), limit);
        match actions.last() {
            LineActionView::Emit(text) => if permitted(text, limit) {
                before + line_bytes(text)
            } else {
                before
            },
            LineActionView::Truncate(text) => if permitted(text, limit) {
                before + encode_utf8(text)
            } else {
                before
            },
        }
    }
}

/// The lines that actions encode completely under a limit.
pub open spec fn expected_of(actions: Seq<LineActionView>, limit: Option<usize>) -> Seq<Seq<char>>
    decreases actions.len(),
{
    if actions.len() == 0 {
        Seq::empty()
    } else {
        let before = expected_of(actions.drop_last(), limit);
        match actions.last() {
            LineActionView::Emit(text) => if permitted(text, limit) {
                before.push(text)
            } else {
                before
            },
            LineActionView::Truncate(_) => before,
        }
    }
}

/// Whether actions leave out the end of a line.
pub open spec fn truncated_by(actions: Seq<LineActionView>, limit: Option<usize>) -> bool
    decreases actions.len(),
{
    if actions.len() == 0 {
        false
    } else {
        ||| actions.last() matches LineActionView::Truncate(text) && permitted(text, limit)
        ||| truncated_by(actions.drop_last(), limit)
    }
}

/// The lines that bytes hold, and whether decoding them fails. Bytes behind the last line feed are
/// no line.
pub open spec fn decode_all(bytes: Seq<u8>, limit: Option<usize>) -> (Seq<Seq<char>>, bool)
    decreases bytes.len(),
    via decode_all_decreases
{
    match newline_of(bytes) {
        Some(pos) => {
            let line = bytes.take(pos);
            if exceeds(pos, limit) || !valid_utf8(line) {
                (Seq::empty(), true)
            } else {
                let (others, failed) = decode_all(bytes.skip(pos + 1), limit);
                (seq![decode_utf8(line)] + others, failed)
            }
        },
        None => (Seq::empty(), exceeds(bytes.len() as int, limit)),
    }
}

#[via_fn]
proof fn decode_all_decreases(bytes: Seq<u8>, limit: Option<usize>) {
    lemma_newline_in_range(bytes, 0);
}

/// The first line feed lies within the bytes.
proof fn lemma_newline_in_range(bytes: Seq<u8>, at: int)
    requires
        0 <= at,
    ensures
        newline_from(bytes, at) matches Some(pos) ==> at <= pos < bytes.len() && bytes[pos] == 10,
    decreases bytes.len() - at,
{
    if at < bytes.len() && bytes[at] != 10 {
        lemma_newline_in_range(bytes, at + 1);
    }
}

/// What running the actions of a script finds wrong: unless decoding fails or the end of a line is
/// left out, the decoded lines have to be the encoded ones; otherwise there must not be more of them.
pub open spec fn line_verdict(
    actions: Seq<LineActionView>,
    encode_limit: Option<usize>,
    decode_limit: Option<usize>,
) -> Result<(), ScriptFailure> {
    let (frames, failed) = decode_all(stream_of(actions, encode_limit), decode_limit);
    let expected = expected_of(actions, encode_limit);
    if !failed && !truncated_by(actions, encode_limit) {
        if frames == expected {
            Ok(())
        } else {
            Err(ScriptFailure::LineFramesDiffer)
        }
    } else if frames.len() <= expected.len() {
        Ok(())
    } else {
        Err(ScriptFailure::LineFramesSurplus)
    }
}

/// Encodes a line, if it can be encoded under the limit.
fn encode_line(
    codec: &LineDelimitedCodec,
    text: &String,
    ctx: &mut EncodeContext<FuzzBufferPool>,
) -> (r: Option<Vec<u8>>)
    ensures
        final(ctx).max_frame_size == old(ctx).max_frame_size,
        match r {
            Some(bytes) => permitted(text@, old(ctx).max_frame_size) && bytes@ == line_bytes(text@),
            None => !permitted(text@, old(ctx).max_frame_size),
        },
{
    if text.as_str().as_bytes().len() >= isize::MAX as usize {
        return None;
    }
    match codec.encode(text, ctx) {
        Ok(payload) => match payload.into_buffer().try_into_vec() {
            Ok(bytes) => Some(bytes),
            Err(_) => None,
        },
        Err(_) => None,
    }
}

/// What encoding the actions of a script gives.
struct Encoded {
    stream: Vec<u8>,
    expected: Vec<String>,
    truncated: bool,
}

/// Encodes the actions of a script.
fn encode_actions(actions: &Vec<LineAction>, limit: Option<usize>) -> (r: Encoded)
    ensures
        r.stream@ == stream_of(action_views(actions@), limit),
        string_views(r.expected@) == expected_of(action_views(actions@), limit),
        r.truncated == truncated_by(action_views(actions@), limit),
{
    let codec = LineDelimitedCodec::new();
    let mut ctx = EncodeContext::with_max_frame_size(FuzzBufferPool::default(), limit);
    let mut stream: Vec<u8> = Vec::new();
    let mut expected: Vec<String> = Vec::new();
    let mut truncated: bool = false;
    let ghost all = action_views(actions@);
    let mut i: usize = 0;
    assert(string_views(expected@) =~= expected_of(all.take(0), limit));
    while i < actions.len()
        invariant
            i <= actions@.len(),
            all == action_views(actions@),
            ctx.max_frame_size == limit,
            stream@ == stream_of(all.take(i as int), limit),
            string_views(expected@) == expected_of(all.take(i as int), limit),
            truncated == truncated_by(all.take(i as int), limit),
        decreases actions@.len() - i,
    {
        let ghost before = stream@;
        let ghost lines = string_views(expected@);
        proof {
            assert(all.take(i + 1).drop_last() =~= all.take(i as int));
            assert(all.take(i + 1).last() == actions@[i as int]@);
        }
        match &actions[i] {
            LineAction::Emit(text) => match encode_line(&codec, text, &mut ctx) {
                Some(bytes) => {
                    let mut more = bytes;
                    let copy = text.clone();
                    expected.push(copy);
                    stream.append(&mut more);
                    assert(string_views(expected@) =~= lines.push(text@));
                    assert(stream@ =~= before + line_bytes(text@));
                },
                None => {},
            },
            LineAction::Truncate(text) => match encode_line(&codec, text, &mut ctx) {
                Some(bytes) => {
                    let mut more = bytes;
                    let _ = more.pop();
                    truncated = true;
                    assert(more@ =~= encode_utf8(text@));
                    stream.append(&mut more);
                    assert(stream@ =~= before + encode_utf8(text@));
                },
                None => {},
            },
        }
        i += 1;
    }
    assert(all.take(i as int) =~= all);
    Encoded { stream, expected, truncated }
}

/// Decodes lines until there is none left or decoding fails.
fn decode_frames(stream: Vec<u8>, limit: Option<usize>) -> (r: (Vec<String>, bool))
    ensures
        (string_views(r.0@), r.1) == decode_all(stream@, limit),
{
    let codec = LineDelimitedCodec::new();
    let ctx = DecodeContext::with_max_frame_size(limit);
    let mut source = LinearReadable::from_vec(stream);
    let mut frames: Vec<String> = Vec::new();
    let ghost all = decode_all(stream@, limit);
    proof {
        assert(string_views(frames@) + all.0 =~= all.0);
    }
    loop
        invariant
            ctx.max_frame_size == limit,
            source.reliable(),
            all.0 == string_views(frames@) + decode_all(source.unread(), limit).0,
            all.1 == decode_all(source.unread(), limit).1,
            all == decode_all(stream@, limit),
        decreases source.unread().len(),
    {
        let ghost so_far = string_views(frames@);
        let ghost bytes = source.unread();
        proof {
            lemma_newline_in_range(bytes, 0);
        }
        let before: usize = source.remaining();
        if before == 0 {
            assert(so_far + Seq::<Seq<char>>::empty() =~= so_far);
            return (frames, false);
        }
        match codec.decode(&mut source, &ctx) {
            Ok(DecodeOutcome::Complete(frame)) => {
                frames.push(frame);
                proof {
                    let others = decode_all(source.unread(), limit).0;
                    assert(string_views(frames@) =~= so_far.push(frame@));
                    assert(so_far + (seq![frame@] + others) =~= string_views(frames@) + others);
                }
            },
            Ok(DecodeOutcome::Incomplete) => {
                assert(so_far + Seq::<Seq<char>>::empty() =~= so_far);
                return (frames, false);
            },
            Err(_) => {
                assert(so_far + Seq::<Seq<char>>::empty() =~= so_far);
                return (frames, true);
            },
        }
    }
}

/// Whether two lists hold the same strings.
fn same_strings(a: &Vec<String>, b: &Vec<String>) -> (r: bool)
    ensures
        r == (string_views(a@) == string_views(b@)),
{
    if a.len() != b.len() {
        assert(string_views(a@).len() != string_views(b@).len());
        return false;
    }
    let mut i: usize = 0;
    while i < a.len()
        invariant
            i <= a@.len(),
            a@.len() == b@.len(),
            forall|k: int| 0 <= k < i ==> (#[trigger] a@[k])@ == b@[k]@,
        decreases a@.len() - i,
    {
        if !text_eq(a[i].as_str(), b[i].as_str()) {
            proof {
                assert(string_views(a@)[i as int] != string_views(b@)[i as int]);
            }
            return false;
        }
        i += 1;
    }
    assert(string_views(a@) =~= string_views(b@));
    true
}

/// Runs a script about lines.
pub fn run_line_case(options: &[&str], lines: &[&str]) -> (r: Result<(), ScriptFailure>)
    ensures
        r == line_verdict(
            actions_of(texts(lines@)),
            limit_of(texts(options@), "encode"@),
            limit_of(texts(options@), "decode"@),
        ),
{
    let encode_limit = find_limit(options, "encode");
    let decode_limit = find_limit(options, "decode");
    let actions = parse_line_actions(lines);
    let Encoded { stream, expected, truncated } = encode_actions(&actions, encode_limit);
    let (frames, failed) = decode_frames(stream, decode_limit);
    assert(string_views(frames@).len() == frames@.len());
    assert(string_views(expected@).len() == expected@.len());
    if !failed && !truncated {
        if same_strings(&frames, &expected) {
            Ok(())
        } else {
            Err(ScriptFailure::LineFramesDiffer)
        }
    } else if frames.len() <= expected.len() {
        Ok(())
    } else {
        Err(ScriptFailure::LineFramesSurplus)
    }
}

/// The text that an action encodes.
pub open spec fn action_text(action: LineActionView) -> Seq<char> {
    match action {
        LineActionView::Emit(text) => text,
        LineActionView::Truncate(text) => text,
    }
}

/// Whether no action has a line feed in its text.
pub open spec fn single_lines(actions: Seq<LineActionView>) -> bool {
    forall|i: int|
        0 <= i < actions.len() ==> !action_text(#[trigger] actions[i]).contains('\n')
}

/// How many line feeds there are.
spec fn feeds(bytes: Seq<u8>) -> int
    decreases bytes.len(),
{
    if bytes.len() == 0 {
        0
    } else if bytes.last() == 10 {
        feeds(bytes.drop_last()) + 1
    } else {
        feeds(bytes.drop_last())
    }
}

/// Line feeds add up.
proof fn lemma_feeds_add(a: Seq<u8>, b: Seq<u8>)
    ensures
        feeds(a + b) == feeds(a) + feeds(b),
        feeds(b) >= 0,
    decreases b.len(),
{
    if b.len() == 0 {
        assert(a + b =~= a);
    } else {
        lemma_feeds_add(a, b.drop_last());
        assert((a + b).drop_last() =~= a + b.drop_last());
    }
}

/// Bytes that are no line feeds count for nothing.
proof fn lemma_no_feeds(bytes: Seq<u8>)
    requires
        forall|i: int| 0 <= i < bytes.len() ==> #[trigger] bytes[i] != 10,
    ensures
        feeds(bytes) == 0,
    decreases bytes.len(),
{
    if bytes.len() > 0 {
        lemma_no_feeds(bytes.drop_last());
    }
}

/// An encoded text without a line feed has none.
proof fn lemma_text_feeds(text: Seq<char>)
    requires
        !text.contains('\n'),
    ensures
        feeds(encode_utf8(text)) == 0,
        feeds(line_bytes(text)) == 1,
{
    assert forall|i: int| 0 <= i < text.len() implies #[trigger] text[i] as int != 10 by {
        if text[i] as int == 10 {
            assert(text[i] == '\n');
            assert(text.contains(text[i]));
        }
    }
    lemma_absent_byte(text, 10);
    lemma_no_feeds(encode_utf8(text));
    assert(line_bytes(text).drop_last() =~= encode_utf8(text));
}

/// As many line feeds go out as lines are encoded completely.
proof fn lemma_stream_feeds(actions: Seq<LineActionView>, limit: Option<usize>)
    requires
        single_lines(actions),
    ensures
        feeds(stream_of(actions, limit)) == expected_of(actions, limit).len(),
    decreases actions.len(),
{
    if actions.len() > 0 {
        let init = actions.drop_last();
        assert forall|i: int| 0 <= i < init.len() implies !action_text(
            #[trigger] init[i],
        ).contains('\n') by {
            assert(init[i] == actions[i]);
        }
        lemma_stream_feeds(init, limit);
        let text = action_text(actions.last());
        assert(!action_text(actions[actions.len() - 1]).contains('\n'));
        lemma_text_feeds(text);
        lemma_feeds_add(stream_of(init, limit), line_bytes(text));
        lemma_feeds_add(stream_of(init, limit), encode_utf8(text));
    }
}

/// No more lines are decoded than there are line feeds.
proof fn lemma_decoded_count(bytes: Seq<u8>, limit: Option<usize>)
    ensures
        decode_all(bytes, limit).0.len() <= feeds(bytes),
    decreases bytes.len(),
{
    lemma_newline_in_range(bytes, 0);
    lemma_feeds_add(Seq::<u8>::empty(), bytes);
    match newline_of(bytes) {
        Some(pos) => {
            let head = bytes.take(pos + 1);
            let rest = bytes.skip(pos + 1);
            lemma_decoded_count(rest, limit);
            lemma_feeds_add(head, rest);
            lemma_feeds_add(Seq::<u8>::empty(), head.drop_last());
            assert(head + rest =~= bytes);
            assert(head.last() == 10);
            assert(feeds(head) >= 1);
        },
        None => {},
    }
}

/// Lines on the wire, one behind the other.
spec fn wire_lines(list: Seq<Seq<char>>) -> Seq<u8>
    decreases list.len(),
{
    if list.len() == 0 {
        Seq::empty()
    } else {
        line_bytes(list[0]) + wire_lines(list.drop_first())
    }
}

/// One more line goes behind the others.
proof fn lemma_wire_lines_push(list: Seq<Seq<char>>, text: Seq<char>)
    ensures
        wire_lines(list.push(text)) == wire_lines(list) + line_bytes(text),
    decreases list.len(),
{
    reveal_with_fuel(wire_lines, 2);
    if list.len() == 0 {
        assert(list.push(text).drop_first() =~= Seq::<Seq<char>>::empty());
        assert(wire_lines(list.push(text)) =~= wire_lines(list) + line_bytes(text));
    } else {
        lemma_wire_lines_push(list.drop_first(), text);
        assert(list.push(text).drop_first() =~= list.drop_first().push(text));
        assert(wire_lines(list.push(text)) =~= wire_lines(list) + line_bytes(text));
    }
}

/// Where no end is left out, the stream is the encoded lines.
proof fn lemma_stream_lines(actions: Seq<LineActionView>, limit: Option<usize>)
    requires
        !truncated_by(actions, limit),
    ensures
        stream_of(actions, limit) == wire_lines(expected_of(actions, limit)),
    decreases actions.len(),
{
    if actions.len() > 0 {
        lemma_stream_lines(actions.drop_last(), limit);
        lemma_wire_lines_push(
            expected_of(actions.drop_last(), limit),
            action_text(actions.last()),
        );
    }
}

/// The encoded lines have no line feed in them.
proof fn lemma_expected_single(actions: Seq<LineActionView>, limit: Option<usize>)
    requires
        single_lines(actions),
    ensures
        forall|i: int|
            0 <= i < expected_of(actions, limit).len() ==> !(#[trigger] expected_of(
                actions,
                limit,
            )[i]).contains('\n'),
    decreases actions.len(),
{
    if actions.len() > 0 {
        let init = actions.drop_last();
        assert forall|i: int| 0 <= i < init.len() implies !action_text(
            #[trigger] init[i],
        ).contains('\n') by {
            assert(init[i] == actions[i]);
        }
        lemma_expected_single(init, limit);
        assert(!action_text(actions[actions.len() - 1]).contains('\n'));
        let before = expected_of(init, limit);
        let after = expected_of(actions, limit);
        assert forall|i: int| 0 <= i < after.len() implies !(#[trigger] after[i]).contains(
            '\n',
        ) by {
            if i < before.len() {
                assert(after[i] == before[i]);
            }
        }
    }
}

/// Decoding lines on the wire gives the lines back, unless it fails.
proof fn lemma_decode_lines(list: Seq<Seq<char>>, limit: Option<usize>)
    requires
        forall|i: int| 0 <= i < list.len() ==> !(#[trigger] list[i]).contains('\n'),
    ensures
        !decode_all(wire_lines(list), limit).1 ==> decode_all(wire_lines(list), limit).0 == list,
    decreases list.len(),
{
    if list.len() == 0 {
        assert(decode_all(wire_lines(list), limit).0 =~= list);
    } else {
        let rest = list.drop_first();
        assert forall|i: int| 0 <= i < rest.len() implies !(#[trigger] rest[i]).contains('\n') by {
            assert(rest[i] == list[i + 1]);
        }
        lemma_decode_lines(rest, limit);
        assert(!list[0].contains('\n'));
        lemma_line_in_front(list[0], wire_lines(rest));
        assert(seq![list[0]] + rest =~= list);
    }
}

/// Whatever the limits are, a script about lines finds nothing wrong, if no text in it has a line
/// feed.
pub proof fn law_single_lines_pass(
    actions: Seq<LineActionView>,
    encode_limit: Option<usize>,
    decode_limit: Option<usize>,
)
    requires
        single_lines(actions),
    ensures
        line_verdict(actions, encode_limit, decode_limit) is Ok,
{
    let stream = stream_of(actions, encode_limit);
    lemma_stream_feeds(actions, encode_limit);
    lemma_decoded_count(stream, decode_limit);
    if !truncated_by(actions, encode_limit) {
        lemma_stream_lines(actions, encode_limit);
        lemma_expected_single(actions, encode_limit);
        lemma_decode_lines(expected_of(actions, encode_limit), decode_limit);
    }
}

/// Adds up the lengths of chunks.
fn total_len(chunks: &Chunks<'_>) -> (r: usize)
    requires
        concat_chunks(chunks@).len() <= usize::MAX,
    ensures
        r == concat_chunks(chunks@).len(),
{
    let mut total: usize = 0;
    let mut i: usize = 0;
    while i < chunks.count()
        invariant
            i <= chunks@.len(),
            concat_chunks(chunks@).len() <= usize::MAX,
            total == concat_chunks(chunks@.take(i as int)).len(),
        decreases chunks@.len() - i,
    {
        proof {
            lemma_concat_step(chunks@, i as int);
            lemma_concat_take(chunks@, i + 1);
        }
        total = total + chunks.get(i).len();
        i += 1;
    }
    assert(chunks@.take(i as int) =~= chunks@);
    total
}

/// What a script about media packets finds in a packet.
#[derive(Debug, Clone, Copy, PartialEq, Eq)]
pub struct RtpFindings {
    /// Sequence number of the packet.
    pub sequence_number: u16,
    /// Media time of the packet.
    pub timestamp: u32,
    /// Payload type of the packet.
    pub payload_type: u8,
    /// Length of the extension, if there is one.
    pub extension_len: Option<usize>,
    /// Length of the payload.
    pub payload_len: usize,
    /// Length of the padding.
    pub padding_len: usize,
}

/// What is found in bytes, if they are a packet.
pub open spec fn rtp_findings(bytes: Seq<u8>) -> Option<RtpFindings> {
    if bytes.len() == 0 || rtp_defect(bytes) is Some {
        None
    } else {
        Some(
            RtpFindings {
                sequence_number: be16(bytes, 2) as u16,
                timestamp: be32(bytes, 4) as u32,
                payload_type: (bytes[1] as int % 128) as u8,
                extension_len: if bit(bytes[0], 16) {
                    Some((4 * be16(bytes, csrc_end(bytes) + 2)) as usize)
                } else {
                    None
                },
                payload_len: (bytes.len() - header_end(bytes) - padding_size(bytes)) as usize,
                padding_len: padding_size(bytes) as usize,
            },
        )
    }
}

/// Runs a script about media packets: parses the packet, in fragments, and adds up what it found.
/// How it is fragmented makes no difference, and nothing is ever wrong with the sums.
pub fn run_rtp_case(options: &[&str], lines: &[&str]) -> (r: Result<
    Option<RtpFindings>,
    ScriptFailure,
>)
    ensures
        r == Ok::<Option<RtpFindings>, ScriptFailure>(rtp_findings(payload_of(texts(lines@)))),
{
    let bytes = collect_hex_payload(lines);
    if bytes.len() == 0 {
        return Ok(None);
    }
    let splits = match find_option(options, "split") {
        Some(raw) => parse_usize_list(raw),
        None => Vec::new(),
    };
    let view = FragmentedView::from_splits(bytes, splits.as_slice());
    let packet = match parse_rtp(&view) {
        Ok(packet) => packet,
        Err(_) => {
            return Ok(None);
        },
    };
    let total: usize = BufView::len(&view);
    let header = packet.header();
    let mut extension_len: Option<usize> = None;
    match packet.extension() {
        Some(extension) => {
            let chunks = extension.data.as_chunks();
            let consumed: usize = total_len(&chunks);
            if consumed != extension.data.len() {
                return Err(ScriptFailure::RtpExtensionLength);
            }
            extension_len = Some(consumed);
        },
        None => {},
    }
    let chunks = packet.payload().as_chunks();
    let payload_len: usize = total_len(&chunks);
    let padding_len: usize = packet.padding_len() as usize;
    if payload_len + padding_len > total {
        return Err(ScriptFailure::RtpPayloadLength);
    }
    Ok(
        Some(
            RtpFindings {
                sequence_number: header.sequence_number,
                timestamp: header.timestamp,
                payload_type: header.payload_type,
                extension_len,
                payload_len,
                padding_len,
            },
        ),
    )
}

/// How many `Via` headers there are.
pub open spec fn via_count(headers: Seq<HeaderView>) -> int
    decreases headers.len(),
{
    if headers.len() == 0 {
        0
    } else if headers.last() is Via {
        via_count(headers.drop_last()) + 1
    } else {
        via_count(headers.drop_last())
    }
}

/// The message of a script about signalling. Where it has no carriage return at all, its lines get
/// one.
pub open spec fn sip_text(lines: Seq<Seq<char>>) -> Seq<char> {
    let text = unescaped(joined(lines));
    if text.contains('\r') {
        text
    } else {
        with_crlf(text)
    }
}

/// What a script about signalling finds wrong: a request has to have a `Via` header, and a response
/// two headers.
pub open spec fn sip_verdict(lines: Seq<Seq<char>>) -> Result<(), ScriptFailure> {
    if trimmed(unescaped(joined(lines))).len() == 0 {
        Ok(())
    } else {
        match request_of(sip_text(lines)) {
            Ok(message) => if via_count(message.headers) >= 1 {
                Ok(())
            } else {
                Err(ScriptFailure::SipViaMissing)
            },
            Err(_) => match response_of(sip_text(lines)) {
                Ok(message) => if message.headers.len() >= 2 {
                    Ok(())
                } else {
                    Err(ScriptFailure::SipHeadersMissing)
                },
                Err(_) => Ok(()),
            },
        }
    }
}

/// Counts `Via` headers.
fn count_vias(headers: &Vec<Header<'_>>) -> (r: usize)
    ensures
        r == via_count(header_views(headers@)),
{
    let ghost all = header_views(headers@);
    let mut count: usize = 0;
    let mut i: usize = 0;
    while i < headers.len()
        invariant
            i <= headers@.len(),
            all == header_views(headers@),
            count <= i,
            count == via_count(all.take(i as int)),
        decreases headers@.len() - i,
    {
        proof {
            assert(all.take(i + 1).drop_last() =~= all.take(i as int));
            assert(all.take(i + 1).last() == headers@[i as int]@);
        }
        match &headers[i] {
            Header::Via(_) => {
                count = count + 1;
            },
            _ => {},
        }
        i += 1;
    }
    assert(all.take(i as int) =~= all);
    count
}

/// Runs a script about signalling.
pub fn run_sip_case(lines: &[&str]) -> (r: Result<(), ScriptFailure>)
    ensures
        r == sip_verdict(texts(lines@)),
{
    let joined_text = join_lines(lines);
    let mut text = decode_escaped(joined_text.as_str());
    if first_char(trim(text.as_str())).is_none() {
        return Ok(());
    }
    if !contains_char(text.as_str(), '\r') {
        text = to_crlf(text.as_str());
    }
    match parse_request(text.as_str()) {
        Ok(message) => {
            if count_vias(&message.headers) >= 1 {
                return Ok(());
            }
            return Err(ScriptFailure::SipViaMissing);
        },
        Err(_) => {},
    }
    match parse_response(text.as_str()) {
        Ok(message) => {
            assert(message@.headers.len() == message.headers@.len());
            if message.headers.len() >= 2 {
                Ok(())
            } else {
                Err(ScriptFailure::SipHeadersMissing)
            }
        },
        Err(_) => Ok(()),
    }
}

/// Whether every media description has a format.
pub open spec fn all_have_formats(media: Seq<MediaView>) -> bool {
    forall|i: int| 0 <= i < media.len() ==> (#[trigger] media[i]).formats.len() > 0
}

/// What a script about session descriptions finds wrong: there has to be media, and each with a
/// format.
pub open spec fn sdp_verdict(lines: Seq<Seq<char>>) -> Result<(), ScriptFailure> {
    let text = unescaped(joined(lines));
    if trimmed(text).len() == 0 {
        Ok(())
    } else {
        match sdp_of(text) {
            Ok(session) => if session.media.len() == 0 {
                Err(ScriptFailure::SdpMediaMissing)
            } else if !all_have_formats(session.media) {
                Err(ScriptFailure::SdpFormatsMissing)
            } else {
                Ok(())
            },
            Err(_) => Ok(()),
        }
    }
}

/// Runs a script about session descriptions.
pub fn run_sdp_case(lines: &[&str]) -> (r: Result<(), ScriptFailure>)
    ensures
        r == sdp_verdict(texts(lines@)),
{
    let joined_text = join_lines(lines);
    let text = decode_escaped(joined_text.as_str());
    if first_char(trim(text.as_str())).is_none() {
        return Ok(());
    }
    let desc = match parse_sdp(text.as_str()) {
        Ok(desc) => desc,
        Err(_) => {
            return Ok(());
        },
    };
    let ghost all = desc@.media;
    assert(all.len() == desc.media@.len());
    if desc.media.len() == 0 {
        return Err(ScriptFailure::SdpMediaMissing);
    }
    let mut i: usize = 0;
    while i < desc.media.len()
        invariant
            i <= desc.media@.len(),
            all == desc@.media,
            all.len() == desc.media@.len(),
            forall|k: int| 0 <= k < i ==> (#[trigger] all[k]).formats.len() > 0,
            all.len() > 0,
            sdp_of(text@) == Ok::<SessionView, SdpParseError>(desc@),
            trimmed(text@).len() > 0,
            text@ == unescaped(joined(texts(lines@))),
        decreases desc.media@.len() - i,
    {
        assert(all[i as int].formats.len() == desc.media@[i as int].formats@.len());
        if desc.media[i].formats.len() == 0 {
            return Err(ScriptFailure::SdpFormatsMissing);
        }
        i += 1;
    }
    Ok(())
}

/// The position of the first line that says something.
pub open spec fn first_telling(lines: Seq<Seq<char>>, at: int) -> Option<int>
    decreases lines.len() - at,
{
    if at >= lines.len() {
        None
    } else if is_idle(lines[at]) {
        first_telling(lines, at + 1)
    } else {
        Some(at)
    }
}

/// What a script finds wrong. What is not a script finds nothing.
pub open spec fn script_verdict(data: Seq<u8>) -> Result<(), ScriptFailure> {
    if !valid_utf8(data) {
        Ok(())
    } else {
        let lines = lines_of(decode_utf8(data));
        match first_telling(lines, 0) {
            Some(at) => match header_of(lines[at]) {
                Some((protocol, options)) => {
                    let body = lines.skip(at + 1);
                    match protocol {
                        Protocol::Line => line_verdict(
                            actions_of(body),
                            limit_of(options, "encode"@),
                            limit_of(options, "decode"@),
                        ),
                        Protocol::Rtp => Ok(()),
                        Protocol::Sip => sip_verdict(body),
                        Protocol::Sdp => sdp_verdict(body),
                    }
                },
                None => Ok(()),
            },
            None => Ok(()),
        }
    }
}

/// Runs a script: its first line that says something names the protocol and gives options, and the
/// lines behind it are what to do.
pub fn execute_protocol_script(data: &[u8]) -> (r: Result<(), ScriptFailure>)
    ensures
        r == script_verdict(data@),
{
    let text = match utf8_text(data) {
        Ok(text) => text,
        Err(_) => {
            return Ok(());
        },
    };
    proof {
        lemma_text_of_bytes(text, data@);
    }
    let lines = split_lines(text);
    let ghost all = texts(lines@);
    let mut at: usize = 0;
    while at < lines.len() && says_nothing(lines[at])
        invariant
            at <= lines@.len(),
            all == texts(lines@),
            first_telling(all, 0) == first_telling(all, at as int),
        decreases lines@.len() - at,
    {
        assert(all[at as int] == lines@[at as int]@);
        at += 1;
    }
    if at >= lines.len() {
        return Ok(());
    }
    assert(all[at as int] == lines@[at as int]@);
    let (protocol, options) = match parse_header(lines[at]) {
        Some(header) => header,
        None => {
            return Ok(());
        },
    };
    let list = lines.as_slice();
    let body = &list[at + 1..lines.len()];
    assert(texts(body@) =~= all.skip(at + 1));
    match protocol {
        Protocol::Line => run_line_case(options.as_slice(), body),
        Protocol::Rtp => match run_rtp_case(options.as_slice(), body) {
            Ok(_) => Ok(()),
            Err(e) => Err(e),
        },
        Protocol::Sip => run_sip_case(body),
        Protocol::Sdp => run_sdp_case(body),
    }
}

} // verus!
