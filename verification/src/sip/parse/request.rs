//! Reading requests.
use crate::sip::error::SipParseError;
use crate::sip::parse::common::{
    parse_sip_uri, split_first_line, split_headers_body, split_headers_body_bytes,
};
use crate::sip::parse::headers::parse_headers;
use crate::sip::types::{Method, RequestLine, SipMessage, StartLine};
use crate::text::{eq_ignore_ascii_case, split_whitespace, utf8_text};
use vstd::prelude::*;
use vstd::string::*;

verus! {

use crate::sip::parse::common::{blank_line_at, first_blank_line, uri_of};
use crate::sip::parse::headers::headers_of;
use crate::sip::types::{method_of, MessageView, RequestLineView, StartLineView};
use crate::text::{lemma_text_of_bytes, same_ignoring_case, split_text, texts, words};
use vstd::utf8::{decode_utf8, encode_utf8, valid_utf8};

/// The request line that a text denotes: exactly the words method, URI and version.
pub open spec fn request_line_of(line: Seq<char>) -> Result<RequestLineView, SipParseError> {
    let w = words(line);
    if w.len() < 3 {
        Err(SipParseError::InvalidRequestLine)
    } else if !same_ignoring_case(w[2], "SIP/2.0"@) {
        Err(SipParseError::UnsupportedVersion)
    } else if w.len() > 3 {
        Err(SipParseError::InvalidRequestLine)
    } else {
        match uri_of(w[1]) {
            Some(uri) => Ok(RequestLineView { method: method_of(w[0]), uri, version: w[2] }),
            None => Err(SipParseError::InvalidUri),
        }
    }
}

/// The request that a text denotes: request line, headers, an empty line, body.
pub open spec fn request_of(input: Seq<char>) -> Result<MessageView, SipParseError> {
    match split_text(input, seq!['\r', '\n']) {
        Some((line, rest)) => match request_line_of(line) {
            Ok(request_line) => match split_text(rest, seq!['\r', '\n', '\r', '\n']) {
                Some((block, body)) => match headers_of(block) {
                    Ok(headers) => Ok(
                        MessageView {
                            start_line: StartLineView::Request(request_line),
                            headers,
                            body: encode_utf8(body),
                        },
                    ),
                    Err(e) => Err(e),
                },
                None => Err(SipParseError::UnexpectedEof),
            },
            Err(e) => Err(e),
        },
        None => Err(SipParseError::UnexpectedEof),
    }
}

/// The request that a head and a body make up: the head is the request line and the headers.
pub open spec fn request_of_head(head: Seq<char>, body: Seq<u8>) -> Result<
    MessageView,
    SipParseError,
> {
    match split_text(head, seq!['\r', '\n']) {
        Some((line, block)) => match request_line_of(line) {
            Ok(request_line) => match headers_of(block) {
                Ok(headers) => Ok(
                    MessageView {
                        start_line: StartLineView::Request(request_line),
                        headers,
                        body,
                    },
                ),
                Err(e) => Err(e),
            },
            Err(e) => Err(e),
        },
        None => Err(SipParseError::UnexpectedEof),
    }
}

/// The request that bytes denote when the first empty line stands at `at`. Only the head has to be
/// UTF-8.
pub open spec fn request_of_bytes(input: Seq<u8>, at: int) -> Result<MessageView, SipParseError> {
    if valid_utf8(input.take(at)) {
        request_of_head(decode_utf8(input.take(at)), input.skip(at + 4))
    } else {
        Err(SipParseError::InvalidHeaderValue)
    }
}

/// Whether a parse result has the given meaning.
pub open spec fn result_means(
    r: Result<SipMessage<'_>, SipParseError>,
    meaning: Result<MessageView, SipParseError>,
) -> bool {
    match r {
        Ok(message) => meaning == Ok::<MessageView, SipParseError>(message@),
        Err(e) => meaning == Err::<MessageView, SipParseError>(e),
    }
}

/// Parses a request line.
pub fn parse_request_line<'a>(line: &'a str) -> (r: Result<RequestLine<'a>, SipParseError>)
    ensures
        match r {
            Ok(request_line) => request_line_of(line@) == Ok::<RequestLineView, SipParseError>(
                request_line@,
            ),
            Err(e) => request_line_of(line@) == Err::<RequestLineView, SipParseError>(e),
        },
{
    let w = split_whitespace(line);
    assert(texts(w@) == words(line@));
    if w.len() < 3 {
        return Err(SipParseError::InvalidRequestLine);
    }
    let version = w[2];
    if !eq_ignore_ascii_case(version, "SIP/2.0") {
        return Err(SipParseError::UnsupportedVersion);
    }
    if w.len() > 3 {
        return Err(SipParseError::InvalidRequestLine);
    }
    match parse_sip_uri(w[1]) {
        Ok(uri) => Ok(RequestLine { method: Method::from_token(w[0]), uri, version }),
        Err(e) => Err(e),
    }
}

/// Parses a request that is text throughout.
pub fn parse_request<'a>(input: &'a str) -> (r: Result<SipMessage<'a>, SipParseError>)
    ensures
        result_means(r, request_of(input@)),
{
    let (line, rest) = match split_first_line(input) {
        Ok(halves) => halves,
        Err(e) => {
            return Err(e);
        },
    };
    let request_line = match parse_request_line(line) {
        Ok(request_line) => request_line,
        Err(e) => {
            return Err(e);
        },
    };
    let (block, body) = match split_headers_body(rest) {
        Ok(halves) => halves,
        Err(e) => {
            return Err(e);
        },
    };
    match parse_headers(block) {
        Ok(headers) => Ok(
            SipMessage {
                start_line: StartLine::Request(request_line),
                headers,
                body: body.as_bytes(),
            },
        ),
        Err(e) => Err(e),
    }
}

/// Parses a request whose body may be any bytes.
pub fn parse_request_bytes<'a>(input: &'a [u8]) -> (r: Result<SipMessage<'a>, SipParseError>)
    ensures
        (forall|k: int| !#[trigger] blank_line_at(input@, k)) ==> result_means(
            r,
            Err(SipParseError::UnexpectedEof),
        ),
        forall|at: int| #[trigger]
            first_blank_line(input@, at) ==> result_means(r, request_of_bytes(input@, at)),
{
    let (head, body) = match split_headers_body_bytes(input) {
        Ok(halves) => halves,
        Err(e) => {
            return Err(e);
        },
    };
    let ghost split = head@.len() as int;
    assert(blank_line_at(input@, split));
    assert forall|at: int| #[trigger] first_blank_line(input@, at) implies at == split by {
        assert(blank_line_at(input@, at));
    }
    let head_text = match utf8_text(head) {
        Ok(text) => text,
        Err(_) => {
            return Err(SipParseError::InvalidHeaderValue);
        },
    };
    proof {
        lemma_text_of_bytes(head_text, head@);
    }
    let (line, block) = match split_first_line(head_text) {
        Ok(halves) => halves,
        Err(e) => {
            return Err(e);
        },
    };
    let request_line = match parse_request_line(line) {
        Ok(request_line) => request_line,
        Err(e) => {
            return Err(e);
        },
    };
    match parse_headers(block) {
        Ok(headers) => Ok(
            SipMessage { start_line: StartLine::Request(request_line), headers, body },
        ),
        Err(e) => Err(e),
    }
}

} // verus!
