//! Reading responses.
use crate::sip::error::SipParseError;
use crate::sip::parse::common::{only_digits, split_first_line, split_headers_body};
use crate::sip::parse::headers::parse_headers;
use crate::sip::types::{SipMessage, StartLine, StatusLine};
use crate::text::{after_first, eq_ignore_ascii_case, first_char, parse_decimal, split_once, trim_start};
use vstd::prelude::*;
use vstd::string::*;

verus! {

use crate::sip::parse::headers::headers_of;
use crate::sip::parse::request::result_means;
use crate::sip::types::{MessageView, StartLineView, StatusLineView};
use crate::text::{all_digits, digits_value, same_ignoring_case, split_char, split_text, trimmed_start};
use vstd::utf8::encode_utf8;

/// The status code and the reason phrase that a text denotes: three digits, then optionally a space
/// and the reason.
pub open spec fn status_of(text: Seq<char>) -> Option<(u16, Seq<char>)> {
    let (code, reason) = match split_char(text, ' ') {
        Some((code, rest)) => (code, trimmed_start(rest)),
        None => (text, Seq::empty()),
    };
    if code.len() == 3 && all_digits(code) {
        Some((digits_value(code) as u16, reason))
    } else {
        None
    }
}

/// The status line that a text denotes: version, a space, status code and reason phrase.
pub open spec fn status_line_of(line: Seq<char>) -> Result<StatusLineView, SipParseError> {
    match split_char(line, ' ') {
        Some((version, rest)) => if !same_ignoring_case(version, "SIP/2.0"@) {
            Err(SipParseError::UnsupportedVersion)
        } else {
            match status_of(trimmed_start(rest)) {
                Some((status_code, reason)) => Ok(
                    StatusLineView { version, status_code, reason },
                ),
                None => Err(SipParseError::InvalidStatusLine),
            }
        },
        None => Err(SipParseError::InvalidStatusLine),
    }
}

/// The response that a text denotes: status line, headers, an empty line, body.
pub open spec fn response_of(input: Seq<char>) -> Result<MessageView, SipParseError> {
    match split_text(input, seq!['\r', '\n']) {
        Some((line, rest)) => match status_line_of(line) {
            Ok(status_line) => match split_text(rest, seq!['\r', '\n', '\r', '\n']) {
                Some((block, body)) => match headers_of(block) {
                    Ok(headers) => Ok(
                        MessageView {
                            start_line: StartLineView::Response(status_line),
                            headers,
                            body: encode_utf8(body),
                        },
                    ),
                    Err(e) => Err(e),
                },
                None => Err(SipParseError::UnexpectedEof),
            },
            Err(e) => Err(e),
        },
        None => Err(SipParseError::UnexpectedEof),
    }
}

/// Reads a status code of three digits.
fn parse_status_code(text: &str) -> (r: Option<u16>)
    ensures
        r == (if text@.len() == 3 && all_digits(text@) {
            Some(digits_value(text@) as u16)
        } else {
            None
        }),
{
    if !only_digits(text) {
        return None;
    }
    let mut x: &str = text;
    let mut n: usize = 0;
    loop
        invariant
            n <= 3,
            n + x@.len() == text@.len(),
            all_digits(text@),
        ensures
            text@.len() == 3,
        decreases x@.len(),
    {
        if first_char(x).is_none() {
            if n != 3 {
                return None;
            }
            break;
        }
        if n == 3 {
            return None;
        }
        x = after_first(x);
        n += 1;
    }
    proof {
        lemma_three_digits(text@);
    }
    match parse_decimal(text, 65535) {
        Some(code) => Some(code as u16),
        None => None,
    }
}

proof fn lemma_three_digits(s: Seq<char>)
    requires
        s.len() == 3,
        all_digits(s),
    ensures
        0 <= digits_value(s) <= 999,
        s[0] != '+',
{
    reveal_with_fuel(digits_value, 4);
    assert(crate::text::is_digit(s[0]) && crate::text::is_digit(s[1]) && crate::text::is_digit(s[2]));
    assert(s.drop_last().drop_last().drop_last() =~= Seq::<char>::empty());
}

/// Parses a status line.
pub fn parse_status_line<'a>(line: &'a str) -> (r: Result<StatusLine<'a>, SipParseError>)
    ensures
        match r {
            Ok(status_line) => status_line_of(line@) == Ok::<StatusLineView, SipParseError>(
                status_line@,
            ),
            Err(e) => status_line_of(line@) == Err::<StatusLineView, SipParseError>(e),
        },
{
    let (version, tail) = match split_once(line, ' ') {
        Some(halves) => halves,
        None => {
            return Err(SipParseError::InvalidStatusLine);
        },
    };
    if !eq_ignore_ascii_case(version, "SIP/2.0") {
        return Err(SipParseError::UnsupportedVersion);
    }
    let rest = trim_start(tail);
    let (code_text, reason) = match split_once(rest, ' ') {
        Some((code_text, reason)) => (code_text, trim_start(reason)),
        None => {
            proof {
                reveal_strlit("");
                assert(""@ =~= Seq::<char>::empty());
            }
            (rest, "")
        },
    };
    match parse_status_code(code_text) {
        Some(status_code) => Ok(StatusLine { version, status_code, reason }),
        None => Err(SipParseError::InvalidStatusLine),
    }
}

/// Parses a response.
pub fn parse_response<'a>(input: &'a str) -> (r: Result<SipMessage<'a>, SipParseError>)
    ensures
        result_means(r, response_of(input@)),
{
    let (line, rest) = match split_first_line(input) {
        Ok(halves) => halves,
        Err(e) => {
            return Err(e);
        },
    };
    let status_line = match parse_status_line(line) {
        Ok(status_line) => status_line,
        Err(e) => {
            return Err(e);
        },
    };
    let (block, body) = match split_headers_body(rest) {
        Ok(halves) => halves,
        Err(e) => {
            return Err(e);
        },
    };
    match parse_headers(block) {
        Ok(headers) => Ok(
            SipMessage {
                start_line: StartLine::Response(status_line),
                headers,
                body: body.as_bytes(),
            },
        ),
        Err(e) => Err(e),
    }
}

} // verus!
