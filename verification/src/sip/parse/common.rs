//! Lines, linear white space, tokens and URIs.
use crate::sip::error::SipParseError;
use crate::sip::types::{SipScheme, SipUri};
use crate::text::{
    after_first, drop_last_ascii, eq_ignore_ascii_case, first_char, last_ascii, parse_decimal,
    rsplit_once, split_at_text, split_once, split_until,
};
use vstd::prelude::*;

verus! {

use crate::sip::types::UriView;
use crate::text::{
    all_digits, decimal_value, is_digit, is_tail, same_ignoring_case, split_char, split_last,
    split_text, until,
};

/// A space or a tab.
pub open spec fn is_blank(c: char) -> bool {
    c == ' ' || c == '\t'
}

/// The text behind the linear white space it begins with. Spaces, tabs and line ends are linear
/// white space.
pub open spec fn skipped_lws(s: Seq<char>) -> Seq<char>
    decreases s.len(),
{
    if s.len() > 0 && is_blank(s[0]) {
        skipped_lws(s.drop_first())
    } else if s.len() > 1 && s[0] == '\r' && s[1] == '\n' {
        skipped_lws(s.skip(2))
    } else {
        s
    }
}

/// The text without the linear white space it ends with.
pub open spec fn trimmed_lws_end(s: Seq<char>) -> Seq<char>
    decreases s.len(),
{
    if s.len() > 0 && is_blank(s.last()) {
        trimmed_lws_end(s.drop_last())
    } else if s.len() > 1 && s.last() == '\n' && s[s.len() - 2] == '\r' {
        trimmed_lws_end(s.take(s.len() - 2))
    } else {
        s
    }
}

/// Splits off the first line.
pub fn split_first_line<'a>(input: &'a str) -> (r: Result<(&'a str, &'a str), SipParseError>)
    ensures
        match r {
            Ok((line, rest)) => split_text(input@, seq!['\r', '\n']) == Some((line@, rest@)),
            Err(e) => split_text(input@, seq!['\r', '\n']) is None && e
                == SipParseError::UnexpectedEof,
        },
{
    proof {
        reveal_strlit("\r\n");
        assert("\r\n"@ =~= seq!['\r', '\n']);
    }
    match split_at_text(input, "\r\n") {
        Some(halves) => Ok(halves),
        None => Err(SipParseError::UnexpectedEof),
    }
}

/// Splits headers and body at the first empty line.
pub fn split_headers_body<'a>(input: &'a str) -> (r: Result<(&'a str, &'a str), SipParseError>)
    ensures
        match r {
            Ok((headers, body)) => split_text(input@, seq!['\r', '\n', '\r', '\n']) == Some(
                (headers@, body@),
            ),
            Err(e) => split_text(input@, seq!['\r', '\n', '\r', '\n']) is None && e
                == SipParseError::UnexpectedEof,
        },
{
    proof {
        reveal_strlit("\r\n\r\n");
        assert("\r\n\r\n"@ =~= seq!['\r', '\n', '\r', '\n']);
    }
    match split_at_text(input, "\r\n\r\n") {
        Some(halves) => Ok(halves),
        None => Err(SipParseError::UnexpectedEof),
    }
}

/// Whether an empty line, that is, two line ends in a row, stands at `at`.
pub open spec fn blank_line_at(bytes: Seq<u8>, at: int) -> bool {
    &&& 0 <= at
    &&& at + 4 <= bytes.len()
    &&& bytes[at] == 13
    &&& bytes[at + 1] == 10
    &&& bytes[at + 2] == 13
    &&& bytes[at + 3] == 10
}

/// Whether the first empty line stands at `at`.
pub open spec fn first_blank_line(bytes: Seq<u8>, at: int) -> bool {
    &&& blank_line_at(bytes, at)
    &&& forall|k: int| 0 <= k < at ==> !#[trigger] blank_line_at(bytes, k)
}

/// Splits headers and body at the first empty line, on bytes.
pub fn split_headers_body_bytes<'a>(input: &'a [u8]) -> (r: Result<
    (&'a [u8], &'a [u8]),
    SipParseError,
>)
    ensures
        match r {
            Ok((headers, body)) => {
                &&& first_blank_line(input@, headers@.len() as int)
                &&& headers@ == input@.take(headers@.len() as int)
                &&& body@ == input@.skip(headers@.len() as int + 4)
            },
            Err(e) => {
                &&& e == SipParseError::UnexpectedEof
                &&& forall|k: int| !#[trigger] blank_line_at(input@, k)
            },
        },
{
    let n: usize = input.len();
    let mut i: usize = 0;
    while i < n && n - i >= 4
        invariant
            i <= n,
            n == input@.len(),
            forall|k: int| 0 <= k < i ==> !#[trigger] blank_line_at(input@, k),
        decreases n - i,
    {
        if input[i] == 13 && input[i + 1] == 10 && input[i + 2] == 13 && input[i + 3] == 10 {
            assert(blank_line_at(input@, i as int));
            let headers = &input[0..i];
            let body = &input[i + 4..n];
            assert(headers@ =~= input@.take(i as int));
            assert(body@ =~= input@.skip(i as int + 4));
            return Ok((headers, body));
        }
        i += 1;
    }
    Err(SipParseError::UnexpectedEof)
}

/// Linear white space is skipped from the front only.
pub proof fn lemma_skipped_lws(s: Seq<char>)
    ensures
        is_tail(s, skipped_lws(s)),
        skipped_lws(skipped_lws(s)) == skipped_lws(s),
    decreases s.len(),
{
    let r = skipped_lws(s);
    if s.len() > 0 && is_blank(s[0]) {
        lemma_skipped_lws(s.drop_first());
        assert(r =~= s.skip(s.len() - r.len()));
    } else if s.len() > 1 && s[0] == '\r' && s[1] == '\n' {
        lemma_skipped_lws(s.skip(2));
        assert(r =~= s.skip(s.len() - r.len()));
    } else {
        assert(s =~= s.skip(0));
    }
}

/// Skips linear white space.
pub fn skip_lws<'a>(input: &'a str) -> (r: &'a str)
    ensures
        r@ == skipped_lws(input@),
        is_tail(input@, r@),
{
    let mut x: &'a str = input;
    proof {
        lemma_skipped_lws(input@);
    }
    loop
        invariant
            skipped_lws(input@) == skipped_lws(x@),
            is_tail(input@, skipped_lws(input@)),
        decreases x@.len(),
    {
        let c: char = match first_char(x) {
            Some(c) => c,
            None => {
                return x;
            },
        };
        let rest = after_first(x);
        if c == ' ' || c == '\t' {
            x = rest;
        } else if c == '\r' {
            match first_char(rest) {
                Some(d) => {
                    if d != '\n' {
                        return x;
                    }
                },
                None => {
                    return x;
                },
            }
            let next = after_first(rest);
            assert(next@ =~= x@.skip(2));
            x = next;
        } else {
            return x;
        }
    }
}

/// Removes linear white space from the end.
pub fn trim_lws_end<'a>(input: &'a str) -> (r: &'a str)
    ensures
        r@ == trimmed_lws_end(input@),
{
    let mut x: &'a str = input;
    loop
        invariant
            trimmed_lws_end(input@) == trimmed_lws_end(x@),
        decreases x@.len(),
    {
        let b: u8 = match last_ascii(x) {
            Some(b) => b,
            None => {
                return x;
            },
        };
        if b == 32 || b == 9 {
            assert(is_blank(x@.last()));
            x = drop_last_ascii(x);
        } else if b == 10 {
            let shorter = drop_last_ascii(x);
            match last_ascii(shorter) {
                Some(d) => {
                    if d != 13 {
                        return x;
                    }
                },
                None => {
                    return x;
                },
            }
            let next = drop_last_ascii(shorter);
            assert(next@ =~= x@.take(x@.len() - 2));
            x = next;
        } else {
            return x;
        }
    }
}

/// Characters that end a token, besides those that the context adds.
pub open spec fn token_stops(extra: Seq<char>) -> Seq<char> {
    seq!['\r', ' ', '\t'] + extra
}

/// Splits off a token that ends at white space or at a semicolon.
pub fn take_token_until_semicolon<'a>(input: &'a str) -> (r: (&'a str, &'a str))
    ensures
        0 <= until(input@, token_stops(seq![';'])) <= input@.len(),
        r.0@ == input@.take(until(input@, token_stops(seq![';']))),
        r.1@ == input@.skip(until(input@, token_stops(seq![';']))),
{
    let stops: [char; 4] = ['\r', ' ', '\t', ';'];
    assert(stops@ =~= token_stops(seq![';']));
    split_until(input, &stops)
}

/// Splits off a token that ends at white space, an equals sign or a semicolon.
pub fn take_token_until_value<'a>(input: &'a str) -> (r: (&'a str, &'a str))
    ensures
        0 <= until(input@, token_stops(seq!['=', ';'])) <= input@.len(),
        r.0@ == input@.take(until(input@, token_stops(seq!['=', ';']))),
        r.1@ == input@.skip(until(input@, token_stops(seq!['=', ';']))),
{
    let stops: [char; 5] = ['\r', ' ', '\t', '=', ';'];
    assert(stops@ =~= token_stops(seq!['=', ';']));
    split_until(input, &stops)
}

/// Splits off a token that ends at white space.
pub fn take_token<'a>(input: &'a str) -> (r: (&'a str, &'a str))
    ensures
        0 <= until(input@, token_stops(Seq::empty())) <= input@.len(),
        r.0@ == input@.take(until(input@, token_stops(Seq::empty()))),
        r.1@ == input@.skip(until(input@, token_stops(Seq::empty()))),
{
    let stops: [char; 3] = ['\r', ' ', '\t'];
    assert(stops@ =~= token_stops(Seq::empty()));
    split_until(input, &stops)
}

/// Whether every character is a digit.
pub fn only_digits(text: &str) -> (r: bool)
    ensures
        r == all_digits(text@),
{
    let mut x: &str = text;
    let ghost mut n: int = 0;
    loop
        invariant
            0 <= n <= text@.len(),
            x@ == text@.skip(n),
            forall|i: int| 0 <= i < n ==> is_digit(#[trigger] text@[i]),
        decreases x@.len(),
    {
        match first_char(x) {
            Some(c) => {
                if c < '0' || c > '9' {
                    assert(!is_digit(text@[n]));
                    return false;
                }
            },
            None => {
                return true;
            },
        }
        x = after_first(x);
        proof {
            assert(x@ =~= text@.skip(n + 1));
            n = n + 1;
        }
    }
}

/// The scheme that a text names, whatever its case.
pub open spec fn scheme_of(text: Seq<char>) -> Option<SipScheme> {
    if same_ignoring_case(text, "sip"@) {
        Some(SipScheme::Sip)
    } else if same_ignoring_case(text, "sips"@) {
        Some(SipScheme::Sips)
    } else {
        None
    }
}

/// A number of at most 16 bits.
pub open spec fn port_of(text: Seq<char>) -> Option<u16> {
    match decimal_value(text, u16::MAX as int) {
        Some(n) => Some(n as u16),
        None => None,
    }
}

/// Host and port that a text denotes, or nothing where it is malformed. The host of an IPv6
/// reference stands in brackets. A last colon that digits follow is in front of a port.
pub open spec fn host_port_of(text: Seq<char>) -> Option<(Seq<char>, Option<u16>)> {
    if text.len() > 0 && text[0] == '[' {
        match split_char(text.drop_first(), ']') {
            Some((host, tail)) => if tail.len() == 0 {
                Some((host, None))
            } else if tail[0] != ':' {
                None
            } else {
                match port_of(tail.drop_first()) {
                    Some(port) => Some((host, Some(port))),
                    None => None,
                }
            },
            None => None,
        }
    } else {
        match split_last(text, ':') {
            Some((host, digits)) => if digits.len() > 0 && all_digits(digits) {
                match port_of(digits) {
                    Some(port) => Some((host, Some(port))),
                    None => None,
                }
            } else {
                Some((text, None))
            },
            None => Some((text, None)),
        }
    }
}

/// What stands in front of the last at sign, and what stands behind it.
pub open spec fn userinfo_of(text: Seq<char>) -> (Option<Seq<char>>, Seq<char>) {
    match split_last(text, '@') {
        Some((user, rest)) => (Some(user), rest),
        None => (None, text),
    }
}

/// What stands in front of the first semicolon, and the parameters from there on.
pub open spec fn params_of(text: Seq<char>) -> (Seq<char>, Option<Seq<char>>) {
    let at = until(text, seq![';']);
    if at == text.len() {
        (text, None)
    } else {
        (text.take(at), Some(text.skip(at)))
    }
}

/// What stands in front of the first question mark, and the headers behind it.
pub open spec fn uri_headers_of(text: Seq<char>) -> (Seq<char>, Option<Seq<char>>) {
    match split_char(text, '?') {
        Some((head, headers)) => (head, Some(headers)),
        None => (text, None),
    }
}

/// The URI that a text denotes, or nothing where it is malformed.
pub open spec fn uri_of(text: Seq<char>) -> Option<UriView> {
    let slice = trimmed_lws_end(skipped_lws(text));
    match split_char(slice, ':') {
        Some((scheme_name, body)) => match scheme_of(scheme_name) {
            Some(scheme) => {
                let (no_headers, headers) = uri_headers_of(body);
                let (no_params, params) = params_of(no_headers);
                let (userinfo, host_port) = userinfo_of(no_params);
                match host_port_of(host_port) {
                    Some((host, port)) => if host.len() > 0 {
                        Some(UriView { scheme, userinfo, host, port, params, headers })
                    } else {
                        None
                    },
                    None => None,
                }
            },
            None => None,
        },
        None => None,
    }
}

/// Reads a port.
fn parse_port(text: &str) -> (r: Option<u16>)
    ensures
        r == port_of(text@),
{
    match parse_decimal(text, 65535) {
        Some(n) => Some(n as u16),
        None => None,
    }
}

/// Reads host and port.
fn parse_host_port<'a>(text: &'a str) -> (r: Option<(&'a str, Option<u16>)>)
    ensures
        match r {
            Some((host, port)) => host_port_of(text@) == Some((host@, port)),
            None => host_port_of(text@) is None,
        },
{
    let bracket: bool = match first_char(text) {
        Some(c) => c == '[',
        None => false,
    };
    if bracket {
        match split_once(after_first(text), ']') {
            Some((host, tail)) => match first_char(tail) {
                None => Some((host, None)),
                Some(c) => if c != ':' {
                    None
                } else {
                    match parse_port(after_first(tail)) {
                        Some(port) => Some((host, Some(port))),
                        None => None,
                    }
                },
            },
            None => None,
        }
    } else {
        match rsplit_once(text, ':') {
            Some((host, digits)) => if first_char(digits).is_some() && only_digits(digits) {
                match parse_port(digits) {
                    Some(port) => Some((host, Some(port))),
                    None => None,
                }
            } else {
                Some((text, None))
            },
            None => Some((text, None)),
        }
    }
}

/// Parses a SIP or SIPS URI.
pub fn parse_sip_uri<'a>(input: &'a str) -> (r: Result<SipUri<'a>, SipParseError>)
    ensures
        match r {
            Ok(uri) => uri_of(input@) == Some(uri@),
            Err(e) => uri_of(input@) is None && e == SipParseError::InvalidUri,
        },
{
    let slice = trim_lws_end(skip_lws(input));
    let (scheme_name, body) = match split_once(slice, ':') {
        Some(halves) => halves,
        None => {
            return Err(SipParseError::InvalidUri);
        },
    };
    let scheme = if eq_ignore_ascii_case(scheme_name, "sip") {
        SipScheme::Sip
    } else if eq_ignore_ascii_case(scheme_name, "sips") {
        SipScheme::Sips
    } else {
        return Err(SipParseError::InvalidUri);
    };
    let mut rest: &'a str = body;
    let mut headers: Option<&'a str> = None;
    if let Some((head, tail)) = split_once(rest, '?') {
        headers = Some(tail);
        rest = head;
    }
    let semicolon: [char; 1] = [';'];
    assert(semicolon@ =~= seq![';']);
    let mut params: Option<&'a str> = None;
    let ghost no_headers = rest@;
    let (head, tail) = split_until(rest, &semicolon);
    if first_char(tail).is_some() {
        params = Some(tail);
        rest = head;
    }
    assert(params_of(no_headers) == (rest@, crate::sdp::text_view(params)));
    let mut userinfo: Option<&'a str> = None;
    if let Some((user, host)) = rsplit_once(rest, '@') {
        userinfo = Some(user);
        rest = host;
    }
    match parse_host_port(rest) {
        Some((host, port)) => {
            if first_char(host).is_none() {
                return Err(SipParseError::InvalidUri);
            }
            Ok(SipUri { scheme, userinfo, host, port, params, headers })
        },
        None => Err(SipParseError::InvalidUri),
    }
}

} // verus!
