//! Header lines, folding, and the headers that have a structure of their own.
use crate::sip::error::SipParseError;
use crate::sip::parse::common::{
    only_digits, parse_sip_uri, skip_lws, take_token, take_token_until_semicolon,
    take_token_until_value, trim_lws_end,
};
use crate::sip::types::{
    CSeqHeader, CallIdHeader, ContactHeader, Header, HeaderKind, HeaderName, MaxForwardsHeader,
    Method, NameAddr, ViaHeader, ViaParamRport,
};
use crate::text::{
    after_first, before, behind, eq_ignore_ascii_case, first_char, parse_decimal, rsplit_once,
    split_at_text, split_once, text_eq, trim_end,
};
use vstd::prelude::*;

verus! {

use crate::sdp::text_view;
use crate::sip::parse::common::{
    is_blank, lemma_skipped_lws, port_of, skipped_lws, token_stops, trimmed_lws_end, uri_of,
};
use crate::sip::types::{header_views, kind_of, method_of, HeaderView, NameAddrView, ViaView};
use crate::text::{
    all_digits, decimal_value, find_text, is_tail, lemma_find_text, lemma_until, same_ignoring_case,
    split_char, split_last, trimmed_end, until,
};

/// Host and port of a sender, or nothing where the port does not fit in 16 bits. A last colon that
/// digits follow is in front of a port.
pub open spec fn sent_by_of(text: Seq<char>) -> Option<(Seq<char>, Option<u16>)> {
    match split_last(text, ':') {
        Some((host, digits)) => if digits.len() > 0 && all_digits(digits) {
            match port_of(digits) {
                Some(port) => Some((host, Some(port))),
                None => None,
            }
        } else {
            Some((text, None))
        },
        None => Some((text, None)),
    }
}

/// The parameters of a `Via` header that have a meaning of their own.
pub struct ViaParams {
    /// The `branch` parameter.
    pub branch: Option<Seq<char>>,
    /// The `received` parameter.
    pub received: Option<Seq<char>>,
    /// The `rport` parameter.
    pub rport: ViaParamRport,
}

/// What one parameter sets. `branch` and `received` count only with a value; `rport` needs none,
/// but a value must be a port.
pub open spec fn set_via_param(
    params: ViaParams,
    name: Seq<char>,
    value: Option<Seq<char>>,
) -> Option<ViaParams> {
    if same_ignoring_case(name, "branch"@) {
        match value {
            Some(value) => Some(ViaParams { branch: Some(value), ..params }),
            None => Some(params),
        }
    } else if same_ignoring_case(name, "received"@) {
        match value {
            Some(value) => Some(ViaParams { received: Some(value), ..params }),
            None => Some(params),
        }
    } else if same_ignoring_case(name, "rport"@) {
        match value {
            Some(value) => if value.len() == 0 {
                Some(ViaParams { rport: ViaParamRport::Requested, ..params })
            } else {
                match port_of(value) {
                    Some(port) => Some(ViaParams { rport: ViaParamRport::Value(port), ..params }),
                    None => None,
                }
            },
            None => Some(ViaParams { rport: ViaParamRport::Requested, ..params }),
        }
    } else {
        Some(params)
    }
}

/// A parameter behind its semicolon: name, value, and what follows.
pub open spec fn via_param_at(s: Seq<char>) -> (Seq<char>, Option<Seq<char>>, Seq<char>) {
    let a = skipped_lws(s);
    let n = until(a, token_stops(seq!['=', ';']));
    let name = a.take(n);
    let b = a.skip(n);
    if name.len() > 0 && b.len() > 0 && b[0] == '=' {
        let c = skipped_lws(b.drop_first());
        let m = until(c, token_stops(seq![';']));
        (name, Some(c.take(m)), c.skip(m))
    } else {
        (name, None, b)
    }
}

/// What follows a parameter is shorter than what the parameter stands in.
pub proof fn lemma_via_param_at(s: Seq<char>)
    ensures
        via_param_at(s).2.len() <= s.len(),
        skipped_lws(via_param_at(s).2).len() <= s.len(),
{
    let a = skipped_lws(s);
    lemma_skipped_lws(s);
    let n = until(a, token_stops(seq!['=', ';']));
    lemma_until(a, token_stops(seq!['=', ';']));
    let b = a.skip(n);
    if b.len() > 0 {
        lemma_skipped_lws(b.drop_first());
        let c = skipped_lws(b.drop_first());
        lemma_until(c, token_stops(seq![';']));
    }
    lemma_skipped_lws(via_param_at(s).2);
}

/// What a list of parameters sets on top of others, or nothing where one is malformed. Text between
/// parameters is passed over.
pub open spec fn via_params_of(s: Seq<char>, params: ViaParams) -> Option<ViaParams>
    decreases s.len(),
    via via_params_decreases
{
    if s.len() == 0 {
        Some(params)
    } else if s[0] != ';' {
        via_params_of(s.drop_first(), params)
    } else {
        let (name, value, rest) = via_param_at(s.drop_first());
        if name.len() == 0 {
            via_params_of(rest, params)
        } else {
            match set_via_param(params, name, value) {
                Some(next) => via_params_of(skipped_lws(rest), next),
                None => None,
            }
        }
    }
}

#[via_fn]
proof fn via_params_decreases(s: Seq<char>, params: ViaParams) {
    if s.len() > 0 {
        lemma_via_param_at(s.drop_first());
    }
}

/// No parameter set.
pub open spec fn no_via_params() -> ViaParams {
    ViaParams { branch: None, received: None, rport: ViaParamRport::NotPresent }
}

/// The `Via` header that a value denotes, or nothing where it is malformed: protocol, sender,
/// parameters.
pub open spec fn via_of(value: Seq<char>) -> Option<ViaView> {
    let stops = token_stops(seq![';']);
    let a = skipped_lws(value);
    let sent_protocol = a.take(until(a, stops));
    let b = skipped_lws(a.skip(until(a, stops)));
    let sent_by = b.take(until(b, stops));
    let c = skipped_lws(b.skip(until(b, stops)));
    if sent_protocol.len() == 0 || sent_by.len() == 0 {
        None
    } else {
        match sent_by_of(sent_by) {
            Some((host, port)) => {
                let params = if c.len() > 0 && c[0] == ';' {
                    Some(trimmed_lws_end(c))
                } else {
                    None
                };
                let set = match params {
                    Some(params) => via_params_of(params, no_via_params()),
                    None => Some(no_via_params()),
                };
                match set {
                    Some(set) => Some(
                        ViaView {
                            sent_protocol,
                            host,
                            port,
                            branch: set.branch,
                            received: set.received,
                            rport: set.rport,
                            params,
                        },
                    ),
                    None => None,
                }
            },
            None => None,
        }
    }
}

/// What follows an address, linear white space aside.
pub open spec fn trailing_params(text: Seq<char>) -> Option<Seq<char>> {
    let rest = skipped_lws(text);
    if rest.len() > 0 {
        Some(rest)
    } else {
        None
    }
}

/// The address behind a display name.
pub open spec fn address_of(
    text: Seq<char>,
    display_name: Option<Seq<char>>,
) -> Result<NameAddrView, SipParseError> {
    if text.len() > 0 && text[0] == '<' {
        match split_char(text.drop_first(), '>') {
            Some((inner, rest)) => match uri_of(inner) {
                Some(uri) => Ok(
                    NameAddrView {
                        display_name,
                        uri,
                        params: trailing_params(rest),
                        enclosed: true,
                    },
                ),
                None => Err(SipParseError::InvalidUri),
            },
            None => Err(SipParseError::InvalidNameAddrHeader),
        }
    } else {
        let n = until(text, token_stops(seq![';']));
        if n == 0 {
            Err(SipParseError::InvalidNameAddrHeader)
        } else {
            match uri_of(text.take(n)) {
                Some(uri) => Ok(
                    NameAddrView {
                        display_name,
                        uri,
                        params: trailing_params(text.skip(n)),
                        enclosed: false,
                    },
                ),
                None => Err(SipParseError::InvalidUri),
            }
        }
    }
}

/// The address that a value denotes: an optional display name in quotes, then a URI with or without
/// angle brackets, then parameters.
pub open spec fn name_addr_of(value: Seq<char>) -> Result<NameAddrView, SipParseError> {
    let a = skipped_lws(value);
    if a.len() > 0 && a[0] == '"' {
        match split_char(a.drop_first(), '"') {
            Some((display_name, rest)) => address_of(skipped_lws(rest), Some(display_name)),
            None => Err(SipParseError::InvalidNameAddrHeader),
        }
    } else {
        address_of(a, None)
    }
}

/// The text without linear white space at either end.
pub open spec fn lws_trimmed(s: Seq<char>) -> Seq<char> {
    trimmed_lws_end(skipped_lws(s))
}

/// The `CSeq` header that a value denotes: a number, then a method.
pub open spec fn cseq_of(value: Seq<char>) -> Option<HeaderView> {
    let a = skipped_lws(value);
    let n = until(a, token_stops(Seq::empty()));
    let method = trimmed_lws_end(skipped_lws(a.skip(n)));
    match decimal_value(a.take(n), u32::MAX as int) {
        Some(sequence) => if method.len() > 0 {
            Some(HeaderView::CSeq(sequence as u32, method_of(method)))
        } else {
            None
        },
        None => None,
    }
}

/// The header that a name and a value make up.
pub open spec fn header_of(name: Seq<char>, value: Seq<char>) -> Result<
    HeaderView,
    SipParseError,
> {
    match kind_of(name) {
        HeaderKind::Via => match via_of(value) {
            Some(via) => Ok(HeaderView::Via(via)),
            None => Err(SipParseError::InvalidViaHeader),
        },
        HeaderKind::From => match name_addr_of(value) {
            Ok(addr) => Ok(HeaderView::From(addr)),
            Err(e) => Err(e),
        },
        HeaderKind::To => match name_addr_of(value) {
            Ok(addr) => Ok(HeaderView::To(addr)),
            Err(e) => Err(e),
        },
        HeaderKind::CallId => if lws_trimmed(value).len() > 0 {
            Ok(HeaderView::CallId(lws_trimmed(value)))
        } else {
            Err(SipParseError::InvalidCallId)
        },
        HeaderKind::CSeq => match cseq_of(value) {
            Some(header) => Ok(header),
            None => Err(SipParseError::InvalidCSeq),
        },
        HeaderKind::MaxForwards => match decimal_value(lws_trimmed(value), u32::MAX as int) {
            Some(hops) => Ok(HeaderView::MaxForwards(hops as u32)),
            None => Err(SipParseError::InvalidMaxForwards),
        },
        HeaderKind::Contact => if lws_trimmed(value).len() == 0 {
            Err(SipParseError::InvalidContact)
        } else if lws_trimmed(value) == "*"@ {
            Ok(HeaderView::Contact(None, true))
        } else {
            match name_addr_of(lws_trimmed(value)) {
                Ok(addr) => Ok(HeaderView::Contact(Some(addr), false)),
                Err(e) => Err(e),
            }
        },
        HeaderKind::Other => Ok(HeaderView::Extension(name, HeaderKind::Other, value)),
    }
}

/// Reads host and port of a sender.
fn split_host_port<'a>(input: &'a str) -> (r: Result<(&'a str, Option<u16>), SipParseError>)
    ensures
        match r {
            Ok((host, port)) => sent_by_of(input@) == Some((host@, port)),
            Err(e) => sent_by_of(input@) is None && e == SipParseError::InvalidViaHeader,
        },
{
    if let Some((host, digits)) = rsplit_once(input, ':') {
        if first_char(digits).is_some() && only_digits(digits) {
            return match parse_decimal(digits, 65535) {
                Some(port) => Ok((host, Some(port as u16))),
                None => Err(SipParseError::InvalidViaHeader),
            };
        }
    }
    Ok((input, None))
}

/// Reads a parameter behind its semicolon.
fn parse_via_param<'a>(input: &'a str) -> (r: (&'a str, Option<&'a str>, &'a str))
    ensures
        via_param_at(input@) == (r.0@, text_view(r.1), r.2@),
{
    let a = skip_lws(input);
    let (name, b) = take_token_until_value(a);
    if first_char(name).is_none() {
        return (name, None, b);
    }
    match first_char(b) {
        Some(c) => {
            if c != '=' {
                return (name, None, b);
            }
        },
        None => {
            return (name, None, b);
        },
    }
    let c = skip_lws(after_first(b));
    let (value, rest) = take_token_until_semicolon(c);
    (name, Some(value), rest)
}

/// Parses a `Via` header.
pub fn parse_via<'a>(value: &'a str) -> (r: Result<ViaHeader<'a>, SipParseError>)
    ensures
        match r {
            Ok(via) => via_of(value@) == Some(via@),
            Err(e) => via_of(value@) is None && e == SipParseError::InvalidViaHeader,
        },
{
    let a = skip_lws(value);
    let (sent_protocol, after_protocol) = take_token_until_semicolon(a);
    if first_char(sent_protocol).is_none() {
        return Err(SipParseError::InvalidViaHeader);
    }
    let b = skip_lws(after_protocol);
    let (sent_by, after_sent_by) = take_token_until_semicolon(b);
    if first_char(sent_by).is_none() {
        return Err(SipParseError::InvalidViaHeader);
    }
    let (host, port) = match split_host_port(sent_by) {
        Ok(host_port) => host_port,
        Err(e) => {
            return Err(e);
        },
    };
    let c = skip_lws(after_sent_by);
    let mut params: Option<&'a str> = None;
    if let Some(first) = first_char(c) {
        if first == ';' {
            params = Some(trim_lws_end(c));
        }
    }
    let mut branch: Option<&'a str> = None;
    let mut received: Option<&'a str> = None;
    let mut rport = ViaParamRport::NotPresent;
    if let Some(all) = params {
        let mut x: &'a str = all;
        loop
            invariant
                via_params_of(all@, no_via_params()) == via_params_of(
                    x@,
                    ViaParams { branch: text_view(branch), received: text_view(received), rport },
                ),
                via_of(value@) == (match via_params_of(all@, no_via_params()) {
                    Some(set) => Some(
                        ViaView {
                            sent_protocol: sent_protocol@,
                            host: host@,
                            port,
                            branch: set.branch,
                            received: set.received,
                            rport: set.rport,
                            params: Some(all@),
                        },
                    ),
                    None => None,
                }),
            ensures
                via_params_of(all@, no_via_params()) == Some(
                    ViaParams { branch: text_view(branch), received: text_view(received), rport },
                ),
            decreases x@.len(),
        {
            let first: char = match first_char(x) {
                Some(first) => first,
                None => {
                    break;
                },
            };
            let tail = after_first(x);
            if first != ';' {
                x = tail;
            } else {
                let (name, found, rest) = parse_via_param(tail);
                proof {
                    lemma_via_param_at(tail@);
                }
                if first_char(name).is_none() {
                    x = rest;
                } else {
                    if eq_ignore_ascii_case(name, "branch") {
                        if let Some(v) = found {
                            branch = Some(v);
                        }
                    } else if eq_ignore_ascii_case(name, "received") {
                        if let Some(v) = found {
                            received = Some(v);
                        }
                    } else if eq_ignore_ascii_case(name, "rport") {
                        match found {
                            Some(v) => {
                                if first_char(v).is_none() {
                                    rport = ViaParamRport::Requested;
                                } else {
                                    match parse_decimal(v, 65535) {
                                        Some(p) => {
                                            rport = ViaParamRport::Value(p as u16);
                                        },
                                        None => {
                                            return Err(SipParseError::InvalidViaHeader);
                                        },
                                    }
                                }
                            },
                            None => {
                                rport = ViaParamRport::Requested;
                            },
                        }
                    }
                    x = skip_lws(rest);
                }
            }
        }
    }
    Ok(ViaHeader { sent_protocol, host, port, branch, received, rport, params })
}

/// What follows an address.
fn parse_trailing_params<'a>(text: &'a str) -> (r: Option<&'a str>)
    ensures
        text_view(r) == trailing_params(text@),
{
    let rest = skip_lws(text);
    if first_char(rest).is_some() {
        Some(rest)
    } else {
        None
    }
}

/// Parses a `From` or `To` header, or the address of a `Contact` header.
pub fn parse_name_addr<'a>(value: &'a str) -> (r: Result<NameAddr<'a>, SipParseError>)
    ensures
        match r {
            Ok(addr) => name_addr_of(value@) == Ok::<NameAddrView, SipParseError>(addr@),
            Err(e) => name_addr_of(value@) == Err::<NameAddrView, SipParseError>(e),
        },
{
    let mut text: &'a str = skip_lws(value);
    let mut display_name: Option<&'a str> = None;
    if let Some(first) = first_char(text) {
        if first == '"' {
            match split_once(after_first(text), '"') {
                Some((name, rest)) => {
                    display_name = Some(name);
                    text = skip_lws(rest);
                },
                None => {
                    return Err(SipParseError::InvalidNameAddrHeader);
                },
            }
        }
    }
    assert(name_addr_of(value@) == address_of(text@, text_view(display_name)));
    let enclosed: bool = match first_char(text) {
        Some(first) => first == '<',
        None => false,
    };
    let (uri_text, rest) = if enclosed {
        match split_once(after_first(text), '>') {
            Some(halves) => halves,
            None => {
                return Err(SipParseError::InvalidNameAddrHeader);
            },
        }
    } else {
        let halves = take_token_until_semicolon(text);
        if first_char(halves.0).is_none() {
            return Err(SipParseError::InvalidNameAddrHeader);
        }
        halves
    };
    match parse_sip_uri(uri_text) {
        Ok(uri) => Ok(
            NameAddr { display_name, uri, params: parse_trailing_params(rest), enclosed },
        ),
        Err(e) => Err(e),
    }
}

/// Parses a `Call-ID` header.
pub fn parse_call_id<'a>(value: &'a str) -> (r: Result<CallIdHeader<'a>, SipParseError>)
    ensures
        match r {
            Ok(call_id) => call_id.value@ == lws_trimmed(value@) && lws_trimmed(value@).len() > 0,
            Err(e) => lws_trimmed(value@).len() == 0 && e == SipParseError::InvalidCallId,
        },
{
    let text = trim_lws_end(skip_lws(value));
    if first_char(text).is_none() {
        return Err(SipParseError::InvalidCallId);
    }
    Ok(CallIdHeader { value: text })
}

/// Parses a `CSeq` header.
pub fn parse_cseq<'a>(value: &'a str) -> (r: Result<CSeqHeader<'a>, SipParseError>)
    ensures
        match r {
            Ok(cseq) => cseq_of(value@) == Some(HeaderView::CSeq(cseq.sequence, cseq.method@)),
            Err(e) => cseq_of(value@) is None && e == SipParseError::InvalidCSeq,
        },
{
    let a = skip_lws(value);
    let (number, rest) = take_token(a);
    let sequence: u32 = match parse_decimal(number, u32::MAX) {
        Some(sequence) => sequence,
        None => {
            return Err(SipParseError::InvalidCSeq);
        },
    };
    let method = trim_lws_end(skip_lws(rest));
    if first_char(method).is_none() {
        return Err(SipParseError::InvalidCSeq);
    }
    Ok(CSeqHeader { sequence, method: Method::from_token(method) })
}

/// Parses a `Max-Forwards` header.
pub fn parse_max_forwards(value: &str) -> (r: Result<MaxForwardsHeader, SipParseError>)
    ensures
        match r {
            Ok(max) => decimal_value(lws_trimmed(value@), u32::MAX as int) == Some(
                max.hops as int,
            ),
            Err(e) => decimal_value(lws_trimmed(value@), u32::MAX as int) is None && e
                == SipParseError::InvalidMaxForwards,
        },
{
    let text = trim_lws_end(skip_lws(value));
    match parse_decimal(text, u32::MAX) {
        Some(hops) => Ok(MaxForwardsHeader { hops }),
        None => Err(SipParseError::InvalidMaxForwards),
    }
}

/// Parses a `Contact` header.
pub fn parse_contact<'a>(value: &'a str) -> (r: Result<ContactHeader<'a>, SipParseError>)
    ensures
        ({
            let text = lws_trimmed(value@);
            match r {
                Ok(contact) => {
                    &&& text.len() > 0
                    &&& contact.is_wildcard == (text == "*"@)
                    &&& match contact.address {
                        Some(addr) => text != "*"@ && name_addr_of(text) == Ok::<
                            NameAddrView,
                            SipParseError,
                        >(addr@),
                        None => text == "*"@,
                    }
                },
                Err(e) => if text.len() == 0 {
                    e == SipParseError::InvalidContact
                } else {
                    text != "*"@ && name_addr_of(text) == Err::<NameAddrView, SipParseError>(e)
                },
            }
        }),
{
    let text = trim_lws_end(skip_lws(value));
    if first_char(text).is_none() {
        return Err(SipParseError::InvalidContact);
    }
    if text_eq(text, "*") {
        return Ok(ContactHeader { address: None, is_wildcard: true });
    }
    match parse_name_addr(text) {
        Ok(addr) => Ok(ContactHeader { address: Some(addr), is_wildcard: false }),
        Err(e) => Err(e),
    }
}

/// Parses the value of a header according to its name.
fn build_header<'a>(name: HeaderName<'a>, value: &'a str) -> (r: Result<Header<'a>, SipParseError>)
    requires
        name.kind == kind_of(name.raw@),
    ensures
        match r {
            Ok(header) => header_of(name.raw@, value@) == Ok::<HeaderView, SipParseError>(header@),
            Err(e) => header_of(name.raw@, value@) == Err::<HeaderView, SipParseError>(e),
        },
{
    match name.kind {
        HeaderKind::Via => match parse_via(value) {
            Ok(via) => Ok(Header::Via(via)),
            Err(e) => Err(e),
        },
        HeaderKind::From => match parse_name_addr(value) {
            Ok(addr) => Ok(Header::From(addr)),
            Err(e) => Err(e),
        },
        HeaderKind::To => match parse_name_addr(value) {
            Ok(addr) => Ok(Header::To(addr)),
            Err(e) => Err(e),
        },
        HeaderKind::CallId => match parse_call_id(value) {
            Ok(call_id) => Ok(Header::CallId(call_id)),
            Err(e) => Err(e),
        },
        HeaderKind::CSeq => match parse_cseq(value) {
            Ok(cseq) => Ok(Header::CSeq(cseq)),
            Err(e) => Err(e),
        },
        HeaderKind::MaxForwards => match parse_max_forwards(value) {
            Ok(max) => Ok(Header::MaxForwards(max)),
            Err(e) => Err(e),
        },
        HeaderKind::Contact => match parse_contact(value) {
            Ok(contact) => Ok(Header::Contact(contact)),
            Err(e) => Err(e),
        },
        HeaderKind::Other => Ok(Header::Extension { name, value }),
    }
}

/// A line end.
pub open spec fn crlf() -> Seq<char> {
    seq!['\r', '\n']
}

/// The length of the first line.
pub open spec fn line_len(s: Seq<char>) -> int {
    let at = find_text(s, crlf());
    if at < 0 {
        s.len() as int
    } else {
        at
    }
}

/// The first line lies inside the text, and a line end follows it if anything does.
pub proof fn lemma_line_len(s: Seq<char>)
    ensures
        0 <= line_len(s) <= s.len(),
        line_len(s) < s.len() ==> line_len(s) + 2 <= s.len(),
{
    lemma_find_text(s, crlf());
}

/// Whether the first line continues the header in front of it.
pub open spec fn is_folded(s: Seq<char>) -> bool {
    line_len(s) > 0 && is_blank(s[0])
}

/// Given the text from the end of a line on, the text from the end of the last line that continues
/// it.
pub open spec fn fold_tail(s: Seq<char>) -> Seq<char>
    decreases s.len(),
    via fold_tail_decreases
{
    if s.len() >= 2 && is_folded(s.skip(2)) {
        fold_tail(s.skip(2).skip(line_len(s.skip(2))))
    } else {
        s
    }
}

#[via_fn]
proof fn fold_tail_decreases(s: Seq<char>) {
    if s.len() >= 2 {
        lemma_line_len(s.skip(2));
    }
}

/// Folding ends no earlier than it begins.
pub proof fn lemma_fold_tail(s: Seq<char>)
    ensures
        is_tail(s, fold_tail(s)),
        s.len() == 0 || s.len() >= 2 ==> fold_tail(s).len() == 0 || fold_tail(s).len() >= 2,
    decreases s.len(),
{
    if s.len() >= 2 && is_folded(s.skip(2)) {
        let next = s.skip(2);
        lemma_line_len(next);
        let t = next.skip(line_len(next));
        lemma_fold_tail(t);
        let r = fold_tail(s);
        assert(r =~= s.skip(s.len() - r.len()));
    } else {
        assert(s =~= s.skip(0));
    }
}

/// The text behind the spaces and tabs it begins with.
pub open spec fn skipped_blanks(s: Seq<char>) -> Seq<char>
    decreases s.len(),
{
    if s.len() > 0 && is_blank(s[0]) {
        skipped_blanks(s.drop_first())
    } else {
        s
    }
}

/// One header at the front of a block: its name, its value with folded lines, and the text from the
/// end of its last line on. Nothing where the first line has no colon or no name.
pub open spec fn header_at(s: Seq<char>) -> Option<(Seq<char>, Seq<char>, Seq<char>)> {
    let line = s.take(line_len(s));
    match split_char(line, ':') {
        Some((before_colon, behind_colon)) => {
            let name = trimmed_end(before_colon);
            if name.len() == 0 {
                None
            } else {
                let end = fold_tail(s.skip(line_len(s)));
                let text = s.take(s.len() - end.len());
                let value_start = line.len() - skipped_blanks(behind_colon).len();
                Some((name, trimmed_lws_end(text.skip(value_start)), end))
            }
        },
        None => None,
    }
}

/// What remains behind a line end.
pub open spec fn behind_line_end(s: Seq<char>) -> Seq<char> {
    if s.len() < 2 {
        Seq::empty()
    } else {
        s.skip(2)
    }
}

/// The headers of a block, or the first error. A line that is empty, or that continues no header,
/// is an error.
pub open spec fn headers_of(s: Seq<char>) -> Result<Seq<HeaderView>, SipParseError>
    decreases s.len(),
    via headers_decreases
{
    if s.len() == 0 {
        Ok(Seq::empty())
    } else if line_len(s) == 0 || is_folded(s) {
        Err(SipParseError::InvalidHeaderValue)
    } else {
        match header_at(s) {
            Some((name, value, end)) => {
                let rest = behind_line_end(end);
                if rest.len() > 0 && line_len(rest) == 0 {
                    Err(SipParseError::InvalidHeaderValue)
                } else {
                    match header_of(name, value) {
                        Ok(header) => match headers_of(rest) {
                            Ok(others) => Ok(seq![header] + others),
                            Err(e) => Err(e),
                        },
                        Err(e) => Err(e),
                    }
                }
            },
            None => Err(SipParseError::InvalidHeaderName),
        }
    }
}

#[via_fn]
proof fn headers_decreases(s: Seq<char>) {
    lemma_line_len(s);
    lemma_fold_tail(s.skip(line_len(s)));
}

/// The first line and what follows it, from the line end on.
fn split_line<'a>(input: &'a str) -> (r: (&'a str, &'a str))
    ensures
        0 <= line_len(input@) <= input@.len(),
        r.0@ == input@.take(line_len(input@)),
        r.1@ == input@.skip(line_len(input@)),
        r.1@.len() == 0 || r.1@.len() >= 2,
{
    proof {
        reveal_strlit("\r\n");
        assert("\r\n"@ =~= crlf());
        lemma_line_len(input@);
        lemma_find_text(input@, crlf());
    }
    let line: &'a str = match split_at_text(input, "\r\n") {
        Some((line, _)) => line,
        None => input,
    };
    assert(input@.take(input@.len() as int) =~= input@);
    assert(line@.is_prefix_of(input@));
    (line, behind(input, line))
}

/// Skips spaces and tabs.
fn skip_blanks<'a>(input: &'a str) -> (r: &'a str)
    ensures
        r@ == skipped_blanks(input@),
        is_tail(input@, r@),
{
    let mut x: &'a str = input;
    let ghost mut n: int = 0;
    loop
        invariant
            0 <= n <= input@.len(),
            x@ == input@.skip(n),
            skipped_blanks(input@) == skipped_blanks(x@),
        decreases x@.len(),
    {
        match first_char(x) {
            Some(c) => {
                if c != ' ' && c != '\t' {
                    return x;
                }
            },
            None => {
                return x;
            },
        }
        x = after_first(x);
        proof {
            assert(x@ =~= input@.skip(n + 1));
            n = n + 1;
        }
    }
}

/// What remains behind a line end.
fn skip_line_end<'a>(input: &'a str) -> (r: &'a str)
    requires
        input@.len() == 0 || input@.len() >= 2,
    ensures
        r@ == behind_line_end(input@),
{
    if first_char(input).is_none() {
        assert(input@ =~= Seq::<char>::empty());
        return input;
    }
    let r = after_first(after_first(input));
    assert(r@ =~= input@.skip(2));
    r
}

/// Given the text from the end of a line on, finds the end of the last line that continues it.
fn skip_folds<'a>(input: &'a str) -> (r: &'a str)
    requires
        input@.len() == 0 || input@.len() >= 2,
    ensures
        r@ == fold_tail(input@),
{
    let mut x: &'a str = input;
    loop
        invariant
            x@.len() == 0 || x@.len() >= 2,
            fold_tail(input@) == fold_tail(x@),
        decreases x@.len(),
    {
        if first_char(x).is_none() {
            return x;
        }
        let next = skip_line_end(x);
        let (line, tail) = split_line(next);
        match first_char(line) {
            Some(c) => {
                if c != ' ' && c != '\t' {
                    return x;
                }
            },
            None => {
                return x;
            },
        }
        x = tail;
    }
}

/// Splits the header at the front of a block into name and value.
fn split_header<'a>(x: &'a str) -> (r: Option<(&'a str, &'a str, &'a str)>)
    ensures
        match r {
            Some((name, value, end)) => {
                &&& header_at(x@) == Some((name@, value@, end@))
                &&& end@.len() == 0 || end@.len() >= 2
                &&& end@.len() <= x@.len()
            },
            None => header_at(x@) is None,
        },
{
    let (line, tail) = split_line(x);
    let (before_colon, behind_colon) = match split_once(line, ':') {
        Some(halves) => halves,
        None => {
            return None;
        },
    };
    let name = trim_end(before_colon);
    if first_char(name).is_none() {
        return None;
    }
    let value_in_line = skip_blanks(behind_colon);
    let end = skip_folds(tail);
    proof {
        lemma_fold_tail(tail@);
        lemma_until(line@, seq![':']);
        assert(end@ =~= x@.skip(x@.len() - end@.len()));
        let v = value_in_line@;
        assert(v =~= line@.skip(line@.len() - v.len()));
    }
    let text = before(x, end);
    let head = before(line, value_in_line);
    assert(head@.is_prefix_of(text@)) by {
        assert(head@ =~= text@.subrange(0, head@.len() as int));
    }
    let value = trim_lws_end(behind(text, head));
    Some((name, value, end))
}

/// Parses a block of headers. The last line may lack its line end.
pub fn parse_headers<'a>(input: &'a str) -> (r: Result<Vec<Header<'a>>, SipParseError>)
    ensures
        match r {
            Ok(headers) => headers_of(input@) == Ok::<Seq<HeaderView>, SipParseError>(
                header_views(headers@),
            ),
            Err(e) => headers_of(input@) == Err::<Seq<HeaderView>, SipParseError>(e),
        },
{
    let mut headers: Vec<Header<'a>> = Vec::new();
    let mut x: &'a str = input;
    proof {
        if let Ok(others) = headers_of(x@) {
            assert(header_views(headers@) + others =~= others);
        }
    }
    loop
        invariant
            headers_of(input@) == (match headers_of(x@) {
                Ok(others) => Ok(header_views(headers@) + others),
                Err(e) => Err(e),
            }),
        decreases x@.len(),
    {
        if first_char(x).is_none() {
            assert(header_views(headers@) + Seq::<HeaderView>::empty() =~= header_views(headers@));
            return Ok(headers);
        }
        let (line, tail) = split_line(x);
        match first_char(line) {
            Some(c) => {
                if c == ' ' || c == '\t' {
                    return Err(SipParseError::InvalidHeaderValue);
                }
            },
            None => {
                return Err(SipParseError::InvalidHeaderValue);
            },
        }
        let (name, value, end) = match split_header(x) {
            Some(found) => found,
            None => {
                return Err(SipParseError::InvalidHeaderName);
            },
        };
        let rest = skip_line_end(end);
        if first_char(rest).is_some() {
            let (next_line, _) = split_line(rest);
            if first_char(next_line).is_none() {
                return Err(SipParseError::InvalidHeaderValue);
            }
        }
        match build_header(HeaderName::new(name), value) {
            Ok(header) => {
                let ghost so_far = header_views(headers@);
                headers.push(header);
                proof {
                    assert(header_views(headers@) =~= so_far.push(header@));
                    if let Ok(others) = headers_of(rest@) {
                        assert(so_far + (seq![header@] + others) =~= header_views(headers@)
                            + others);
                    }
                }
            },
            Err(e) => {
                return Err(e);
            },
        }
        x = rest;
    }
}

} // verus!
