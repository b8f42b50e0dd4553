//! Writing SIP messages.
use crate::sip::error::SipFormatError;
use crate::sip::parse::common::{
    skip_lws, take_token_until_semicolon, take_token_until_value, trim_lws_end,
};
use crate::sip::types::{
    Header, HeaderName, NameAddr, RequestLine, SipMessage, SipUri, StartLine, StatusLine,
    ViaHeader, ViaParamRport,
};
use crate::text::{
    after_first, before, eq_ignore_ascii_case, first_char, push_decimal, utf8_text,
};
use vstd::prelude::*;
use vstd::string::*;

verus! {

use crate::sip::parse::common::{lemma_skipped_lws, skipped_lws, token_stops, trimmed_lws_end};
use crate::sip::types::{
    header_views, method_token, scheme_text, HeaderView, NameAddrView, RequestLineView,
    StartLineView, StatusLineView, UriView, ViaView,
};
use crate::text::{decimal, is_tail, lemma_text_of_bytes, lemma_until, same_ignoring_case, until};
use vstd::utf8::{decode_utf8, valid_utf8};

/// A text between two others, if it is there.
pub open spec fn around(lead: Seq<char>, text: Option<Seq<char>>, tail: Seq<char>) -> Seq<char> {
    match text {
        Some(text) => lead + text + tail,
        None => Seq::empty(),
    }
}

/// A port behind its colon, if there is one.
pub open spec fn port_text(port: Option<u16>) -> Seq<char> {
    match port {
        Some(port) => seq![':'] + decimal(port as int),
        None => Seq::empty(),
    }
}

/// The text of a URI.
pub open spec fn uri_text(uri: UriView) -> Seq<char> {
    scheme_text(uri.scheme) + seq![':'] + around(Seq::empty(), uri.userinfo, seq!['@']) + uri.host
        + port_text(uri.port) + around(Seq::empty(), uri.params, Seq::empty()) + around(
        seq!['?'],
        uri.headers,
        Seq::empty(),
    )
}

/// The text of an address. A display name calls for angle brackets.
pub open spec fn name_addr_text(addr: NameAddrView) -> Seq<char> {
    let uri = if addr.enclosed || addr.display_name is Some {
        seq!['<'] + uri_text(addr.uri) + seq!['>']
    } else {
        uri_text(addr.uri)
    };
    around(seq!['"'], addr.display_name, seq!['"', ' ']) + uri + around(
        Seq::empty(),
        addr.params,
        Seq::empty(),
    )
}

/// The text of an `rport` parameter.
pub open spec fn rport_text(rport: ViaParamRport) -> Seq<char> {
    match rport {
        ViaParamRport::NotPresent => Seq::empty(),
        ViaParamRport::Requested => ";rport"@,
        ViaParamRport::Value(port) => ";rport="@ + decimal(port as int),
    }
}

/// The end of the parameter that begins behind the semicolon at the front: its name, and the text
/// from its end on.
pub open spec fn extra_at(s: Seq<char>) -> (Seq<char>, Seq<char>) {
    let a = skipped_lws(s.drop_first());
    let n = until(a, token_stops(seq!['=', ';']));
    let b = a.skip(n);
    if b.len() > 0 && b[0] == '=' {
        let c = skipped_lws(b.drop_first());
        (a.take(n), c.skip(until(c, token_stops(seq![';']))))
    } else {
        (a.take(n), b)
    }
}

/// The text from the end of a parameter on is a tail of the text that the parameter stands in.
pub proof fn lemma_extra_at(s: Seq<char>)
    requires
        s.len() > 0,
    ensures
        is_tail(s, extra_at(s).1),
        extra_at(s).1.len() < s.len(),
        skipped_lws(extra_at(s).1).len() < s.len(),
{
    let t = s.drop_first();
    let a = skipped_lws(t);
    lemma_skipped_lws(t);
    let n = until(a, token_stops(seq!['=', ';']));
    lemma_until(a, token_stops(seq!['=', ';']));
    let b = a.skip(n);
    if b.len() > 0 {
        lemma_skipped_lws(b.drop_first());
        let c = skipped_lws(b.drop_first());
        lemma_until(c, token_stops(seq![';']));
    }
    let end = extra_at(s).1;
    assert(end =~= s.skip(s.len() - end.len()));
    lemma_skipped_lws(end);
}

/// Whether a parameter is written on its own.
pub open spec fn is_named_via_param(name: Seq<char>) -> bool {
    ||| same_ignoring_case(name, "branch"@)
    ||| same_ignoring_case(name, "received"@)
    ||| same_ignoring_case(name, "rport"@)
}

/// The parameters that are not written on their own, each with its semicolon.
pub open spec fn via_extras(s: Seq<char>) -> Seq<char>
    decreases s.len(),
    via via_extras_decreases
{
    if s.len() == 0 {
        Seq::empty()
    } else if s[0] != ';' {
        via_extras(s.drop_first())
    } else {
        let (name, end) = extra_at(s);
        let segment = trimmed_lws_end(s.take(s.len() - end.len()));
        let rest = via_extras(skipped_lws(end));
        if is_named_via_param(name) {
            rest
        } else {
            segment + rest
        }
    }
}

#[via_fn]
proof fn via_extras_decreases(s: Seq<char>) {
    if s.len() > 0 {
        lemma_extra_at(s);
    }
}

/// The text of a `Via` header.
pub open spec fn via_text(via: ViaView) -> Seq<char> {
    "Via: "@ + via.sent_protocol + seq![' '] + via.host + port_text(via.port) + around(
        ";branch="@,
        via.branch,
        Seq::empty(),
    ) + around(";received="@, via.received, Seq::empty()) + rport_text(via.rport)
        + match via.params {
        Some(params) => via_extras(params),
        None => Seq::empty(),
    }
}

/// The text of a header, without its line end.
pub open spec fn header_text(header: HeaderView) -> Seq<char> {
    match header {
        HeaderView::Via(via) => via_text(via),
        HeaderView::From(addr) => "From: "@ + name_addr_text(addr),
        HeaderView::To(addr) => "To: "@ + name_addr_text(addr),
        HeaderView::CallId(value) => "Call-ID: "@ + value,
        HeaderView::CSeq(sequence, method) => "CSeq: "@ + decimal(sequence as int) + seq![' ']
            + method_token(method),
        HeaderView::MaxForwards(hops) => "Max-Forwards: "@ + decimal(hops as int),
        HeaderView::Contact(address, is_wildcard) => "Contact: "@ + if is_wildcard {
            seq!['*']
        } else {
            match address {
                Some(addr) => name_addr_text(addr),
                None => Seq::empty(),
            }
        },
        HeaderView::Extension(name, _, value) => name + seq![':'] + if value.len() > 0 {
            seq![' '] + value
        } else {
            Seq::empty()
        },
    }
}

/// The text of a list of headers, each with its line end.
pub open spec fn headers_text(headers: Seq<HeaderView>) -> Seq<char>
    decreases headers.len(),
{
    if headers.len() == 0 {
        Seq::empty()
    } else {
        headers_text(headers.drop_last()) + header_text(headers.last()) + seq!['\r', '\n']
    }
}

/// The text of a request line.
pub open spec fn request_line_text(line: RequestLineView) -> Seq<char> {
    method_token(line.method) + seq![' '] + uri_text(line.uri) + seq![' '] + line.version
}

/// The text of a status line. An empty reason is left out, with the space in front of it.
pub open spec fn status_line_text(line: StatusLineView) -> Seq<char> {
    line.version + seq![' '] + decimal(line.status_code as int) + if line.reason.len() > 0 {
        seq![' '] + line.reason
    } else {
        Seq::empty()
    }
}

/// The text of a first line.
pub open spec fn start_line_text(line: StartLineView) -> Seq<char> {
    match line {
        StartLineView::Request(line) => request_line_text(line),
        StartLineView::Response(line) => status_line_text(line),
    }
}

/// The text of a message up to its body: first line, headers, an empty line.
pub open spec fn head_text(line: Seq<char>, headers: Seq<HeaderView>) -> Seq<char> {
    line + seq!['\r', '\n'] + headers_text(headers) + seq!['\r', '\n']
}

/// Appends a port behind its colon.
fn write_port(writer: &mut String, port: Option<u16>)
    ensures
        final(writer)@ == old(writer)@ + port_text(port),
{
    let ghost start = writer@;
    if let Some(port) = port {
        proof {
            reveal_strlit(":");
            assert(":"@ =~= seq![':']);
        }
        writer.append(":");
        push_decimal(writer, port as u64);
    }
    assert(writer@ =~= start + port_text(port));
}

/// Writes a URI.
pub fn write_uri(writer: &mut String, uri: &SipUri<'_>)
    ensures
        final(writer)@ == old(writer)@ + uri_text(uri@),
{
    let ghost start = writer@;
    proof {
        reveal_strlit(":");
        reveal_strlit("@");
        reveal_strlit("?");
        assert(":"@ =~= seq![':']);
        assert("@"@ =~= seq!['@']);
        assert("?"@ =~= seq!['?']);
    }
    writer.append(uri.scheme.as_str());
    writer.append(":");
    if let Some(userinfo) = uri.userinfo {
        writer.append(userinfo);
        writer.append("@");
    }
    writer.append(uri.host);
    write_port(writer, uri.port);
    if let Some(params) = uri.params {
        writer.append(params);
    }
    if let Some(headers) = uri.headers {
        writer.append("?");
        writer.append(headers);
    }
    assert(writer@ =~= start + uri_text(uri@));
}

/// Writes an address.
pub fn write_name_addr(writer: &mut String, name: &NameAddr<'_>)
    ensures
        final(writer)@ == old(writer)@ + name_addr_text(name@),
{
    let ghost start = writer@;
    proof {
        reveal_strlit("\"");
        reveal_strlit("\" ");
        reveal_strlit("<");
        reveal_strlit(">");
        assert("\""@ =~= seq!['"']);
        assert("\" "@ =~= seq!['"', ' ']);
        assert("<"@ =~= seq!['<']);
        assert(">"@ =~= seq!['>']);
    }
    if let Some(display) = name.display_name {
        writer.append("\"");
        writer.append(display);
        writer.append("\" ");
    }
    let use_brackets: bool = name.enclosed || name.display_name.is_some();
    if use_brackets {
        writer.append("<");
    }
    write_uri(writer, &name.uri);
    if use_brackets {
        writer.append(">");
    }
    if let Some(params) = name.params {
        writer.append(params);
    }
    assert(writer@ =~= start + name_addr_text(name@));
}

/// Writes the parameters that are not written on their own.
fn write_via_extras(writer: &mut String, raw: &str)
    ensures
        final(writer)@ == old(writer)@ + via_extras(raw@),
{
    let ghost start = writer@;
    let mut x: &str = raw;
    loop
        invariant
            start == old(writer)@,
            start + via_extras(raw@) == writer@ + via_extras(x@),
        decreases x@.len(),
    {
        let first: char = match first_char(x) {
            Some(first) => first,
            None => {
                assert(writer@ + via_extras(x@) =~= writer@);
                return;
            },
        };
        if first != ';' {
            x = after_first(x);
        } else {
            let a = skip_lws(after_first(x));
            let (name, b) = take_token_until_value(a);
            let has_value: bool = match first_char(b) {
                Some(c) => c == '=',
                None => false,
            };
            let end: &str = if has_value {
                let (_, rest) = take_token_until_semicolon(skip_lws(after_first(b)));
                rest
            } else {
                b
            };
            proof {
                lemma_extra_at(x@);
                assert(extra_at(x@) == (name@, end@));
            }
            let segment = trim_lws_end(before(x, end));
            let named: bool = eq_ignore_ascii_case(name, "branch") || eq_ignore_ascii_case(
                name,
                "received",
            ) || eq_ignore_ascii_case(name, "rport");
            let next = skip_lws(end);
            if !named {
                let ghost so_far = writer@;
                writer.append(segment);
                assert(so_far + (segment@ + via_extras(next@)) =~= writer@ + via_extras(next@));
            }
            x = next;
        }
    }
}

/// Writes a `Via` header.
fn write_via(writer: &mut String, via: &ViaHeader<'_>)
    ensures
        final(writer)@ == old(writer)@ + via_text(via@),
{
    let ghost start = writer@;
    proof {
        reveal_strlit(" ");
        assert(" "@ =~= seq![' ']);
    }
    writer.append("Via: ");
    writer.append(via.sent_protocol);
    writer.append(" ");
    writer.append(via.host);
    write_port(writer, via.port);
    let ghost p1 = "Via: "@ + via.sent_protocol@ + seq![' '] + via.host@ + port_text(via.port);
    assert(writer@ =~= start + p1);
    if let Some(branch) = via.branch {
        writer.append(";branch=");
        writer.append(branch);
    }
    let ghost p2 = p1 + around(";branch="@, via@.branch, Seq::empty());
    assert(writer@ =~= start + p2);
    if let Some(received) = via.received {
        writer.append(";received=");
        writer.append(received);
    }
    let ghost p3 = p2 + around(";received="@, via@.received, Seq::empty());
    assert(writer@ =~= start + p3);
    match via.rport {
        ViaParamRport::NotPresent => {},
        ViaParamRport::Requested => {
            writer.append(";rport");
        },
        ViaParamRport::Value(port) => {
            writer.append(";rport=");
            push_decimal(writer, port as u64);
        },
    }
    let ghost p4 = p3 + rport_text(via.rport);
    assert(writer@ =~= start + p4);
    if let Some(extra) = via.params {
        write_via_extras(writer, extra);
    }
    assert(writer@ =~= start + via_text(via@));
}

/// Writes a header without a structure of its own.
fn write_extension(writer: &mut String, name: &HeaderName<'_>, value: &str)
    ensures
        final(writer)@ == old(writer)@ + header_text(
            HeaderView::Extension(name.raw@, name.kind, value@),
        ),
{
    let ghost start = writer@;
    proof {
        reveal_strlit(":");
        reveal_strlit(" ");
        assert(":"@ =~= seq![':']);
        assert(" "@ =~= seq![' ']);
    }
    writer.append(name.raw);
    writer.append(":");
    if !value.is_empty() {
        writer.append(" ");
        writer.append(value);
    }
    assert(writer@ =~= start + header_text(HeaderView::Extension(name.raw@, name.kind, value@)));
}

/// Writes a header, without its line end.
pub fn write_header(writer: &mut String, header: &Header<'_>) -> (r: Result<(), SipFormatError>)
    ensures
        r is Ok,
        final(writer)@ == old(writer)@ + header_text(header@),
{
    let ghost start = writer@;
    proof {
        reveal_strlit(" ");
        reveal_strlit("*");
        assert(" "@ =~= seq![' ']);
        assert("*"@ =~= seq!['*']);
    }
    match header {
        Header::Via(via) => {
            write_via(writer, via);
        },
        Header::From(name) => {
            writer.append("From: ");
            write_name_addr(writer, name);
        },
        Header::To(name) => {
            writer.append("To: ");
            write_name_addr(writer, name);
        },
        Header::CallId(call_id) => {
            writer.append("Call-ID: ");
            writer.append(call_id.value);
        },
        Header::CSeq(cseq) => {
            writer.append("CSeq: ");
            push_decimal(writer, cseq.sequence as u64);
            writer.append(" ");
            writer.append(cseq.method.as_str());
        },
        Header::MaxForwards(max) => {
            writer.append("Max-Forwards: ");
            push_decimal(writer, max.hops as u64);
        },
        Header::Contact(contact) => {
            writer.append("Contact: ");
            if contact.is_wildcard {
                writer.append("*");
            } else if let Some(addr) = contact.address {
                write_name_addr(writer, &addr);
            }
        },
        Header::Extension { name, value } => {
            write_extension(writer, name, value);
        },
    }
    assert(writer@ =~= start + header_text(header@));
    Ok(())
}

/// Appends a line end.
fn write_line_end(writer: &mut String)
    ensures
        final(writer)@ == old(writer)@ + seq!['\r', '\n'],
{
    proof {
        reveal_strlit("\r\n");
        assert("\r\n"@ =~= seq!['\r', '\n']);
    }
    writer.append("\r\n");
}

/// Writes headers, each with its line end.
pub fn write_headers(writer: &mut String, headers: &[Header<'_>]) -> (r: Result<(), SipFormatError>)
    ensures
        r is Ok,
        final(writer)@ == old(writer)@ + headers_text(header_views(headers@)),
{
    let ghost start = writer@;
    let ghost all = header_views(headers@);
    let mut i: usize = 0;
    assert(start + headers_text(all.take(0)) =~= start);
    while i < headers.len()
        invariant
            i <= headers@.len(),
            all == header_views(headers@),
            writer@ == start + headers_text(all.take(i as int)),
        decreases headers@.len() - i,
    {
        if let Err(e) = write_header(writer, &headers[i]) {
            return Err(e);
        }
        write_line_end(writer);
        proof {
            assert(all.take(i + 1).drop_last() =~= all.take(i as int));
            assert(all.take(i + 1).last() == headers@[i as int]@);
            assert(writer@ =~= start + headers_text(all.take(i + 1)));
        }
        i += 1;
    }
    assert(all.take(i as int) =~= all);
    Ok(())
}

/// Writes a body, which must be text.
fn write_body(writer: &mut String, body: &[u8]) -> (r: Result<(), SipFormatError>)
    ensures
        match r {
            Ok(_) => valid_utf8(body@) && final(writer)@ == old(writer)@ + decode_utf8(body@),
            Err(e) => {
                &&& !valid_utf8(body@)
                &&& e == SipFormatError::NonUtf8Body
                &&& final(writer)@ == old(writer)@
            },
        },
{
    match utf8_text(body) {
        Ok(text) => {
            proof {
                lemma_text_of_bytes(text, body@);
            }
            writer.append(text);
            Ok(())
        },
        Err(fault) => Err(SipFormatError::from(fault)),
    }
}

/// Writes a request line, without its line end.
pub fn write_request_line(writer: &mut String, line: &RequestLine<'_>) -> (r: Result<(), SipFormatError>)
    ensures
        r is Ok,
        final(writer)@ == old(writer)@ + request_line_text(line@),
{
    let ghost start = writer@;
    proof {
        reveal_strlit(" ");
        assert(" "@ =~= seq![' ']);
    }
    writer.append(line.method.as_str());
    writer.append(" ");
    write_uri(writer, &line.uri);
    writer.append(" ");
    writer.append(line.version);
    assert(writer@ =~= start + request_line_text(line@));
    Ok(())
}

/// Writes a status line, without its line end.
pub fn write_status_line(writer: &mut String, line: &StatusLine<'_>) -> (r: Result<(), SipFormatError>)
    ensures
        r is Ok,
        final(writer)@ == old(writer)@ + status_line_text(line@),
{
    let ghost start = writer@;
    proof {
        reveal_strlit(" ");
        assert(" "@ =~= seq![' ']);
    }
    writer.append(line.version);
    writer.append(" ");
    push_decimal(writer, line.status_code as u64);
    if !line.reason.is_empty() {
        writer.append(" ");
        writer.append(line.reason);
    }
    assert(writer@ =~= start + status_line_text(line@));
    Ok(())
}

/// What writing a message does: the head is written in any case, the body only if it is text.
pub open spec fn message_written(
    before: Seq<char>,
    after: Seq<char>,
    head: Seq<char>,
    body: Seq<u8>,
    r: Result<(), SipFormatError>,
) -> bool {
    match r {
        Ok(_) => valid_utf8(body) && after == before + head + decode_utf8(body),
        Err(e) => {
            &&& !valid_utf8(body)
            &&& e == SipFormatError::NonUtf8Body
            &&& after == before + head
        },
    }
}

/// Writes a request.
pub fn write_request(
    writer: &mut String,
    line: &RequestLine<'_>,
    headers: &[Header<'_>],
    body: &[u8],
) -> (r: Result<(), SipFormatError>)
    ensures
        message_written(
            old(writer)@,
            final(writer)@,
            head_text(request_line_text(line@), header_views(headers@)),
            body@,
            r,
        ),
{
    let ghost start = writer@;
    if let Err(e) = write_request_line(writer, line) {
        return Err(e);
    }
    write_line_end(writer);
    if let Err(e) = write_headers(writer, headers) {
        return Err(e);
    }
    write_line_end(writer);
    assert(writer@ =~= start + head_text(request_line_text(line@), header_views(headers@)));
    write_body(writer, body)
}

/// Writes a response.
pub fn write_response(
    writer: &mut String,
    line: &StatusLine<'_>,
    headers: &[Header<'_>],
    body: &[u8],
) -> (r: Result<(), SipFormatError>)
    ensures
        message_written(
            old(writer)@,
            final(writer)@,
            head_text(status_line_text(line@), header_views(headers@)),
            body@,
            r,
        ),
{
    let ghost start = writer@;
    if let Err(e) = write_status_line(writer, line) {
        return Err(e);
    }
    write_line_end(writer);
    if let Err(e) = write_headers(writer, headers) {
        return Err(e);
    }
    write_line_end(writer);
    assert(writer@ =~= start + head_text(status_line_text(line@), header_views(headers@)));
    write_body(writer, body)
}

/// Writes a message.
pub fn write_message(writer: &mut String, message: &SipMessage<'_>) -> (r: Result<
    (),
    SipFormatError,
>)
    ensures
        message_written(
            old(writer)@,
            final(writer)@,
            head_text(start_line_text(message@.start_line), message@.headers),
            message@.body,
            r,
        ),
{
    match &message.start_line {
        StartLine::Request(line) => write_request(
            writer,
            line,
            message.headers.as_slice(),
            message.body,
        ),
        StartLine::Response(line) => write_response(
            writer,
            line,
            message.headers.as_slice(),
            message.body,
        ),
    }
}

} // verus!
