//! What the parts of a message mean, by their names.
use vstd::prelude::*;

verus! {

use crate::sip::error::{SipFormatError, SipParseError};
use crate::sip::fmt::{
    head_text, header_text, headers_text, message_written, name_addr_text, request_line_text,
    start_line_text, status_line_text, uri_text, via_extras, via_text,
};
use crate::sip::parse::common::{scheme_of, skipped_lws, trimmed_lws_end, uri_of};
use crate::sip::parse::headers::{header_of, lws_trimmed, name_addr_of};
use crate::sip::parse::request::request_line_of;
use crate::sip::parse::response::{status_line_of, status_of};
use crate::sip::types::{
    header_kind, kind_of, method_of, method_token, names_transport, scheme_text, Header, HeaderKind,
    HeaderView, Method, MethodView, NameAddr, NameAddrView, RequestLineView, SipScheme, SipUri,
    StartLine, StartLineView, StatusLineView, ViaHeader, ViaParamRport, ViaView,
};
use crate::text::laws::{is_blank_text, law_splitting, law_trimming};
use crate::text::{
    ascii_lower, decimal, digit_char, digits_value, is_digit, is_white_space, same_ignoring_case,
    trimmed_start, words,
};
use vstd::utf8::{decode_utf8, valid_utf8};

/// Each named method is read from its name and from nothing else, and written as its name. Any other
/// token is an extension that keeps the token.
pub proof fn law_methods_have_their_names(token: Seq<char>, method: Method<'_>)
    ensures
        method_of(token) is Invite <==> token == "INVITE"@,
        method_of(token) is Ack <==> token == "ACK"@,
        method_of(token) is Options <==> token == "OPTIONS"@,
        method_of(token) is Bye <==> token == "BYE"@,
        method_of(token) is Cancel <==> token == "CANCEL"@,
        method_of(token) is Register <==> token == "REGISTER"@,
        method_of(token) is Prack <==> token == "PRACK"@,
        method_of(token) is Subscribe <==> token == "SUBSCRIBE"@,
        method_of(token) is Notify <==> token == "NOTIFY"@,
        method_of(token) is Publish <==> token == "PUBLISH"@,
        method_of(token) is Info <==> token == "INFO"@,
        method_of(token) is Refer <==> token == "REFER"@,
        method_of(token) is Message <==> token == "MESSAGE"@,
        method_of(token) is Update <==> token == "UPDATE"@,
        method is Invite ==> method_token(method@) == "INVITE"@ && method@ == method_of("INVITE"@),
        method is Ack ==> method_token(method@) == "ACK"@ && method@ == method_of("ACK"@),
        method is Options ==> method_token(method@) == "OPTIONS"@ && method@ == method_of("OPTIONS"@),
        method is Bye ==> method_token(method@) == "BYE"@ && method@ == method_of("BYE"@),
        method is Cancel ==> method_token(method@) == "CANCEL"@ && method@ == method_of("CANCEL"@),
        method is Register ==> method_token(method@) == "REGISTER"@ && method@ == method_of("REGISTER"@),
        method is Prack ==> method_token(method@) == "PRACK"@ && method@ == method_of("PRACK"@),
        method is Subscribe ==> method_token(method@) == "SUBSCRIBE"@ && method@ == method_of("SUBSCRIBE"@),
        method is Notify ==> method_token(method@) == "NOTIFY"@ && method@ == method_of("NOTIFY"@),
        method is Publish ==> method_token(method@) == "PUBLISH"@ && method@ == method_of("PUBLISH"@),
        method is Info ==> method_token(method@) == "INFO"@ && method@ == method_of("INFO"@),
        method is Refer ==> method_token(method@) == "REFER"@ && method@ == method_of("REFER"@),
        method is Message ==> method_token(method@) == "MESSAGE"@ && method@ == method_of("MESSAGE"@),
        method is Update ==> method_token(method@) == "UPDATE"@ && method@ == method_of("UPDATE"@),
        method_of(token) matches MethodView::Extension(kept) ==> kept == token,
        method matches Method::Extension(name) ==> method@ == MethodView::Extension(name@)
            && method_token(method@) == name@,
{
    reveal_strlit("INVITE");
    reveal_strlit("ACK");
    reveal_strlit("OPTIONS");
    reveal_strlit("BYE");
    reveal_strlit("CANCEL");
    reveal_strlit("REGISTER");
    reveal_strlit("PRACK");
    reveal_strlit("SUBSCRIBE");
    reveal_strlit("NOTIFY");
    reveal_strlit("PUBLISH");
    reveal_strlit("INFO");
    reveal_strlit("REFER");
    reveal_strlit("MESSAGE");
    reveal_strlit("UPDATE");
    assert("INVITE"@.len() == 6);
    assert("ACK"@.len() == 3);
    assert("OPTIONS"@.len() == 7);
    assert("BYE"@.len() == 3);
    assert("CANCEL"@.len() == 6);
    assert("REGISTER"@.len() == 8);
    assert("PRACK"@.len() == 5);
    assert("SUBSCRIBE"@.len() == 9);
    assert("NOTIFY"@.len() == 6);
    assert("PUBLISH"@.len() == 7);
    assert("INFO"@.len() == 4);
    assert("REFER"@.len() == 5);
    assert("MESSAGE"@.len() == 7);
    assert("UPDATE"@.len() == 6);
    assert("INVITE"@[0] != "CANCEL"@[0]);
    assert("INVITE"@[0] != "NOTIFY"@[0]);
    assert("INVITE"@[0] != "UPDATE"@[0]);
    assert("CANCEL"@[0] != "NOTIFY"@[0]);
    assert("CANCEL"@[0] != "UPDATE"@[0]);
    assert("NOTIFY"@[0] != "UPDATE"@[0]);
    assert("ACK"@[0] != "BYE"@[0]);
    assert("OPTIONS"@[0] != "PUBLISH"@[0]);
    assert("OPTIONS"@[0] != "MESSAGE"@[0]);
    assert("PUBLISH"@[0] != "MESSAGE"@[0]);
    assert("PRACK"@[0] != "REFER"@[0]);
}

/// Each kind of header is known by its name, in any case, and by nothing else.
pub proof fn law_headers_have_their_names(name: Seq<char>)
    ensures
        kind_of(name) is Via <==> same_ignoring_case(name, "via"@),
        kind_of(name) is From <==> same_ignoring_case(name, "from"@),
        kind_of(name) is To <==> same_ignoring_case(name, "to"@),
        kind_of(name) is CallId <==> same_ignoring_case(name, "call-id"@) || same_ignoring_case(name, "callid"@),
        kind_of(name) is CSeq <==> same_ignoring_case(name, "cseq"@),
        kind_of(name) is MaxForwards <==> same_ignoring_case(name, "max-forwards"@) || same_ignoring_case(name, "maxforwards"@),
        kind_of(name) is Contact <==> same_ignoring_case(name, "contact"@),
{
    reveal_strlit("via");
    reveal_strlit("from");
    reveal_strlit("to");
    reveal_strlit("call-id");
    reveal_strlit("callid");
    reveal_strlit("cseq");
    reveal_strlit("max-forwards");
    reveal_strlit("maxforwards");
    reveal_strlit("contact");
    assert("via"@.len() == 3);
    assert("from"@.len() == 4);
    assert("to"@.len() == 2);
    assert("call-id"@.len() == 7);
    assert("callid"@.len() == 6);
    assert("cseq"@.len() == 4);
    assert("max-forwards"@.len() == 12);
    assert("maxforwards"@.len() == 11);
    assert("contact"@.len() == 7);
    if same_ignoring_case(name, "from"@) && same_ignoring_case(name, "cseq"@) {
        assert(ascii_lower(name[0]) == ascii_lower("from"@[0]));
        assert(ascii_lower(name[0]) == ascii_lower("cseq"@[0]));
    }
    if same_ignoring_case(name, "call-id"@) && same_ignoring_case(name, "contact"@) {
        assert(ascii_lower(name[1]) == ascii_lower("call-id"@[1]));
        assert(ascii_lower(name[1]) == ascii_lower("contact"@[1]));
    }
}

/// A header that was read is what its name says, and any other header keeps name and value.
pub proof fn law_headers_are_what_they_are_called(name: Seq<char>, value: Seq<char>)
    ensures
        header_of(name, value) matches Ok(header) ==> {
            &&& header is Via <==> kind_of(name) is Via
            &&& header is From <==> kind_of(name) is From
            &&& header is To <==> kind_of(name) is To
            &&& header is CallId <==> kind_of(name) is CallId
            &&& header is CSeq <==> kind_of(name) is CSeq
            &&& header is MaxForwards <==> kind_of(name) is MaxForwards
            &&& header is Contact <==> kind_of(name) is Contact
            &&& header_kind(header) == kind_of(name)
        },
        kind_of(name) is Other ==> header_of(name, value) == Ok::<HeaderView, SipParseError>(
            HeaderView::Extension(name, HeaderKind::Other, value),
        ),
        kind_of(name) is Via ==> (header_of(name, value) matches Err(e) ==> e
            is InvalidViaHeader),
        kind_of(name) is CallId ==> (header_of(name, value) matches Err(e) ==> e
            is InvalidCallId),
        kind_of(name) is CSeq ==> (header_of(name, value) matches Err(e) ==> e is InvalidCSeq),
        kind_of(name) is MaxForwards ==> (header_of(name, value) matches Err(e) ==> e
            is InvalidMaxForwards),
{
}

/// A `From` and a `To` header of one value hold one address, and so does a `Contact` header of that
/// value if no white space surrounds it and it is not the wildcard.
pub proof fn law_addresses_read_alike(from: Seq<char>, to: Seq<char>, contact: Seq<char>, value: Seq<char>)
    requires
        same_ignoring_case(from, "from"@),
        same_ignoring_case(to, "to"@),
        same_ignoring_case(contact, "contact"@),
        value.len() > 0,
        lws_trimmed(value) == value,
        value != seq!['*'],
    ensures
        match name_addr_of(value) {
            Ok(addr) => {
                &&& header_of(from, value) == Ok::<HeaderView, SipParseError>(HeaderView::From(addr))
                &&& header_of(to, value) == Ok::<HeaderView, SipParseError>(HeaderView::To(addr))
                &&& header_of(contact, value) == Ok::<HeaderView, SipParseError>(
                    HeaderView::Contact(Some(addr), false),
                )
            },
            Err(e) => {
                &&& header_of(from, value) == Err::<HeaderView, SipParseError>(e)
                &&& header_of(to, value) == Err::<HeaderView, SipParseError>(e)
                &&& header_of(contact, value) == Err::<HeaderView, SipParseError>(e)
            },
        },
        header_of(contact, seq!['*']) == Ok::<HeaderView, SipParseError>(
            HeaderView::Contact(None, true),
        ),
{
    law_headers_have_their_names(from);
    law_headers_have_their_names(to);
    law_headers_have_their_names(contact);
    reveal_strlit("*");
    assert("*"@ =~= seq!['*']);
    assert(lws_trimmed(seq!['*']) == seq!['*']);
}

/// A header is written behind its own name.
pub proof fn law_headers_are_written_under_their_names(header: HeaderView)
    ensures
        header matches HeaderView::Via(via) ==> "Via: "@.is_prefix_of(header_text(header)),
        header matches HeaderView::From(addr) ==> header_text(header) == "From: "@ + name_addr_text(
            addr,
        ),
        header matches HeaderView::To(addr) ==> header_text(header) == "To: "@ + name_addr_text(
            addr,
        ),
        header matches HeaderView::CallId(value) ==> header_text(header) == "Call-ID: "@ + value,
        header matches HeaderView::CSeq(sequence, method) ==> header_text(header) == "CSeq: "@
            + decimal(sequence as int) + seq![' '] + method_token(method),
        header matches HeaderView::MaxForwards(hops) ==> header_text(header) == "Max-Forwards: "@
            + decimal(hops as int),
        header matches HeaderView::Contact(Some(addr), false) ==> header_text(header)
            == "Contact: "@ + name_addr_text(addr),
        header matches HeaderView::Contact(_, true) ==> header_text(header) == "Contact: "@
            + seq!['*'],
{
    if let HeaderView::Via(via) = header {
        let text = header_text(header);
        let lead = "Via: "@;
        assert(text.take(lead.len() as int) =~= lead);
        assert(lead.is_prefix_of(text));
    }
}

/// A header, a message and a first line are seen for what they are.
pub proof fn law_variants_are_seen(header: Header<'_>, line: StartLine<'_>)
    ensures
        header is Via <==> header@ is Via,
        header is From <==> header@ is From,
        header is To <==> header@ is To,
        header is CallId <==> header@ is CallId,
        header is CSeq <==> header@ is CSeq,
        header is MaxForwards <==> header@ is MaxForwards,
        header is Contact <==> header@ is Contact,
        header is Extension <==> header@ is Extension,
        header matches Header::CallId(call_id) ==> header@ == HeaderView::CallId(call_id.value@),
        header matches Header::CSeq(cseq) ==> header@ == HeaderView::CSeq(
            cseq.sequence,
            cseq.method@,
        ),
        header matches Header::MaxForwards(max) ==> header@ == HeaderView::MaxForwards(max.hops),
        header matches Header::Contact(contact) ==> (header@ matches HeaderView::Contact(
            address,
            wildcard,
        ) && wildcard == contact.is_wildcard && (address is Some <==> contact.address is Some)),
        line is Request <==> line@ is Request,
        line matches StartLine::Response(status) ==> (line@ matches StartLineView::Response(seen)
            && seen.status_code == status.status_code && seen.reason == status.reason@),
        line matches StartLine::Request(request) ==> (line@ matches StartLineView::Request(seen)
            && seen.method == request.method@ && seen.version == request.version@),
{
}

/// A URI, an address and a `Via` header are seen with each part in its place.
pub proof fn law_parts_are_seen(uri: SipUri<'_>, addr: NameAddr<'_>, hop: ViaHeader<'_>)
    ensures
        uri@.scheme == uri.scheme,
        uri@.host == uri.host@,
        uri@.port == uri.port,
        uri@.userinfo is Some <==> uri.userinfo is Some,
        uri.userinfo matches Some(text) ==> uri@.userinfo == Some(text@),
        uri@.params is Some <==> uri.params is Some,
        uri.params matches Some(text) ==> uri@.params == Some(text@),
        uri@.headers is Some <==> uri.headers is Some,
        uri.headers matches Some(text) ==> uri@.headers == Some(text@),
        addr@.uri == addr.uri@,
        addr@.enclosed == addr.enclosed,
        addr@.display_name is Some <==> addr.display_name is Some,
        addr.display_name matches Some(text) ==> addr@.display_name == Some(text@),
        addr@.params is Some <==> addr.params is Some,
        addr.params matches Some(text) ==> addr@.params == Some(text@),
        hop@.sent_protocol == hop.sent_protocol@,
        hop@.host == hop.host@,
        hop@.port == hop.port,
        hop@.rport == hop.rport,
        hop@.branch is Some <==> hop.branch is Some,
        hop.branch matches Some(text) ==> hop@.branch == Some(text@),
        hop@.received is Some <==> hop.received is Some,
        hop.received matches Some(text) ==> hop@.received == Some(text@),
        hop@.params is Some <==> hop.params is Some,
        hop.params matches Some(text) ==> hop@.params == Some(text@),
{
}

/// A scheme is read from its name in any case, and written as its name.
pub proof fn law_schemes_have_their_names(text: Seq<char>)
    ensures
        scheme_of(text) == Some(SipScheme::Sip) <==> same_ignoring_case(text, "sip"@),
        scheme_of(text) == Some(SipScheme::Sips) <==> same_ignoring_case(text, "sips"@),
        scheme_text(SipScheme::Sip) == "sip"@,
        scheme_text(SipScheme::Sips) == "sips"@,
{
    reveal_strlit("sip");
    reveal_strlit("sips");
    assert("sip"@.len() == 3);
    assert("sips"@.len() == 4);
}

/// Blanks and line ends in front of a text are skipped, and such behind it are trimmed, each of them
/// and nothing else. A line end is a carriage return with a line feed.
pub proof fn law_linear_white_space(s: Seq<char>)
    ensures
        skipped_lws(seq![' '] + s) == skipped_lws(s),
        skipped_lws(seq!['\t'] + s) == skipped_lws(s),
        skipped_lws(seq!['\r', '\n'] + s) == skipped_lws(s),
        s.len() > 0 && s[0] != ' ' && s[0] != '\t' && !(s[0] == '\r' && s.len() > 1 && s[1] == '\n')
            ==> skipped_lws(s) == s,
        skipped_lws(Seq::empty()) == Seq::<char>::empty(),
        trimmed_lws_end(s + seq![' ']) == trimmed_lws_end(s),
        trimmed_lws_end(s + seq!['\t']) == trimmed_lws_end(s),
        trimmed_lws_end(s + seq!['\r', '\n']) == trimmed_lws_end(s),
        s.len() > 0 && s.last() != ' ' && s.last() != '\t' && !(s.last() == '\n' && s.len() > 1
            && s[s.len() - 2] == '\r') ==> trimmed_lws_end(s) == s,
        trimmed_lws_end(Seq::empty()) == Seq::<char>::empty(),
{
    assert((seq![' '] + s).drop_first() =~= s);
    assert((seq!['\t'] + s).drop_first() =~= s);
    assert((seq!['\r', '\n'] + s).skip(2) =~= s);
    assert((s + seq![' ']).drop_last() =~= s);
    assert((s + seq!['\t']).drop_last() =~= s);
    let t = s + seq!['\r', '\n'];
    assert(t.take(t.len() - 2) =~= s);
}

/// A request line is read exactly if it has three words, the last is the version `SIP/2.0` in any case,
/// and the second is a URI; the first is the method.
pub proof fn law_request_lines(line: Seq<char>)
    ensures
        request_line_of(line) is Ok <==> {
            &&& words(line).len() == 3
            &&& same_ignoring_case(words(line)[2], "SIP/2.0"@)
            &&& uri_of(words(line)[1]) is Some
        },
        request_line_of(line) matches Ok(read) ==> {
            &&& read.method == method_of(words(line)[0])
            &&& uri_of(words(line)[1]) == Some(read.uri)
            &&& read.version == words(line)[2]
        },
        words(line).len() < 3 ==> request_line_of(line) == Err::<RequestLineView, SipParseError>(
            SipParseError::InvalidRequestLine,
        ),
        words(line).len() == 3 && !same_ignoring_case(words(line)[2], "SIP/2.0"@)
            ==> request_line_of(line) == Err::<RequestLineView, SipParseError>(
            SipParseError::UnsupportedVersion,
        ),
        words(line).len() == 3 && same_ignoring_case(words(line)[2], "SIP/2.0"@) && uri_of(
            words(line)[1],
        ) is None ==> request_line_of(line) == Err::<RequestLineView, SipParseError>(
            SipParseError::InvalidUri,
        ),
{
}

/// A status line is the version, a space and exactly three digits, which make up the status, and a
/// reason behind a space if there is one. White space in front of the digits and of the reason does
/// not count.
pub proof fn law_status_lines(
    version: Seq<char>,
    lead: Seq<char>,
    a: int,
    b: int,
    c: int,
    blank: Seq<char>,
    reason: Seq<char>,
)
    requires
        !version.contains(' '),
        is_blank_text(lead),
        is_blank_text(blank),
        0 <= a <= 9 && 0 <= b <= 9 && 0 <= c <= 9,
        reason.len() > 0 ==> !is_white_space(reason[0]),
    ensures
        ({
            let code = seq![digit_char(a), digit_char(b), digit_char(c)];
            let status = (100 * a + 10 * b + c) as u16;
            let line = version + seq![' '] + (lead + code + seq![' '] + (blank + reason));
            let bare = version + seq![' '] + (lead + code);
            if same_ignoring_case(version, "SIP/2.0"@) {
                &&& status_line_of(line) == Ok::<StatusLineView, SipParseError>(
                    StatusLineView { version, status_code: status, reason },
                )
                &&& status_line_of(bare) == Ok::<StatusLineView, SipParseError>(
                    StatusLineView { version, status_code: status, reason: Seq::empty() },
                )
            } else {
                &&& status_line_of(line) == Err::<StatusLineView, SipParseError>(
                    SipParseError::UnsupportedVersion,
                )
                &&& status_line_of(bare) == Err::<StatusLineView, SipParseError>(
                    SipParseError::UnsupportedVersion,
                )
            }
        }),
{
    let code = seq![digit_char(a), digit_char(b), digit_char(c)];
    let tail = lead + code + seq![' '] + (blank + reason);
    law_splitting(version, ' ', tail);
    law_splitting(version, ' ', lead + code);
    assert forall|i: int| 0 <= i < 3 implies is_digit(#[trigger] code[i]) by {}
    assert(!code.contains(' ')) by {
        if code.contains(' ') {
            let i = choose|i: int| 0 <= i < code.len() && code[i] == ' ';
            assert(is_digit(code[i]));
        }
    }
    law_trimming(lead, code, Seq::empty());
    assert(lead + code + Seq::<char>::empty() =~= lead + code);
    assert(code + Seq::<char>::empty() =~= code);
    lemma_front_off(lead, code + seq![' '] + (blank + reason));
    assert(lead + (code + seq![' '] + (blank + reason)) =~= tail);
    law_splitting(code, ' ', blank + reason);
    lemma_front_off(blank, reason);
    if reason.len() == 0 {
        law_trimming(blank, Seq::empty(), Seq::empty());
        assert(blank + Seq::<char>::empty() + Seq::<char>::empty() =~= blank + reason);
    }
    reveal_with_fuel(digits_value, 4);
    assert(code.drop_last().drop_last().drop_last() =~= Seq::<char>::empty());
    assert(digits_value(code) == 100 * a + 10 * b + c);
    assert(reason.len() == 0 ==> reason =~= Seq::<char>::empty());
    assert(trimmed_start(blank + reason) == reason);
    assert(trimmed_start(tail) == code + seq![' '] + (blank + reason));
    assert(trimmed_start(lead + code) == code);
    assert(status_of(code) == Some(((100 * a + 10 * b + c) as u16, Seq::<char>::empty())));
    assert(status_of(code + seq![' '] + (blank + reason)) == Some(
        ((100 * a + 10 * b + c) as u16, reason),
    ));
}

/// White space in front of something else goes.
proof fn lemma_front_off(blank: Seq<char>, s: Seq<char>)
    requires
        is_blank_text(blank),
        s.len() > 0 ==> !is_white_space(s[0]),
    ensures
        s.len() > 0 ==> trimmed_start(blank + s) == s,
    decreases blank.len(),
{
    if blank.len() == 0 {
        assert(blank + s =~= s);
    } else {
        let rest = blank.drop_first();
        assert forall|i: int| 0 <= i < rest.len() implies is_white_space(#[trigger] rest[i]) by {
            assert(rest[i] == blank[i + 1]);
        }
        lemma_front_off(rest, s);
        assert((blank + s).drop_first() =~= rest + s);
        assert(is_white_space(blank[0]));
    }
}

/// The status is three digits: any other number of characters in its place is refused.
pub proof fn law_status_has_three_digits(version: Seq<char>, code: Seq<char>, reason: Seq<char>)
    requires
        same_ignoring_case(version, "SIP/2.0"@),
        !version.contains(' '),
        !code.contains(' '),
        code.len() > 0 ==> !is_white_space(code[0]),
        code.len() != 3 || !(forall|i: int| 0 <= i < 3 ==> is_digit(#[trigger] code[i])),
        code.len() > 0,
    ensures
        status_line_of(version + seq![' '] + (code + seq![' '] + reason)) == Err::<
            StatusLineView,
            SipParseError,
        >(SipParseError::InvalidStatusLine),
{
    law_splitting(version, ' ', code + seq![' '] + reason);
    law_splitting(code, ' ', reason);
    assert((code + seq![' '] + reason)[0] == code[0]);
}

/// An address is written as the display name in quotes and a space, the URI, in angle brackets where
/// they were or where a display name calls for them, and what follows.
pub proof fn law_addresses_are_written(addr: NameAddrView)
    ensures
        addr.display_name is None && !addr.enclosed && addr.params is None ==> name_addr_text(addr)
            == uri_text(addr.uri),
        addr.display_name is None && addr.enclosed && addr.params is None ==> name_addr_text(addr)
            == seq!['<'] + uri_text(addr.uri) + seq!['>'],
        addr.params is None ==> (addr.display_name matches Some(name) ==> name_addr_text(addr)
            == seq!['"'] + name + seq!['"', ' ', '<'] + uri_text(addr.uri) + seq!['>']),
        addr.params matches Some(params) ==> name_addr_text(addr) == name_addr_text(
            NameAddrView { params: None, ..addr },
        ) + params,
{
    if let Some(params) = addr.params {
        assert(name_addr_text(addr) =~= name_addr_text(NameAddrView { params: None, ..addr })
            + params);
    } else if let Some(name) = addr.display_name {
        assert(name_addr_text(addr) =~= seq!['"'] + name + seq!['"', ' ', '<'] + uri_text(addr.uri)
            + seq!['>']);
    } else if addr.enclosed {
        assert(name_addr_text(addr) =~= seq!['<'] + uri_text(addr.uri) + seq!['>']);
    } else {
        assert(name_addr_text(addr) =~= uri_text(addr.uri));
    }
}

/// A hop is written as protocol, space, host and port, and then branch, received address, reply port and
/// what else there is, each only if it is there.
pub proof fn law_hops_are_written(hop: ViaView)
    ensures
        hop.port is None && hop.branch is None && hop.received is None && hop.rport
            == ViaParamRport::NotPresent && hop.params is None ==> via_text(hop) == "Via: "@
            + hop.sent_protocol + seq![' '] + hop.host,
        hop.branch is None && hop.received is None && hop.rport == ViaParamRport::NotPresent
            && hop.params is None ==> (hop.port matches Some(port) ==> via_text(hop) == via_text(
            ViaView { port: None, ..hop },
        ) + seq![':'] + decimal(port as int)),
        hop.received is None && hop.rport == ViaParamRport::NotPresent && hop.params is None ==> (
        hop.branch matches Some(branch) ==> via_text(hop) == via_text(ViaView { branch: None, ..hop })
            + ";branch="@ + branch),
        hop.rport == ViaParamRport::NotPresent && hop.params is None ==> (
        hop.received matches Some(received) ==> via_text(hop) == via_text(
            ViaView { received: None, ..hop },
        ) + ";received="@ + received),
        hop.params is None && hop.rport == ViaParamRport::Requested ==> via_text(hop) == via_text(
            ViaView { rport: ViaParamRport::NotPresent, ..hop },
        ) + ";rport"@,
        hop.params is None ==> (hop.rport matches ViaParamRport::Value(port) ==> via_text(hop)
            == via_text(ViaView { rport: ViaParamRport::NotPresent, ..hop }) + ";rport="@ + decimal(
            port as int,
        )),
        hop.params matches Some(params) ==> via_text(hop) == via_text(ViaView { params: None, ..hop })
            + via_extras(params),
{
    if let Some(params) = hop.params {
        assert(via_text(hop) =~= via_text(ViaView { params: None, ..hop }) + via_extras(params));
    } else {
        lemma_hop_without_extras(hop);
    }
}

#[verifier::rlimit(40)]
proof fn lemma_hop_without_extras(hop: ViaView)
    requires
        hop.params is None,
    ensures
        hop.port is None && hop.branch is None && hop.received is None && hop.rport
            == ViaParamRport::NotPresent ==> via_text(hop) == "Via: "@ + hop.sent_protocol + seq![' ']
            + hop.host,
        hop.branch is None && hop.received is None && hop.rport == ViaParamRport::NotPresent ==> (
        hop.port matches Some(port) ==> via_text(hop) == via_text(ViaView { port: None, ..hop })
            + seq![':'] + decimal(port as int)),
        hop.received is None && hop.rport == ViaParamRport::NotPresent ==> (
        hop.branch matches Some(branch) ==> via_text(hop) == via_text(ViaView { branch: None, ..hop })
            + ";branch="@ + branch),
        hop.rport == ViaParamRport::NotPresent ==> (hop.received matches Some(received) ==> via_text(
            hop,
        ) == via_text(ViaView { received: None, ..hop }) + ";received="@ + received),
        hop.rport == ViaParamRport::Requested ==> via_text(hop) == via_text(
            ViaView { rport: ViaParamRport::NotPresent, ..hop },
        ) + ";rport"@,
        hop.rport matches ViaParamRport::Value(port) ==> via_text(hop) == via_text(
            ViaView { rport: ViaParamRport::NotPresent, ..hop },
        ) + ";rport="@ + decimal(port as int),
{
    let text = via_text(hop);
    match hop.rport {
        ViaParamRport::Requested => {
            assert(text =~= via_text(ViaView { rport: ViaParamRport::NotPresent, ..hop }) + ";rport"@);
        },
        ViaParamRport::Value(port) => {
            assert(text =~= via_text(ViaView { rport: ViaParamRport::NotPresent, ..hop })
                + ";rport="@ + decimal(port as int));
        },
        ViaParamRport::NotPresent => {
            if let Some(received) = hop.received {
                assert(text =~= via_text(ViaView { received: None, ..hop }) + ";received="@ + received);
            } else if let Some(branch) = hop.branch {
                assert(text =~= via_text(ViaView { branch: None, ..hop }) + ";branch="@ + branch);
            } else if let Some(port) = hop.port {
                assert(text =~= via_text(ViaView { port: None, ..hop }) + seq![':'] + decimal(
                    port as int,
                ));
            } else {
                assert(text =~= "Via: "@ + hop.sent_protocol + seq![' '] + hop.host);
            }
        },
    }
}

/// A message is written as its first line, its headers in order, an empty line, and its body if that is
/// text; each line ends with a carriage return and a line feed.
pub proof fn law_messages_are_written(
    line: Seq<char>,
    headers: Seq<HeaderView>,
    last: HeaderView,
    request: RequestLineView,
    status: StatusLineView,
)
    ensures
        ({
            let end = seq!['\r', '\n'];
            &&& headers_text(Seq::empty()) == Seq::<char>::empty()
            &&& headers_text(headers.push(last)) == headers_text(headers) + header_text(last) + end
            &&& head_text(line, headers) == line + end + headers_text(headers) + end
        }),
        request_line_text(request) == method_token(request.method) + seq![' '] + uri_text(request.uri)
            + seq![' '] + request.version,
        status.reason.len() == 0 ==> status_line_text(status) == status.version + seq![' '] + decimal(
            status.status_code as int,
        ),
        status.reason.len() > 0 ==> status_line_text(status) == status.version + seq![' '] + decimal(
            status.status_code as int,
        ) + seq![' '] + status.reason,
        start_line_text(StartLineView::Request(request)) == request_line_text(request),
        start_line_text(StartLineView::Response(status)) == status_line_text(status),
{
    assert(headers.push(last).drop_last() =~= headers);
    let front = status.version + seq![' '] + decimal(status.status_code as int);
    if status.reason.len() == 0 {
        assert(status_line_text(status) =~= front);
    } else {
        assert(status_line_text(status) =~= front + seq![' '] + status.reason);
    }
}

/// A header without a name of its own is written under the name that it came with; without a value
/// nothing follows the colon.
pub proof fn law_other_headers_are_written(name: Seq<char>, kind: HeaderKind, value: Seq<char>)
    ensures
        value.len() > 0 ==> header_text(HeaderView::Extension(name, kind, value)) == name + seq![
            ':',
            ' ',
        ] + value,
        value.len() == 0 ==> header_text(HeaderView::Extension(name, kind, value)) == name + seq![':'],
{
    let text = header_text(HeaderView::Extension(name, kind, value));
    if value.len() > 0 {
        assert(text =~= name + seq![':', ' '] + value);
    } else {
        assert(text =~= name + seq![':']);
    }
}

/// What is written of a message goes behind what was there: the head in any case, and the body exactly
/// if it is text.
pub proof fn law_bodies_are_text(
    before: Seq<char>,
    after: Seq<char>,
    head: Seq<char>,
    body: Seq<u8>,
    r: Result<(), SipFormatError>,
)
    requires
        message_written(before, after, head, body, r),
    ensures
        r is Ok <==> valid_utf8(body),
        r is Ok ==> after == before + head + decode_utf8(body),
        r is Err ==> after == before + head && r == Err::<(), SipFormatError>(
            SipFormatError::NonUtf8Body,
        ),
{
}

/// Parameters name a transport exactly if one of them, white space in front of it aside, begins with
/// `transport=`.
pub proof fn law_transport_parameters(list: Seq<Seq<char>>, k: int)
    ensures
        0 <= k < list.len() && "transport="@.is_prefix_of(trimmed_start(list[k])) ==> names_transport(
            list,
        ),
        (forall|i: int|
            0 <= i < list.len() ==> !"transport="@.is_prefix_of(trimmed_start(#[trigger] list[i])))
            ==> !names_transport(list),
{
}

} // verus!
