//! How header lines, addresses and simple headers are read, whatever stands in them.
use vstd::prelude::*;

verus! {

use crate::sip::error::SipParseError;
use crate::sip::parse::common::{
    blank_line_at, first_blank_line, host_port_of, is_blank, scheme_of, skipped_lws, token_stops,
    trimmed_lws_end, uri_of,
};
use crate::sip::parse::headers::{
    crlf, cseq_of, fold_tail, header_at, header_of, headers_of, lemma_fold_tail, line_len,
    name_addr_of, sent_by_of, skipped_blanks, via_of,
};
use crate::sip::parse::request::{request_line_of, request_of, request_of_bytes, result_means};
use crate::sip::parse::response::{response_of, status_line_of};
use crate::sip::round_trip::{is_token, lemma_line_end, lemma_split_at, lemma_token_in_front, one_line};
use crate::sip::types::{
    header_views, method_of, Header, HeaderView, MessageView, NameAddrView, SipMessage,
    StartLineView, UriView,
};
use crate::text::laws::law_splitting;
use crate::text::{
    all_digits, decimal, decimal_value, digits_value, find_text, is_digit, is_white_space,
    lemma_decimal_round_trip, lemma_decimal_value, lemma_trimmed_end, lemma_until,
    same_ignoring_case, until,
};
use vstd::utf8::{encode_utf8, valid_utf8};

/// A continuation is a line that is not empty and begins with a space or a tab; it belongs to the line
/// in front of it, and so does the next one.
pub proof fn law_continuations(line: Seq<char>, tail: Seq<char>, next: Seq<char>)
    requires
        one_line(line),
        line.len() > 0,
        line[0] == ' ' || line[0] == '\t',
        tail.len() == 0 || (tail.len() >= 2 && tail[0] == '\r' && tail[1] == '\n'),
        next.len() == 0 || (next[0] != ' ' && next[0] != '\t'),
    ensures
        fold_tail(Seq::empty()) == Seq::<char>::empty(),
        fold_tail(crlf() + line + tail) == fold_tail(tail),
        fold_tail(crlf() + next) == crlf() + next,
        crlf() == seq!['\r', '\n'],
{
    let s = crlf() + line + tail;
    assert(s.skip(2) =~= line + tail);
    lemma_first_line(line, tail);
    assert((line + tail)[0] == line[0]);
    assert((line + tail).skip(line.len() as int) =~= tail);
    assert((crlf() + next).skip(2) =~= next);
}

/// The first line ends at the first line end, or with the text.
pub proof fn lemma_first_line(line: Seq<char>, tail: Seq<char>)
    requires
        one_line(line),
        tail.len() == 0 || (tail.len() >= 2 && tail[0] == '\r' && tail[1] == '\n'),
    ensures
        line_len(line + tail) == line.len(),
        (line + tail).take(line.len() as int) == line,
        (line + tail).skip(line.len() as int) == tail,
{
    if tail.len() == 0 {
        assert(line + tail =~= line);
    } else {
        let rest = tail.skip(2);
        assert(line + tail =~= line + crlf() + rest);
        lemma_line_end(line, rest);
    }
    assert((line + tail).take(line.len() as int) =~= line);
    assert((line + tail).skip(line.len() as int) =~= tail);
}

proof fn lemma_blanks_skipped(blanks: Seq<char>, value: Seq<char>)
    requires
        forall|i: int| 0 <= i < blanks.len() ==> is_blank(#[trigger] blanks[i]),
        value.len() > 0 ==> !is_blank(value[0]),
    ensures
        skipped_blanks(blanks + value) == value,
    decreases blanks.len(),
{
    if blanks.len() == 0 {
        assert(blanks + value =~= value);
    } else {
        let rest = blanks.drop_first();
        assert forall|i: int| 0 <= i < rest.len() implies is_blank(#[trigger] rest[i]) by {
            assert(rest[i] == blanks[i + 1]);
        }
        lemma_blanks_skipped(rest, value);
        assert((blanks + value).drop_first() =~= rest + value);
        assert(is_blank(blanks[0]));
    }
}

/// A header is a name, perhaps white space, a colon, perhaps blanks, and a value, which goes on over all
/// lines that continue it, as they stand; white space at its end does not belong to it. What follows
/// the header is the text from the end of its last line on.
pub proof fn law_header_lines(
    name: Seq<char>,
    pad: Seq<char>,
    blanks: Seq<char>,
    value: Seq<char>,
    tail: Seq<char>,
)
    requires
        name.len() > 0,
        !name.contains(':'),
        !is_white_space(name.last()),
        !pad.contains(':'),
        forall|i: int| 0 <= i < pad.len() ==> is_white_space(#[trigger] pad[i]),
        forall|i: int| 0 <= i < blanks.len() ==> #[trigger] blanks[i] == ' ' || blanks[i] == '\t',
        value.len() > 0 ==> value[0] != ' ' && value[0] != '\t',
        one_line(name + pad + seq![':'] + (blanks + value)),
        tail.len() == 0 || (tail.len() >= 2 && tail[0] == '\r' && tail[1] == '\n'),
    ensures
        ({
            let line = name + pad + seq![':'] + (blanks + value);
            let end = fold_tail(tail);
            let folded = tail.take(tail.len() - end.len());
            header_at(line + tail) == Some((name, trimmed_lws_end(value + folded), end))
        }),
{
    let line = name + pad + seq![':'] + (blanks + value);
    let s = line + tail;
    let end = fold_tail(tail);
    let folded = tail.take(tail.len() - end.len());
    lemma_first_line(line, tail);
    assert(!(name + pad).contains(':')) by {
        if (name + pad).contains(':') {
            let i = choose|i: int| 0 <= i < (name + pad).len() && (name + pad)[i] == ':';
            if i < name.len() {
                assert(name.contains(name[i]));
            } else {
                assert(pad.contains(pad[i - name.len()]));
            }
        }
    }
    lemma_split_at(name + pad, ':', blanks + value);
    assert forall|i: int| name.len() <= i < (name + pad).len() implies is_white_space(
        #[trigger] (name + pad)[i],
    ) by {
        assert((name + pad)[i] == pad[i - name.len()]);
    }
    lemma_trimmed_end(name + pad, name.len() as int);
    assert((name + pad).take(name.len() as int) =~= name);
    lemma_blanks_skipped(blanks, value);
    lemma_fold_tail(tail);
    assert(end.len() <= tail.len());
    let text = s.take(s.len() - end.len());
    assert(text =~= line + folded);
    assert(text.skip(line.len() - value.len()) =~= value + folded);
}

/// A block is its headers one behind the other. It is refused where a line is empty or continues no
/// header, and where a line has no name and colon; else each header stands for itself, in order.
pub proof fn law_blocks_are_headers(s: Seq<char>)
    requires
        s.len() > 0,
    ensures
        headers_of(Seq::empty()) == Ok::<Seq<HeaderView>, SipParseError>(Seq::empty()),
        s[0] == ' ' || s[0] == '\t' || line_len(s) == 0 ==> headers_of(s) == Err::<
            Seq<HeaderView>,
            SipParseError,
        >(SipParseError::InvalidHeaderValue),
        line_len(s) > 0 && s[0] != ' ' && s[0] != '\t' ==> match header_at(s) {
            None => headers_of(s) == Err::<Seq<HeaderView>, SipParseError>(
                SipParseError::InvalidHeaderName,
            ),
            Some((name, value, end)) => {
                let rest = if end.len() >= 2 {
                    end.skip(2)
                } else {
                    Seq::empty()
                };
                if rest.len() > 0 && line_len(rest) == 0 {
                    headers_of(s) == Err::<Seq<HeaderView>, SipParseError>(
                        SipParseError::InvalidHeaderValue,
                    )
                } else {
                    match header_of(name, value) {
                        Err(e) => headers_of(s) == Err::<Seq<HeaderView>, SipParseError>(e),
                        Ok(header) => match headers_of(rest) {
                            Err(e) => headers_of(s) == Err::<Seq<HeaderView>, SipParseError>(e),
                            Ok(others) => headers_of(s) == Ok::<Seq<HeaderView>, SipParseError>(
                                seq![header] + others,
                            ),
                        },
                    }
                }
            },
        },
{
}

/// An address in angle brackets: in front a display name in quotes, or none; inside the URI; behind the
/// bracket whatever follows, without white space in front of it.
pub proof fn law_bracketed_addresses(display: Seq<char>, uri: Seq<char>, tail: Seq<char>)
    requires
        !display.contains('"'),
        !uri.contains('>'),
    ensures
        ({
            let behind = skipped_lws(tail);
            let params = if behind.len() > 0 {
                Some(behind)
            } else {
                None::<Seq<char>>
            };
            let bracketed = seq!['<'] + uri + seq!['>'] + tail;
            let named = seq!['"'] + display + seq!['"', ' '] + bracketed;
            match uri_of(uri) {
                Some(u) => {
                    &&& name_addr_of(bracketed) == Ok::<NameAddrView, SipParseError>(
                        NameAddrView { display_name: None, uri: u, params, enclosed: true },
                    )
                    &&& name_addr_of(named) == Ok::<NameAddrView, SipParseError>(
                        NameAddrView { display_name: Some(display), uri: u, params, enclosed: true },
                    )
                },
                None => {
                    &&& name_addr_of(bracketed) == Err::<NameAddrView, SipParseError>(
                        SipParseError::InvalidUri,
                    )
                    &&& name_addr_of(named) == Err::<NameAddrView, SipParseError>(
                        SipParseError::InvalidUri,
                    )
                },
            }
        }),
        name_addr_of(seq!['<'] + uri) == Err::<NameAddrView, SipParseError>(
            SipParseError::InvalidNameAddrHeader,
        ),
        name_addr_of(seq!['"'] + display) == Err::<NameAddrView, SipParseError>(
            SipParseError::InvalidNameAddrHeader,
        ),
        name_addr_of(Seq::empty()) == Err::<NameAddrView, SipParseError>(
            SipParseError::InvalidNameAddrHeader,
        ),
{
    let bracketed = seq!['<'] + uri + seq!['>'] + tail;
    let named = seq!['"'] + display + seq!['"', ' '] + bracketed;
    assert(skipped_lws(bracketed) == bracketed);
    assert(bracketed.drop_first() =~= uri + seq!['>'] + tail);
    lemma_split_at(uri, '>', tail);
    assert(skipped_lws(named) == named);
    assert(named.drop_first() =~= display + seq!['"'] + (seq![' '] + bracketed));
    lemma_split_at(display, '"', seq![' '] + bracketed);
    assert((seq![' '] + bracketed).drop_first() =~= bracketed);
    assert(skipped_lws(seq![' '] + bracketed) == bracketed);
    assert((seq!['<'] + uri).drop_first() =~= uri);
    assert((seq!['"'] + display).drop_first() =~= display);
    law_splitting(uri, '>', tail);
    law_splitting(display, '"', tail);
    lemma_until(Seq::empty(), token_stops(seq![';']));
}

/// An address without brackets is a URI up to the first semicolon or white space, and behind it
/// whatever follows.
pub proof fn law_bare_addresses(uri: Seq<char>, tail: Seq<char>)
    requires
        uri.len() > 0,
        uri[0] != '<',
        uri[0] != '"',
        is_token(uri, seq![';']),
        tail.len() > 0 ==> tail[0] == ';' || tail[0] == ' ' || tail[0] == '\t' || tail[0] == '\r',
    ensures
        ({
            let behind = skipped_lws(tail);
            match uri_of(uri) {
                Some(u) => name_addr_of(uri + tail) == Ok::<NameAddrView, SipParseError>(
                    NameAddrView {
                        display_name: None,
                        uri: u,
                        params: if behind.len() > 0 {
                            Some(behind)
                        } else {
                            None
                        },
                        enclosed: false,
                    },
                ),
                None => name_addr_of(uri + tail) == Err::<NameAddrView, SipParseError>(
                    SipParseError::InvalidUri,
                ),
            }
        }),
{
    let stops = token_stops(seq![';']);
    assert(stops[0] == '\r' && stops[1] == ' ' && stops[2] == '\t' && stops[3] == ';');
    assert(tail.len() > 0 ==> stops.contains(tail[0]));
    lemma_token_in_front(uri, tail, seq![';']);
    assert((uri + tail)[0] == uri[0]);
}

/// A sequence header is a number and a method, with white space between them.
pub proof fn law_sequence_headers(number: u32, method: Seq<char>)
    requires
        method.len() > 0,
        is_token(method, Seq::empty()),
    ensures
        cseq_of(decimal(number as int) + seq![' '] + method) == Some(
            HeaderView::CSeq(number, method_of(method)),
        ),
        cseq_of(decimal(number as int)) is None,
        decimal_value(method, u32::MAX as int) is None ==> cseq_of(method) is None,
{
    let digits = decimal(number as int);
    lemma_decimal_round_trip(number as int);
    lemma_decimal_value(digits, u32::MAX as int);
    let stops = token_stops(Seq::empty());
    assert(stops[0] == '\r' && stops[1] == ' ' && stops[2] == '\t');
    assert(stops.contains(' '));
    assert(is_token(digits, Seq::empty())) by {
        assert forall|i: int| 0 <= i < digits.len() implies !stops.contains(#[trigger] digits[i]) by {
            assert(is_digit(digits[i]));
        }
    }
    let none = Seq::<char>::empty();
    let tail = seq![' '] + method;
    let value = digits + seq![' '] + method;
    assert(value =~= digits + tail);
    lemma_token_in_front(digits, tail, none);
    lemma_token_in_front(digits, none, none);
    assert(digits + none =~= digits);
    assert(digits.skip(digits.len() as int) =~= none);
    lemma_token_in_front(method, none, none);
    assert(method + none =~= method);
    assert(method.skip(method.len() as int) =~= none);
    assert(tail.drop_first() =~= method);
    assert(skipped_lws(tail) == method);
    assert(!stops.contains(method[method.len() - 1]));
    assert(stops.contains('\r') && stops.contains('\t'));
    assert(trimmed_lws_end(method) == method) by {
        if method.len() > 1 {
            assert(!stops.contains(method[method.len() - 2]));
        }
    }
    assert(trimmed_lws_end(skipped_lws(none)) == none);
}

/// A call identifier is the value without white space at its ends, and not empty; a hop limit is a
/// number of 32 bits; a contact is a star alone or an address.
pub proof fn law_simple_headers(name: Seq<char>, value: Seq<char>)
    ensures
        ({
            let text = trimmed_lws_end(skipped_lws(value));
            &&& same_ignoring_case(name, "call-id"@) ==> header_of(name, value) == (if text.len() > 0 {
                Ok::<HeaderView, SipParseError>(HeaderView::CallId(text))
            } else {
                Err(SipParseError::InvalidCallId)
            })
            &&& same_ignoring_case(name, "max-forwards"@) ==> match decimal_value(text, 4294967295) {
                Some(n) => header_of(name, value) matches Ok(HeaderView::MaxForwards(hops)) && hops
                    == n,
                None => header_of(name, value) == Err::<HeaderView, SipParseError>(
                    SipParseError::InvalidMaxForwards,
                ),
            }
            &&& same_ignoring_case(name, "contact"@) ==> {
                &&& text.len() == 0 ==> header_of(name, value) == Err::<HeaderView, SipParseError>(
                    SipParseError::InvalidContact,
                )
                &&& text == seq!['*'] ==> header_of(name, value) == Ok::<HeaderView, SipParseError>(
                    HeaderView::Contact(None, true),
                )
                &&& text.len() > 0 && text != seq!['*'] ==> match name_addr_of(text) {
                    Ok(addr) => header_of(name, value) == Ok::<HeaderView, SipParseError>(
                        HeaderView::Contact(Some(addr), false),
                    ),
                    Err(e) => header_of(name, value) == Err::<HeaderView, SipParseError>(e),
                }
            }
            &&& same_ignoring_case(name, "cseq"@) ==> match cseq_of(value) {
                Some(header) => header_of(name, value) == Ok::<HeaderView, SipParseError>(header),
                None => header_of(name, value) == Err::<HeaderView, SipParseError>(
                    SipParseError::InvalidCSeq,
                ),
            }
            &&& same_ignoring_case(name, "via"@) ==> match via_of(value) {
                Some(hop) => header_of(name, value) == Ok::<HeaderView, SipParseError>(
                    HeaderView::Via(hop),
                ),
                None => header_of(name, value) == Err::<HeaderView, SipParseError>(
                    SipParseError::InvalidViaHeader,
                ),
            }
        }),
{
    crate::sip::laws::law_headers_have_their_names(name);
    let text = trimmed_lws_end(skipped_lws(value));
    lemma_decimal_value(text, 4294967295);
    reveal_strlit("*");
    assert("*"@ =~= seq!['*']);
}

/// The sender of a hop is a host, or a host, a colon and a port.
pub proof fn law_senders(host: Seq<char>, port: u16)
    ensures
        !host.contains(':') ==> sent_by_of(host) == Some((host, None::<u16>)),
        sent_by_of(host + seq![':'] + decimal(port as int)) == Some((host, Some(port))),
{
    let digits = decimal(port as int);
    lemma_decimal_round_trip(port as int);
    lemma_decimal_value(digits, u16::MAX as int);
    assert(!digits.contains(':')) by {
        if digits.contains(':') {
            let i = choose|i: int| 0 <= i < digits.len() && digits[i] == ':';
            assert(is_digit(digits[i]));
        }
    }
    law_splitting(host, ':', digits);
}

/// An empty line is two line ends in a row, and the first is the one that none stands in front of.
pub proof fn law_first_empty_line(bytes: Seq<u8>, at: int)
    ensures
        blank_line_at(bytes, at) <==> 0 <= at && at + 4 <= bytes.len() && bytes.subrange(at, at + 4)
            == seq![13u8, 10u8, 13u8, 10u8],
        first_blank_line(bytes, at) ==> blank_line_at(bytes, at) && forall|k: int|
            0 <= k < at ==> !#[trigger] blank_line_at(bytes, k),
        blank_line_at(bytes, at) && (forall|k: int|
            0 <= k < at ==> !#[trigger] blank_line_at(bytes, k)) ==> first_blank_line(bytes, at),
{
    if 0 <= at && at + 4 <= bytes.len() {
        let part = bytes.subrange(at, at + 4);
        if blank_line_at(bytes, at) {
            assert(part =~= seq![13u8, 10u8, 13u8, 10u8]);
        }
        if part == seq![13u8, 10u8, 13u8, 10u8] {
            assert(part[0] == bytes[at] && part[1] == bytes[at + 1] && part[2] == bytes[at + 2]
                && part[3] == bytes[at + 3]);
        }
    }
}

/// A text is cut at the first line end into first line and rest, and the rest at the first empty line
/// into headers and body. A request is refused for its first line, then for an empty line that is
/// missing, then for its headers, and without a line end for that; a response likewise.
pub proof fn law_messages_are_cut(line: Seq<char>, block: Seq<char>, body: Seq<char>)
    requires
        one_line(line),
        find_text(block + empty_line() + body, empty_line()) == block.len(),
    ensures
        ({
            let text = line + crlf() + (block + empty_line() + body);
            &&& match request_line_of(line) {
                Err(e) => request_of(text) == Err::<MessageView, SipParseError>(e),
                Ok(first) => match headers_of(block) {
                    Err(e) => request_of(text) == Err::<MessageView, SipParseError>(e),
                    Ok(headers) => request_of(text) == Ok::<MessageView, SipParseError>(
                        MessageView {
                            start_line: StartLineView::Request(first),
                            headers,
                            body: encode_utf8(body),
                        },
                    ),
                },
            }
            &&& match status_line_of(line) {
                Err(e) => response_of(text) == Err::<MessageView, SipParseError>(e),
                Ok(first) => match headers_of(block) {
                    Err(e) => response_of(text) == Err::<MessageView, SipParseError>(e),
                    Ok(headers) => response_of(text) == Ok::<MessageView, SipParseError>(
                        MessageView {
                            start_line: StartLineView::Response(first),
                            headers,
                            body: encode_utf8(body),
                        },
                    ),
                },
            }
        }),
        request_of(line) == Err::<MessageView, SipParseError>(SipParseError::UnexpectedEof),
        response_of(line) == Err::<MessageView, SipParseError>(SipParseError::UnexpectedEof),
        find_text(block, empty_line()) < 0 && request_line_of(line) is Ok ==> request_of(
            line + crlf() + block,
        ) == Err::<MessageView, SipParseError>(SipParseError::UnexpectedEof),
        find_text(block, empty_line()) < 0 && status_line_of(line) is Ok ==> response_of(
            line + crlf() + block,
        ) == Err::<MessageView, SipParseError>(SipParseError::UnexpectedEof),
{
    let rest = block + empty_line() + body;
    lemma_line_end(line, rest);
    lemma_line_end(line, block);
    assert(rest.take(block.len() as int) =~= block);
    assert(rest.skip(block.len() as int + 4) =~= body);
}

/// Two line ends in a row.
pub open spec fn empty_line() -> Seq<char> {
    seq!['\r', '\n', '\r', '\n']
}

/// In bytes only the head has to be text; the body is what stands behind the empty line, as it is.
pub proof fn law_bytes_are_cut(head: Seq<u8>, body: Seq<u8>)
    ensures
        ({
            let bytes = head + seq![13u8, 10u8, 13u8, 10u8] + body;
            let r = request_of_bytes(bytes, head.len() as int);
            &&& !valid_utf8(head) ==> r == Err::<MessageView, SipParseError>(
                SipParseError::InvalidHeaderValue,
            )
            &&& r matches Ok(message) ==> message.body == body
        }),
{
    let bytes = head + seq![13u8, 10u8, 13u8, 10u8] + body;
    assert(bytes.take(head.len() as int) =~= head);
    assert(bytes.skip(head.len() as int + 4) =~= body);
}

/// What a parser hands back is what the text means: the message that its view is, or the error.
pub proof fn law_results_mean_what_they_say(
    r: Result<SipMessage<'_>, SipParseError>,
    meaning: Result<MessageView, SipParseError>,
)
    requires
        result_means(r, meaning),
    ensures
        r is Ok <==> meaning is Ok,
        r matches Ok(message) ==> meaning->Ok_0 == message@,
        r matches Err(e) ==> meaning->Err_0 == e,
{
}

/// The view of a message holds its first line, its headers one for one and in order, and its body.
pub proof fn law_messages_are_seen(message: SipMessage<'_>, list: Seq<Header<'_>>)
    ensures
        header_views(list).len() == list.len(),
        forall|i: int| 0 <= i < list.len() ==> #[trigger] header_views(list)[i] == list[i]@,
        message@.start_line == message.start_line@,
        message@.headers == header_views(message.headers@),
        message@.body == message.body@,
{
}

/// The parts of a URI: the user stands in front of the last at sign, the parameters from the first
/// semicolon on, and the headers behind the first question mark.
pub proof fn law_parts_of_a_uri(
    scheme: Seq<char>,
    user: Seq<char>,
    place: Seq<char>,
    params: Seq<char>,
    headers: Seq<char>,
)
    requires
        !scheme.contains(':'),
        !user.contains(';') && !user.contains('?'),
        !place.contains('@') && !place.contains(';') && !place.contains('?'),
        params.len() > 0 && params[0] == ';' && !params.contains('?'),
        ({
            let text = scheme + seq![':'] + (user + seq!['@'] + place + params + seq!['?'] + headers);
            trimmed_lws_end(skipped_lws(text)) == text
        }),
    ensures
        ({
            let text = scheme + seq![':'] + (user + seq!['@'] + place + params + seq!['?'] + headers);
            match (scheme_of(scheme), host_port_of(place)) {
                (Some(s), Some((host, port))) => if host.len() > 0 {
                    uri_of(text) == Some(
                        UriView {
                            scheme: s,
                            userinfo: Some(user),
                            host,
                            port,
                            params: Some(params),
                            headers: Some(headers),
                        },
                    )
                } else {
                    uri_of(text) is None
                },
                _ => uri_of(text) is None,
            }
        }),
{
    let front = user + seq!['@'] + place;
    let body = front + params + seq!['?'] + headers;
    law_splitting(scheme, ':', body);
    lemma_lacks(user + seq!['@'], place, '?', user, seq!['@']);
    assert(!(front + params).contains('?')) by {
        if (front + params).contains('?') {
            let i = choose|i: int| 0 <= i < (front + params).len() && (front + params)[i] == '?';
            if i < front.len() {
                assert(front.contains(front[i]));
            } else {
                assert(params.contains(params[i - front.len()]));
            }
        }
    }
    law_splitting(front + params, '?', headers);
    lemma_lacks(user + seq!['@'], place, ';', user, seq!['@']);
    let stops = seq![';'];
    lemma_until(front + params, stops);
    let at = until(front + params, stops);
    assert(stops.contains(';')) by {
        assert(stops[0] == ';');
    }
    assert((front + params)[front.len() as int] == ';');
    if at < front.len() {
        assert(stops.contains((front + params)[at]));
        assert(front.contains(front[at]));
    } else if at > front.len() {
        assert(!stops.contains((front + params)[front.len() as int]));
    }
    assert((front + params).take(front.len() as int) =~= front);
    assert((front + params).skip(front.len() as int) =~= params);
    law_splitting(user, '@', place);
}

proof fn lemma_lacks(front: Seq<char>, place: Seq<char>, c: char, user: Seq<char>, mark: Seq<char>)
    requires
        front == user + mark,
        !user.contains(c),
        !place.contains(c),
        mark.len() == 1,
        mark[0] != c,
    ensures
        !(front + place).contains(c),
{
    let s = front + place;
    if s.contains(c) {
        let i = choose|i: int| 0 <= i < s.len() && s[i] == c;
        if i < user.len() {
            assert(user.contains(user[i]));
        } else if i > user.len() {
            assert(place.contains(place[i - user.len() - 1]));
        }
    }
}

/// A host is what stands in brackets, or else all up to the last colon that only digits follow. The
/// digits are the port, of at most 16 bits; behind a bracket nothing but a colon and a port may stand.
pub proof fn law_hosts_and_ports(host: Seq<char>, port: u16, digits: Seq<char>, junk: Seq<char>)
    requires
        host.len() > 0,
        host[0] != '[',
        !host.contains(']'),
        digits.len() > 0,
        all_digits(digits),
    ensures
        !host.contains(':') ==> host_port_of(host) == Some((host, None::<u16>)),
        host_port_of(host + seq![':'] + decimal(port as int)) == Some((host, Some(port))),
        digits_value(digits) > 65535 ==> host_port_of(host + seq![':'] + digits) is None,
        host_port_of(seq!['['] + host + seq![']']) == Some((host, None::<u16>)),
        host_port_of(seq!['['] + host + seq![']', ':'] + decimal(port as int)) == Some(
            (host, Some(port)),
        ),
        junk.len() > 0 && junk[0] != ':' ==> host_port_of(seq!['['] + host + seq![']'] + junk) is None,
        host_port_of(seq!['['] + host) is None,
{
    let number = decimal(port as int);
    lemma_decimal_round_trip(port as int);
    lemma_decimal_value(number, u16::MAX as int);
    lemma_digits_lack_colon(number);
    lemma_digits_lack_colon(digits);
    law_splitting(host, ':', number);
    law_splitting(host, ':', digits);
    assert((host + seq![':'] + number)[0] == host[0]);
    assert((host + seq![':'] + digits)[0] == host[0]);
    assert(is_digit(digits[0]));
    law_splitting(host, ']', Seq::empty());
    law_splitting(host, ']', seq![':'] + number);
    law_splitting(host, ']', junk);
    let bare = seq!['['] + host + seq![']'];
    assert(bare.drop_first() =~= host + seq![']'] + Seq::<char>::empty());
    let numbered = seq!['['] + host + seq![']', ':'] + number;
    assert(numbered.drop_first() =~= host + seq![']'] + (seq![':'] + number));
    assert((seq![':'] + number).drop_first() =~= number);
    assert((bare + junk).drop_first() =~= host + seq![']'] + junk);
    assert((seq!['['] + host).drop_first() =~= host);
}

proof fn lemma_digits_lack_colon(digits: Seq<char>)
    requires
        all_digits(digits),
    ensures
        !digits.contains(':'),
{
    if digits.contains(':') {
        let i = choose|i: int| 0 <= i < digits.len() && digits[i] == ':';
        assert(is_digit(digits[i]));
    }
}

} // verus!
