//! Reading what was written gives back the same.
use vstd::prelude::*;

verus! {

use crate::sdp::round_trip::{is_word, lemma_word_prefix, lemma_words_of_spaced};
use crate::sdp::spaced;
use crate::sip::error::{SipFormatError, SipParseError};
use crate::sip::fmt::{
    around, extra_at, head_text, header_text, headers_text, is_named_via_param, lemma_extra_at,
    message_written, name_addr_text, port_text, request_line_text, rport_text, start_line_text,
    status_line_text, uri_text, via_extras, via_text,
};
use crate::sip::parse::common::{
    host_port_of, is_blank, lemma_skipped_lws, params_of, scheme_of, skipped_lws, token_stops,
    trimmed_lws_end, uri_headers_of, uri_of, userinfo_of,
};
use crate::sip::parse::headers::{
    address_of, behind_line_end, crlf, cseq_of, fold_tail, header_at, header_of, headers_of,
    line_len, lws_trimmed, name_addr_of, no_via_params, sent_by_of, set_via_param, skipped_blanks,
    trailing_params, via_of, via_param_at, via_params_of, ViaParams,
};
use crate::sip::parse::request::{request_line_of, request_of, request_of_bytes};
use crate::sip::parse::response::{response_of, status_line_of};
use crate::sip::types::{
    kind_of, law_method_round_trip, method_is_canonical, method_token, scheme_text, HeaderView,
    MessageView, MethodView, NameAddrView, RequestLineView, SipScheme, StartLineView,
    StatusLineView, UriView, ViaParamRport, ViaView,
};
use crate::sip::ws::{frame_message, message_text, WsFrameFormat, WsSipError};
use crate::text::{
    all_digits, ascii_lower, decimal, decimal_value, find_text, is_digit, is_white_space,
    lemma_decimal_round_trip, lemma_encode_concat, lemma_through_last, lemma_until,
    same_ignoring_case, split_char, split_last, split_text, through_last, trimmed_end,
    trimmed_start, until, words,
};
use vstd::utf8::{
    decode_utf8, decode_utf8_encode_utf8, encode_utf8, encode_utf8_decode_utf8,
    encode_utf8_valid_utf8, valid_utf8,
};

/// The first stop is where no stop stands in front of it.
proof fn lemma_until_at(s: Seq<char>, stops: Seq<char>, n: int)
    requires
        0 <= n <= s.len(),
        forall|i: int| 0 <= i < n ==> !stops.contains(#[trigger] s[i]),
        n < s.len() ==> stops.contains(s[n]),
    ensures
        until(s, stops) == n,
{
    lemma_until(s, stops);
    let m = until(s, stops);
    if m < n {
        assert(!stops.contains(s[m]));
    } else if n < m {
        assert(!stops.contains(s[n]));
    }
}

/// Splitting at a character that the first part does not have gives both parts.
pub proof fn lemma_split_at(head: Seq<char>, c: char, tail: Seq<char>)
    requires
        !head.contains(c),
    ensures
        split_char(head + seq![c] + tail, c) == Some((head, tail)),
{
    let s = head + seq![c] + tail;
    let n = head.len() as int;
    assert forall|i: int| 0 <= i < n implies !seq![c].contains(#[trigger] s[i]) by {
        assert(head.contains(head[i]));
    }
    assert(seq![c].contains(c)) by {
        assert(seq![c][0] == c);
    }
    lemma_until_at(s, seq![c], n);
    assert(s.take(n) =~= head);
    assert(s.skip(n + 1) =~= tail);
}

/// A text without a character cannot be split at it.
proof fn lemma_no_split(s: Seq<char>, c: char)
    requires
        !s.contains(c),
    ensures
        split_char(s, c) is None,
        until(s, seq![c]) == s.len(),
{
    assert forall|i: int| 0 <= i < s.len() implies !seq![c].contains(#[trigger] s[i]) by {
        assert(s.contains(s[i]));
    }
    lemma_until_at(s, seq![c], s.len() as int);
}

/// Splitting at the last character gives both parts, if the second part does not have it.
proof fn lemma_split_last(head: Seq<char>, c: char, tail: Seq<char>)
    requires
        !tail.contains(c),
    ensures
        split_last(head + seq![c] + tail, c) == Some((head, tail)),
{
    let s = head + seq![c] + tail;
    let n = head.len() + 1;
    assert forall|i: int| n <= i < s.len() implies #[trigger] s[i] != c by {
        assert(tail.contains(tail[i - n]));
    }
    lemma_through_last(s, c, n as int);
    assert(s.take(n - 1) =~= head);
    assert(s.skip(n as int) =~= tail);
}

/// A text without a character cannot be split at its last occurrence.
proof fn lemma_no_split_last(s: Seq<char>, c: char)
    requires
        !s.contains(c),
    ensures
        split_last(s, c) is None,
{
    assert forall|i: int| 0 <= i < s.len() implies #[trigger] s[i] != c by {
        assert(s.contains(s[i]));
    }
    lemma_through_last(s, c, 0);
}

/// Reading a number that was written gives the number.
proof fn lemma_decimal_value(n: int, max: int)
    requires
        0 <= n <= max,
    ensures
        decimal_value(decimal(n), max) == Some(n),
        all_digits(decimal(n)),
        decimal(n).len() > 0,
        is_digit(decimal(n)[0]),
{
    lemma_decimal_round_trip(n);
}

/// A number has no character but digits.
proof fn lemma_decimal_lacks(n: int, c: char)
    requires
        0 <= n,
        !is_digit(c),
    ensures
        !decimal(n).contains(c),
{
    lemma_decimal_round_trip(n);
    if decimal(n).contains(c) {
        let i = choose|i: int| 0 <= i < decimal(n).len() && decimal(n)[i] == c;
        assert(is_digit(decimal(n)[i]));
    }
}

/// Whether a text ends like a host with a port: with a colon and digits.
pub open spec fn ends_like_port(s: Seq<char>) -> bool {
    split_last(s, ':') matches Some((_, digits)) && digits.len() > 0 && all_digits(digits)
}

/// Whether host and port can be told apart: the host is not in brackets, and without a port it does
/// not end like one.
pub open spec fn host_is_plain(host: Seq<char>, port: Option<u16>) -> bool {
    &&& host.len() > 0
    &&& host[0] != '['
    &&& port is None ==> !ends_like_port(host)
}

/// Host and port are read back.
proof fn lemma_host_port(host: Seq<char>, port: Option<u16>)
    requires
        host_is_plain(host, port),
    ensures
        host_port_of(host + port_text(port)) == Some((host, port)),
        sent_by_of(host + port_text(port)) == Some((host, port)),
{
    let s = host + port_text(port);
    assert(s[0] == host[0]);
    match port {
        Some(p) => {
            lemma_decimal_value(p as int, u16::MAX as int);
            lemma_decimal_lacks(p as int, ':');
            lemma_split_last(host, ':', decimal(p as int));
            assert(s =~= host + seq![':'] + decimal(p as int));
        },
        None => {
            assert(s =~= host);
        },
    }
}

/// Whether the parts of a URI can be told apart in its text.
pub open spec fn uri_is_plain(uri: UriView) -> bool {
    &&& uri.userinfo matches Some(user) ==> !user.contains('?') && !user.contains(';')
    &&& host_is_plain(uri.host, uri.port)
    &&& !uri.host.contains('@')
    &&& !uri.host.contains('?')
    &&& !uri.host.contains(';')
    &&& uri.params matches Some(params) ==> params.len() > 0 && params[0] == ';'
        && !params.contains('?')
    &&& trimmed_lws_end(uri_text(uri)) == uri_text(uri)
}

/// A concatenation has no character that its parts do not have.
proof fn lemma_lacks_concat(a: Seq<char>, b: Seq<char>, c: char)
    requires
        !a.contains(c),
        !b.contains(c),
    ensures
        !(a + b).contains(c),
{
    let s = a + b;
    if s.contains(c) {
        let i = choose|i: int| 0 <= i < s.len() && s[i] == c;
        if i < a.len() {
            assert(a.contains(a[i]));
        } else {
            assert(b.contains(b[i - a.len()]));
        }
    }
}

/// A port has no character but a colon and digits.
proof fn lemma_port_lacks(port: Option<u16>, c: char)
    requires
        c != ':',
        !is_digit(c),
    ensures
        !port_text(port).contains(c),
{
    if let Some(p) = port {
        lemma_decimal_lacks(p as int, c);
        lemma_lacks_concat(seq![':'], decimal(p as int), c);
    }
}

/// Scheme names are read back, and begin with a letter.
proof fn lemma_scheme(scheme: SipScheme)
    ensures
        scheme_of(scheme_text(scheme)) == Some(scheme),
        !scheme_text(scheme).contains(':'),
        scheme_text(scheme).len() > 0,
        scheme_text(scheme)[0] == 's',
        forall|i: int|
            0 <= i < scheme_text(scheme).len() ==> 'a' <= #[trigger] scheme_text(scheme)[i] <= 'z',
{
    reveal_strlit("sip");
    reveal_strlit("sips");
    assert("sip"@ =~= seq!['s', 'i', 'p']);
    assert("sips"@ =~= seq!['s', 'i', 'p', 's']);
    assert("sip"@.len() != "sips"@.len());
}

/// What stands in front of the at sign is read back.
proof fn lemma_userinfo(userinfo: Option<Seq<char>>, host_port: Seq<char>)
    requires
        !host_port.contains('@'),
    ensures
        userinfo_of(around(Seq::empty(), userinfo, seq!['@']) + host_port) == (
            userinfo,
            host_port,
        ),
{
    let text = around(Seq::empty(), userinfo, seq!['@']) + host_port;
    match userinfo {
        Some(user) => {
            lemma_split_last(user, '@', host_port);
            assert(text =~= user + seq!['@'] + host_port);
        },
        None => {
            assert(text =~= host_port);
            lemma_no_split_last(host_port, '@');
        },
    }
}

/// What begins with the first semicolon is read back.
proof fn lemma_params(front: Seq<char>, params: Option<Seq<char>>)
    requires
        !front.contains(';'),
        params matches Some(text) ==> text.len() > 0 && text[0] == ';',
    ensures
        params_of(front + around(Seq::empty(), params, Seq::empty())) == (front, params),
{
    let text = front + around(Seq::empty(), params, Seq::empty());
    let n = front.len() as int;
    match params {
        Some(p) => {
            assert(text =~= front + p);
            assert forall|i: int| 0 <= i < n implies !seq![';'].contains(#[trigger] text[i]) by {
                assert(front.contains(front[i]));
            }
            assert(seq![';'].contains(text[n])) by {
                assert(seq![';'][0] == ';');
            }
            lemma_until_at(text, seq![';'], n);
            assert(text.take(n) =~= front);
            assert(text.skip(n) =~= p);
        },
        None => {
            assert(text =~= front);
            lemma_no_split(front, ';');
        },
    }
}

/// What stands behind the question mark is read back.
proof fn lemma_uri_headers(front: Seq<char>, headers: Option<Seq<char>>)
    requires
        !front.contains('?'),
    ensures
        uri_headers_of(front + around(seq!['?'], headers, Seq::empty())) == (front, headers),
{
    let text = front + around(seq!['?'], headers, Seq::empty());
    match headers {
        Some(h) => {
            lemma_split_at(front, '?', h);
            assert(text =~= front + seq!['?'] + h);
        },
        None => {
            assert(text =~= front);
            lemma_no_split(front, '?');
        },
    }
}

/// The front of a URI has no character that its user and its host do not have.
proof fn lemma_front_lacks(uri: UriView, c: char)
    requires
        c != ':',
        c != '@',
        !is_digit(c),
        uri.userinfo matches Some(user) ==> !user.contains(c),
        !uri.host.contains(c),
    ensures
        !(around(Seq::empty(), uri.userinfo, seq!['@']) + (uri.host + port_text(
            uri.port,
        ))).contains(c),
{
    lemma_port_lacks(uri.port, c);
    lemma_lacks_concat(uri.host, port_text(uri.port), c);
    if let Some(user) = uri.userinfo {
        lemma_lacks_concat(user, seq!['@'], c);
        assert(around(Seq::empty(), uri.userinfo, seq!['@']) =~= user + seq!['@']);
    }
    lemma_lacks_concat(
        around(Seq::empty(), uri.userinfo, seq!['@']),
        uri.host + port_text(uri.port),
        c,
    );
}

/// How the pieces of a URI are grouped does not matter.
proof fn lemma_uri_pieces(
    scheme: Seq<char>,
    user: Seq<char>,
    host: Seq<char>,
    port: Seq<char>,
    params: Seq<char>,
    headers: Seq<char>,
)
    ensures
        scheme + seq![':'] + user + host + port + params + headers == scheme + seq![':'] + ((user
            + (host + port)) + params + headers),
{
    assert(scheme + seq![':'] + user + host + port + params + headers =~= scheme + seq![':'] + ((
    user + (host + port)) + params + headers));
}

/// Reading a URI that was written gives the URI, if its parts can be told apart.
pub proof fn law_uri_round_trip(uri: UriView)
    requires
        uri_is_plain(uri),
    ensures
        uri_of(uri_text(uri)) == Some(uri),
{
    let text = uri_text(uri);
    let scheme = scheme_text(uri.scheme);
    let user = around(Seq::empty(), uri.userinfo, seq!['@']);
    let host_port = uri.host + port_text(uri.port);
    let params = around(Seq::empty(), uri.params, Seq::empty());
    let headers = around(seq!['?'], uri.headers, Seq::empty());
    let front = user + host_port;
    let body = front + params + headers;
    lemma_uri_pieces(scheme, user, uri.host, port_text(uri.port), params, headers);
    assert(text == scheme + seq![':'] + body);
    lemma_scheme(uri.scheme);
    assert(text[0] == scheme[0]);
    assert(skipped_lws(text) == text);
    lemma_split_at(scheme, ':', body);
    lemma_port_lacks(uri.port, '@');
    lemma_lacks_concat(uri.host, port_text(uri.port), '@');
    lemma_userinfo(uri.userinfo, host_port);
    lemma_front_lacks(uri, ';');
    lemma_front_lacks(uri, '?');
    lemma_params(front, uri.params);
    if let Some(p) = uri.params {
        assert(params =~= p);
    }
    lemma_lacks_concat(front, params, '?');
    lemma_uri_headers(front + params, uri.headers);
    lemma_host_port(uri.host, uri.port);
}

/// Splitting at the first occurrence of a character takes a text apart.
proof fn lemma_split_char_parts(s: Seq<char>, c: char)
    ensures
        match split_char(s, c) {
            Some((head, tail)) => s == head + seq![c] + tail && !head.contains(c),
            None => !s.contains(c),
        },
{
    lemma_until(s, seq![c]);
    let n = until(s, seq![c]);
    assert(seq![c].contains(c)) by {
        assert(seq![c][0] == c);
    }
    let head = s.take(n);
    if head.contains(c) {
        let i = choose|i: int| 0 <= i < head.len() && head[i] == c;
        assert(!seq![c].contains(s[i]));
    }
    if n < s.len() {
        assert(seq![c].contains(s[n]));
        assert(s =~= head + seq![c] + s.skip(n + 1));
    } else {
        assert(head =~= s);
    }
}

/// Where the last occurrence of a character is.
proof fn lemma_through_last_shape(s: Seq<char>, c: char)
    ensures
        0 <= through_last(s, c) <= s.len(),
        through_last(s, c) > 0 ==> s[through_last(s, c) - 1] == c,
        forall|i: int| through_last(s, c) <= i < s.len() ==> #[trigger] s[i] != c,
    decreases s.len(),
{
    if s.len() > 0 && s.last() != c {
        let rest = s.drop_last();
        lemma_through_last_shape(rest, c);
        assert forall|i: int| through_last(s, c) <= i < s.len() implies #[trigger] s[i] != c by {
            if i < rest.len() {
                assert(rest[i] != c);
            }
        }
    }
}

/// Splitting at the last occurrence of a character takes a text apart.
proof fn lemma_split_last_parts(s: Seq<char>, c: char)
    ensures
        match split_last(s, c) {
            Some((head, tail)) => s == head + seq![c] + tail && !tail.contains(c),
            None => !s.contains(c),
        },
{
    lemma_through_last_shape(s, c);
    let n = through_last(s, c);
    let tail = s.skip(n);
    if tail.contains(c) {
        let i = choose|i: int| 0 <= i < tail.len() && tail[i] == c;
        assert(s[n + i] != c);
    }
    if n > 0 {
        assert(s =~= s.take(n - 1) + seq![c] + tail);
    } else {
        assert(tail =~= s);
    }
}

/// A part has no character that the whole does not have.
proof fn lemma_lacks_parts(a: Seq<char>, b: Seq<char>, c: char)
    requires
        !(a + b).contains(c),
    ensures
        !a.contains(c),
        !b.contains(c),
{
    let s = a + b;
    if a.contains(c) {
        let i = choose|i: int| 0 <= i < a.len() && a[i] == c;
        assert(s[i] == c);
    }
    if b.contains(c) {
        let i = choose|i: int| 0 <= i < b.len() && b[i] == c;
        assert(s[a.len() + i] == c);
    }
}

/// Whether a text does not end in linear white space.
spec fn ends_clean(s: Seq<char>) -> bool {
    &&& s.len() > 0 ==> !is_blank(s.last())
    &&& s.len() > 1 ==> !(s.last() == '\n' && s[s.len() - 2] == '\r')
}

proof fn lemma_trimmed_ends_clean(s: Seq<char>)
    ensures
        trimmed_lws_end(s).len() <= s.len(),
        trimmed_lws_end(s) == s.take(trimmed_lws_end(s).len() as int),
        ends_clean(trimmed_lws_end(s)),
    decreases s.len(),
{
    let n = trimmed_lws_end(s).len() as int;
    if s.len() > 0 && is_blank(s.last()) {
        lemma_trimmed_ends_clean(s.drop_last());
        assert(s.drop_last().take(n) =~= s.take(n));
    } else if s.len() > 1 && s.last() == '\n' && s[s.len() - 2] == '\r' {
        lemma_trimmed_ends_clean(s.take(s.len() - 2));
        assert(s.take(s.len() - 2).take(n) =~= s.take(n));
    } else {
        assert(s.take(s.len() as int) =~= s);
    }
}

/// Texts with the same last two characters end alike.
proof fn lemma_same_end(a: Seq<char>, b: Seq<char>, tail: Seq<char>)
    requires
        tail.len() >= 2,
        ends_clean(a + tail),
    ensures
        ends_clean(b + tail),
{
    let x = a + tail;
    let y = b + tail;
    assert(x.last() == tail.last() && y.last() == tail.last());
    assert(x[x.len() - 2] == tail[tail.len() - 2] && y[y.len() - 2] == tail[tail.len() - 2]);
}

/// The text that host and port of a URI are read from.
pub open spec fn host_text(text: Seq<char>) -> Seq<char> {
    match split_char(trimmed_lws_end(skipped_lws(text)), ':') {
        Some((_, body)) => userinfo_of(params_of(uri_headers_of(body).0).0).1,
        None => Seq::empty(),
    }
}

/// Whether the host of a URI stands in brackets. They are not written again.
pub open spec fn in_brackets(text: Seq<char>) -> bool {
    host_text(text).len() > 0 && host_text(text)[0] == '['
}

/// The body of a URI is made of what is read from it.
proof fn lemma_body_parts(body: Seq<char>)
    ensures
        ({
            let (no_headers, headers) = uri_headers_of(body);
            let (no_params, params) = params_of(no_headers);
            let (userinfo, host_port) = userinfo_of(no_params);
            &&& body == around(Seq::empty(), userinfo, seq!['@']) + host_port + around(
                Seq::empty(),
                params,
                Seq::empty(),
            ) + around(seq!['?'], headers, Seq::empty())
            &&& userinfo matches Some(user) ==> !user.contains('?') && !user.contains(';')
            &&& !host_port.contains('@')
            &&& !host_port.contains('?')
            &&& !host_port.contains(';')
            &&& params matches Some(text) ==> text.len() > 0 && text[0] == ';' && !text.contains(
                '?',
            )
        }),
{
    let (no_headers, headers) = uri_headers_of(body);
    let (no_params, params) = params_of(no_headers);
    let (userinfo, host_port) = userinfo_of(no_params);
    lemma_split_char_parts(body, '?');
    assert(body =~= no_headers + around(seq!['?'], headers, Seq::empty()));
    assert(!no_headers.contains('?'));
    lemma_split_char_parts(no_headers, ';');
    let n = until(no_headers, seq![';']);
    lemma_until(no_headers, seq![';']);
    assert(no_headers =~= no_params + around(Seq::empty(), params, Seq::empty()));
    lemma_lacks_parts(no_params, around(Seq::empty(), params, Seq::empty()), '?');
    if let Some(text) = params {
        assert(around(Seq::empty(), params, Seq::empty()) =~= text);
        assert(seq![';'].contains(no_headers[n]));
    }
    assert(!no_params.contains(';'));
    lemma_split_last_parts(no_params, '@');
    let user = around(Seq::empty(), userinfo, seq!['@']);
    assert(no_params =~= user + host_port);
    lemma_lacks_parts(user, host_port, '?');
    lemma_lacks_parts(user, host_port, ';');
    if let Some(name) = userinfo {
        assert(user =~= name + seq!['@']);
        lemma_lacks_parts(name, seq!['@'], '?');
        lemma_lacks_parts(name, seq!['@'], ';');
    }
    assert(body =~= user + host_port + around(Seq::empty(), params, Seq::empty()) + around(
        seq!['?'],
        headers,
        Seq::empty(),
    ));
}

/// Host and port that were read from a text without brackets can be told apart.
proof fn lemma_host_read(text: Seq<char>)
    requires
        text.len() > 0 ==> text[0] != '[',
    ensures
        host_port_of(text) matches Some((host, port)) ==> {
            &&& host.len() > 0 ==> host_is_plain(host, port)
            &&& exists|rest: Seq<char>| text == #[trigger] (host + rest)
            &&& port is None ==> host == text
        },
{
    lemma_split_last_parts(text, ':');
    if let Some((host, port)) = host_port_of(text) {
        match split_last(text, ':') {
            Some((head, digits)) => {
                if port is Some {
                    assert(text =~= host + (seq![':'] + digits));
                } else {
                    assert(text =~= host + Seq::<char>::empty());
                }
            },
            None => {
                assert(text =~= host + Seq::<char>::empty());
            },
        }
        if host.len() > 0 {
            assert(host[0] == text[0]);
        }
    }
}

/// What is written of a URI that was read ends like the text that it was read from.
proof fn lemma_uri_text_ends_clean(front: Seq<char>, uri: UriView, host_port: Seq<char>)
    requires
        uri.host.len() > 0,
        uri.port is None ==> host_port == uri.host,
        uri.params matches Some(text) ==> text.len() > 0 && text[0] == ';',
        ends_clean(
            front + seq![':'] + (around(Seq::empty(), uri.userinfo, seq!['@']) + host_port + around(
                Seq::empty(),
                uri.params,
                Seq::empty(),
            ) + around(seq!['?'], uri.headers, Seq::empty())),
        ),
    ensures
        ends_clean(uri_text(uri)),
{
    let user = around(Seq::empty(), uri.userinfo, seq!['@']);
    let params = around(Seq::empty(), uri.params, Seq::empty());
    let headers = around(seq!['?'], uri.headers, Seq::empty());
    let read = front + seq![':'] + (user + host_port + params + headers);
    let written = uri_text(uri);
    let scheme = scheme_text(uri.scheme);
    if let Some(h) = uri.headers {
        if h.len() == 0 {
            assert(written.last() == '?');
        } else {
            let a = front + seq![':'] + (user + host_port + params);
            let b = scheme + seq![':'] + user + uri.host + port_text(uri.port) + params;
            assert(read =~= a + headers);
            assert(written =~= b + headers);
            lemma_same_end(a, b, headers);
        }
    } else if let Some(p) = uri.params {
        assert(params =~= p);
        if p.len() == 1 {
            assert(written.last() == ';');
        } else {
            let a = front + seq![':'] + (user + host_port);
            let b = scheme + seq![':'] + user + uri.host + port_text(uri.port);
            assert(read =~= a + p);
            assert(written =~= b + p);
            lemma_same_end(a, b, p);
        }
    } else if let Some(port) = uri.port {
        lemma_decimal_value(port as int, u16::MAX as int);
        let d = decimal(port as int);
        assert(written.last() == d[d.len() - 1]);
        assert(is_digit(d[d.len() - 1]));
    } else if let Some(name) = uri.userinfo {
        let tail = seq!['@'] + uri.host;
        assert(read =~= (front + seq![':'] + name) + tail);
        assert(written =~= (scheme + seq![':'] + name) + tail);
        lemma_same_end(front + seq![':'] + name, scheme + seq![':'] + name, tail);
    } else {
        let tail = seq![':'] + uri.host;
        assert(read =~= front + tail);
        assert(written =~= scheme + tail);
        lemma_same_end(front, scheme, tail);
    }
}

/// The parts of a URI that was read from a text, whatever the text is, can be told apart, unless the
/// host stood in brackets. So reading the URI again from what is written of it gives the same URI. A
/// text without `[` has no host in brackets.
pub proof fn law_uri_reads_back(text: Seq<char>)
    ensures
        uri_of(text) matches Some(uri) ==> in_brackets(text) || uri_is_plain(uri) && uri_of(
            uri_text(uri),
        ) == Some(uri),
        !text.contains('[') ==> !in_brackets(text),
{
    let slice = trimmed_lws_end(skipped_lws(text));
    lemma_skipped_lws(text);
    lemma_trimmed_ends_clean(skipped_lws(text));
    lemma_split_char_parts(slice, ':');
    if let Some((scheme_name, body)) = split_char(slice, ':') {
        let (no_headers, headers) = uri_headers_of(body);
        let (no_params, params) = params_of(no_headers);
        let (userinfo, host_port) = userinfo_of(no_params);
        lemma_body_parts(body);
        if !text.contains('[') && in_brackets(text) {
            let user = around(Seq::empty(), userinfo, seq!['@']);
            let at = scheme_name.len() + 1 + user.len();
            assert(slice[at as int] == host_port[0]);
            assert(skipped_lws(text)[at as int] == '[');
            assert(text[text.len() - skipped_lws(text).len() + at] == '[');
            assert(text.contains('['));
        }
        if let Some(uri) = uri_of(text) {
            if !in_brackets(text) {
                lemma_host_read(host_port);
                let rest = choose|rest: Seq<char>| host_port == #[trigger] (uri.host + rest);
                lemma_lacks_parts(uri.host, rest, '@');
                lemma_lacks_parts(uri.host, rest, '?');
                lemma_lacks_parts(uri.host, rest, ';');
                lemma_uri_text_ends_clean(scheme_name, uri, host_port);
                assert(trimmed_lws_end(uri_text(uri)) == uri_text(uri));
                law_uri_round_trip(uri);
            }
        }
    }
}

/// Whether no character of a text ends a token.
pub open spec fn is_token(s: Seq<char>, extra: Seq<char>) -> bool {
    forall|i: int| 0 <= i < s.len() ==> !token_stops(extra).contains(#[trigger] s[i])
}

/// Whether the parts of an address can be told apart in its text.
pub open spec fn name_addr_is_plain(addr: NameAddrView) -> bool {
    &&& uri_is_plain(addr.uri)
    &&& addr.display_name matches Some(name) ==> addr.enclosed && !name.contains('"')
    &&& addr.params matches Some(params) ==> params.len() > 0 && skipped_lws(params) == params
    &&& if addr.enclosed {
        !uri_text(addr.uri).contains('>')
    } else {
        &&& is_token(uri_text(addr.uri), seq![';'])
        &&& addr.params matches Some(params) ==> token_stops(seq![';']).contains(params[0])
    }
}

/// What follows an address is read back.
proof fn lemma_trailing_params(params: Option<Seq<char>>)
    requires
        params matches Some(text) ==> text.len() > 0 && skipped_lws(text) == text,
    ensures
        trailing_params(around(Seq::empty(), params, Seq::empty())) == params,
{
    let text = around(Seq::empty(), params, Seq::empty());
    match params {
        Some(p) => {
            assert(text =~= p);
        },
        None => {
            assert(skipped_lws(text) == text);
        },
    }
}

/// An address in angle brackets is read back.
proof fn lemma_enclosed_address(addr: NameAddrView)
    requires
        name_addr_is_plain(addr),
        addr.enclosed,
    ensures
        ({
            let bare = seq!['<'] + uri_text(addr.uri) + seq!['>'] + around(
                Seq::empty(),
                addr.params,
                Seq::empty(),
            );
            &&& address_of(bare, addr.display_name) == Ok::<NameAddrView, SipParseError>(addr)
            &&& skipped_lws(bare) == bare
        }),
{
    let uri = uri_text(addr.uri);
    let params = around(Seq::empty(), addr.params, Seq::empty());
    let bare = seq!['<'] + uri + seq!['>'] + params;
    law_uri_round_trip(addr.uri);
    lemma_trailing_params(addr.params);
    lemma_split_at(uri, '>', params);
    assert(bare.drop_first() =~= uri + seq!['>'] + params);
    assert(bare[0] == '<');
}

/// An address without angle brackets is read back.
proof fn lemma_bare_address(addr: NameAddrView)
    requires
        name_addr_is_plain(addr),
        !addr.enclosed,
    ensures
        ({
            let text = uri_text(addr.uri) + around(Seq::empty(), addr.params, Seq::empty());
            &&& address_of(text, None) == Ok::<NameAddrView, SipParseError>(addr)
            &&& skipped_lws(text) == text
            &&& text.len() > 0
            &&& text[0] == 's'
        }),
{
    let uri = uri_text(addr.uri);
    let params = around(Seq::empty(), addr.params, Seq::empty());
    let text = uri + params;
    law_uri_round_trip(addr.uri);
    lemma_trailing_params(addr.params);
    lemma_uri_begins(addr.uri);
    assert(text[0] == uri[0]);
    let n = uri.len() as int;
    assert forall|i: int| 0 <= i < n implies !token_stops(seq![';']).contains(
        #[trigger] text[i],
    ) by {
        assert(text[i] == uri[i]);
    }
    if n < text.len() {
        assert(text[n] == params[0]);
        assert(params =~= addr.params->0);
    }
    lemma_until_at(text, token_stops(seq![';']), n);
    assert(text.take(n) =~= uri);
    assert(text.skip(n) =~= params);
}

/// A URI begins with the letter that its scheme begins with.
proof fn lemma_uri_begins(uri: UriView)
    ensures
        uri_text(uri).len() > 0,
        uri_text(uri)[0] == 's',
{
    lemma_scheme(uri.scheme);
    assert(uri_text(uri)[0] == scheme_text(uri.scheme)[0]);
}

/// Reading an address that was written gives the address, if its parts can be told apart.
pub proof fn law_name_addr_round_trip(addr: NameAddrView)
    requires
        name_addr_is_plain(addr),
    ensures
        name_addr_of(name_addr_text(addr)) == Ok::<NameAddrView, SipParseError>(addr),
{
    let uri = uri_text(addr.uri);
    let params = around(Seq::empty(), addr.params, Seq::empty());
    let text = name_addr_text(addr);
    if addr.enclosed {
        let bare = seq!['<'] + uri + seq!['>'] + params;
        lemma_enclosed_address(addr);
        match addr.display_name {
            Some(name) => {
                let rest = seq![' '] + bare;
                assert(text =~= seq!['"'] + name + seq!['"'] + rest);
                assert(text[0] == '"');
                assert(skipped_lws(text) == text);
                assert(text.drop_first() =~= name + seq!['"'] + rest);
                lemma_split_at(name, '"', rest);
                assert(rest.drop_first() =~= bare);
                assert(skipped_lws(rest) == bare);
            },
            None => {
                assert(text =~= bare);
            },
        }
    } else {
        lemma_bare_address(addr);
        assert(text =~= uri + params);
    }
}

/// Linear white space in front of a text is skipped with what the text begins with.
proof fn lemma_skip_front(blank: Seq<char>, text: Seq<char>)
    requires
        skipped_lws(blank).len() == 0,
    ensures
        skipped_lws(blank + text) == skipped_lws(text),
    decreases blank.len(),
{
    let s = blank + text;
    if blank.len() == 0 {
        assert(s =~= text);
    } else if is_blank(blank[0]) {
        lemma_skip_front(blank.drop_first(), text);
        assert(s.drop_first() =~= blank.drop_first() + text);
    } else {
        lemma_skip_front(blank.skip(2), text);
        assert(s.skip(2) =~= blank.skip(2) + text);
    }
}

/// Linear white space behind a text is trimmed with what the text ends with.
proof fn lemma_trim_back(text: Seq<char>, blank: Seq<char>)
    requires
        skipped_lws(blank).len() == 0,
    ensures
        trimmed_lws_end(text + blank) == trimmed_lws_end(text),
    decreases blank.len(),
{
    if blank.len() == 0 {
        assert(text + blank =~= text);
    } else if is_blank(blank[0]) {
        let longer = text.push(blank[0]);
        lemma_trim_back(longer, blank.drop_first());
        assert(text + blank =~= longer + blank.drop_first());
        assert(longer.drop_last() =~= text);
    } else {
        let longer = text + seq!['\r', '\n'];
        lemma_trim_back(longer, blank.skip(2));
        assert(text + blank =~= longer + blank.skip(2));
        assert(longer.take(longer.len() - 2) =~= text);
    }
}

/// What is skipped is linear white space: it could be skipped alone, and has no semicolon.
proof fn lemma_skipped_part(s: Seq<char>)
    ensures
        ({
            let blank = s.take(s.len() - skipped_lws(s).len());
            &&& skipped_lws(s).len() <= s.len()
            &&& s == blank + skipped_lws(s)
            &&& skipped_lws(blank).len() == 0
            &&& !blank.contains(';')
        }),
    decreases s.len(),
{
    let rest = skipped_lws(s);
    lemma_skipped_lws(s);
    let blank = s.take(s.len() - rest.len());
    assert(s =~= blank + rest);
    if s.len() > 0 && is_blank(s[0]) {
        let t = s.drop_first();
        lemma_skipped_part(t);
        lemma_skipped_lws(t);
        let inner = t.take(t.len() - rest.len());
        assert(blank =~= seq![s[0]] + inner);
        assert(blank.drop_first() =~= inner);
        lemma_lacks_concat(seq![s[0]], inner, ';');
    } else if s.len() > 1 && s[0] == '\r' && s[1] == '\n' {
        let t = s.skip(2);
        lemma_skipped_part(t);
        lemma_skipped_lws(t);
        let inner = t.take(t.len() - rest.len());
        assert(blank =~= seq!['\r', '\n'] + inner);
        assert(blank.skip(2) =~= inner);
        lemma_lacks_concat(seq!['\r', '\n'], inner, ';');
    } else {
        assert(blank =~= Seq::<char>::empty());
    }
}

/// Whether a list of parameters is empty or begins with a semicolon.
spec fn begins_params(s: Seq<char>) -> bool {
    s.len() > 0 ==> s[0] == ';'
}

/// Text without a semicolon is passed over.
proof fn lemma_pass_over(text: Seq<char>, rest: Seq<char>, set: ViaParams)
    requires
        !text.contains(';'),
    ensures
        via_params_of(text + rest, set) == via_params_of(rest, set),
    decreases text.len(),
{
    let s = text + rest;
    if text.len() == 0 {
        assert(s =~= rest);
    } else {
        let t = text.drop_first();
        assert(text.contains(text[0]));
        assert(!t.contains(';')) by {
            if t.contains(';') {
                let i = choose|i: int| 0 <= i < t.len() && t[i] == ';';
                assert(text.contains(text[i + 1]));
            }
        }
        lemma_pass_over(t, rest, set);
        assert(s.drop_first() =~= t + rest);
    }
}

/// A token is found in front of a stop.
pub proof fn lemma_token_in_front(token: Seq<char>, rest: Seq<char>, extra: Seq<char>)
    requires
        is_token(token, extra),
        rest.len() > 0 ==> token_stops(extra).contains(rest[0]),
    ensures
        until(token + rest, token_stops(extra)) == token.len(),
        (token + rest).take(token.len() as int) == token,
        (token + rest).skip(token.len() as int) == rest,
        token.len() > 0 ==> skipped_lws(token + rest) == token + rest,
{
    let s = token + rest;
    let n = token.len() as int;
    let stops = token_stops(extra);
    assert forall|i: int| 0 <= i < n implies !stops.contains(#[trigger] s[i]) by {
        assert(s[i] == token[i]);
    }
    lemma_until_at(s, stops, n);
    assert(s.take(n) =~= token);
    assert(s.skip(n) =~= rest);
    if n > 0 {
        assert(stops[0] == '\r' && stops[1] == ' ' && stops[2] == '\t');
        assert(!stops.contains(s[0]));
        assert(stops.contains('\r') && stops.contains(' ') && stops.contains('\t'));
    }
}

/// A parameter with a value is read, with any linear white space in front of name and value.
proof fn lemma_param_with_value(
    blank: Seq<char>,
    name: Seq<char>,
    inner: Seq<char>,
    value: Seq<char>,
    rest: Seq<char>,
    set: ViaParams,
)
    requires
        skipped_lws(blank).len() == 0,
        skipped_lws(inner).len() == 0,
        name.len() > 0,
        is_token(name, seq!['=', ';']),
        is_token(value, seq![';']),
        begins_params(rest),
    ensures
        via_params_of(seq![';'] + blank + name + seq!['='] + inner + value + rest, set) == (
        match set_via_param(set, name, Some(value)) {
            Some(next) => via_params_of(rest, next),
            None => None,
        }),
{
    let s = seq![';'] + blank + name + seq!['='] + inner + value + rest;
    let behind = seq!['='] + inner + value + rest;
    assert(s.drop_first() =~= blank + (name + behind));
    lemma_skip_front(blank, name + behind);
    assert(token_stops(seq!['=', ';'])[3] == '=');
    assert(token_stops(seq!['=', ';']).contains('='));
    lemma_token_in_front(name, behind, seq!['=', ';']);
    assert(behind.drop_first() =~= inner + (value + rest));
    lemma_skip_front(inner, value + rest);
    assert(token_stops(seq![';'])[3] == ';');
    assert(token_stops(seq![';']).contains(';'));
    lemma_token_in_front(value, rest, seq![';']);
    assert(skipped_lws(rest) == rest);
    if value.len() == 0 {
        assert(value + rest =~= rest);
    }
    assert(via_param_at(s.drop_first()) == (name, Some(value), rest));
}

/// A parameter without a value is read, with any linear white space in front.
proof fn lemma_param_alone(blank: Seq<char>, name: Seq<char>, rest: Seq<char>, set: ViaParams)
    requires
        skipped_lws(blank).len() == 0,
        name.len() > 0,
        is_token(name, seq!['=', ';']),
        begins_params(rest),
    ensures
        via_params_of(seq![';'] + blank + name + rest, set) == (match set_via_param(
            set,
            name,
            None,
        ) {
            Some(next) => via_params_of(rest, next),
            None => None,
        }),
{
    let s = seq![';'] + blank + name + rest;
    assert(s.drop_first() =~= blank + (name + rest));
    lemma_skip_front(blank, name + rest);
    assert(token_stops(seq!['=', ';'])[4] == ';');
    assert(token_stops(seq!['=', ';']).contains(';'));
    lemma_token_in_front(name, rest, seq!['=', ';']);
    assert(skipped_lws(rest) == rest);
    assert(via_param_at(s.drop_first()) == (name, None::<Seq<char>>, rest));
}

/// A parameter without a name sets nothing.
proof fn lemma_param_without_name(tail: Seq<char>, rest: Seq<char>, set: ViaParams)
    requires
        tail.len() > 0 ==> skipped_lws(tail)[0] == '=' && skipped_lws(tail).len() > 0,
        !tail.contains(';'),
        begins_params(rest),
    ensures
        via_params_of(seq![';'] + tail + rest, set) == via_params_of(rest, set),
{
    let s = seq![';'] + tail + rest;
    assert(s.drop_first() =~= tail + rest);
    let stops = token_stops(seq!['=', ';']);
    assert(stops[3] == '=' && stops[4] == ';');
    assert(stops.contains('=') && stops.contains(';'));
    if tail.len() == 0 {
        assert(tail + rest =~= rest);
        assert(skipped_lws(rest) == rest);
        assert(until(rest, stops) == 0);
        assert(rest.skip(0) =~= rest);
        assert(via_param_at(s.drop_first()).2 == rest);
    } else {
        lemma_skipped_part(tail);
        let core = skipped_lws(tail);
        let blank = tail.take(tail.len() - core.len());
        assert(tail + rest =~= blank + (core + rest));
        lemma_skip_front(blank, core + rest);
        assert((core + rest)[0] == '=');
        assert(skipped_lws(core + rest) == core + rest);
        assert(until(core + rest, stops) == 0);
        assert((core + rest).skip(0) =~= core + rest);
        assert(via_param_at(s.drop_first()).2 == core + rest);
        assert(!core.contains(';')) by {
            if core.contains(';') {
                let i = choose|i: int| 0 <= i < core.len() && core[i] == ';';
                assert(tail[blank.len() + i] == ';');
                assert(tail.contains(tail[blank.len() + i]));
            }
        }
        lemma_pass_over(core, rest, set);
    }
}

/// Linear white space does not end with a carriage return.
proof fn lemma_blank_end(blank: Seq<char>)
    requires
        skipped_lws(blank).len() == 0,
        blank.len() > 0,
    ensures
        blank.last() != '\r',
    decreases blank.len(),
{
    if is_blank(blank[0]) {
        if blank.len() > 1 {
            lemma_blank_end(blank.drop_first());
        }
    } else if blank.len() > 2 {
        lemma_blank_end(blank.skip(2));
    }
}

/// A token at the end is not trimmed.
proof fn lemma_token_end(front: Seq<char>, token: Seq<char>, extra: Seq<char>)
    requires
        token.len() > 0,
        is_token(token, extra),
        front.len() > 0 ==> front.last() != '\r',
    ensures
        trimmed_lws_end(front + token) == front + token,
{
    let s = front + token;
    let stops = token_stops(extra);
    assert(stops[0] == '\r' && stops[1] == ' ' && stops[2] == '\t');
    assert(stops.contains('\r') && stops.contains(' ') && stops.contains('\t'));
    assert(s.last() == token[token.len() - 1]);
    if s.len() > 1 {
        if token.len() > 1 {
            assert(s[s.len() - 2] == token[token.len() - 2]);
        } else {
            assert(s[s.len() - 2] == front.last());
        }
    }
}

/// What stands in front of the name or the value of a parameter does not end with a carriage
/// return.
proof fn lemma_front_end(front: Seq<char>, blank: Seq<char>)
    requires
        front.len() > 0,
        front.last() != '\r',
        skipped_lws(blank).len() == 0,
    ensures
        (front + blank).last() != '\r',
{
    if blank.len() > 0 {
        lemma_blank_end(blank);
        assert((front + blank).last() == blank.last());
    } else {
        assert(front + blank =~= front);
    }
}

/// A parameter without a value that is not written on its own sets nothing.
proof fn lemma_lone_extra(blank: Seq<char>, name: Seq<char>, rest: Seq<char>, set: ViaParams)
    requires
        skipped_lws(blank).len() == 0,
        is_token(name, seq!['=', ';']),
        !is_named_via_param(name),
        begins_params(rest),
    ensures
        ({
            let segment = trimmed_lws_end(seq![';'] + blank + name);
            &&& segment.len() > 0
            &&& segment[0] == ';'
            &&& trimmed_lws_end(segment) == segment
            &&& via_params_of(segment + rest, set) == via_params_of(rest, set)
        }),
{
    let raw = seq![';'] + blank + name;
    if name.len() > 0 {
        lemma_front_end(seq![';'], blank);
        lemma_token_end(seq![';'] + blank, name, seq!['=', ';']);
        lemma_param_alone(blank, name, rest, set);
    } else {
        assert(raw =~= seq![';'] + blank);
        lemma_trim_back(seq![';'], blank);
        assert(trimmed_lws_end(seq![';']) == seq![';']);
        lemma_param_without_name(Seq::empty(), rest, set);
        assert(seq![';'] + Seq::<char>::empty() + rest =~= seq![';'] + rest);
    }
}

/// A parameter with a value that is not written on its own sets nothing.
proof fn lemma_valued_extra(
    blank: Seq<char>,
    name: Seq<char>,
    inner: Seq<char>,
    value: Seq<char>,
    rest: Seq<char>,
    set: ViaParams,
)
    requires
        skipped_lws(blank).len() == 0,
        !blank.contains(';'),
        is_token(name, seq!['=', ';']),
        !is_named_via_param(name),
        skipped_lws(inner).len() == 0,
        !inner.contains(';'),
        is_token(value, seq![';']),
        begins_params(rest),
    ensures
        ({
            let segment = trimmed_lws_end(
                seq![';'] + blank + name + seq!['='] + inner + value,
            );
            &&& segment.len() > 0
            &&& segment[0] == ';'
            &&& trimmed_lws_end(segment) == segment
            &&& via_params_of(segment + rest, set) == via_params_of(rest, set)
        }),
{
    let front = seq![';'] + blank + name + seq!['='];
    let raw = front + inner + value;
    let kept = if value.len() > 0 {
        inner
    } else {
        Seq::empty()
    };
    let segment = trimmed_lws_end(raw);
    if value.len() > 0 {
        lemma_front_end(front, inner);
        lemma_token_end(front + inner, value, seq![';']);
    } else {
        assert(raw =~= front + inner);
        lemma_trim_back(front, inner);
        assert(trimmed_lws_end(front) == front);
        assert(front + kept + value =~= front);
        assert(skipped_lws(kept).len() == 0);
    }
    assert(segment == front + kept + value);
    if name.len() > 0 {
        lemma_param_with_value(blank, name, kept, value, rest, set);
    } else {
        let tail = blank + seq!['='] + kept + value;
        assert(segment =~= seq![';'] + tail);
        assert(tail =~= blank + (seq!['='] + kept + value));
        lemma_skip_front(blank, seq!['='] + kept + value);
        assert((seq!['='] + kept + value)[0] == '=');
        assert(!value.contains(';')) by {
            assert(token_stops(seq![';'])[3] == ';');
            assert(token_stops(seq![';']).contains(';'));
            if value.contains(';') {
                let i = choose|i: int| 0 <= i < value.len() && value[i] == ';';
                assert(!token_stops(seq![';']).contains(value[i]));
            }
        }
        lemma_lacks_concat(blank, seq!['='], ';');
        lemma_lacks_concat(blank + seq!['='], kept, ';');
        lemma_lacks_concat(blank + seq!['='] + kept, value, ';');
        lemma_param_without_name(tail, rest, set);
    }
}

/// What stands in front of the first stop is a token.
proof fn lemma_until_is_token(s: Seq<char>, extra: Seq<char>)
    ensures
        0 <= until(s, token_stops(extra)) <= s.len(),
        is_token(s.take(until(s, token_stops(extra))), extra),
{
    lemma_until(s, token_stops(extra));
}

/// The pieces of a parameter with a value, and what follows it.
proof fn lemma_valued_pieces(
    blank: Seq<char>,
    name: Seq<char>,
    inner: Seq<char>,
    value: Seq<char>,
    end: Seq<char>,
)
    ensures
        ({
            let s = seq![';'] + (blank + (name + (seq!['='] + (inner + (value + end)))));
            s.take(s.len() - end.len()) == seq![';'] + blank + name + seq!['='] + inner + value
        }),
{
    let s = seq![';'] + (blank + (name + (seq!['='] + (inner + (value + end)))));
    assert(s.take(s.len() - end.len()) =~= seq![';'] + blank + name + seq!['='] + inner + value);
}

/// The pieces of a parameter without a value, and what follows it.
proof fn lemma_lone_pieces(blank: Seq<char>, name: Seq<char>, end: Seq<char>)
    ensures
        ({
            let s = seq![';'] + (blank + (name + end));
            s.take(s.len() - end.len()) == seq![';'] + blank + name
        }),
{
    let s = seq![';'] + (blank + (name + end));
    assert(s.take(s.len() - end.len()) =~= seq![';'] + blank + name);
}

/// A parameter that is not written on its own sets nothing.
proof fn lemma_extra_sets_nothing(s: Seq<char>, rest: Seq<char>, set: ViaParams)
    requires
        s.len() > 0,
        s[0] == ';',
        !is_named_via_param(extra_at(s).0),
        begins_params(rest),
    ensures
        ({
            let segment = trimmed_lws_end(s.take(s.len() - extra_at(s).1.len()));
            &&& segment.len() > 0
            &&& segment[0] == ';'
            &&& trimmed_lws_end(segment) == segment
            &&& via_params_of(segment + rest, set) == via_params_of(rest, set)
        }),
{
    let t = s.drop_first();
    let a = skipped_lws(t);
    lemma_skipped_part(t);
    let blank = t.take(t.len() - a.len());
    let n = until(a, token_stops(seq!['=', ';']));
    lemma_until_is_token(a, seq!['=', ';']);
    let name = a.take(n);
    let b = a.skip(n);
    assert(a =~= name + b);
    let end = extra_at(s).1;
    assert(s =~= seq![';'] + t);
    if b.len() > 0 && b[0] == '=' {
        let d = b.drop_first();
        assert(b =~= seq!['='] + d);
        let c = skipped_lws(d);
        lemma_skipped_part(d);
        let inner = d.take(d.len() - c.len());
        let m = until(c, token_stops(seq![';']));
        lemma_until_is_token(c, seq![';']);
        let value = c.take(m);
        assert(end == c.skip(m));
        assert(c =~= value + end);
        lemma_valued_pieces(blank, name, inner, value, end);
        lemma_valued_extra(blank, name, inner, value, rest, set);
    } else {
        assert(end == b);
        lemma_lone_pieces(blank, name, end);
        lemma_lone_extra(blank, name, rest, set);
    }
}

/// A text that is not trimmed at its end is not trimmed behind another text, if it begins with a
/// semicolon.
proof fn lemma_trimmed_concat(front: Seq<char>, text: Seq<char>)
    requires
        text.len() > 0,
        text[0] == ';',
        trimmed_lws_end(text) == text,
    ensures
        trimmed_lws_end(front + text) == front + text,
{
    let s = front + text;
    assert(s.last() == text.last());
    if is_blank(text.last()) {
        lemma_trimmed_shorter(text.drop_last());
    }
    if text.len() > 1 {
        assert(s[s.len() - 2] == text[text.len() - 2]);
        if text.last() == '\n' && text[text.len() - 2] == '\r' {
            lemma_trimmed_shorter(text.take(text.len() - 2));
        }
    }
}

/// Trimming makes no text longer.
proof fn lemma_trimmed_shorter(s: Seq<char>)
    ensures
        trimmed_lws_end(s).len() <= s.len(),
    decreases s.len(),
{
    if s.len() > 0 && is_blank(s.last()) {
        lemma_trimmed_shorter(s.drop_last());
    } else if s.len() > 1 && s.last() == '\n' && s[s.len() - 2] == '\r' {
        lemma_trimmed_shorter(s.take(s.len() - 2));
    }
}

/// The parameters that are not written on their own set nothing, begin with a semicolon, and are not
/// trimmed.
proof fn lemma_extras_set_nothing(s: Seq<char>, set: ViaParams)
    ensures
        via_params_of(via_extras(s), set) == Some(set),
        begins_params(via_extras(s)),
        trimmed_lws_end(via_extras(s)) == via_extras(s),
    decreases s.len(),
{
    if s.len() > 0 {
        if s[0] != ';' {
            lemma_extras_set_nothing(s.drop_first(), set);
        } else {
            let (name, end) = extra_at(s);
            lemma_extra_at(s);
            let segment = trimmed_lws_end(s.take(s.len() - end.len()));
            let rest = via_extras(skipped_lws(end));
            lemma_extras_set_nothing(skipped_lws(end), set);
            if !is_named_via_param(name) {
                lemma_extra_sets_nothing(s, rest, set);
                assert((segment + rest)[0] == segment[0]);
                if rest.len() > 0 {
                    lemma_trimmed_concat(segment, rest);
                } else {
                    assert(segment + rest =~= segment);
                }
            }
        }
    }
}

/// The parameters of a `Via` header as they are written.
pub open spec fn via_tail(via: ViaView) -> Seq<char> {
    around(";branch="@, via.branch, Seq::empty()) + (around(
        ";received="@,
        via.received,
        Seq::empty(),
    ) + (rport_text(via.rport) + match via.params {
        Some(params) => via_extras(params),
        None => Seq::empty(),
    }))
}

/// A `Via` header as it is read back: its parameters are in the order in which they are written.
pub open spec fn via_rewritten(via: ViaView) -> ViaView {
    ViaView {
        params: if via_tail(via).len() > 0 {
            Some(via_tail(via))
        } else {
            None
        },
        ..via
    }
}

/// Whether the parts of a `Via` header can be told apart in its text.
pub open spec fn via_is_plain(via: ViaView) -> bool {
    &&& via.sent_protocol.len() > 0
    &&& is_token(via.sent_protocol, seq![';'])
    &&& is_token(via.host, seq![';'])
    &&& via.host.len() > 0 || via.port is Some
    &&& via.port is None ==> !ends_like_port(via.host)
    &&& via.branch matches Some(value) ==> is_token(value, seq![';'])
    &&& via.received matches Some(value) ==> is_token(value, seq![';'])
}

/// The names of the parameters that are written on their own.
proof fn lemma_param_names()
    ensures
        ";branch="@ == seq![';'] + "branch"@ + seq!['='],
        ";received="@ == seq![';'] + "received"@ + seq!['='],
        ";rport="@ == seq![';'] + "rport"@ + seq!['='],
        ";rport"@ == seq![';'] + "rport"@,
        "branch"@.len() == 6,
        "received"@.len() == 8,
        "rport"@.len() == 5,
        is_token("branch"@, seq!['=', ';']),
        is_token("received"@, seq!['=', ';']),
        is_token("rport"@, seq!['=', ';']),
{
    reveal_strlit(";branch=");
    reveal_strlit(";received=");
    reveal_strlit(";rport=");
    reveal_strlit(";rport");
    reveal_strlit("branch");
    reveal_strlit("received");
    reveal_strlit("rport");
    assert(";branch="@ =~= seq![';'] + "branch"@ + seq!['=']);
    assert(";received="@ =~= seq![';'] + "received"@ + seq!['=']);
    assert(";rport="@ =~= seq![';'] + "rport"@ + seq!['=']);
    assert(";rport"@ =~= seq![';'] + "rport"@);
}

/// A parameter with a value that is a token is read where it was written.
proof fn lemma_written_param(name: Seq<char>, value: Seq<char>, rest: Seq<char>, set: ViaParams)
    requires
        name.len() > 0,
        is_token(name, seq!['=', ';']),
        is_token(value, seq![';']),
        begins_params(rest),
        trimmed_lws_end(rest) == rest,
    ensures
        ({
            let text = seq![';'] + name + seq!['='] + value + rest;
            &&& via_params_of(text, set) == (match set_via_param(set, name, Some(value)) {
                Some(next) => via_params_of(rest, next),
                None => None,
            })
            &&& begins_params(text)
            &&& trimmed_lws_end(text) == text
        }),
{
    let none = Seq::<char>::empty();
    let text = seq![';'] + name + seq!['='] + value + rest;
    lemma_param_with_value(none, name, none, value, rest, set);
    assert(seq![';'] + none + name + seq!['='] + none + value + rest =~= text);
    let front = seq![';'] + name + seq!['='];
    if rest.len() > 0 {
        lemma_trimmed_concat(front + value, rest);
    } else {
        assert(text =~= front + value);
        if value.len() > 0 {
            lemma_token_end(front, value, seq![';']);
        } else {
            assert(front + value =~= front);
        }
    }
}

/// A parameter without a value is read where it was written.
proof fn lemma_written_flag(name: Seq<char>, rest: Seq<char>, set: ViaParams)
    requires
        name.len() > 0,
        is_token(name, seq!['=', ';']),
        begins_params(rest),
        trimmed_lws_end(rest) == rest,
    ensures
        ({
            let text = seq![';'] + name + rest;
            &&& via_params_of(text, set) == (match set_via_param(set, name, None) {
                Some(next) => via_params_of(rest, next),
                None => None,
            })
            &&& begins_params(text)
            &&& trimmed_lws_end(text) == text
        }),
{
    let none = Seq::<char>::empty();
    let text = seq![';'] + name + rest;
    lemma_param_alone(none, name, rest, set);
    assert(seq![';'] + none + name + rest =~= text);
    if rest.len() > 0 {
        lemma_trimmed_concat(seq![';'] + name, rest);
    } else {
        assert(text =~= seq![';'] + name);
        lemma_token_end(seq![';'], name, seq!['=', ';']);
    }
}

/// The parameters behind `received` are read back.
proof fn lemma_rport_tail(rport: ViaParamRport, extras: Seq<char>, set: ViaParams)
    requires
        via_params_of(extras, ViaParams { rport, ..set }) == Some(ViaParams { rport, ..set }),
        begins_params(extras),
        trimmed_lws_end(extras) == extras,
        set.rport is NotPresent,
    ensures
        via_params_of(rport_text(rport) + extras, set) == Some(ViaParams { rport, ..set }),
        begins_params(rport_text(rport) + extras),
        trimmed_lws_end(rport_text(rport) + extras) == rport_text(rport) + extras,
{
    let text = rport_text(rport) + extras;
    lemma_param_names();
    match rport {
        ViaParamRport::NotPresent => {
            assert(text =~= extras);
        },
        ViaParamRport::Requested => {
            lemma_written_flag("rport"@, extras, set);
            assert(text =~= seq![';'] + "rport"@ + extras);
        },
        ViaParamRport::Value(port) => {
            let value = decimal(port as int);
            lemma_decimal_value(port as int, u16::MAX as int);
            assert(is_token(value, seq![';'])) by {
                assert forall|i: int| 0 <= i < value.len() implies !token_stops(
                    seq![';'],
                ).contains(#[trigger] value[i]) by {
                    assert(is_digit(value[i]));
                }
            }
            lemma_written_param("rport"@, value, extras, set);
            assert(text =~= seq![';'] + "rport"@ + seq!['='] + value + extras);
        },
    }
}

/// The parameters of a `Via` header are read back.
proof fn lemma_via_tail(via: ViaView)
    requires
        via_is_plain(via),
    ensures
        via_params_of(via_tail(via), no_via_params()) == Some(
            ViaParams { branch: via.branch, received: via.received, rport: via.rport },
        ),
        begins_params(via_tail(via)),
        trimmed_lws_end(via_tail(via)) == via_tail(via),
{
    let extras = match via.params {
        Some(params) => via_extras(params),
        None => Seq::empty(),
    };
    let none = no_via_params();
    let s1 = ViaParams { branch: via.branch, ..none };
    let s2 = ViaParams { received: via.received, ..s1 };
    let s3 = ViaParams { rport: via.rport, ..s2 };
    match via.params {
        Some(params) => {
            lemma_extras_set_nothing(params, s3);
        },
        None => {},
    }
    lemma_rport_tail(via.rport, extras, s2);
    let t3 = rport_text(via.rport) + extras;
    let t2 = around(";received="@, via.received, Seq::empty()) + t3;
    lemma_param_names();
    match via.received {
        Some(value) => {
            lemma_written_param("received"@, value, t3, s1);
            assert(t2 =~= seq![';'] + "received"@ + seq!['='] + value + t3);
        },
        None => {
            assert(t2 =~= t3);
        },
    }
    let t1 = around(";branch="@, via.branch, Seq::empty()) + t2;
    match via.branch {
        Some(value) => {
            lemma_written_param("branch"@, value, t2, none);
            assert(t1 =~= seq![';'] + "branch"@ + seq!['='] + value + t2);
        },
        None => {
            assert(t1 =~= t2);
        },
    }
}

/// The value of a `Via` header as it is written.
pub open spec fn via_value(via: ViaView) -> Seq<char> {
    via.sent_protocol + (seq![' '] + ((via.host + port_text(via.port)) + via_tail(via)))
}

/// The text of a `Via` header is its name and its value.
proof fn lemma_via_text(via: ViaView)
    ensures
        via_text(via) == "Via: "@ + via_value(via),
{
    assert(via_text(via) =~= "Via: "@ + via_value(via));
}

/// Host and port of a sender are read back.
proof fn lemma_sent_by(host: Seq<char>, port: Option<u16>)
    requires
        is_token(host, seq![';']),
        port is None ==> !ends_like_port(host),
    ensures
        sent_by_of(host + port_text(port)) == Some((host, port)),
        is_token(host + port_text(port), seq![';']),
{
    let s = host + port_text(port);
    match port {
        Some(p) => {
            let digits = decimal(p as int);
            lemma_decimal_value(p as int, u16::MAX as int);
            lemma_decimal_lacks(p as int, ':');
            lemma_split_last(host, ':', digits);
            assert(s =~= host + seq![':'] + digits);
            assert forall|i: int| 0 <= i < s.len() implies !token_stops(seq![';']).contains(
                #[trigger] s[i],
            ) by {
                if i < host.len() {
                    assert(s[i] == host[i]);
                } else if i > host.len() {
                    assert(s[i] == digits[i - host.len() - 1]);
                    assert(is_digit(digits[i - host.len() - 1]));
                }
            }
        },
        None => {
            assert(s =~= host);
        },
    }
}

/// Reading a `Via` header that was written gives the header, with its parameters in the order in
/// which they are written, if its parts can be told apart.
pub proof fn law_via_round_trip(via: ViaView)
    requires
        via_is_plain(via),
    ensures
        via_of(via_value(via)) == Some(via_rewritten(via)),
{
    let value = via_value(via);
    let sent_by = via.host + port_text(via.port);
    let tail = via_tail(via);
    let stops = token_stops(seq![';']);
    assert(stops[1] == ' ' && stops[3] == ';');
    assert(stops.contains(' ') && stops.contains(';'));
    lemma_sent_by(via.host, via.port);
    lemma_via_tail(via);
    let behind = seq![' '] + (sent_by + tail);
    lemma_token_in_front(via.sent_protocol, behind, seq![';']);
    assert(value == via.sent_protocol + behind);
    assert(behind.drop_first() =~= sent_by + tail);
    lemma_token_in_front(sent_by, tail, seq![';']);
    assert(sent_by.len() > 0);
    assert(skipped_lws(behind) == sent_by + tail);
    assert(skipped_lws(tail) == tail);
}

/// The name under which a header is written.
pub open spec fn written_name(header: HeaderView) -> Seq<char> {
    match header {
        HeaderView::Via(_) => "Via"@,
        HeaderView::From(_) => "From"@,
        HeaderView::To(_) => "To"@,
        HeaderView::CallId(_) => "Call-ID"@,
        HeaderView::CSeq(_, _) => "CSeq"@,
        HeaderView::MaxForwards(_) => "Max-Forwards"@,
        HeaderView::Contact(_, _) => "Contact"@,
        HeaderView::Extension(name, _, _) => name,
    }
}

/// The value with which a header is written.
pub open spec fn written_value(header: HeaderView) -> Seq<char> {
    match header {
        HeaderView::Via(via) => via_value(via),
        HeaderView::From(addr) => name_addr_text(addr),
        HeaderView::To(addr) => name_addr_text(addr),
        HeaderView::CallId(value) => value,
        HeaderView::CSeq(sequence, method) => decimal(sequence as int) + (seq![' ']
            + method_token(method)),
        HeaderView::MaxForwards(hops) => decimal(hops as int),
        HeaderView::Contact(address, is_wildcard) => if is_wildcard {
            seq!['*']
        } else {
            match address {
                Some(addr) => name_addr_text(addr),
                None => Seq::empty(),
            }
        },
        HeaderView::Extension(_, _, value) => value,
    }
}

/// A header as it is read back.
pub open spec fn header_rewritten(header: HeaderView) -> HeaderView {
    match header {
        HeaderView::Via(via) => HeaderView::Via(via_rewritten(via)),
        _ => header,
    }
}

/// Whether the parts of a header can be told apart in its value.
pub open spec fn value_is_plain(header: HeaderView) -> bool {
    match header {
        HeaderView::Via(via) => via_is_plain(via),
        HeaderView::From(addr) => name_addr_is_plain(addr),
        HeaderView::To(addr) => name_addr_is_plain(addr),
        HeaderView::CallId(value) => value.len() > 0 && lws_trimmed(value) == value,
        HeaderView::CSeq(_, method) => {
            &&& method_is_canonical(method)
            &&& method_token(method).len() > 0
            &&& lws_trimmed(method_token(method)) == method_token(method)
        },
        HeaderView::MaxForwards(_) => true,
        HeaderView::Contact(address, is_wildcard) => if is_wildcard {
            address is None
        } else {
            address matches Some(addr) && name_addr_is_plain(addr) && trimmed_lws_end(
                name_addr_text(addr),
            ) == name_addr_text(addr)
        },
        HeaderView::Extension(name, kind, _) => kind is Other && kind_of(name) is Other,
    }
}

/// The names of the headers that have a structure of their own.
proof fn lemma_written_kinds()
    ensures
        kind_of("Via"@) is Via,
        kind_of("From"@) is From,
        kind_of("To"@) is To,
        kind_of("Call-ID"@) is CallId,
        kind_of("CSeq"@) is CSeq,
        kind_of("Max-Forwards"@) is MaxForwards,
        kind_of("Contact"@) is Contact,
{
    reveal_strlit("Via");
    reveal_strlit("From");
    reveal_strlit("To");
    reveal_strlit("Call-ID");
    reveal_strlit("CSeq");
    reveal_strlit("Max-Forwards");
    reveal_strlit("Contact");
    reveal_strlit("via");
    reveal_strlit("from");
    reveal_strlit("to");
    reveal_strlit("call-id");
    reveal_strlit("callid");
    reveal_strlit("cseq");
    reveal_strlit("max-forwards");
    reveal_strlit("maxforwards");
    reveal_strlit("contact");
    assert(same_ignoring_case("Via"@, "via"@));
    assert(same_ignoring_case("From"@, "from"@));
    assert(same_ignoring_case("To"@, "to"@));
    assert(same_ignoring_case("Call-ID"@, "call-id"@));
    assert(same_ignoring_case("CSeq"@, "cseq"@));
    assert(same_ignoring_case("Max-Forwards"@, "max-forwards"@));
    assert(same_ignoring_case("Contact"@, "contact"@));
    assert(!same_ignoring_case("CSeq"@, "from"@)) by {
        assert("CSeq"@[0] == 'C' && "from"@[0] == 'f');
    }
    assert("Via"@.len() == 3);
    assert("From"@.len() == 4);
    assert("To"@.len() == 2);
    assert("Call-ID"@.len() == 7);
    assert("CSeq"@.len() == 4);
    assert("Max-Forwards"@.len() == 12);
    assert("Contact"@.len() == 7);
    assert(!same_ignoring_case("Contact"@, "call-id"@)) by {
        assert("Contact"@[1] == 'o' && "call-id"@[1] == 'a');
    }
}

/// An address begins with a character that is no linear white space.
proof fn lemma_name_addr_begins(addr: NameAddrView)
    requires
        name_addr_is_plain(addr),
    ensures
        name_addr_text(addr).len() > 1,
        skipped_lws(name_addr_text(addr)) == name_addr_text(addr),
        !is_blank(name_addr_text(addr)[0]),
        name_addr_text(addr)[0] != '*',
{
    let text = name_addr_text(addr);
    let uri = uri_text(addr.uri);
    lemma_uri_begins(addr.uri);
    assert(uri.len() > 1);
    match addr.display_name {
        Some(_) => {
            assert(text[0] == '"');
        },
        None => {
            if addr.enclosed {
                assert(text[0] == '<');
            } else {
                assert(text[0] == uri[0]);
            }
        },
    }
}

/// Reading the value of a header that was written gives the header.
proof fn lemma_value_round_trip(header: HeaderView)
    requires
        value_is_plain(header),
    ensures
        header_of(written_name(header), written_value(header)) == Ok::<HeaderView, SipParseError>(
            header_rewritten(header),
        ),
{
    lemma_written_kinds();
    let value = written_value(header);
    match header {
        HeaderView::Via(via) => {
            law_via_round_trip(via);
        },
        HeaderView::From(addr) => {
            law_name_addr_round_trip(addr);
        },
        HeaderView::To(addr) => {
            law_name_addr_round_trip(addr);
        },
        HeaderView::CallId(_) => {},
        HeaderView::CSeq(sequence, method) => {
            lemma_cseq(sequence, method);
        },
        HeaderView::MaxForwards(hops) => {
            lemma_decimal_value(hops as int, u32::MAX as int);
            lemma_decimal_trimmed(hops as int);
        },
        HeaderView::Contact(address, is_wildcard) => {
            reveal_strlit("*");
            assert("*"@ =~= seq!['*']);
            if is_wildcard {
                assert(skipped_lws(value) == value);
                assert(trimmed_lws_end(value) == value);
            } else {
                let addr = address->0;
                lemma_name_addr_begins(addr);
                law_name_addr_round_trip(addr);
            }
        },
        HeaderView::Extension(_, _, _) => {},
    }
}

/// A number has no linear white space at its ends.
proof fn lemma_decimal_trimmed(n: int)
    requires
        0 <= n,
    ensures
        skipped_lws(decimal(n)) == decimal(n),
        trimmed_lws_end(decimal(n)) == decimal(n),
{
    lemma_decimal_round_trip(n);
    let s = decimal(n);
    assert(is_digit(s[0]));
    assert(is_digit(s[s.len() - 1]));
}

/// A `CSeq` header is read back.
proof fn lemma_cseq(sequence: u32, method: MethodView)
    requires
        value_is_plain(HeaderView::CSeq(sequence, method)),
    ensures
        cseq_of(written_value(HeaderView::CSeq(sequence, method))) == Some(
            HeaderView::CSeq(sequence, method),
        ),
{
    let digits = decimal(sequence as int);
    let token = method_token(method);
    let behind = seq![' '] + token;
    let none = Seq::<char>::empty();
    lemma_decimal_value(sequence as int, u32::MAX as int);
    law_method_round_trip(method);
    assert(is_token(digits, none)) by {
        assert forall|i: int| 0 <= i < digits.len() implies !token_stops(none).contains(
            #[trigger] digits[i],
        ) by {
            assert(is_digit(digits[i]));
        }
    }
    assert(token_stops(none)[1] == ' ');
    assert(token_stops(none).contains(' '));
    lemma_token_in_front(digits, behind, none);
    assert(behind.drop_first() =~= token);
    assert(skipped_lws(behind) == skipped_lws(token));
}

/// Whether a text holds no line end.
pub open spec fn one_line(s: Seq<char>) -> bool {
    find_text(s, crlf()) < 0
}

/// Whether a header stands on one line, from which name and value can be read.
#[verifier::opaque]
pub open spec fn header_is_plain(header: HeaderView) -> bool {
    let name = written_name(header);
    let value = written_value(header);
    &&& value_is_plain(header)
    &&& one_line(header_text(header))
    &&& name.len() > 0
    &&& !name.contains(':')
    &&& !is_blank(name[0])
    &&& trimmed_end(name) == name
    &&& value.len() > 0 ==> !is_blank(value[0])
    &&& trimmed_lws_end(value) == value
}

/// A header is written as its name, a colon, a space and its value. An empty value of a header
/// without a structure of its own goes without the space.
proof fn lemma_header_text(header: HeaderView)
    ensures
        ({
            let line = header_text(header);
            let name = written_name(header);
            let value = written_value(header);
            ||| line == name + seq![':'] + (seq![' '] + value)
            ||| line == name + seq![':'] + value && value.len() == 0
        }),
{
    let line = header_text(header);
    let name = written_name(header);
    let value = written_value(header);
    match header {
        HeaderView::Via(via) => {
            lemma_via_text(via);
            lemma_lead("Via: "@, "Via"@, value);
        },
        HeaderView::From(_) => {
            lemma_lead("From: "@, "From"@, value);
        },
        HeaderView::To(_) => {
            lemma_lead("To: "@, "To"@, value);
        },
        HeaderView::CallId(_) => {
            lemma_lead("Call-ID: "@, "Call-ID"@, value);
        },
        HeaderView::CSeq(sequence, method) => {
            lemma_lead("CSeq: "@, "CSeq"@, value);
            assert(line =~= "CSeq: "@ + value);
        },
        HeaderView::MaxForwards(_) => {
            lemma_lead("Max-Forwards: "@, "Max-Forwards"@, value);
        },
        HeaderView::Contact(_, _) => {
            lemma_lead("Contact: "@, "Contact"@, value);
        },
        HeaderView::Extension(_, _, _) => {
            if value.len() == 0 {
                assert(line =~= name + seq![':'] + value);
            }
        },
    }
}

/// The literals with which headers begin are their names, a colon and a space.
proof fn lemma_lead(lead: Seq<char>, name: Seq<char>, value: Seq<char>)
    requires
        (lead == "Via: "@ && name == "Via"@) || (lead == "From: "@ && name == "From"@) || (lead
            == "To: "@ && name == "To"@) || (lead == "Call-ID: "@ && name == "Call-ID"@) || (lead
            == "CSeq: "@ && name == "CSeq"@) || (lead == "Max-Forwards: "@ && name
            == "Max-Forwards"@) || (lead == "Contact: "@ && name == "Contact"@),
    ensures
        lead + value == name + seq![':'] + (seq![' '] + value),
{
    reveal_strlit("Via");
    reveal_strlit("Via: ");
    reveal_strlit("From");
    reveal_strlit("From: ");
    reveal_strlit("To");
    reveal_strlit("To: ");
    reveal_strlit("Call-ID");
    reveal_strlit("Call-ID: ");
    reveal_strlit("CSeq");
    reveal_strlit("CSeq: ");
    reveal_strlit("Max-Forwards");
    reveal_strlit("Max-Forwards: ");
    reveal_strlit("Contact");
    reveal_strlit("Contact: ");
    assert(lead =~= name + seq![':', ' ']);
    assert(lead + value =~= name + seq![':'] + (seq![' '] + value));
}

/// The first line end stands behind a text without one.
pub proof fn lemma_line_end(line: Seq<char>, rest: Seq<char>)
    requires
        one_line(line),
    ensures
        find_text(line + crlf() + rest, crlf()) == line.len(),
        split_text(line + crlf() + rest, crlf()) == Some((line, rest)),
        line_len(line + crlf() + rest) == line.len(),
    decreases line.len(),
{
    let s = line + crlf() + rest;
    if line.len() == 0 {
        assert(crlf().is_prefix_of(s));
    } else {
        let t = line.drop_first();
        lemma_find_drop(line);
        lemma_line_end(t, rest);
        assert(s.drop_first() =~= t + crlf() + rest);
        assert(!crlf().is_prefix_of(s)) by {
            if crlf().is_prefix_of(s) {
                assert(s[0] == crlf()[0] && s[1] == crlf()[1]);
                if line.len() > 1 {
                    assert(crlf().is_prefix_of(line));
                } else {
                    assert(s[1] == '\r');
                }
            }
        }
    }
    assert(s.take(line.len() as int) =~= line);
    assert(s.skip(line.len() as int + 2) =~= rest);
}

/// A text without a line end has none behind its first character.
proof fn lemma_find_drop(line: Seq<char>)
    requires
        one_line(line),
        line.len() > 0,
    ensures
        one_line(line.drop_first()),
        !crlf().is_prefix_of(line),
{
}

/// Behind a header that stands on one line, nothing continues it if what follows begins with a
/// character that is not blank.
#[verifier::rlimit(60)]
#[verifier::spinoff_prover]
proof fn lemma_header_at(header: HeaderView, next: Seq<char>)
    requires
        header_is_plain(header),
        next.len() > 0 ==> !is_blank(next[0]),
    ensures
        ({
            let line = header_text(header);
            let s = if next.len() > 0 {
                line + crlf() + next
            } else {
                line
            };
            let end = if next.len() > 0 {
                crlf() + next
            } else {
                Seq::empty()
            };
            &&& line.len() > 0
            &&& !is_blank(line[0])
            &&& line_len(s) == line.len()
            &&& header_at(s) == Some((written_name(header), written_value(header), end))
        }),
{
    reveal(header_is_plain);
    let line = header_text(header);
    let name = written_name(header);
    let value = written_value(header);
    let s = if next.len() > 0 {
        line + crlf() + next
    } else {
        line
    };
    let end = if next.len() > 0 {
        crlf() + next
    } else {
        Seq::empty()
    };
    if next.len() > 0 {
        lemma_line_end(line, next);
    }
    assert(s.take(line.len() as int) =~= line);
    assert(s.skip(line.len() as int) =~= end);
    if next.len() > 0 {
        assert(end.skip(2) =~= next);
    }
    assert(fold_tail(end) == end);
    assert(s.take(s.len() - end.len()) =~= line);
    lemma_header_text(header);
    let behind = if line == name + seq![':'] + (seq![' '] + value) {
        seq![' '] + value
    } else {
        value
    };
    lemma_split_at(name, ':', behind);
    assert(line == name + seq![':'] + behind);
    assert(line[0] == name[0]);
    lemma_skipped_blanks(behind, value);
    assert(line.skip(line.len() - value.len()) =~= value);
}

/// A space is skipped, and a value that does not begin with a blank is not.
proof fn lemma_skipped_blanks(behind: Seq<char>, value: Seq<char>)
    requires
        behind == seq![' '] + value || behind == value,
        value.len() > 0 ==> !is_blank(value[0]),
    ensures
        skipped_blanks(behind) == value,
{
    assert(skipped_blanks(value) == value);
    if behind != value {
        assert(behind.drop_first() =~= value);
    }
}

/// Headers with a line end between each two.
spec fn block_text(headers: Seq<HeaderView>) -> Seq<char>
    decreases headers.len(),
{
    if headers.len() == 0 {
        Seq::empty()
    } else if headers.len() == 1 {
        header_text(headers[0])
    } else {
        header_text(headers[0]) + crlf() + block_text(headers.drop_first())
    }
}

/// Whether every header is plain.
pub open spec fn headers_are_plain(headers: Seq<HeaderView>) -> bool {
    forall|i: int| 0 <= i < headers.len() ==> header_is_plain(#[trigger] headers[i])
}

/// Headers as they are read back.
pub open spec fn headers_rewritten(headers: Seq<HeaderView>) -> Seq<HeaderView> {
    Seq::new(headers.len(), |i: int| header_rewritten(headers[i]))
}

/// The first of several headers is written in front of the others.
proof fn lemma_headers_text_front(headers: Seq<HeaderView>)
    requires
        headers.len() > 0,
    ensures
        headers_text(headers) == header_text(headers[0]) + crlf() + headers_text(
            headers.drop_first(),
        ),
    decreases headers.len(),
{
    reveal_with_fuel(headers_text, 2);
    let rest = headers.drop_first();
    if headers.len() == 1 {
        assert(headers.drop_last() =~= Seq::<HeaderView>::empty());
        assert(rest =~= Seq::<HeaderView>::empty());
        assert(headers_text(headers) =~= header_text(headers[0]) + crlf() + headers_text(rest));
    } else {
        lemma_headers_text_front(headers.drop_last());
        assert(headers.drop_last().drop_first() =~= rest.drop_last());
        assert(rest.last() == headers.last());
        assert(headers_text(headers) =~= header_text(headers[0]) + crlf() + headers_text(rest));
    }
}

/// Headers with their line ends are headers with line ends between them, and one more.
proof fn lemma_headers_text_block(headers: Seq<HeaderView>)
    requires
        headers.len() > 0,
    ensures
        headers_text(headers) == block_text(headers) + crlf(),
    decreases headers.len(),
{
    lemma_headers_text_front(headers);
    let rest = headers.drop_first();
    if headers.len() == 1 {
        assert(headers_text(rest) =~= Seq::<char>::empty());
        assert(headers_text(headers) =~= block_text(headers) + crlf());
    } else {
        lemma_headers_text_block(rest);
        assert(headers_text(headers) =~= block_text(headers) + crlf());
    }
}

/// A block of headers begins with a character that is not blank, and not with a line end.
proof fn lemma_block_begins(headers: Seq<HeaderView>)
    requires
        headers.len() > 0,
        headers_are_plain(headers),
    ensures
        block_text(headers).len() > 0,
        !is_blank(block_text(headers)[0]),
        line_len(block_text(headers)) > 0,
{
    assert(header_is_plain(headers[0]));
    lemma_header_at(headers[0], Seq::empty());
    let line = header_text(headers[0]);
    if headers.len() > 1 {
        assert(one_line(line)) by {
            reveal(header_is_plain);
        }
        lemma_line_end(line, block_text(headers.drop_first()));
    }
}

/// Whether a block is read as the given headers.
#[verifier::opaque]
spec fn reads_as(block: Seq<char>, headers: Seq<HeaderView>) -> bool {
    headers_of(block) == Ok::<Seq<HeaderView>, SipParseError>(headers)
}

/// A header in front of others is read before them.
proof fn lemma_headers_step(
    s: Seq<char>,
    name: Seq<char>,
    value: Seq<char>,
    end: Seq<char>,
    header: HeaderView,
    others: Seq<HeaderView>,
)
    requires
        line_len(s) > 0,
        s.len() > 0,
        !is_blank(s[0]),
        header_at(s) == Some((name, value, end)),
        header_of(name, value) == Ok::<HeaderView, SipParseError>(header),
        behind_line_end(end).len() > 0 ==> line_len(behind_line_end(end)) > 0,
        reads_as(behind_line_end(end), others),
    ensures
        reads_as(s, seq![header] + others),
{
    reveal(reads_as);
}

/// A header and what follows it are read as the header and what the rest is read as.
proof fn lemma_header_and_rest(header: HeaderView, next: Seq<char>, others: Seq<HeaderView>)
    requires
        header_is_plain(header),
        next.len() > 0 ==> !is_blank(next[0]) && line_len(next) > 0,
        reads_as(next, others),
    ensures
        reads_as(
            if next.len() > 0 {
                header_text(header) + crlf() + next
            } else {
                header_text(header)
            },
            seq![header_rewritten(header)] + others,
        ),
{
    let line = header_text(header);
    let s = if next.len() > 0 {
        line + crlf() + next
    } else {
        line
    };
    let end = if next.len() > 0 {
        crlf() + next
    } else {
        Seq::empty()
    };
    lemma_header_at(header, next);
    assert(value_is_plain(header)) by {
        reveal(header_is_plain);
    }
    lemma_value_round_trip(header);
    if next.len() > 0 {
        assert(end.skip(2) =~= next);
    } else {
        assert(next =~= Seq::<char>::empty());
    }
    assert(behind_line_end(end) == next);
    assert(s[0] == line[0]);
    lemma_headers_step(
        s,
        written_name(header),
        written_value(header),
        end,
        header_rewritten(header),
        others,
    );
}

/// Reading headers that were written gives the headers.
proof fn lemma_headers_round_trip(headers: Seq<HeaderView>)
    requires
        headers.len() > 0,
        headers_are_plain(headers),
    ensures
        reads_as(block_text(headers), headers_rewritten(headers)),
    decreases headers.len(),
{
    let first = headers[0];
    let rest = headers.drop_first();
    let all = headers_rewritten(headers);
    assert(header_is_plain(first));
    if headers.len() == 1 {
        let none = Seq::<char>::empty();
        assert(reads_as(none, Seq::empty())) by {
            reveal(reads_as);
        }
        lemma_header_and_rest(first, none, Seq::empty());
        assert(seq![header_rewritten(first)] + Seq::<HeaderView>::empty() =~= all);
    } else {
        assert forall|i: int| 0 <= i < rest.len() implies header_is_plain(#[trigger] rest[i]) by {
            assert(rest[i] == headers[i + 1]);
        }
        lemma_block_begins(rest);
        lemma_headers_round_trip(rest);
        lemma_header_and_rest(first, block_text(rest), headers_rewritten(rest));
        assert(seq![header_rewritten(first)] + headers_rewritten(rest) =~= all);
    }
}

/// What ends the headers of a message.
spec fn blank_line() -> Seq<char> {
    seq!['\r', '\n', '\r', '\n']
}

/// A text that does not begin with a line end does not begin with an empty line.
proof fn lemma_blank_later(s: Seq<char>)
    requires
        s.len() > 0,
        !crlf().is_prefix_of(s),
        find_text(s.drop_first(), blank_line()) >= 0,
    ensures
        find_text(s, blank_line()) == find_text(s.drop_first(), blank_line()) + 1,
{
    assert(!blank_line().is_prefix_of(s)) by {
        if blank_line().is_prefix_of(s) {
            assert(s[0] == blank_line()[0] && s[1] == blank_line()[1]);
            assert(crlf().is_prefix_of(s));
        }
    }
}

/// The first empty line behind a line and its end is the first one of what follows.
proof fn lemma_blank_behind(line: Seq<char>, rest: Seq<char>)
    requires
        one_line(line),
        rest.len() > 0,
        !crlf().is_prefix_of(rest),
        find_text(rest, blank_line()) >= 0,
    ensures
        find_text(line + crlf() + rest, blank_line()) == line.len() + 2 + find_text(
            rest,
            blank_line(),
        ),
    decreases line.len(),
{
    let s = line + crlf() + rest;
    if line.len() == 0 {
        let t = s.drop_first();
        assert(t.drop_first() =~= rest);
        assert(t[0] == '\n');
        assert(!crlf().is_prefix_of(t)) by {
            if crlf().is_prefix_of(t) {
                assert(t[0] == crlf()[0]);
            }
        }
        lemma_blank_later(t);
        assert(!blank_line().is_prefix_of(s)) by {
            if blank_line().is_prefix_of(s) {
                assert(s[2] == blank_line()[2] && s[3] == blank_line()[3]);
                assert(rest[0] == s[2] && rest[1] == s[3]);
                assert(crlf().is_prefix_of(rest));
            }
        }
    } else {
        lemma_line_end(line, rest);
        lemma_find_drop(line);
        lemma_blank_behind(line.drop_first(), rest);
        assert(s.drop_first() =~= line.drop_first() + crlf() + rest);
        lemma_blank_later(s);
    }
}

/// The first empty line behind a line is the one that follows it.
proof fn lemma_blank_at(line: Seq<char>, body: Seq<char>)
    requires
        one_line(line),
    ensures
        find_text(line + blank_line() + body, blank_line()) == line.len(),
    decreases line.len(),
{
    let s = line + blank_line() + body;
    if line.len() == 0 {
        assert(blank_line().is_prefix_of(s));
    } else {
        lemma_find_drop(line);
        lemma_blank_at(line.drop_first(), body);
        assert(s.drop_first() =~= line.drop_first() + blank_line() + body);
        lemma_line_end(line, crlf() + body);
        assert(s =~= line + crlf() + (crlf() + body));
        lemma_blank_later(s);
    }
}

/// The first empty line behind headers is the one that ends them.
proof fn lemma_block_end(headers: Seq<HeaderView>, body: Seq<char>)
    requires
        headers.len() > 0,
        headers_are_plain(headers),
    ensures
        find_text(block_text(headers) + blank_line() + body, blank_line()) == block_text(
            headers,
        ).len(),
    decreases headers.len(),
{
    let line = header_text(headers[0]);
    assert(header_is_plain(headers[0]));
    assert(one_line(line)) by {
        reveal(header_is_plain);
    }
    if headers.len() == 1 {
        lemma_blank_at(line, body);
    } else {
        let others = headers.drop_first();
        assert forall|i: int| 0 <= i < others.len() implies header_is_plain(
            #[trigger] others[i],
        ) by {
            assert(others[i] == headers[i + 1]);
        }
        lemma_block_end(others, body);
        let rest = block_text(others) + blank_line() + body;
        lemma_block_begins(others);
        lemma_begins_alike(block_text(others), blank_line() + body);
        assert(rest =~= block_text(others) + (blank_line() + body));
        lemma_blank_behind(line, rest);
        assert(block_text(headers) + blank_line() + body =~= line + crlf() + rest);
    }
}

/// What follows a text does not make it begin with a line end, unless the text is one character.
proof fn lemma_begins_alike(text: Seq<char>, rest: Seq<char>)
    requires
        text.len() > 0,
        line_len(text) > 0,
        rest.len() > 0,
        rest[0] != '\n',
    ensures
        !crlf().is_prefix_of(text + rest),
{
    let s = text + rest;
    if crlf().is_prefix_of(s) {
        assert(s[0] == crlf()[0] && s[1] == crlf()[1]);
        if text.len() > 1 {
            assert(text[0] == s[0] && text[1] == s[1]);
            assert(crlf().is_prefix_of(text));
        } else {
            assert(s[1] == rest[0]);
        }
    }
}

/// Behind the first line of a message that was written stand its headers, an empty line and its
/// body.
proof fn lemma_message_parts(line: Seq<char>, headers: Seq<HeaderView>, body: Seq<char>)
    requires
        one_line(line),
        headers.len() > 0,
        headers_are_plain(headers),
    ensures
        ({
            let rest = block_text(headers) + blank_line() + body;
            &&& split_text(head_text(line, headers) + body, crlf()) == Some((line, rest))
            &&& split_text(rest, blank_line()) == Some((block_text(headers), body))
            &&& reads_as(block_text(headers), headers_rewritten(headers))
        }),
{
    let block = block_text(headers);
    let rest = block + blank_line() + body;
    lemma_headers_text_block(headers);
    assert(crlf() + crlf() =~= blank_line());
    assert(head_text(line, headers) + body =~= line + crlf() + rest);
    lemma_line_end(line, rest);
    lemma_block_end(headers, body);
    assert(rest.take(block.len() as int) =~= block);
    assert(rest.skip(block.len() as int + 4) =~= body);
    lemma_headers_round_trip(headers);
}

/// A text without a line feed has no line end.
proof fn lemma_one_line(s: Seq<char>)
    requires
        forall|i: int| 0 <= i < s.len() ==> #[trigger] s[i] != '\n',
    ensures
        one_line(s),
    decreases s.len(),
{
    if crlf().is_prefix_of(s) {
        assert(s[1] == crlf()[1]);
    }
    if s.len() > 0 {
        let t = s.drop_first();
        assert forall|i: int| 0 <= i < t.len() implies #[trigger] t[i] != '\n' by {
            assert(t[i] == s[i + 1]);
        }
        lemma_one_line(t);
    }
}

/// The version of the protocol, in letters of any case, is a word.
proof fn lemma_version(version: Seq<char>)
    requires
        same_ignoring_case(version, "SIP/2.0"@),
    ensures
        is_word(version),
        !version.contains(' '),
{
    reveal_strlit("SIP/2.0");
    let v = "SIP/2.0"@;
    assert forall|i: int| 0 <= i < version.len() implies !is_white_space(#[trigger] version[i]) by {
        assert(ascii_lower(version[i]) == ascii_lower(v[i]));
    }
}

/// Whether a request line can be read back: method, URI and version are words, and the method is
/// not an extension that is spelled like a method of the standard.
pub open spec fn request_line_is_plain(line: RequestLineView) -> bool {
    &&& method_is_canonical(line.method)
    &&& is_word(method_token(line.method))
    &&& uri_is_plain(line.uri)
    &&& is_word(uri_text(line.uri))
    &&& same_ignoring_case(line.version, "SIP/2.0"@)
}

/// Reading a request line that was written gives the request line.
pub proof fn law_request_line_round_trip(line: RequestLineView)
    requires
        request_line_is_plain(line),
    ensures
        request_line_of(request_line_text(line)) == Ok::<RequestLineView, SipParseError>(line),
        one_line(request_line_text(line)),
{
    let token = method_token(line.method);
    let uri = uri_text(line.uri);
    lemma_version(line.version);
    law_method_round_trip(line.method);
    law_uri_round_trip(line.uri);
    let list = seq![token, uri, line.version];
    assert forall|i: int| 0 <= i < list.len() implies is_word(#[trigger] list[i]) by {}
    lemma_words_of_spaced(list);
    assert(spaced(list) == request_line_text(line)) by {
        let two = list.drop_last();
        assert(two =~= seq![token, uri]);
        let one = two.drop_last();
        assert(one =~= seq![token]);
        assert(spaced(one) == token);
        assert(spaced(two) == token + seq![' '] + uri);
    }
    lemma_one_line(spaced(list));
}

/// Whether a status line can be read back: the status code has three digits, and the reason stands
/// on one line and does not begin with white space.
pub open spec fn status_line_is_plain(line: StatusLineView) -> bool {
    &&& same_ignoring_case(line.version, "SIP/2.0"@)
    &&& 100 <= line.status_code <= 999
    &&& trimmed_start(line.reason) == line.reason
    &&& one_line(status_line_text(line))
}

/// Reading a status line that was written gives the status line.
pub proof fn law_status_line_round_trip(line: StatusLineView)
    requires
        status_line_is_plain(line),
    ensures
        status_line_of(status_line_text(line)) == Ok::<StatusLineView, SipParseError>(line),
{
    let code = decimal(line.status_code as int);
    lemma_version(line.version);
    lemma_decimal_round_trip(line.status_code as int);
    lemma_decimal_lacks(line.status_code as int, ' ');
    assert(code.len() == 3) by {
        reveal_with_fuel(decimal, 4);
    }
    assert(is_digit(code[0]));
    if line.reason.len() > 0 {
        let text = code + seq![' '] + line.reason;
        lemma_split_at(line.version, ' ', text);
        assert(status_line_text(line) =~= line.version + seq![' '] + text);
        assert(text[0] == code[0]);
        assert(trimmed_start(text) == text);
        lemma_split_at(code, ' ', line.reason);
    } else {
        lemma_split_at(line.version, ' ', code);
        assert(status_line_text(line) =~= line.version + seq![' '] + code);
        assert(trimmed_start(code) == code);
        lemma_no_split(code, ' ');
        assert(line.reason =~= Seq::<char>::empty());
    }
}

/// The parts of a text make up the request that it is read as.
proof fn lemma_request_of(
    input: Seq<char>,
    text: Seq<char>,
    rest: Seq<char>,
    block: Seq<char>,
    body: Seq<char>,
    line: RequestLineView,
    headers: Seq<HeaderView>,
)
    requires
        split_text(input, crlf()) == Some((text, rest)),
        request_line_of(text) == Ok::<RequestLineView, SipParseError>(line),
        split_text(rest, blank_line()) == Some((block, body)),
        reads_as(block, headers),
    ensures
        request_of(input) == Ok::<MessageView, SipParseError>(
            (MessageView {
                start_line: StartLineView::Request(line),
                headers,
                body: encode_utf8(body),
            }),
        ),
{
    reveal(reads_as);
}

/// The parts of a text make up the response that it is read as.
proof fn lemma_response_of(
    input: Seq<char>,
    text: Seq<char>,
    rest: Seq<char>,
    block: Seq<char>,
    body: Seq<char>,
    line: StatusLineView,
    headers: Seq<HeaderView>,
)
    requires
        split_text(input, crlf()) == Some((text, rest)),
        status_line_of(text) == Ok::<StatusLineView, SipParseError>(line),
        split_text(rest, blank_line()) == Some((block, body)),
        reads_as(block, headers),
    ensures
        response_of(input) == Ok::<MessageView, SipParseError>(
            (MessageView {
                start_line: StartLineView::Response(line),
                headers,
                body: encode_utf8(body),
            }),
        ),
{
    reveal(reads_as);
}

/// Reading a request that was written gives the request, with the parameters of its `Via` headers
/// in the order in which they are written.
pub proof fn law_request_round_trip(
    line: RequestLineView,
    headers: Seq<HeaderView>,
    body: Seq<char>,
)
    requires
        request_line_is_plain(line),
        headers.len() > 0,
        headers_are_plain(headers),
    ensures
        request_of(head_text(request_line_text(line), headers) + body) == Ok::<
            MessageView,
            SipParseError,
        >(
            (MessageView {
                start_line: StartLineView::Request(line),
                headers: headers_rewritten(headers),
                body: encode_utf8(body),
            }),
        ),
{
    let text = request_line_text(line);
    let block = block_text(headers);
    law_request_line_round_trip(line);
    lemma_message_parts(text, headers, body);
    lemma_request_of(
        head_text(text, headers) + body,
        text,
        block + blank_line() + body,
        block,
        body,
        line,
        headers_rewritten(headers),
    );
}

/// Reading a response that was written gives the response, with the parameters of its `Via` headers
/// in the order in which they are written.
pub proof fn law_response_round_trip(
    line: StatusLineView,
    headers: Seq<HeaderView>,
    body: Seq<char>,
)
    requires
        status_line_is_plain(line),
        headers.len() > 0,
        headers_are_plain(headers),
    ensures
        response_of(head_text(status_line_text(line), headers) + body) == Ok::<
            MessageView,
            SipParseError,
        >(
            (MessageView {
                start_line: StartLineView::Response(line),
                headers: headers_rewritten(headers),
                body: encode_utf8(body),
            }),
        ),
{
    let text = status_line_text(line);
    let block = block_text(headers);
    law_status_line_round_trip(line);
    lemma_message_parts(text, headers, body);
    lemma_response_of(
        head_text(text, headers) + body,
        text,
        block + blank_line() + body,
        block,
        body,
        line,
        headers_rewritten(headers),
    );
}

/// A message that was written to an empty text with success is read back with its body as it was,
/// whatever bytes of UTF-8 it is.
pub proof fn law_message_round_trip(message: MessageView, text: Seq<char>)
    requires
        message.headers.len() > 0,
        headers_are_plain(message.headers),
        match message.start_line {
            StartLineView::Request(line) => request_line_is_plain(line),
            StartLineView::Response(line) => status_line_is_plain(line),
        },
        message_written(
            Seq::empty(),
            text,
            head_text(start_line_text(message.start_line), message.headers),
            message.body,
            Ok::<(), SipFormatError>(()),
        ),
    ensures
        (match message.start_line {
            StartLineView::Request(_) => request_of(text),
            StartLineView::Response(_) => response_of(text),
        }) == Ok::<MessageView, SipParseError>(
            (MessageView { headers: headers_rewritten(message.headers), ..message }),
        ),
{
    let head = head_text(start_line_text(message.start_line), message.headers);
    let body = decode_utf8(message.body);
    decode_utf8_encode_utf8(message.body);
    assert(text =~= head + body);
    match message.start_line {
        StartLineView::Request(line) => {
            law_request_round_trip(line, message.headers, body);
        },
        StartLineView::Response(line) => {
            law_response_round_trip(line, message.headers, body);
        },
    }
}

/// The words of a word, a space and more are that word and the words behind it.
proof fn lemma_first_word(word: Seq<char>, rest: Seq<char>)
    requires
        is_word(word),
    ensures
        words(word + seq![' '] + rest) == seq![word] + words(rest),
{
    let s = word + seq![' '] + rest;
    let tail = seq![' '] + rest;
    assert(s =~= word + tail);
    lemma_word_prefix(word, tail);
    assert(s[0] == word[0]);
    assert(trimmed_start(s) == s);
    assert(s.take(word.len() as int) =~= word);
    assert(s.skip(word.len() as int) =~= tail);
    assert(tail.drop_first() =~= rest);
    assert(trimmed_start(tail) == trimmed_start(rest));
    assert(words(tail) == words(rest));
}

/// The text of a response is not read as a request: its status code stands where a request has a
/// URI.
pub proof fn law_response_is_no_request(line: StatusLineView, rest: Seq<char>)
    requires
        status_line_is_plain(line),
    ensures
        request_of(status_line_text(line) + crlf() + rest) is Err,
{
    let text = status_line_text(line);
    let code = decimal(line.status_code as int);
    lemma_line_end(text, rest);
    lemma_version(line.version);
    lemma_decimal_round_trip(line.status_code as int);
    lemma_decimal_lacks(line.status_code as int, ':');
    assert(is_word(code)) by {
        assert forall|i: int| 0 <= i < code.len() implies !is_white_space(#[trigger] code[i]) by {
            assert(is_digit(code[i]));
        }
    }
    let behind = if line.reason.len() > 0 {
        code + seq![' '] + line.reason
    } else {
        code
    };
    assert(text =~= line.version + seq![' '] + behind);
    lemma_first_word(line.version, behind);
    if line.reason.len() > 0 {
        lemma_first_word(code, line.reason);
        assert(words(text)[1] == code);
    } else {
        lemma_words_of_spaced(seq![code]);
        assert(spaced(seq![code]) == code);
        assert(words(text).len() == 2);
    }
    if words(text).len() >= 3 {
        lemma_decimal_trimmed(line.status_code as int);
        lemma_no_split(code, ':');
        assert(uri_of(words(text)[1]) is None);
    }
}

/// Either frame that a message is put into is read back as the message.
pub proof fn law_frame_round_trip(message: MessageView, format: WsFrameFormat, index: int)
    requires
        message.headers.len() > 0,
        headers_are_plain(message.headers),
        match message.start_line {
            StartLineView::Request(line) => request_line_is_plain(line),
            StartLineView::Response(line) => status_line_is_plain(line),
        },
        valid_utf8(message.body),
    ensures
        frame_message(seq![encode_utf8(message_text(message))], format, index) == Ok::<
            MessageView,
            WsSipError,
        >((MessageView { headers: headers_rewritten(message.headers), ..message })),
{
    let text = message_text(message);
    let line = start_line_text(message.start_line);
    let body = decode_utf8(message.body);
    encode_utf8_decode_utf8(text);
    encode_utf8_valid_utf8(text);
    assert(message_written(
        Seq::empty(),
        text,
        head_text(line, message.headers),
        message.body,
        Ok::<(), SipFormatError>(()),
    )) by {
        assert(text =~= Seq::<char>::empty() + head_text(line, message.headers) + body);
    }
    law_message_round_trip(message, text);
    if let StartLineView::Response(status_line) = message.start_line {
        let rest = headers_text(message.headers) + crlf() + body;
        assert(text =~= line + crlf() + rest);
        law_response_is_no_request(status_line, rest);
    }
}

/// What one more parameter of a `Via` header sets, whatever its place: `branch` and `received` their
/// value, `rport` the port or, without a value, that it is asked for; a later one of the same name
/// wins. Another parameter sets nothing. A port that is none is refused.
pub proof fn law_via_parameters(
    name: Seq<char>,
    value: Seq<char>,
    rest: Seq<char>,
    set: ViaParams,
)
    requires
        name.len() > 0,
        is_token(name, seq!['=', ';']),
        is_token(value, seq![';']),
        rest.len() > 0 ==> rest[0] == ';',
    ensures
        via_params_of(Seq::empty(), set) == Some(set),
        ({
            let with_value = via_params_of(seq![';'] + name + seq!['='] + value + rest, set);
            let alone = via_params_of(seq![';'] + name + rest, set);
            if same_ignoring_case(name, "branch"@) {
                &&& with_value == via_params_of(rest, ViaParams { branch: Some(value), ..set })
                &&& alone == via_params_of(rest, set)
            } else if same_ignoring_case(name, "received"@) {
                &&& with_value == via_params_of(rest, ViaParams { received: Some(value), ..set })
                &&& alone == via_params_of(rest, set)
            } else if same_ignoring_case(name, "rport"@) {
                let asked = ViaParams { rport: ViaParamRport::Requested, ..set };
                &&& alone == via_params_of(rest, asked)
                &&& value.len() == 0 ==> with_value == via_params_of(rest, asked)
                &&& value.len() > 0 ==> with_value == (match decimal_value(value, 65535) {
                    Some(port) => via_params_of(
                        rest,
                        ViaParams { rport: ViaParamRport::Value(port as u16), ..set },
                    ),
                    None => None,
                })
            } else {
                &&& with_value == via_params_of(rest, set)
                &&& alone == via_params_of(rest, set)
            }
        }),
{
    let none = Seq::<char>::empty();
    lemma_param_with_value(none, name, none, value, rest, set);
    lemma_param_alone(none, name, rest, set);
    assert(seq![';'] + none + name + seq!['='] + none + value + rest =~= seq![';'] + name + seq!['=']
        + value + rest);
    assert(seq![';'] + none + name + rest =~= seq![';'] + name + rest);
    reveal_strlit("branch");
    reveal_strlit("received");
    reveal_strlit("rport");
    assert("branch"@.len() == 6);
    assert("received"@.len() == 8);
    assert("rport"@.len() == 5);
}

/// A parameter of a `Via` header that has no field of its own is written as it stands, in its place
/// among the others; one that has a field is not written twice.
pub proof fn law_via_extras(name: Seq<char>, value: Seq<char>, rest: Seq<char>)
    requires
        name.len() > 0,
        is_token(name, seq!['=', ';']),
        is_token(value, seq![';']),
        rest.len() > 0 ==> rest[0] == ';',
    ensures
        via_extras(Seq::empty()) == Seq::<char>::empty(),
        ({
            let with_value = seq![';'] + name + seq!['='] + value;
            let alone = seq![';'] + name;
            if same_ignoring_case(name, "branch"@) || same_ignoring_case(name, "received"@)
                || same_ignoring_case(name, "rport"@) {
                &&& via_extras(with_value + rest) == via_extras(rest)
                &&& via_extras(alone + rest) == via_extras(rest)
            } else {
                &&& via_extras(with_value + rest) == with_value + via_extras(rest)
                &&& via_extras(alone + rest) == alone + via_extras(rest)
            }
        }),
{
    let with_value = seq![';'] + name + seq!['='] + value;
    let alone = seq![';'] + name;
    let behind = seq!['='] + value + rest;
    let stops = token_stops(seq!['=', ';']);
    assert(stops[3] == '=' && stops[4] == ';');
    assert(stops.contains('=') && stops.contains(';'));
    assert(token_stops(seq![';'])[3] == ';');
    assert(token_stops(seq![';']).contains(';'));
    assert((with_value + rest).drop_first() =~= name + behind);
    lemma_token_in_front(name, behind, seq!['=', ';']);
    assert(behind.drop_first() =~= value + rest);
    assert(skipped_lws(rest) == rest);
    if value.len() > 0 {
        lemma_token_in_front(value, rest, seq![';']);
        lemma_token_end(seq![';'] + name + seq!['='], value, seq![';']);
    } else {
        assert(value + rest =~= rest);
        assert(with_value =~= seq![';'] + name + seq!['=']);
        assert(with_value.last() == '=');
        assert(until(rest, token_stops(seq![';'])) == 0);
        assert(rest.skip(0) =~= rest);
        assert(trimmed_lws_end(with_value) == with_value);
    }
    assert(extra_at(with_value + rest) == (name, rest));
    assert((with_value + rest).take((with_value + rest).len() - rest.len()) =~= with_value);
    assert((alone + rest).drop_first() =~= name + rest);
    lemma_token_in_front(name, rest, seq!['=', ';']);
    assert(extra_at(alone + rest) == (name, rest));
    assert((alone + rest).take((alone + rest).len() - rest.len()) =~= alone);
    lemma_token_end(seq![';'], name, seq!['=', ';']);
}

/// A host in brackets is read without them, with its port behind them if there is one.
pub proof fn law_bracketed_hosts(uri: UriView)
    requires
        uri.userinfo matches Some(user) ==> !user.contains('?') && !user.contains(';'),
        uri.host.len() > 0,
        !uri.host.contains(']'),
        !uri.host.contains('@'),
        !uri.host.contains('?'),
        !uri.host.contains(';'),
        uri.params matches Some(params) ==> params.len() > 0 && params[0] == ';'
            && !params.contains('?'),
        trimmed_lws_end(bracketed_text(uri)) == bracketed_text(uri),
    ensures
        uri_of(bracketed_text(uri)) == Some(uri),
{
    let text = bracketed_text(uri);
    let scheme = scheme_text(uri.scheme);
    let user = around(Seq::empty(), uri.userinfo, seq!['@']);
    let bracketed = seq!['['] + uri.host + seq![']'];
    let host_port = bracketed + port_text(uri.port);
    let params = around(Seq::empty(), uri.params, Seq::empty());
    let headers = around(seq!['?'], uri.headers, Seq::empty());
    let front = user + host_port;
    let body = front + params + headers;
    lemma_uri_pieces(scheme, user, bracketed, port_text(uri.port), params, headers);
    assert(text == scheme + seq![':'] + body);
    lemma_scheme(uri.scheme);
    assert(text[0] == scheme[0]);
    assert(skipped_lws(text) == text);
    lemma_split_at(scheme, ':', body);
    let shown = UriView { host: bracketed, ..uri };
    lemma_brackets_lack(uri.host, '@');
    lemma_brackets_lack(uri.host, '?');
    lemma_brackets_lack(uri.host, ';');
    lemma_port_lacks(uri.port, '@');
    lemma_lacks_concat(bracketed, port_text(uri.port), '@');
    lemma_userinfo(uri.userinfo, host_port);
    lemma_front_lacks(shown, ';');
    lemma_front_lacks(shown, '?');
    lemma_params(front, uri.params);
    if let Some(p) = uri.params {
        assert(params =~= p);
    }
    lemma_lacks_concat(front, params, '?');
    lemma_uri_headers(front + params, uri.headers);
    assert(host_port.drop_first() =~= uri.host + seq![']'] + port_text(uri.port));
    lemma_split_at(uri.host, ']', port_text(uri.port));
    if let Some(p) = uri.port {
        lemma_decimal_value(p as int, u16::MAX as int);
        assert(port_text(uri.port).drop_first() =~= decimal(p as int));
    }
}

/// The text of a URI with its host in brackets.
pub open spec fn bracketed_text(uri: UriView) -> Seq<char> {
    uri_text(UriView { host: seq!['['] + uri.host + seq![']'], ..uri })
}

proof fn lemma_brackets_lack(host: Seq<char>, c: char)
    requires
        !host.contains(c),
        c != '[',
        c != ']',
    ensures
        !(seq!['['] + host + seq![']']).contains(c),
{
    lemma_lacks_concat(seq!['['], host, c);
    lemma_lacks_concat(seq!['['] + host, seq![']'], c);
}

/// A URI is written as scheme, colon, user and at sign, host, colon and port, parameters, and headers
/// behind a question mark, without those that are not there.
#[verifier::rlimit(60)]
#[verifier::spinoff_prover]
pub proof fn law_uri_is_written_in_order(uri: UriView)
    ensures
        uri_text(uri) == scheme_text(uri.scheme) + seq![':'] + uri_text_behind_scheme(uri),
        uri.userinfo matches Some(user) ==> uri_text_behind_scheme(uri) == user + seq!['@']
            + uri_text_behind_scheme(UriView { userinfo: None, ..uri }),
        uri.headers matches Some(text) ==> uri_text_behind_scheme(uri) == uri_text_behind_scheme(
            UriView { headers: None, ..uri },
        ) + seq!['?'] + text,
        uri.userinfo is None && uri.headers is None && uri.params is None && uri.port is None
            ==> uri_text_behind_scheme(uri) == uri.host,
        uri.headers is None ==> (uri.params matches Some(text) ==> uri_text_behind_scheme(uri)
            == uri_text_behind_scheme(UriView { params: None, ..uri }) + text),
        uri.headers is None && uri.params is None ==> (uri.port matches Some(port)
            ==> uri_text_behind_scheme(uri) == uri_text_behind_scheme(
            UriView { port: None, ..uri },
        ) + seq![':'] + decimal(port as int)),
{
    let scheme = scheme_text(uri.scheme);
    let a = uri_text(uri);
    assert(a =~= scheme + seq![':'] + uri_text_behind_scheme(uri));
    if let Some(user) = uri.userinfo {
        assert(uri_text_behind_scheme(uri) =~= user + seq!['@'] + uri_text_behind_scheme(
            UriView { userinfo: None, ..uri },
        ));
    }
    if let Some(text) = uri.headers {
        assert(uri_text_behind_scheme(uri) =~= uri_text_behind_scheme(
            UriView { headers: None, ..uri },
        ) + seq!['?'] + text);
    } else if let Some(text) = uri.params {
        assert(uri_text_behind_scheme(uri) =~= uri_text_behind_scheme(
            UriView { params: None, ..uri },
        ) + text);
    } else if let Some(port) = uri.port {
        assert(uri_text_behind_scheme(uri) =~= uri_text_behind_scheme(UriView { port: None, ..uri })
            + seq![':'] + decimal(port as int));
    } else if uri.userinfo is None {
        assert(uri_text_behind_scheme(uri) =~= uri.host);
    }
}

/// The text of a URI behind its scheme and the colon.
pub open spec fn uri_text_behind_scheme(uri: UriView) -> Seq<char> {
    uri_text(uri).skip((scheme_text(uri.scheme).len() + 1) as int)
}

/// Reading the bytes of a request that was written gives the request with whatever bytes stand behind
/// the empty line as its body, text or not.
pub proof fn law_request_bytes_round_trip(
    line: RequestLineView,
    headers: Seq<HeaderView>,
    body: Seq<u8>,
)
    requires
        request_line_is_plain(line),
        headers.len() > 0,
        headers_are_plain(headers),
    ensures
        ({
            let head = encode_utf8(head_text(request_line_text(line), headers));
            &&& head.len() >= 4
            &&& request_of_bytes(head + body, head.len() - 4) == Ok::<MessageView, SipParseError>(
                MessageView {
                    start_line: StartLineView::Request(line),
                    headers: headers_rewritten(headers),
                    body,
                },
            )
        }),
{
    let text = request_line_text(line);
    let block = block_text(headers);
    let front = text + crlf() + block;
    let head = encode_utf8(head_text(text, headers));
    law_request_line_round_trip(line);
    lemma_message_parts(text, headers, Seq::empty());
    lemma_headers_text_block(headers);
    assert(head_text(text, headers) =~= front + blank_line());
    lemma_encode_concat(front, blank_line());
    lemma_blank_line_bytes();
    let n = encode_utf8(front).len() as int;
    let bytes = head + body;
    assert(bytes.take(n) =~= encode_utf8(front));
    assert(bytes.skip(n + 4) =~= body);
    encode_utf8_decode_utf8(front);
    encode_utf8_valid_utf8(front);
    lemma_line_end(text, block);
    assert(front.take(text.len() as int) =~= text);
    assert(front.skip(text.len() as int + 2) =~= block);
    reveal(reads_as);
}

proof fn lemma_blank_line_bytes()
    ensures
        encode_utf8(blank_line()).len() == 4,
{
    reveal_with_fuel(encode_utf8, 5);
    let s = blank_line();
    assert(s.drop_first().drop_first().drop_first().drop_first() =~= Seq::<char>::empty());
}

} // verus!
