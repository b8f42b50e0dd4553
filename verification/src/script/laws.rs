//! What scripts say and what running them finds, whatever the script is.
use vstd::prelude::*;

verus! {

use crate::line::{exceeds, lemma_line_in_front, line_bytes};
use crate::rtp::laws::{four_bytes, two_bytes};
use crate::rtp::{header_end, padding_size, rtp_defect};
use crate::script::cases::{
    action_of, action_views, actions_of, behind_keyword, decode_all, expected_of, first_telling,
    is_idle, joined, line_verdict, payload_of, permitted, rtp_findings, script_verdict,
    sdp_verdict, sip_text, sip_verdict, stream_of, truncated_by, via_count, LineAction,
    LineActionView, ScriptFailure,
};
use crate::script::{
    before_comment, header_of, hex_bytes, hex_digits, hex_pairs, hex_value, limit_of, numbers_in,
    option_of, protocol_of, starts_comment, unescaped, Protocol,
};
use crate::sdp::sdp_of;
use crate::sip::parse::request::request_of;
use crate::sip::parse::response::response_of;
use crate::sip::types::HeaderView;
use crate::text::laws::{law_case_is_ignored, law_pieces, law_splitting};
use crate::text::{
    decimal_value, lemma_decimal_value, lines_of, parts, same_ignoring_case, trimmed, with_crlf,
    words,
};
use vstd::utf8::{decode_utf8, encode_utf8, valid_utf8};

/// Each protocol has its tag, in whatever case and with whatever white space around it.
pub proof fn law_protocols_have_their_tags(tag: Seq<char>)
    ensures
        protocol_of(tag) == Some(Protocol::Line) <==> same_ignoring_case(trimmed(tag), "LINE"@),
        protocol_of(tag) == Some(Protocol::Rtp) <==> same_ignoring_case(trimmed(tag), "RTP"@),
        protocol_of(tag) == Some(Protocol::Sip) <==> same_ignoring_case(trimmed(tag), "SIP"@),
        protocol_of(tag) == Some(Protocol::Sdp) <==> same_ignoring_case(trimmed(tag), "SDP"@),
{
    let t = trimmed(tag);
    reveal_strlit("LINE");
    reveal_strlit("RTP");
    reveal_strlit("SIP");
    reveal_strlit("SDP");
    law_case_is_ignored(t, "LINE"@);
    law_case_is_ignored(t, "RTP"@);
    law_case_is_ignored(t, "SIP"@);
    law_case_is_ignored(t, "SDP"@);
    assert("LINE"@.len() == 4 && "RTP"@.len() == 3 && "SIP"@.len() == 3 && "SDP"@.len() == 3);
    assert("RTP"@[0] == 'R' && "SIP"@[0] == 'S' && "SDP"@[0] == 'S');
    assert("SIP"@[1] == 'I' && "SDP"@[1] == 'D');
    if same_ignoring_case(t, "RTP"@) {
        assert(t[0] == 'R' || t[0] as int == 'R' as int + 32);
    }
    if same_ignoring_case(t, "SIP"@) {
        assert(t[0] == 'S' || t[0] as int == 'S' as int + 32);
        assert(t[1] == 'I' || t[1] as int == 'I' as int + 32);
    }
    if same_ignoring_case(t, "SDP"@) {
        assert(t[0] == 'S' || t[0] as int == 'S' as int + 32);
        assert(t[1] == 'D' || t[1] as int == 'D' as int + 32);
    }
}

proof fn lemma_before_comment(list: Seq<Seq<char>>, at: int)
    requires
        0 <= at <= list.len(),
    ensures
        ({
            let kept = before_comment(list, at);
            let end = at + kept.len();
            &&& end <= list.len()
            &&& forall|i: int| 0 <= i < kept.len() ==> #[trigger] kept[i] == list[at + i]
            &&& forall|i: int| 0 <= i < kept.len() ==> !starts_comment(#[trigger] kept[i])
            &&& end < list.len() ==> starts_comment(list[end as int])
        }),
    decreases list.len() - at,
{
    if at < list.len() && !starts_comment(list[at]) {
        lemma_before_comment(list, at + 1);
        let kept = before_comment(list, at);
        let rest = before_comment(list, at + 1);
        assert(forall|i: int| 0 < i < kept.len() ==> #[trigger] kept[i] == rest[i - 1]);
    }
}

/// The first word of the header is the tag, and the options are the words behind it up to the first
/// that begins with a hash, in order.
pub proof fn law_headers_are_words(line: Seq<char>)
    ensures
        starts_comment(seq!['#'] + line),
        !starts_comment(Seq::empty()),
        line.len() > 0 && line[0] != '#' ==> !starts_comment(line),
        words(line).len() == 0 ==> header_of(line) is None,
        words(line).len() > 0 ==> (header_of(line) is Some <==> protocol_of(words(line)[0]) is Some),
        header_of(line) matches Some((protocol, options)) ==> {
            let w = words(line);
            let end = 1 + options.len();
            &&& Some(protocol) == protocol_of(w[0])
            &&& end <= w.len()
            &&& forall|i: int| 0 <= i < options.len() ==> #[trigger] options[i] == w[i + 1]
            &&& forall|i: int| 0 <= i < options.len() ==> !starts_comment(#[trigger] options[i])
            &&& end < w.len() ==> starts_comment(w[end as int])
        },
{
    if words(line).len() > 0 {
        lemma_before_comment(words(line), 1);
    }
}

/// An option is a name and behind the first equals sign a value. The last option of a name counts, in
/// whatever case the name is; a word without an equals sign is no option.
pub proof fn law_last_option_counts(
    options: Seq<Seq<char>>,
    key: Seq<char>,
    value: Seq<char>,
    name: Seq<char>,
)
    requires
        !key.contains('='),
    ensures
        option_of(Seq::empty(), name) is None,
        same_ignoring_case(trimmed(key), name) ==> option_of(
            options.push(key + seq!['='] + value),
            name,
        ) == Some(trimmed(value)),
        !same_ignoring_case(trimmed(key), name) ==> option_of(
            options.push(key + seq!['='] + value),
            name,
        ) == option_of(options, name),
        option_of(options.push(key), name) == option_of(options, name),
{
    let word = key + seq!['='] + value;
    law_splitting(key, '=', value);
    assert(options.push(word).drop_last() =~= options);
    assert(options.push(key).drop_last() =~= options);
}

/// A limit is the number that an option gives, if it is one.
pub proof fn law_limits_are_numbers(options: Seq<Seq<char>>, name: Seq<char>)
    ensures
        option_of(options, name) is None ==> limit_of(options, name) is None,
        option_of(options, name) matches Some(value) ==> match decimal_value(
            value,
            usize::MAX as int,
        ) {
            Some(n) => limit_of(options, name) matches Some(limit) && limit == n,
            None => limit_of(options, name) is None,
        },
{
    if let Some(value) = option_of(options, name) {
        lemma_decimal_value(value, usize::MAX as int);
    }
}

proof fn lemma_numbers_concat(a: Seq<Seq<char>>, b: Seq<Seq<char>>)
    ensures
        numbers_in(a + b) == numbers_in(a) + numbers_in(b),
    decreases b.len(),
{
    if b.len() == 0 {
        assert(a + b =~= a);
        assert(numbers_in(a) + numbers_in(b) =~= numbers_in(a));
    } else {
        lemma_numbers_concat(a, b.drop_last());
        assert((a + b).drop_last() =~= a + b.drop_last());
        assert((a + b).last() == b.last());
        assert(numbers_in(a + b) =~= numbers_in(a) + numbers_in(b));
    }
}

/// The numbers of a list are those in front of a comma and then those behind it; a piece without a
/// comma is a number or nothing.
pub proof fn law_lists_are_numbers(a: Seq<char>, b: Seq<char>)
    ensures
        numbers_in(parts(a + seq![','] + b, ',')) == numbers_in(parts(a, ',')) + numbers_in(
            parts(b, ','),
        ),
        !a.contains(',') ==> match decimal_value(trimmed(a), usize::MAX as int) {
            Some(n) => numbers_in(parts(a, ',')).len() == 1 && numbers_in(parts(a, ','))[0] == n,
            None => numbers_in(parts(a, ',')).len() == 0,
        },
{
    law_pieces(a, ',', b);
    lemma_numbers_concat(parts(a, ','), parts(b, ','));
    if !a.contains(',') {
        reveal_with_fuel(numbers_in, 2);
        lemma_decimal_value(trimmed(a), usize::MAX as int);
        assert(seq![a].drop_last() =~= Seq::<Seq<char>>::empty());
    }
}

/// Hexadecimal digits are, by their codes, the ten digits and the first six letters in either case.
pub proof fn law_hex_digits_have_values(c: char)
    ensures
        ({
            let code = c as int;
            &&& 48 <= code <= 57 ==> hex_value(c) == Some(code - 48)
            &&& 65 <= code <= 70 ==> hex_value(c) == Some(code - 55)
            &&& 97 <= code <= 102 ==> hex_value(c) == Some(code - 87)
            &&& code < 48 || 57 < code < 65 || 70 < code < 97 || code > 102 ==> hex_value(c) is None
        }),
{
}

/// The digits of two texts are those of the first and then those of the second; what is no digit is
/// passed over.
pub proof fn law_hex_digits_follow(a: Seq<char>, b: Seq<char>, c: char)
    ensures
        hex_digits(a + b) == hex_digits(a) + hex_digits(b),
        hex_value(c) matches Some(v) ==> hex_digits(seq![c]) == seq![v],
        hex_value(c) is None ==> hex_digits(seq![c]) == Seq::<int>::empty(),
    decreases b.len(),
{
    reveal_with_fuel(hex_digits, 2);
    assert(seq![c].drop_last() =~= Seq::<char>::empty());
    assert(hex_value(c) matches Some(v) ==> hex_digits(seq![c]) =~= seq![v]);
    if b.len() == 0 {
        assert(a + b =~= a);
        assert(hex_digits(a) + hex_digits(b) =~= hex_digits(a));
    } else {
        law_hex_digits_follow(a, b.drop_last(), c);
        assert((a + b).drop_last() =~= a + b.drop_last());
        assert((a + b).last() == b.last());
        assert(hex_digits(a + b) =~= hex_digits(a) + hex_digits(b));
    }
}

/// Byte `i` is made of digit `2 i`, which counts sixteen times, and of the digit behind it. A digit
/// that is left over gives nothing.
pub proof fn law_hex_digits_pair_up(digits: Seq<int>, i: int)
    ensures
        hex_pairs(digits).len() == digits.len() / 2,
        0 <= i < digits.len() / 2 ==> hex_pairs(digits)[i] == (16 * digits[2 * i] + digits[2 * i
            + 1]) as u8,
    decreases digits.len(),
{
    if digits.len() >= 2 {
        law_hex_digits_pair_up(digits.skip(2), i - 1);
        if 0 < i < digits.len() / 2 {
            assert(hex_pairs(digits)[i] == hex_pairs(digits.skip(2))[i - 1]);
            assert(digits.skip(2)[2 * (i - 1)] == digits[2 * i]);
            assert(digits.skip(2)[2 * (i - 1) + 1] == digits[2 * i + 1]);
        }
    }
}

/// A text in hexadecimal denotes the bytes that its digits pair up to.
pub proof fn law_hex_texts_are_bytes(s: Seq<char>)
    ensures
        hex_bytes(s) == hex_pairs(hex_digits(s)),
{
}

/// What a backslash does: with `n`, `r` and `t` it stands for line feed, carriage return and tab; with
/// `x` and two digits for the character of that code; with a backslash and with any other character
/// for that character. Alone at the end it stands for nothing.
pub proof fn law_escapes(c: char, high: char, low: char, rest: Seq<char>)
    ensures
        unescaped(Seq::empty()) == Seq::<char>::empty(),
        c != '\\' ==> unescaped(seq![c] + rest) == seq![c] + unescaped(rest),
        unescaped(seq!['\\']) == Seq::<char>::empty(),
        unescaped(seq!['\\', 'n'] + rest) == seq![10 as char] + unescaped(rest),
        unescaped(seq!['\\', 'r'] + rest) == seq![13 as char] + unescaped(rest),
        unescaped(seq!['\\', 't'] + rest) == seq![9 as char] + unescaped(rest),
        unescaped(seq!['\\', '\\'] + rest) == seq!['\\'] + unescaped(rest),
        c != 'n' && c != 'r' && c != 't' && c != 'x' ==> unescaped(seq!['\\', c] + rest) == seq![c]
            + unescaped(rest),
        hex_value(high) is Some && hex_value(low) is Some ==> unescaped(
            seq!['\\', 'x', high, low] + rest,
        ) == seq![(16 * hex_value(high)->0 + hex_value(low)->0) as char] + unescaped(rest),
        hex_value(high) is None || hex_value(low) is None ==> unescaped(
            seq!['\\', 'x', high, low] + rest,
        ) == unescaped(rest),
        rest.len() < 2 ==> unescaped(seq!['\\', 'x'] + rest) == Seq::<char>::empty(),
{
    assert((seq![c] + rest).skip(1) =~= rest);
    assert((seq!['\\', 'n'] + rest).skip(2) =~= rest);
    assert((seq!['\\', 'r'] + rest).skip(2) =~= rest);
    assert((seq!['\\', 't'] + rest).skip(2) =~= rest);
    assert((seq!['\\', '\\'] + rest).skip(2) =~= rest);
    assert((seq!['\\', c] + rest).skip(2) =~= rest);
    assert((seq!['\\', 'x', high, low] + rest).skip(4) =~= rest);
}

/// A line of a script says nothing exactly if it is blank or its first character that is not white
/// space is a hash.
pub proof fn law_idle_lines(line: Seq<char>)
    ensures
        is_idle(line) <==> trimmed(line).len() == 0 || trimmed(line)[0] == '#',
{
}

/// What stands behind a keyword is the rest of the line, without white space at its ends.
pub proof fn law_keywords(line: Seq<char>, keyword: Seq<char>, rest: Seq<char>)
    requires
        keyword.len() > 0,
        keyword[0] != '#',
    ensures
        trimmed(line) == keyword + rest ==> behind_keyword(line, keyword) == Some(rest),
        behind_keyword(line, keyword) == Some(rest) ==> trimmed(line) == keyword + rest,
{
    let t = trimmed(line);
    if t == keyword + rest {
        assert(t[0] == keyword[0]);
        assert(keyword.is_prefix_of(t));
        assert(t.skip(keyword.len() as int) =~= rest);
    }
    if behind_keyword(line, keyword) == Some(rest) {
        assert(t =~= keyword + rest);
    }
}

/// A line that begins with `frame:` encodes a line, and one that begins with `truncate:` leaves out its
/// end; the text is what follows, without white space at its ends and with its escapes resolved. No
/// other line does anything.
pub proof fn law_actions_are_read(line: Seq<char>, payload: Seq<char>)
    ensures
        trimmed(line) == "frame:"@ + payload ==> action_of(line) == Some(
            LineActionView::Emit(unescaped(trimmed(payload))),
        ),
        trimmed(line) == "truncate:"@ + payload ==> action_of(line) == Some(
            LineActionView::Truncate(unescaped(trimmed(payload))),
        ),
        !("frame:"@.is_prefix_of(trimmed(line))) && !("truncate:"@.is_prefix_of(trimmed(line)))
            ==> action_of(line) is None,
        is_idle(line) ==> action_of(line) is None,
{
    reveal_strlit("frame:");
    reveal_strlit("truncate:");
    assert("frame:"@[0] == 'f' && "truncate:"@[0] == 't');
    law_keywords(line, "frame:"@, payload);
    law_keywords(line, "truncate:"@, payload);
    if trimmed(line) == "truncate:"@ + payload {
        assert(trimmed(line)[0] == 't');
        assert(!("frame:"@.is_prefix_of(trimmed(line)))) by {
            if "frame:"@.is_prefix_of(trimmed(line)) {
                assert("frame:"@[0] == trimmed(line)[0]);
            }
        }
    }
}

/// Lines are taken in order: the actions, the bytes and the text of one line more are those of the
/// lines before it, and then its own.
pub proof fn law_lines_follow(lines: Seq<Seq<char>>, last: Seq<char>, data: Seq<char>)
    ensures
        actions_of(Seq::empty()) == Seq::<LineActionView>::empty(),
        action_of(last) matches Some(action) ==> actions_of(lines.push(last)) == actions_of(
            lines,
        ).push(action),
        action_of(last) is None ==> actions_of(lines.push(last)) == actions_of(lines),
        payload_of(Seq::empty()) == Seq::<u8>::empty(),
        trimmed(last) == "hex:"@ + data ==> payload_of(lines.push(last)) == payload_of(lines)
            + hex_bytes(data),
        !("hex:"@.is_prefix_of(trimmed(last))) ==> payload_of(lines.push(last)) == payload_of(lines),
        joined(Seq::empty()) == Seq::<char>::empty(),
        lines.len() == 0 ==> joined(lines.push(last)) == last,
        lines.len() > 0 ==> joined(lines.push(last)) == joined(lines) + seq![10 as char] + last,
{
    reveal_strlit("hex:");
    assert("hex:"@[0] == 'h');
    law_keywords(last, "hex:"@, data);
    assert(lines.push(last).drop_last() =~= lines);
    if lines.len() > 0 {
        assert(joined(lines).push('\n') + last =~= joined(lines) + seq![10 as char] + last);
    }
}

/// The view of actions holds what they hold, one for one and in order.
pub proof fn law_actions_are_seen(list: Seq<LineAction>, action: LineAction)
    ensures
        action matches LineAction::Emit(text) ==> action@ == LineActionView::Emit(text@),
        action matches LineAction::Truncate(text) ==> action@ == LineActionView::Truncate(text@),
        action_views(list).len() == list.len(),
        forall|i: int| 0 <= i < list.len() ==> #[trigger] action_views(list)[i] == list[i]@,
{
}

/// One action more puts its line on the wire behind the others, if the line with its line feed is not
/// longer than allowed: all of it and then it is expected back, or without the line feed and then it
/// is not, and nothing has to come back as it was.
pub proof fn law_actions_are_encoded(
    actions: Seq<LineActionView>,
    text: Seq<char>,
    limit: Option<usize>,
)
    ensures
        stream_of(Seq::empty(), limit) == Seq::<u8>::empty(),
        expected_of(Seq::empty(), limit) == Seq::<Seq<char>>::empty(),
        !truncated_by(Seq::empty(), limit),
        permitted(text, limit) <==> encode_utf8(text).len() + 1 <= isize::MAX && (
        limit matches Some(most) ==> encode_utf8(text).len() + 1 <= most),
        ({
            let emit = actions.push(LineActionView::Emit(text));
            let trunc = actions.push(LineActionView::Truncate(text));
            &&& permitted(text, limit) ==> {
                &&& stream_of(emit, limit) == stream_of(actions, limit) + encode_utf8(text) + seq![10u8]
                &&& expected_of(emit, limit) == expected_of(actions, limit).push(text)
                &&& stream_of(trunc, limit) == stream_of(actions, limit) + encode_utf8(text)
                &&& truncated_by(trunc, limit)
            }
            &&& !permitted(text, limit) ==> {
                &&& stream_of(emit, limit) == stream_of(actions, limit)
                &&& expected_of(emit, limit) == expected_of(actions, limit)
                &&& stream_of(trunc, limit) == stream_of(actions, limit)
                &&& truncated_by(trunc, limit) == truncated_by(actions, limit)
            }
            &&& truncated_by(emit, limit) == truncated_by(actions, limit)
            &&& expected_of(trunc, limit) == expected_of(actions, limit)
        }),
{
    let emit = actions.push(LineActionView::Emit(text));
    let trunc = actions.push(LineActionView::Truncate(text));
    assert(emit.drop_last() =~= actions);
    assert(trunc.drop_last() =~= actions);
    assert(line_bytes(text) =~= encode_utf8(text) + seq![10u8]);
    if permitted(text, limit) {
        assert(stream_of(emit, limit) =~= stream_of(actions, limit) + encode_utf8(text) + seq![10u8]);
    }
}

/// Bytes decode to the line in front, if that is allowed, and then to what follows; bytes without a
/// line feed decode to nothing, and fail where there are more than allowed.
pub proof fn law_bytes_decode_to_lines(text: Seq<char>, more: Seq<u8>, limit: Option<usize>)
    requires
        !text.contains('\n'),
    ensures
        ({
            let all = encode_utf8(text) + seq![10u8] + more;
            let n = encode_utf8(text).len() as int;
            &&& exceeds(n, limit) ==> decode_all(all, limit) == (Seq::<Seq<char>>::empty(), true)
            &&& !exceeds(n, limit) ==> decode_all(all, limit).0 == seq![text] + decode_all(
                more,
                limit,
            ).0 && decode_all(all, limit).1 == decode_all(more, limit).1
        }),
        !more.contains(10) ==> decode_all(more, limit) == (
            Seq::<Seq<char>>::empty(),
            exceeds(more.len() as int, limit),
        ),
{
    let all = encode_utf8(text) + seq![10u8] + more;
    assert(all =~= line_bytes(text) + more);
    lemma_line_in_front(text, more);
    if !more.contains(10) {
        crate::line::lemma_no_newline(more, 0);
    }
}

/// A script about lines passes exactly if all that was encoded comes back, in order; where decoding
/// fails or the end of a line is left out, no more may come back than was encoded.
pub proof fn law_line_verdicts(
    actions: Seq<LineActionView>,
    encode_limit: Option<usize>,
    decode_limit: Option<usize>,
)
    ensures
        ({
            let (frames, failed) = decode_all(stream_of(actions, encode_limit), decode_limit);
            let expected = expected_of(actions, encode_limit);
            let whole = !failed && !truncated_by(actions, encode_limit);
            let r = line_verdict(actions, encode_limit, decode_limit);
            &&& whole && frames == expected ==> r is Ok
            &&& whole && frames != expected ==> r == Err::<(), ScriptFailure>(
                ScriptFailure::LineFramesDiffer,
            )
            &&& !whole && frames.len() <= expected.len() ==> r is Ok
            &&& !whole && frames.len() > expected.len() ==> r == Err::<(), ScriptFailure>(
                ScriptFailure::LineFramesSurplus,
            )
        }),
{
}

/// A packet is found with its sequence number, media time and payload type, and with the lengths of
/// its parts, which make up the whole; bytes that are no packet are found to be none.
pub proof fn law_findings_of_a_packet(bytes: Seq<u8>)
    requires
        bytes.len() <= usize::MAX,
    ensures
        rtp_findings(bytes) is Some <==> rtp_defect(bytes) is None,
        rtp_findings(bytes) matches Some(found) ==> {
            let at = 12 + 4 * (bytes[0] as int % 16);
            &&& found.sequence_number == two_bytes(bytes, 2)
            &&& found.timestamp == four_bytes(bytes, 4)
            &&& found.payload_type as int == bytes[1] as int % 128
            &&& found.extension_len is Some <==> bytes[0] as int / 16 % 2 == 1
            &&& found.extension_len matches Some(n) ==> n == 4 * two_bytes(bytes, at + 2)
            &&& found.padding_len == padding_size(bytes)
            &&& found.payload_len + found.padding_len + header_end(bytes) == bytes.len()
        },
{
}

/// One header more is one `Via` header more exactly if it is one.
pub proof fn law_vias_are_counted(headers: Seq<HeaderView>, last: HeaderView)
    ensures
        via_count(Seq::empty()) == 0,
        last is Via ==> via_count(headers.push(last)) == via_count(headers) + 1,
        !(last is Via) ==> via_count(headers.push(last)) == via_count(headers),
{
    assert(headers.push(last).drop_last() =~= headers);
}

/// A script about signalling passes if its text is blank, a request with a `Via` header, a response
/// with two headers, or no message at all. A text without carriage returns gets them first.
pub proof fn law_sip_verdicts(lines: Seq<Seq<char>>)
    ensures
        ({
            let text = unescaped(joined(lines));
            let message = if text.contains('\r') {
                text
            } else {
                with_crlf(text)
            };
            let r = sip_verdict(lines);
            &&& sip_text(lines) == message
            &&& trimmed(text).len() == 0 ==> r is Ok
            &&& trimmed(text).len() > 0 ==> {
                &&& request_of(message) matches Ok(m) ==> {
                    &&& via_count(m.headers) >= 1 ==> r is Ok
                    &&& via_count(m.headers) < 1 ==> r == Err::<(), ScriptFailure>(
                        ScriptFailure::SipViaMissing,
                    )
                }
                &&& request_of(message) is Err ==> {
                    &&& response_of(message) is Err ==> r is Ok
                    &&& response_of(message) matches Ok(m) ==> {
                        &&& m.headers.len() >= 2 ==> r is Ok
                        &&& m.headers.len() < 2 ==> r == Err::<(), ScriptFailure>(
                            ScriptFailure::SipHeadersMissing,
                        )
                    }
                }
            }
        }),
{
}

/// A script about session descriptions passes if its text is blank, no description at all, or one with
/// media each of which has a format.
pub proof fn law_sdp_verdicts(lines: Seq<Seq<char>>, k: int)
    ensures
        ({
            let text = unescaped(joined(lines));
            let r = sdp_verdict(lines);
            &&& trimmed(text).len() == 0 ==> r is Ok
            &&& trimmed(text).len() > 0 ==> {
                &&& sdp_of(text) is Err ==> r is Ok
                &&& sdp_of(text) matches Ok(d) ==> {
                    &&& d.media.len() == 0 ==> r == Err::<(), ScriptFailure>(
                        ScriptFailure::SdpMediaMissing,
                    )
                    &&& 0 <= k < d.media.len() && d.media[k].formats.len() == 0 ==> r == Err::<
                        (),
                        ScriptFailure,
                    >(ScriptFailure::SdpFormatsMissing)
                    &&& d.media.len() > 0 && (forall|i: int|
                        0 <= i < d.media.len() ==> (#[trigger] d.media[i]).formats.len() > 0)
                        ==> r is Ok
                }
            }
        }),
{
    let text = unescaped(joined(lines));
    if let Ok(d) = sdp_of(text) {
        if 0 <= k < d.media.len() && d.media[k].formats.len() == 0 {
            assert(!crate::script::cases::all_have_formats(d.media));
        }
    }
}

/// The line that names the protocol is the first that says something.
pub proof fn law_first_telling_line(lines: Seq<Seq<char>>, at: int)
    requires
        0 <= at,
    ensures
        match first_telling(lines, at) {
            Some(k) => {
                &&& at <= k < lines.len()
                &&& !is_idle(lines[k])
                &&& forall|i: int| at <= i < k ==> is_idle(#[trigger] lines[i])
            },
            None => forall|i: int| at <= i < lines.len() ==> is_idle(#[trigger] lines[i]),
        },
    decreases lines.len() - at,
{
    if at < lines.len() {
        law_first_telling_line(lines, at + 1);
    }
}

/// A script is what the lines behind the one that names the protocol say, under the options of that
/// line; bytes that are no text, and texts that name no protocol, find nothing.
pub proof fn law_script_verdicts(data: Seq<u8>, k: int)
    ensures
        !valid_utf8(data) ==> script_verdict(data) is Ok,
        ({
            let lines = lines_of(decode_utf8(data));
            let body = lines.skip(k + 1);
            valid_utf8(data) && first_telling(lines, 0) == Some(k) ==> match header_of(lines[k]) {
                None => script_verdict(data) is Ok,
                Some((protocol, options)) => {
                    &&& protocol == Protocol::Line ==> script_verdict(data) == line_verdict(
                        actions_of(body),
                        limit_of(options, "encode"@),
                        limit_of(options, "decode"@),
                    )
                    &&& protocol == Protocol::Rtp ==> script_verdict(data) is Ok
                    &&& protocol == Protocol::Sip ==> script_verdict(data) == sip_verdict(body)
                    &&& protocol == Protocol::Sdp ==> script_verdict(data) == sdp_verdict(body)
                },
            }
        }),
        valid_utf8(data) && first_telling(lines_of(decode_utf8(data)), 0) is None ==> script_verdict(
            data,
        ) is Ok,
{
}

/// What the failures are called in words.
pub proof fn law_failures_have_their_words()
    ensures
        ScriptFailure::LineFramesDiffer.message_spec()@ == "LINE 解码结果与期望不一致"@,
        ScriptFailure::LineFramesSurplus.message_spec()@ == "LINE 解码结果数量异常"@,
        ScriptFailure::RtpExtensionLength.message_spec()@ == "RTP 扩展长度不一致"@,
        ScriptFailure::RtpPayloadLength.message_spec()@ == "RTP 负载长度超出报文"@,
        ScriptFailure::SipViaMissing.message_spec()@ == "SIP 请求样本应至少包含一个 Via 头"@,
        ScriptFailure::SipHeadersMissing.message_spec()@ == "SIP 响应应包含若干头部"@,
        ScriptFailure::SdpMediaMissing.message_spec()@ == "SDP 样本需至少包含一个媒体描述"@,
        ScriptFailure::SdpFormatsMissing.message_spec()@ == "媒体描述必须提供至少一个编码格式"@,
{
}

} // verus!
