//! What the lines of a session description say, whatever the lines are.
use vstd::prelude::*;

verus! {

use crate::sdp::round_trip::{lemma_add_lines_concat, lemma_add_single};
use crate::sdp::{
    add_line, add_lines, all_media_lines, attribute_lines, connection_lines, joined_lines, media_lines,
    no_lines, origin_line, sdp_of, session_lines, spaced, timing_line, Attribute, AttributeView,
    Connection, ConnectionView, MediaDesc, MediaView, Origin, OriginView, SdpLines, SdpParseError,
    SessionDesc, SessionView, Timing, TimingView,
};
use crate::text::laws::{law_pieces, law_splitting, law_trimming_ignores_blanks};
use crate::text::{parts, trimmed, trimmed_end_of, words};

/// Whether a line is of the kind that a letter names.
pub open spec fn is_kind(line: Seq<char>, letter: char) -> bool {
    line.len() >= 2 && line[0] == letter && line[1] == '='
}

/// What a line says behind the equals sign.
pub open spec fn said(line: Seq<char>) -> Seq<char> {
    trimmed(line.skip(2))
}

/// What the lines of a kind say, in order.
pub open spec fn all_said(lines: Seq<Seq<char>>, letter: char) -> Seq<Seq<char>>
    decreases lines.len(),
{
    if lines.len() == 0 {
        Seq::empty()
    } else if is_kind(lines.last(), letter) {
        all_said(lines.drop_last(), letter).push(said(lines.last()))
    } else {
        all_said(lines.drop_last(), letter)
    }
}

/// What the lines of a kind say that have exactly so many media lines in front of them, in order.
pub open spec fn said_behind(lines: Seq<Seq<char>>, letter: char, media: nat) -> Seq<Seq<char>>
    decreases lines.len(),
{
    if lines.len() == 0 {
        Seq::empty()
    } else {
        let before = said_behind(lines.drop_last(), letter, media);
        if is_kind(lines.last(), letter) && all_said(lines.drop_last(), 'm').len() == media {
            before.push(said(lines.last()))
        } else {
            before
        }
    }
}

/// Whether a line has too few words for its kind: six for the originator, three for a connection, two
/// for the times, four for media.
pub open spec fn is_short(line: Seq<char>) -> bool {
    ||| is_kind(line, 'o') && words(said(line)).len() < 6
    ||| is_kind(line, 'c') && words(said(line)).len() < 3
    ||| is_kind(line, 't') && words(said(line)).len() < 2
    ||| is_kind(line, 'm') && words(said(line)).len() < 4
}

/// Whether an originator has these words for fields.
pub open spec fn origin_has(origin: OriginView, w: Seq<Seq<char>>) -> bool {
    &&& w.len() >= 6
    &&& origin.username == w[0]
    &&& origin.session_id == w[1]
    &&& origin.session_version == w[2]
    &&& origin.net_type == w[3]
    &&& origin.addr_type == w[4]
    &&& origin.address == w[5]
}

/// Whether times have these words for fields.
pub open spec fn timing_has(timing: TimingView, w: Seq<Seq<char>>) -> bool {
    w.len() >= 2 && timing.start == w[0] && timing.stop == w[1]
}

/// Whether a connection is the one that the last of these texts names, and none where there is no
/// text.
pub open spec fn connection_has(connection: Option<ConnectionView>, texts: Seq<Seq<char>>) -> bool {
    match connection {
        Some(c) => {
            &&& texts.len() > 0
            &&& words(texts.last()).len() >= 3
            &&& c.net_type == words(texts.last())[0]
            &&& c.addr_type == words(texts.last())[1]
            &&& c.address == words(texts.last())[2]
        },
        None => texts.len() == 0,
    }
}

/// Whether an attribute is this text: key, and behind the first colon, if there is one, value.
pub open spec fn attribute_is(attribute: AttributeView, text: Seq<char>) -> bool {
    &&& !attribute.key.contains(':')
    &&& match attribute.value {
        Some(value) => text == attribute.key + seq![':'] + value,
        None => text == attribute.key,
    }
}

/// Whether attributes are these texts, one for one and in order.
pub open spec fn attributes_are(list: Seq<AttributeView>, texts: Seq<Seq<char>>) -> bool {
    &&& list.len() == texts.len()
    &&& forall|i: int| 0 <= i < list.len() ==> attribute_is(#[trigger] list[i], texts[i])
}

/// Whether a media has these words for fields and formats.
pub open spec fn media_has(media: MediaView, w: Seq<Seq<char>>) -> bool {
    &&& w.len() >= 4
    &&& media.media == w[0]
    &&& media.port == w[1]
    &&& media.proto == w[2]
    &&& media.formats.len() == w.len() - 3
    &&& forall|i: int| 0 <= i < media.formats.len() ==> #[trigger] media.formats[i] == w[i + 3]
}

/// A line of a kind is told by its first two characters, and carriage returns at its end are white
/// space like any other.
proof fn lemma_returns(raw: Seq<char>)
    ensures
        ({
            let line = trimmed_end_of(raw, '\r');
            &&& (line.len() >= 2 && line[1] == '=') == (raw.len() >= 2 && raw[1] == '=')
            &&& raw.len() >= 2 && raw[1] == '=' ==> line[0] == raw[0] && trimmed(line.skip(2))
                == trimmed(raw.skip(2))
        }),
    decreases raw.len(),
{
    if raw.len() > 0 && raw.last() == '\r' {
        let rest = raw.drop_last();
        lemma_returns(rest);
        if raw.len() >= 2 && raw[1] == '=' {
            assert(raw.len() >= 3);
            let none = Seq::<char>::empty();
            assert(raw.skip(2) =~= none + rest.skip(2) + seq!['\r']);
            law_trimming_ignores_blanks(none, rest.skip(2), seq!['\r']);
        }
    }
}

proof fn lemma_attribute_is(text: Seq<char>, attribute: AttributeView)
    requires
        attribute == crate::sdp::attribute_of(text),
    ensures
        attribute_is(attribute, text),
{
    if text.contains(':') {
        let at = choose|i: int| 0 <= i < text.len() && text[i] == ':';
        lemma_key(text, at);
    } else {
        law_splitting(text, ':', Seq::empty());
    }
}

proof fn lemma_key(text: Seq<char>, at: int)
    requires
        0 <= at < text.len(),
        text[at] == ':',
    ensures
        attribute_is(crate::sdp::attribute_of(text), text),
    decreases at,
{
    let head = text.take(at);
    let tail = text.skip(at + 1);
    assert(text =~= head + seq![':'] + tail);
    if head.contains(':') {
        let i = choose|i: int| 0 <= i < head.len() && head[i] == ':';
        assert(text[i] == ':');
        lemma_key(text, i);
    } else {
        law_splitting(head, ':', tail);
    }
}

/// What is set once these lines are read, if none of them is short.
spec fn state_is(state: SdpLines, lines: Seq<Seq<char>>) -> bool {
    let v = all_said(lines, 'v');
    let o = all_said(lines, 'o');
    let s = all_said(lines, 's');
    let t = all_said(lines, 't');
    let m = all_said(lines, 'm');
    &&& match state.version {
        Some(x) => v.len() > 0 && x == v.last(),
        None => v.len() == 0,
    }
    &&& match state.origin {
        Some(x) => o.len() > 0 && origin_has(x, words(o.last())),
        None => o.len() == 0,
    }
    &&& match state.session_name {
        Some(x) => s.len() > 0 && x == s.last(),
        None => s.len() == 0,
    }
    &&& match state.timing {
        Some(x) => t.len() > 0 && timing_has(x, words(t.last())),
        None => t.len() == 0,
    }
    &&& connection_has(state.connection, said_behind(lines, 'c', 0))
    &&& attributes_are(state.attributes, said_behind(lines, 'a', 0))
    &&& state.media.len() == m.len()
    &&& forall|i: int|
        0 <= i < m.len() ==> media_section_is(#[trigger] state.media[i], lines, i)
}

/// Whether a media is what its own line and the lines up to the next media line say.
pub open spec fn media_section_is(media: MediaView, lines: Seq<Seq<char>>, i: int) -> bool {
    &&& media_has(media, words(all_said(lines, 'm')[i]))
    &&& connection_has(media.connection, said_behind(lines, 'c', (i + 1) as nat))
    &&& attributes_are(media.attributes, said_behind(lines, 'a', (i + 1) as nat))
}

/// Nothing stands behind more media lines than there are.
proof fn lemma_nothing_behind(lines: Seq<Seq<char>>, letter: char, media: nat)
    requires
        media > all_said(lines, 'm').len(),
    ensures
        said_behind(lines, letter, media) == Seq::<Seq<char>>::empty(),
    decreases lines.len(),
{
    if lines.len() > 0 {
        lemma_nothing_behind(lines.drop_last(), letter, media);
    }
}

proof fn lemma_line_adds(state: SdpLines, lines: Seq<Seq<char>>, line: Seq<char>)
    requires
        state_is(state, lines),
        !is_short(line),
    ensures
        add_line(state, line) matches Ok(next) && state_is(next, lines.push(line)),
{
    let all = lines.push(line);
    assert(all.drop_last() =~= lines);
    lemma_returns(line);
    let next = add_line(state, line)->Ok_0;
    let m = all_said(lines, 'm');
    let n = m.len() as int;
    if is_kind(line, 'a') {
        lemma_attribute_is(said(line), crate::sdp::attribute_of(said(line)));
    }
    lemma_nothing_behind(lines, 'c', (n + 1) as nat);
    lemma_nothing_behind(lines, 'a', (n + 1) as nat);
    assert(add_line(state, line) is Ok);
    assert forall|i: int| 0 <= i < all_said(all, 'm').len() implies media_section_is(
        #[trigger] next.media[i],
        all,
        i,
    ) by {
        if i < n {
            assert(media_section_is(state.media[i], lines, i));
        }
    }
}

proof fn lemma_lines_add(lines: Seq<Seq<char>>)
    requires
        forall|i: int| 0 <= i < lines.len() ==> !is_short(#[trigger] lines[i]),
    ensures
        add_lines(no_lines(), lines) matches Ok(state) && state_is(state, lines),
    decreases lines.len(),
{
    if lines.len() > 0 {
        let rest = lines.drop_last();
        assert forall|i: int| 0 <= i < rest.len() implies !is_short(#[trigger] rest[i]) by {
            assert(rest[i] == lines[i]);
        }
        lemma_lines_add(rest);
        let last = lines.last();
        assert(is_short(lines[lines.len() - 1]) == is_short(last));
        assert(lines =~= rest + seq![last]);
        assert(lines =~= rest.push(last));
        lemma_add_lines_concat(no_lines(), rest, seq![last]);
        let state = add_lines(no_lines(), rest)->Ok_0;
        lemma_add_single(state, last);
        lemma_line_adds(state, rest, last);
    }
}

/// A description is what its lines say. The text is cut at line feeds; a line is of the kind that its
/// first letter names where an equals sign stands behind that letter. A description comes out exactly
/// if no line is short of words and there is a line for the version, the originator, the name and the
/// times; the last such line counts. The attributes of the session are those of all `a=` lines in
/// front of the first media line, in order, and its connection that of the last `c=` line there. Each
/// `m=` line gives one media, with the attributes and the connection of the lines up to the next one.
pub proof fn law_description_is_what_its_lines_say(text: Seq<char>)
    ensures
        ({
            let lines = parts(text, '\n');
            let v = all_said(lines, 'v');
            let o = all_said(lines, 'o');
            let s = all_said(lines, 's');
            let t = all_said(lines, 't');
            let m = all_said(lines, 'm');
            (forall|i: int| 0 <= i < lines.len() ==> !is_short(#[trigger] lines[i])) ==> {
                &&& v.len() == 0 ==> sdp_of(text) == Err::<SessionView, SdpParseError>(
                    SdpParseError::MissingVersion,
                )
                &&& v.len() > 0 && o.len() == 0 ==> sdp_of(text) == Err::<SessionView, SdpParseError>(
                    SdpParseError::MissingOrigin,
                )
                &&& v.len() > 0 && o.len() > 0 && s.len() == 0 ==> sdp_of(text) == Err::<
                    SessionView,
                    SdpParseError,
                >(SdpParseError::MissingSessionName)
                &&& v.len() > 0 && o.len() > 0 && s.len() > 0 && t.len() == 0 ==> sdp_of(text) == Err::<
                    SessionView,
                    SdpParseError,
                >(SdpParseError::MissingTiming)
                &&& v.len() > 0 && o.len() > 0 && s.len() > 0 && t.len() > 0 ==> {
                    &&& sdp_of(text) matches Ok(d)
                    &&& d.version == v.last()
                    &&& origin_has(d.origin, words(o.last()))
                    &&& d.session_name == s.last()
                    &&& timing_has(d.timing, words(t.last()))
                    &&& connection_has(d.connection, said_behind(lines, 'c', 0))
                    &&& attributes_are(d.attributes, said_behind(lines, 'a', 0))
                    &&& d.media.len() == m.len()
                    &&& forall|i: int|
                        0 <= i < m.len() ==> media_section_is(#[trigger] d.media[i], lines, i)
                }
            }
        }),
{
    let lines = parts(text, '\n');
    if forall|i: int| 0 <= i < lines.len() ==> !is_short(#[trigger] lines[i]) {
        lemma_lines_add(lines);
    }
}

/// The first line that is short of words is what a refused text is refused for, by its kind.
pub proof fn law_short_lines_are_refused(text: Seq<char>, k: int)
    requires
        0 <= k < parts(text, '\n').len(),
        is_short(parts(text, '\n')[k]),
        forall|i: int| 0 <= i < k ==> !is_short(#[trigger] parts(text, '\n')[i]),
    ensures
        ({
            let line = parts(text, '\n')[k];
            &&& is_kind(line, 'o') ==> sdp_of(text) == Err::<SessionView, SdpParseError>(
                SdpParseError::InvalidOrigin,
            )
            &&& is_kind(line, 'c') ==> sdp_of(text) == Err::<SessionView, SdpParseError>(
                SdpParseError::InvalidConnection,
            )
            &&& is_kind(line, 't') ==> sdp_of(text) == Err::<SessionView, SdpParseError>(
                SdpParseError::InvalidTiming,
            )
            &&& is_kind(line, 'm') ==> sdp_of(text) == Err::<SessionView, SdpParseError>(
                SdpParseError::InvalidMedia,
            )
        }),
{
    let lines = parts(text, '\n');
    let line = lines[k];
    let front = lines.take(k);
    let tail = lines.skip(k + 1);
    assert forall|i: int| 0 <= i < front.len() implies !is_short(#[trigger] front[i]) by {
        assert(front[i] == lines[i]);
    }
    lemma_lines_add(front);
    let state = add_lines(no_lines(), front)->Ok_0;
    assert(lines =~= front + (seq![line] + tail));
    lemma_add_lines_concat(no_lines(), front, seq![line] + tail);
    lemma_add_lines_concat(state, seq![line], tail);
    lemma_add_single(state, line);
    lemma_returns(line);
}

/// A line that is of none of the kinds `v=`, `o=`, `s=`, `c=`, `t=`, `m=` and `a=` changes nothing,
/// wherever it stands; nor does an empty line at either end.
pub proof fn law_other_lines_change_nothing(before: Seq<char>, line: Seq<char>, behind: Seq<char>)
    requires
        !line.contains('\n'),
        !is_kind(line, 'v') && !is_kind(line, 'o') && !is_kind(line, 's') && !is_kind(line, 'c'),
        !is_kind(line, 't') && !is_kind(line, 'm') && !is_kind(line, 'a'),
    ensures
        sdp_of(before + seq!['\n'] + line + seq!['\n'] + behind) == sdp_of(
            before + seq!['\n'] + behind,
        ),
        sdp_of(line + seq!['\n'] + behind) == sdp_of(behind),
        sdp_of(before + seq!['\n'] + line) == sdp_of(before),
{
    let nl = seq!['\n'];
    law_pieces(line, '\n', behind);
    law_pieces(before, '\n', behind);
    law_pieces(before, '\n', line);
    law_pieces(before, '\n', line + nl + behind);
    assert(before + nl + line + nl + behind =~= before + nl + (line + nl + behind));
    let a = parts(before, '\n');
    let b = parts(behind, '\n');
    lemma_returns(line);
    lemma_add_single(no_lines(), line);
    lemma_add_lines_concat(no_lines(), seq![line], b);
    lemma_add_lines_concat(no_lines(), a, b);
    lemma_add_lines_concat(no_lines(), a, seq![line]);
    lemma_add_lines_concat(no_lines(), a, seq![line] + b);
    if let Ok(state) = add_lines(no_lines(), a) {
        lemma_add_single(state, line);
        lemma_add_lines_concat(state, seq![line], b);
    }
}

/// An attribute line behind a description adds one attribute, the last: to the session where there is
/// no media, else to the last media. Everything else stays.
pub proof fn law_attribute_line_adds_one(text: Seq<char>, line: Seq<char>, value: Seq<char>)
    requires
        sdp_of(text) is Ok,
        !line.contains('\n'),
        line.len() >= 2 && line[0] == 'a' && line[1] == '=',
        value == trimmed(line.skip(2)),
    ensures
        ({
            let d = sdp_of(text)->Ok_0;
            &&& sdp_of(text + seq!['\n'] + line) matches Ok(e)
            &&& e.version == d.version && e.origin == d.origin && e.session_name == d.session_name
            &&& e.connection == d.connection && e.timing == d.timing
            &&& e.media.len() == d.media.len()
            &&& d.media.len() == 0 ==> e.attributes.len() == d.attributes.len() + 1
                && e.attributes.drop_last() == d.attributes && attribute_is(e.attributes.last(), value)
            &&& d.media.len() > 0 ==> {
                let was = d.media.last();
                let is = e.media.last();
                &&& e.attributes == d.attributes
                &&& e.media.drop_last() == d.media.drop_last()
                &&& is.attributes.len() == was.attributes.len() + 1
                &&& is.attributes.drop_last() == was.attributes
                &&& attribute_is(is.attributes.last(), value)
                &&& is == (MediaView { attributes: is.attributes, ..was })
            }
        }),
{
    let a = parts(text, '\n');
    law_pieces(text, '\n', line);
    law_pieces(line, '\n', Seq::empty());
    lemma_returns(line);
    lemma_add_lines_concat(no_lines(), a, seq![line]);
    let state = add_lines(no_lines(), a)->Ok_0;
    lemma_add_single(state, line);
    lemma_attribute_is(value, crate::sdp::attribute_of(value));
    let d = sdp_of(text)->Ok_0;
    let e = sdp_of(text + seq!['\n'] + line)->Ok_0;
    if d.media.len() == 0 {
        assert(e.attributes.drop_last() =~= d.attributes);
    } else {
        assert(e.media.drop_last() =~= d.media.drop_last());
        assert(e.media.last().attributes.drop_last() =~= d.media.last().attributes);
    }
}

/// The view of a description holds what its fields hold.
pub proof fn law_fields_are_seen(
    desc: SessionDesc<'_>,
    media: MediaDesc<'_>,
    origin: Origin<'_>,
    connection: Connection<'_>,
    timing: Timing<'_>,
    attribute: Attribute<'_>,
)
    ensures
        origin@.username == origin.username@,
        origin@.session_id == origin.session_id@,
        origin@.session_version == origin.session_version@,
        origin@.net_type == origin.net_type@,
        origin@.addr_type == origin.addr_type@,
        origin@.address == origin.address@,
        connection@.net_type == connection.net_type@,
        connection@.addr_type == connection.addr_type@,
        connection@.address == connection.address@,
        timing@.start == timing.start@,
        timing@.stop == timing.stop@,
        attribute@.key == attribute.key@,
        attribute.value matches Some(value) ==> attribute@.value == Some(value@),
        attribute.value is None ==> attribute@.value is None,
        media@.media == media.media@,
        media@.port == media.port@,
        media@.proto == media.proto@,
        media@.formats.len() == media.formats@.len(),
        forall|i: int|
            0 <= i < media.formats@.len() ==> #[trigger] media@.formats[i] == media.formats@[i]@,
        media.connection matches Some(c) ==> media@.connection == Some(c@),
        media.connection is None ==> media@.connection is None,
        media@.attributes.len() == media.attributes@.len(),
        forall|i: int|
            0 <= i < media.attributes@.len() ==> #[trigger] media@.attributes[i]
                == media.attributes@[i]@,
        desc@.version == desc.version@,
        desc@.origin == desc.origin@,
        desc@.session_name == desc.session_name@,
        desc.connection matches Some(c) ==> desc@.connection == Some(c@),
        desc.connection is None ==> desc@.connection is None,
        desc@.timing == desc.timing@,
        desc@.attributes.len() == desc.attributes@.len(),
        forall|i: int|
            0 <= i < desc.attributes@.len() ==> #[trigger] desc@.attributes[i]
                == desc.attributes@[i]@,
        desc@.media.len() == desc.media@.len(),
        forall|i: int| 0 <= i < desc.media@.len() ==> #[trigger] desc@.media[i] == desc.media@[i]@,
{
}

/// Lines are written one behind the other, each with a carriage return and a line feed, and words with
/// one space between neighbours.
pub proof fn law_lines_and_words_are_joined(list: Seq<Seq<char>>, last: Seq<char>)
    ensures
        joined_lines(Seq::empty()) == Seq::<char>::empty(),
        joined_lines(list.push(last)) == joined_lines(list) + last + seq!['\r', '\n'],
        list.len() == 0 ==> spaced(list.push(last)) == last,
        list.len() > 0 ==> spaced(list.push(last)) == spaced(list) + seq![' '] + last,
{
    assert(list.push(last).drop_last() =~= list);
}

/// A description is written as version, originator, name, connection if there is one, times,
/// attributes in order, and then media by media its line, its connection if it has one, and its
/// attributes in order.
pub proof fn law_description_is_written_in_order(d: SessionView, m: MediaView)
    ensures
        ({
            let l = session_lines(d);
            let k: int = if d.connection is Some {
                1
            } else {
                0
            };
            let o = d.origin;
            let sp = seq![' '];
            &&& d.media.len() == 0 ==> l.len() == 4 + k + d.attributes.len()
            &&& l.len() >= 4 + k + d.attributes.len()
            &&& l[0] == seq!['v', '='] + d.version
            &&& l[1] == seq!['o', '='] + (o.username + sp + o.session_id + sp + o.session_version + sp
                + o.net_type + sp + o.addr_type + sp + o.address)
            &&& l[2] == seq!['s', '='] + d.session_name
            &&& d.connection matches Some(c) ==> l[3] == seq!['c', '='] + (c.net_type + sp
                + c.addr_type + sp + c.address)
            &&& l[3 + k] == seq!['t', '='] + (d.timing.start + sp + d.timing.stop)
            &&& forall|i: int|
                0 <= i < d.attributes.len() ==> attribute_written(
                    #[trigger] d.attributes[i],
                    l[4 + k + i],
                )
        }),
        ({
            let more = SessionView { media: d.media.push(m), ..d };
            let l = session_lines(more);
            let n = session_lines(d).len() as int;
            let k: int = if m.connection is Some {
                1
            } else {
                0
            };
            let sp = seq![' '];
            &&& l.take(n) == session_lines(d)
            &&& l.len() == n + 1 + k + m.attributes.len()
            &&& l[n] == seq!['m', '='] + spaced(seq![m.media, m.port, m.proto] + m.formats)
            &&& m.connection matches Some(c) ==> l[n + 1] == seq!['c', '='] + (c.net_type + sp
                + c.addr_type + sp + c.address)
            &&& forall|i: int|
                0 <= i < m.attributes.len() ==> attribute_written(
                    #[trigger] m.attributes[i],
                    l[n + 1 + k + i],
                )
        }),
{
    lemma_six_words(d.origin);
    if let Some(c) = d.connection {
        lemma_three_words(c.net_type, c.addr_type, c.address);
    }
    if let Some(c) = m.connection {
        lemma_three_words(c.net_type, c.addr_type, c.address);
    }
    let t = d.timing;
    let one = Seq::<Seq<char>>::empty().push(t.start);
    assert(seq![t.start, t.stop] =~= one.push(t.stop));
    law_lines_and_words_are_joined(Seq::empty(), t.start);
    law_lines_and_words_are_joined(one, t.stop);
    let more = SessionView { media: d.media.push(m), ..d };
    assert(more.media.drop_last() =~= d.media);
    let lead = seq![seq!['v', '='] + d.version, origin_line(d.origin), seq!['s', '=']
        + d.session_name] + connection_lines(d.connection) + seq![timing_line(d.timing)]
        + attribute_lines(d.attributes);
    assert(session_lines(d) == lead + all_media_lines(d.media));
    assert(session_lines(more) =~= session_lines(d) + media_lines(m));
    let n = session_lines(d).len() as int;
    let tail = media_lines(m);
    assert forall|i: int| 0 <= i < tail.len() implies session_lines(more)[n + i] == #[trigger] tail[i] by {}
    assert(session_lines(more)[n] == tail[0]);
    let k: int = if m.connection is Some {
        1
    } else {
        0
    };
    assert forall|i: int| 0 <= i < m.attributes.len() implies attribute_written(
        #[trigger] m.attributes[i],
        session_lines(more)[n + 1 + k + i],
    ) by {
        assert(tail[1 + k + i] == attribute_lines(m.attributes)[i]);
    }
}

/// Whether a line is how an attribute is written.
pub open spec fn attribute_written(a: AttributeView, line: Seq<char>) -> bool {
    match a.value {
        Some(value) => line == seq!['a', '='] + (a.key + seq![':'] + value),
        None => line == seq!['a', '='] + a.key,
    }
}

proof fn lemma_three_words(a: Seq<char>, b: Seq<char>, c: Seq<char>)
    ensures
        spaced(seq![a, b, c]) == a + seq![' '] + b + seq![' '] + c,
{
    let one = Seq::<Seq<char>>::empty().push(a);
    law_lines_and_words_are_joined(Seq::empty(), a);
    law_lines_and_words_are_joined(one, b);
    law_lines_and_words_are_joined(one.push(b), c);
    assert(seq![a, b, c] =~= one.push(b).push(c));
}

proof fn lemma_six_words(o: OriginView)
    ensures
        ({
            let sp = seq![' '];
            spaced(
                seq![
                    o.username,
                    o.session_id,
                    o.session_version,
                    o.net_type,
                    o.addr_type,
                    o.address,
                ],
            ) == o.username + sp + o.session_id + sp + o.session_version + sp + o.net_type + sp
                + o.addr_type + sp + o.address
        }),
{
    lemma_three_words(o.username, o.session_id, o.session_version);
    let three = seq![o.username, o.session_id, o.session_version];
    law_lines_and_words_are_joined(three, o.net_type);
    law_lines_and_words_are_joined(three.push(o.net_type), o.addr_type);
    law_lines_and_words_are_joined(three.push(o.net_type).push(o.addr_type), o.address);
    assert(seq![
        o.username,
        o.session_id,
        o.session_version,
        o.net_type,
        o.addr_type,
        o.address,
    ] =~= three.push(o.net_type).push(o.addr_type).push(o.address));
}

/// What the errors are called in words.
pub proof fn law_errors_have_their_words()
    ensures
        SdpParseError::MissingVersion.message_spec()@ == "SDP 缺少 v= 版本行"@,
        SdpParseError::MissingOrigin.message_spec()@ == "SDP 缺少 o= 会话发起人行"@,
        SdpParseError::InvalidOrigin.message_spec()@ == "o= 行字段不足，需提供 6 个片段"@,
        SdpParseError::MissingSessionName.message_spec()@ == "SDP 缺少 s= 会话名称行"@,
        SdpParseError::MissingTiming.message_spec()@ == "SDP 缺少 t= 时间行"@,
        SdpParseError::InvalidTiming.message_spec()@ == "t= 行需要包含开始与结束时间"@,
        SdpParseError::InvalidConnection.message_spec()@ == "c= 行需要提供网络/地址类型与地址"@,
        SdpParseError::InvalidMedia.message_spec()@ == "m= 行需要包含媒体、端口、传输与至少一个格式"@,
{
}

} // verus!
