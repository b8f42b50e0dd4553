//! Reading back a formatted session description.
use vstd::prelude::*;

verus! {

use crate::sdp::{
    add_line, add_lines, all_media_lines, attribute_lines, attribute_of, attribute_text,
    connection_line, connection_lines, connection_of, joined_lines, lemma_joined_line,
    lemma_joined_lines_concat, media_line, media_lines, media_of, no_lines, origin_line, origin_of,
    sdp_of, session_lines, spaced, timing_line, timing_of, AttributeView, ConnectionView, MediaView,
    OriginView, SdpLines, SdpParseError, SessionView, TimingView,
};
use crate::text::{
    is_white_space, lemma_trimmed_end, lemma_trimmed_start, lemma_until, lemma_word_len, parts,
    split_char, trimmed, trimmed_end, trimmed_end_of, trimmed_start, until, word_len, words,
};

/// A text that is one word.
pub open spec fn is_word(s: Seq<char>) -> bool {
    &&& s.len() > 0
    &&& forall|i: int| 0 <= i < s.len() ==> !is_white_space(#[trigger] s[i])
}

/// A text that fits on one line and has no white space at its ends.
pub open spec fn is_line_text(s: Seq<char>) -> bool {
    &&& forall|i: int| 0 <= i < s.len() ==> #[trigger] s[i] != '\n'
    &&& s.len() > 0 ==> !is_white_space(s[0]) && !is_white_space(s.last())
}

/// An originator whose fields are words.
pub open spec fn origin_is_plain(o: OriginView) -> bool {
    &&& is_word(o.username)
    &&& is_word(o.session_id)
    &&& is_word(o.session_version)
    &&& is_word(o.net_type)
    &&& is_word(o.addr_type)
    &&& is_word(o.address)
}

/// A connection whose fields are words.
pub open spec fn connection_is_plain(c: Option<ConnectionView>) -> bool {
    c matches Some(c) ==> {
        &&& is_word(c.net_type)
        &&& is_word(c.addr_type)
        &&& is_word(c.address)
    }
}

/// An attribute that fits on one line and whose key holds no colon.
pub open spec fn attribute_is_plain(a: AttributeView) -> bool {
    &&& is_line_text(attribute_text(a))
    &&& forall|i: int| 0 <= i < a.key.len() ==> #[trigger] a.key[i] != ':'
}

/// A list of plain attributes.
pub open spec fn attributes_are_plain(list: Seq<AttributeView>) -> bool {
    forall|i: int| 0 <= i < list.len() ==> attribute_is_plain(#[trigger] list[i])
}

/// A media with a format, whose fields are words.
pub open spec fn media_is_plain(m: MediaView) -> bool {
    &&& is_word(m.media)
    &&& is_word(m.port)
    &&& is_word(m.proto)
    &&& m.formats.len() > 0
    &&& forall|i: int| 0 <= i < m.formats.len() ==> is_word(#[trigger] m.formats[i])
    &&& connection_is_plain(m.connection)
    &&& attributes_are_plain(m.attributes)
}

/// A description whose fields can be told apart in its text.
pub open spec fn session_is_plain(d: SessionView) -> bool {
    &&& is_line_text(d.version)
    &&& origin_is_plain(d.origin)
    &&& is_line_text(d.session_name)
    &&& connection_is_plain(d.connection)
    &&& is_word(d.timing.start)
    &&& is_word(d.timing.stop)
    &&& attributes_are_plain(d.attributes)
    &&& forall|i: int| 0 <= i < d.media.len() ==> media_is_plain(#[trigger] d.media[i])
}

/// The stop is found behind a text without stops.
proof fn lemma_until_stop(head: Seq<char>, c: char, tail: Seq<char>)
    requires
        forall|i: int| 0 <= i < head.len() ==> #[trigger] head[i] != c,
    ensures
        until(head + seq![c] + tail, seq![c]) == head.len(),
        split_char(head + seq![c] + tail, c) == Some((head, tail)),
    decreases head.len(),
{
    let s = head + seq![c] + tail;
    assert(seq![c].contains(c)) by {
        assert(seq![c][0] == c);
    }
    if head.len() > 0 {
        let rest = head.drop_first();
        assert(s.drop_first() =~= rest + seq![c] + tail);
        assert forall|i: int| 0 <= i < rest.len() implies #[trigger] rest[i] != c by {
            assert(rest[i] == head[i + 1]);
        }
        lemma_until_stop(rest, c, tail);
        assert(!seq![c].contains(s[0]));
    } else {
        assert(s[0] == c);
    }
    assert(s.take(head.len() as int) =~= head);
    assert(s.skip((head.len() + 1) as int) =~= tail);
}

/// Without the character there is nothing to split at.
proof fn lemma_no_split(s: Seq<char>, c: char)
    requires
        forall|i: int| 0 <= i < s.len() ==> #[trigger] s[i] != c,
    ensures
        split_char(s, c) is None,
{
    lemma_until(s, seq![c]);
}

/// The lines of a text with line ends.
spec fn with_returns(lines: Seq<Seq<char>>) -> Seq<Seq<char>> {
    Seq::new(lines.len(), |i: int| lines[i] + seq!['\r'])
}

proof fn lemma_parts_of_lines(lines: Seq<Seq<char>>)
    requires
        forall|i: int, k: int|
            0 <= i < lines.len() && 0 <= k < lines[i].len() ==> #[trigger] lines[i][k] != '\n',
    ensures
        parts(joined_lines(lines), '\n') == with_returns(lines) + seq![Seq::<char>::empty()],
    decreases lines.len(),
{
    if lines.len() == 0 {
        lemma_no_split(Seq::empty(), '\n');
        assert(with_returns(lines) + seq![Seq::<char>::empty()] =~= seq![Seq::<char>::empty()]);
    } else {
        let first = seq![lines[0]];
        let rest = lines.drop_first();
        assert(lines =~= first + rest);
        lemma_joined_lines_concat(first, rest);
        lemma_joined_line(lines[0]);
        assert forall|i: int, k: int|
            0 <= i < rest.len() && 0 <= k < rest[i].len() implies #[trigger] rest[i][k] != '\n' by {
            assert(rest[i] == lines[i + 1]);
        }
        lemma_parts_of_lines(rest);
        let head = lines[0] + seq!['\r'];
        assert(joined_lines(lines) =~= head + seq!['\n'] + joined_lines(rest));
        assert forall|i: int| 0 <= i < head.len() implies #[trigger] head[i] != '\n' by {
            if i < lines[0].len() {
                assert(head[i] == lines[0][i]);
            }
        }
        lemma_until_stop(head, '\n', joined_lines(rest));
        assert(seq![head] + (with_returns(rest) + seq![Seq::<char>::empty()]) =~= with_returns(
            lines,
        ) + seq![Seq::<char>::empty()]);
    }
}

/// Taking in two lists of lines one after the other.
pub proof fn lemma_add_lines_concat(state: SdpLines, a: Seq<Seq<char>>, b: Seq<Seq<char>>)
    ensures
        add_lines(state, a + b) == (match add_lines(state, a) {
            Ok(next) => add_lines(next, b),
            Err(e) => Err(e),
        }),
    decreases a.len(),
{
    if a.len() == 0 {
        assert(a + b =~= b);
    } else {
        assert((a + b).drop_first() =~= a.drop_first() + b);
        if let Ok(next) = add_line(state, a[0]) {
            lemma_add_lines_concat(next, a.drop_first(), b);
        }
    }
}

/// Taking in a single line.
pub proof fn lemma_add_single(state: SdpLines, line: Seq<char>)
    ensures
        add_lines(state, seq![line]) == add_line(state, line),
{
    reveal_with_fuel(add_lines, 2);
    assert(seq![line].drop_first() =~= Seq::<Seq<char>>::empty());
}

/// A line text is left as it is by trimming.
proof fn lemma_line_text_trimmed(s: Seq<char>)
    requires
        is_line_text(s),
    ensures
        trimmed(s) == s,
{
    lemma_trimmed_end(s, s.len() as int);
    assert(s.take(s.len() as int) =~= s);
}

/// What a line of a known kind says behind the equals sign.
proof fn lemma_line_value(kind: char, text: Seq<char>)
    requires
        is_line_text(text),
    ensures
        ({
            let line = trimmed_end_of(seq![kind, '='] + text + seq!['\r'], '\r');
            &&& line == seq![kind, '='] + text
            &&& trimmed(line.skip(2)) == text
            &&& line[0] == kind
            &&& line[1] == '='
            &&& line.len() >= 2
        }),
{
    let line = seq![kind, '='] + text;
    let raw = line + seq!['\r'];
    assert(seq![kind, '='] + text + seq!['\r'] =~= raw);
    assert(raw.drop_last() =~= line);
    reveal_with_fuel(trimmed_end_of, 2);
    assert(line.last() != '\r') by {
        if text.len() > 0 {
            assert(line.last() == text.last());
        }
    }
    assert(line.skip(2) =~= text);
    lemma_line_text_trimmed(text);
}

/// A word reaches up to the white space behind it.
pub proof fn lemma_word_prefix(word: Seq<char>, tail: Seq<char>)
    requires
        forall|i: int| 0 <= i < word.len() ==> !is_white_space(#[trigger] word[i]),
        tail.len() == 0 || is_white_space(tail[0]),
    ensures
        word_len(word + tail) == word.len(),
    decreases word.len(),
{
    let s = word + tail;
    if word.len() > 0 {
        let rest = word.drop_first();
        assert(s.drop_first() =~= rest + tail);
        assert forall|i: int| 0 <= i < rest.len() implies !is_white_space(#[trigger] rest[i]) by {
            assert(rest[i] == word[i + 1]);
        }
        lemma_word_prefix(rest, tail);
        assert(s[0] == word[0]);
    } else {
        assert(s =~= tail);
    }
}

/// The first word stands in front of the first space.
proof fn lemma_spaced_front(list: Seq<Seq<char>>)
    requires
        list.len() >= 2,
    ensures
        spaced(list) == list[0] + seq![' '] + spaced(list.drop_first()),
    decreases list.len(),
{
    let rest = list.drop_first();
    if list.len() == 2 {
        assert(list.drop_last() =~= seq![list[0]]);
        assert(rest =~= seq![list[1]]);
        assert(spaced(seq![list[0]]) == list[0]);
        assert(spaced(rest) == list[1]);
    } else {
        lemma_spaced_front(list.drop_last());
        assert(list.drop_last().drop_first() =~= rest.drop_last());
        assert(spaced(list) =~= list[0] + seq![' '] + spaced(rest));
    }
}

/// The words of spaced words are those words.
pub proof fn lemma_words_of_spaced(list: Seq<Seq<char>>)
    requires
        list.len() > 0,
        forall|i: int| 0 <= i < list.len() ==> is_word(#[trigger] list[i]),
    ensures
        words(spaced(list)) == list,
        is_line_text(spaced(list)),
        spaced(list).len() > 0,
        !is_white_space(spaced(list)[0]),
    decreases list.len(),
{
    let s = spaced(list);
    assert(is_word(list[0]));
    assert(is_word(list.last()));
    if list.len() == 1 {
        assert(s == list[0]);
        lemma_word_prefix(list[0], Seq::empty());
        assert(list[0] + Seq::<char>::empty() =~= list[0]);
        assert(s.take(word_len(s)) =~= s);
        assert(s.skip(word_len(s)) =~= Seq::<char>::empty());
        assert(words(Seq::<char>::empty()) =~= Seq::<Seq<char>>::empty());
        assert(words(s) =~= list);
        assert forall|i: int| 0 <= i < s.len() implies #[trigger] s[i] != '\n' by {
            assert(!is_white_space(s[i]));
        }
    } else {
        let rest = list.drop_first();
        lemma_spaced_front(list);
        assert forall|i: int| 0 <= i < rest.len() implies is_word(#[trigger] rest[i]) by {
            assert(rest[i] == list[i + 1]);
        }
        lemma_words_of_spaced(rest);
        let tail = seq![' '] + spaced(rest);
        assert(s =~= list[0] + tail);
        lemma_word_prefix(list[0], tail);
        assert(s.take(word_len(s)) =~= list[0]);
        assert(s.skip(word_len(s)) =~= tail);
        assert(trimmed_start(s) == s);
        assert(tail.drop_first() =~= spaced(rest));
        assert(trimmed_start(tail) == trimmed_start(spaced(rest)));
        assert(words(tail) == words(spaced(rest)));
        assert(words(s) =~= list);
        assert forall|i: int| 0 <= i < s.len() implies #[trigger] s[i] != '\n' by {
            if i < list[0].len() {
                assert(s[i] == list[0][i]);
                assert(!is_white_space(list[0][i]));
            } else if i > list[0].len() {
                assert(s[i] == spaced(rest)[i - list[0].len() - 1]);
            }
        }
        assert(s.last() == spaced(rest).last());
    }
}

/// An attribute can be read back from its text.
proof fn lemma_attribute_text(a: AttributeView)
    requires
        attribute_is_plain(a),
    ensures
        attribute_of(attribute_text(a)) == a,
{
    match a.value {
        Some(value) => {
            lemma_until_stop(a.key, ':', value);
        },
        None => {
            lemma_no_split(a.key, ':');
        },
    }
}

/// What a list of attribute lines adds.
spec fn with_attributes(state: SdpLines, list: Seq<AttributeView>) -> SdpLines {
    if state.media.len() == 0 {
        SdpLines { attributes: state.attributes + list, ..state }
    } else {
        SdpLines {
            media: state.media.update(
                state.media.len() - 1,
                MediaView {
                    attributes: state.media.last().attributes + list,
                    ..state.media.last()
                },
            ),
            ..state
        }
    }
}

proof fn lemma_add_attributes(state: SdpLines, list: Seq<AttributeView>)
    requires
        attributes_are_plain(list),
    ensures
        add_lines(state, with_returns(attribute_lines(list))) == Ok::<SdpLines, SdpParseError>(
            with_attributes(state, list),
        ),
    decreases list.len(),
{
    let lines = with_returns(attribute_lines(list));
    if list.len() == 0 {
        assert(state.attributes + list =~= state.attributes);
        if state.media.len() > 0 {
            assert(state.media.last().attributes + list =~= state.media.last().attributes);
            assert(with_attributes(state, list).media =~= state.media);
        }
    } else {
        let init = list.drop_last();
        let last = list.last();
        assert(attribute_is_plain(list[list.len() - 1]));
        assert forall|i: int| 0 <= i < init.len() implies attribute_is_plain(#[trigger] init[i]) by {
            assert(init[i] == list[i]);
        }
        lemma_add_attributes(state, init);
        let line = seq!['a', '='] + attribute_text(last) + seq!['\r'];
        assert(lines =~= with_returns(attribute_lines(init)) + seq![line]);
        lemma_add_lines_concat(state, with_returns(attribute_lines(init)), seq![line]);
        let mid = with_attributes(state, init);
        lemma_add_single(mid, line);
        lemma_line_value('a', attribute_text(last));
        lemma_attribute_text(last);
        assert(state.attributes + list =~= (state.attributes + init).push(last));
        if state.media.len() > 0 {
            let m = state.media.last();
            assert(m.attributes + list =~= (m.attributes + init).push(last));
            assert(mid.media.last().attributes =~= m.attributes + init);
            let after = add_line(mid, line)->Ok_0;
            assert(after.media =~= with_attributes(state, list).media);
        }
    }
}

proof fn lemma_connection_line(c: ConnectionView)
    requires
        connection_is_plain(Some(c)),
    ensures
        ({
            let w = seq![c.net_type, c.addr_type, c.address];
            &&& connection_line(c) == seq!['c', '='] + spaced(w)
            &&& is_line_text(spaced(w))
            &&& connection_of(spaced(w)) == Some(c)
        }),
{
    let w = seq![c.net_type, c.addr_type, c.address];
    assert forall|i: int| 0 <= i < w.len() implies is_word(#[trigger] w[i]) by {}
    lemma_words_of_spaced(w);
}

proof fn lemma_media_line(m: MediaView)
    requires
        media_is_plain(m),
    ensures
        ({
            let w = seq![m.media, m.port, m.proto] + m.formats;
            &&& media_line(m) == seq!['m', '='] + spaced(w)
            &&& is_line_text(spaced(w))
            &&& media_of(spaced(w)) == Some(
                MediaView { connection: None, attributes: Seq::empty(), ..m },
            )
        }),
{
    let w = seq![m.media, m.port, m.proto] + m.formats;
    assert forall|i: int| 0 <= i < w.len() implies is_word(#[trigger] w[i]) by {
        if i >= 3 {
            assert(w[i] == m.formats[i - 3]);
        }
    }
    lemma_words_of_spaced(w);
    assert(w.skip(3) =~= m.formats);
}

/// The lines of a media add that media.
proof fn lemma_add_media(state: SdpLines, m: MediaView)
    requires
        media_is_plain(m),
    ensures
        add_lines(state, with_returns(media_lines(m))) == Ok::<SdpLines, SdpParseError>(
            SdpLines { media: state.media.push(m), ..state },
        ),
{
    let w = seq![m.media, m.port, m.proto] + m.formats;
    let first = seq![media_line(m) + seq!['\r']];
    let second = with_returns(connection_lines(m.connection));
    let third = with_returns(attribute_lines(m.attributes));
    assert(with_returns(media_lines(m)) =~= first + second + third);
    lemma_add_lines_concat(state, first + second, third);
    lemma_add_lines_concat(state, first, second);
    lemma_media_line(m);
    lemma_line_value('m', spaced(w));
    let bare = MediaView { connection: None, attributes: Seq::empty(), ..m };
    let s1 = SdpLines { media: state.media.push(bare), ..state };
    lemma_add_single(state, media_line(m) + seq!['\r']);
    assert(add_lines(state, first) == Ok::<SdpLines, SdpParseError>(s1));
    let with_c = MediaView { attributes: Seq::empty(), ..m };
    let s2 = SdpLines { media: state.media.push(with_c), ..state };
    match m.connection {
        Some(c) => {
            lemma_connection_line(c);
            let wc = seq![c.net_type, c.addr_type, c.address];
            lemma_line_value('c', spaced(wc));
            assert(second =~= seq![connection_line(c) + seq!['\r']]);
            lemma_add_single(s1, connection_line(c) + seq!['\r']);
            let after = add_line(s1, connection_line(c) + seq!['\r'])->Ok_0;
            assert(after.media =~= s2.media);
        },
        None => {
            assert(second =~= Seq::<Seq<char>>::empty());
            assert(s1.media =~= s2.media);
        },
    }
    assert(add_lines(s1, second) == Ok::<SdpLines, SdpParseError>(s2));
    lemma_add_attributes(s2, m.attributes);
    assert(with_c.attributes + m.attributes =~= m.attributes);
    assert(with_attributes(s2, m.attributes).media =~= state.media.push(m));
}

proof fn lemma_add_all_media(state: SdpLines, list: Seq<MediaView>)
    requires
        forall|i: int| 0 <= i < list.len() ==> media_is_plain(#[trigger] list[i]),
    ensures
        add_lines(state, with_returns(all_media_lines(list))) == Ok::<SdpLines, SdpParseError>(
            SdpLines { media: state.media + list, ..state },
        ),
    decreases list.len(),
{
    if list.len() == 0 {
        assert(with_returns(all_media_lines(list)) =~= Seq::<Seq<char>>::empty());
        assert(state.media + list =~= state.media);
    } else {
        let init = list.drop_last();
        assert(media_is_plain(list[list.len() - 1]));
        assert forall|i: int| 0 <= i < init.len() implies media_is_plain(#[trigger] init[i]) by {
            assert(init[i] == list[i]);
        }
        lemma_add_all_media(state, init);
        let a = with_returns(all_media_lines(init));
        let b = with_returns(media_lines(list.last()));
        assert(with_returns(all_media_lines(list)) =~= a + b);
        lemma_add_lines_concat(state, a, b);
        let mid = SdpLines { media: state.media + init, ..state };
        lemma_add_media(mid, list.last());
        assert((state.media + init).push(list.last()) =~= state.media + list);
    }
}

/// No line of a plain description holds a line feed.
spec fn no_line_feeds(lines: Seq<Seq<char>>) -> bool {
    forall|i: int, k: int|
        0 <= i < lines.len() && 0 <= k < lines[i].len() ==> #[trigger] lines[i][k] != '\n'
}

proof fn lemma_no_line_feeds_concat(a: Seq<Seq<char>>, b: Seq<Seq<char>>)
    requires
        no_line_feeds(a),
        no_line_feeds(b),
    ensures
        no_line_feeds(a + b),
{
    let s = a + b;
    assert forall|i: int, k: int| 0 <= i < s.len() && 0 <= k < s[i].len() implies #[trigger] s[i][k]
        != '\n' by {
        if i < a.len() {
            assert(a[i][k] != '\n');
        } else {
            assert(b[i - a.len()][k] != '\n');
        }
    }
}

proof fn lemma_no_line_feeds_single(kind: char, text: Seq<char>)
    requires
        is_line_text(text),
        kind != '\n',
    ensures
        no_line_feeds(seq![seq![kind, '='] + text]),
{
    let line = seq![kind, '='] + text;
    assert forall|i: int, k: int|
        0 <= i < seq![line].len() && 0 <= k < seq![line][i].len() implies #[trigger] seq![line][i][k]
        != '\n' by {
        if k >= 2 {
            assert(line[k] == text[k - 2]);
        }
    }
}

proof fn lemma_no_line_feeds_attributes(list: Seq<AttributeView>)
    requires
        attributes_are_plain(list),
    ensures
        no_line_feeds(attribute_lines(list)),
{
    let lines = attribute_lines(list);
    assert forall|i: int, k: int|
        0 <= i < lines.len() && 0 <= k < lines[i].len() implies #[trigger] lines[i][k] != '\n' by {
        assert(attribute_is_plain(list[i]));
        if k >= 2 {
            assert(lines[i][k] == attribute_text(list[i])[k - 2]);
        }
    }
}

proof fn lemma_no_line_feeds_connection(c: Option<ConnectionView>)
    requires
        connection_is_plain(c),
    ensures
        no_line_feeds(connection_lines(c)),
{
    if let Some(c) = c {
        lemma_connection_line(c);
        lemma_no_line_feeds_single('c', spaced(seq![c.net_type, c.addr_type, c.address]));
    }
}

proof fn lemma_no_line_feeds_media(list: Seq<MediaView>)
    requires
        forall|i: int| 0 <= i < list.len() ==> media_is_plain(#[trigger] list[i]),
    ensures
        no_line_feeds(all_media_lines(list)),
    decreases list.len(),
{
    if list.len() > 0 {
        let init = list.drop_last();
        let m = list.last();
        assert(media_is_plain(list[list.len() - 1]));
        assert forall|i: int| 0 <= i < init.len() implies media_is_plain(#[trigger] init[i]) by {
            assert(init[i] == list[i]);
        }
        lemma_no_line_feeds_media(init);
        lemma_media_line(m);
        lemma_no_line_feeds_single('m', spaced(seq![m.media, m.port, m.proto] + m.formats));
        lemma_no_line_feeds_connection(m.connection);
        lemma_no_line_feeds_attributes(m.attributes);
        lemma_no_line_feeds_concat(seq![media_line(m)], connection_lines(m.connection));
        lemma_no_line_feeds_concat(
            seq![media_line(m)] + connection_lines(m.connection),
            attribute_lines(m.attributes),
        );
        lemma_no_line_feeds_concat(all_media_lines(init), media_lines(m));
    }
}

proof fn lemma_origin_line(o: OriginView)
    requires
        origin_is_plain(o),
    ensures
        ({
            let w = seq![
                o.username,
                o.session_id,
                o.session_version,
                o.net_type,
                o.addr_type,
                o.address,
            ];
            &&& origin_line(o) == seq!['o', '='] + spaced(w)
            &&& is_line_text(spaced(w))
            &&& origin_of(spaced(w)) == Some(o)
        }),
{
    let w = seq![o.username, o.session_id, o.session_version, o.net_type, o.addr_type, o.address];
    assert forall|i: int| 0 <= i < w.len() implies is_word(#[trigger] w[i]) by {}
    lemma_words_of_spaced(w);
}

proof fn lemma_timing_line(t: TimingView)
    requires
        is_word(t.start),
        is_word(t.stop),
    ensures
        ({
            let w = seq![t.start, t.stop];
            &&& timing_line(t) == seq!['t', '='] + spaced(w)
            &&& is_line_text(spaced(w))
            &&& timing_of(spaced(w)) == Some(t)
        }),
{
    let w = seq![t.start, t.stop];
    assert forall|i: int| 0 <= i < w.len() implies is_word(#[trigger] w[i]) by {}
    lemma_words_of_spaced(w);
}

/// The lines in front of the attributes and the media.
spec fn lead_lines(d: SessionView) -> Seq<Seq<char>> {
    seq![seq!['v', '='] + d.version, origin_line(d.origin), seq!['s', '='] + d.session_name]
        + connection_lines(d.connection) + seq![timing_line(d.timing)]
}

proof fn lemma_no_line_feeds_lead(d: SessionView)
    requires
        session_is_plain(d),
    ensures
        no_line_feeds(lead_lines(d)),
{
    let o = d.origin;
    let wo = seq![o.username, o.session_id, o.session_version, o.net_type, o.addr_type, o.address];
    lemma_origin_line(o);
    lemma_timing_line(d.timing);
    lemma_no_line_feeds_single('v', d.version);
    lemma_no_line_feeds_single('o', spaced(wo));
    lemma_no_line_feeds_single('s', d.session_name);
    lemma_no_line_feeds_single('t', spaced(seq![d.timing.start, d.timing.stop]));
    lemma_no_line_feeds_connection(d.connection);
    let l1 = seq![seq!['v', '='] + d.version];
    let l2 = seq![origin_line(o)];
    let l3 = seq![seq!['s', '='] + d.session_name];
    let l4 = connection_lines(d.connection);
    let l5 = seq![timing_line(d.timing)];
    lemma_no_line_feeds_concat(l1, l2);
    lemma_no_line_feeds_concat(l1 + l2, l3);
    lemma_no_line_feeds_concat(l1 + l2 + l3, l4);
    lemma_no_line_feeds_concat(l1 + l2 + l3 + l4, l5);
    assert(lead_lines(d) =~= l1 + l2 + l3 + l4 + l5);
}

proof fn lemma_add_lead(d: SessionView)
    requires
        session_is_plain(d),
    ensures
        add_lines(no_lines(), with_returns(lead_lines(d))) == Ok::<SdpLines, SdpParseError>(
            SdpLines {
                version: Some(d.version),
                origin: Some(d.origin),
                session_name: Some(d.session_name),
                connection: d.connection,
                timing: Some(d.timing),
                attributes: Seq::empty(),
                media: Seq::empty(),
            },
        ),
{
    let o = d.origin;
    let wo = seq![o.username, o.session_id, o.session_version, o.net_type, o.addr_type, o.address];
    let wt = seq![d.timing.start, d.timing.stop];
    lemma_origin_line(o);
    lemma_timing_line(d.timing);
    lemma_line_value('v', d.version);
    lemma_line_value('o', spaced(wo));
    lemma_line_value('s', d.session_name);
    lemma_line_value('t', spaced(wt));
    let s0 = no_lines();
    let s1 = SdpLines { version: Some(d.version), ..s0 };
    let s2 = SdpLines { origin: Some(o), ..s1 };
    let s3 = SdpLines { session_name: Some(d.session_name), ..s2 };
    let s4 = SdpLines { connection: d.connection, ..s3 };
    let s5 = SdpLines { timing: Some(d.timing), ..s4 };
    let v = seq!['v', '='] + d.version + seq!['\r'];
    let ol = origin_line(o) + seq!['\r'];
    let n = seq!['s', '='] + d.session_name + seq!['\r'];
    let c = with_returns(connection_lines(d.connection));
    let t = timing_line(d.timing) + seq!['\r'];
    lemma_add_single(s0, v);
    lemma_add_single(s1, ol);
    lemma_add_single(s2, n);
    lemma_add_single(s4, t);
    assert(add_line(s0, v) == Ok::<SdpLines, SdpParseError>(s1));
    assert(add_line(s1, ol) == Ok::<SdpLines, SdpParseError>(s2));
    assert(add_line(s2, n) == Ok::<SdpLines, SdpParseError>(s3));
    assert(add_line(s4, t) == Ok::<SdpLines, SdpParseError>(s5));
    match d.connection {
        Some(conn) => {
            lemma_connection_line(conn);
            lemma_line_value('c', spaced(seq![conn.net_type, conn.addr_type, conn.address]));
            assert(c =~= seq![connection_line(conn) + seq!['\r']]);
            lemma_add_single(s3, connection_line(conn) + seq!['\r']);
        },
        None => {
            assert(c =~= Seq::<Seq<char>>::empty());
        },
    }
    assert(add_lines(s3, c) == Ok::<SdpLines, SdpParseError>(s4));
    lemma_add_lines_concat(s0, seq![v], seq![ol]);
    lemma_add_lines_concat(s0, seq![v] + seq![ol], seq![n]);
    lemma_add_lines_concat(s0, seq![v] + seq![ol] + seq![n], c);
    lemma_add_lines_concat(s0, seq![v] + seq![ol] + seq![n] + c, seq![t]);
    assert(with_returns(lead_lines(d)) =~= seq![v] + seq![ol] + seq![n] + c + seq![t]);
}

/// Parsing a formatted description gives the description back, if its fields hold nothing that
/// would be read as a separator.
pub proof fn law_sdp_round_trip(d: SessionView)
    requires
        session_is_plain(d),
    ensures
        sdp_of(joined_lines(session_lines(d))) == Ok::<SessionView, SdpParseError>(d),
{
    let lead = lead_lines(d);
    let attrs = attribute_lines(d.attributes);
    let media = all_media_lines(d.media);
    let lines = session_lines(d);
    assert(lines =~= lead + attrs + media);
    lemma_no_line_feeds_lead(d);
    lemma_no_line_feeds_attributes(d.attributes);
    lemma_no_line_feeds_media(d.media);
    lemma_no_line_feeds_concat(lead, attrs);
    lemma_no_line_feeds_concat(lead + attrs, media);
    lemma_parts_of_lines(lines);
    let s0 = no_lines();
    let a = with_returns(lead);
    let b = with_returns(attrs);
    let c = with_returns(media);
    let last = seq![Seq::<char>::empty()];
    assert(with_returns(lines) + last =~= a + b + c + last);
    lemma_add_lead(d);
    let s1 = add_lines(s0, a)->Ok_0;
    lemma_add_attributes(s1, d.attributes);
    let s2 = with_attributes(s1, d.attributes);
    assert(s2.attributes =~= d.attributes);
    lemma_add_all_media(s2, d.media);
    let s3 = SdpLines { media: s2.media + d.media, ..s2 };
    assert(s3.media =~= d.media);
    lemma_add_lines_concat(s0, a, b);
    lemma_add_lines_concat(s0, a + b, c);
    lemma_add_lines_concat(s0, a + b + c, last);
    lemma_add_single(s3, Seq::empty());
    assert(add_line(s3, Seq::empty()) == Ok::<SdpLines, SdpParseError>(s3));
}

/// No piece of a text holds the character that it was split at.
proof fn lemma_parts_without(s: Seq<char>, c: char)
    ensures
        forall|i: int, k: int|
            0 <= i < parts(s, c).len() && 0 <= k < parts(s, c)[i].len() ==> #[trigger] parts(
                s,
                c,
            )[i][k] != c,
    decreases s.len(),
{
    lemma_until(s, seq![c]);
    assert(seq![c].contains(c)) by {
        assert(seq![c][0] == c);
    }
    let all = parts(s, c);
    match split_char(s, c) {
        Some((head, tail)) => {
            lemma_parts_without(tail, c);
            let rest = parts(tail, c);
            assert forall|i: int, k: int|
                0 <= i < all.len() && 0 <= k < all[i].len() implies #[trigger] all[i][k] != c by {
                if i == 0 {
                    assert(all[0][k] == s[k]);
                    assert(!seq![c].contains(s[k]));
                } else {
                    assert(all[i] == rest[i - 1]);
                    assert(rest[i - 1][k] != c);
                }
            }
        },
        None => {
            assert forall|i: int, k: int|
                0 <= i < all.len() && 0 <= k < all[i].len() implies #[trigger] all[i][k] != c by {
                assert(all[i][k] == s[k]);
                assert(!seq![c].contains(s[k]));
            }
        },
    }
}

/// What is left of a text without the white space at its end does not end in white space.
proof fn lemma_trimmed_end_shape(s: Seq<char>)
    ensures
        trimmed_end(s).len() <= s.len(),
        trimmed_end(s) == s.take(trimmed_end(s).len() as int),
        trimmed_end(s).len() > 0 ==> !is_white_space(trimmed_end(s).last()),
    decreases s.len(),
{
    if s.len() > 0 && is_white_space(s.last()) {
        lemma_trimmed_end_shape(s.drop_last());
        let n = trimmed_end(s).len() as int;
        assert(s.drop_last().take(n) =~= s.take(n));
    } else {
        assert(s.take(s.len() as int) =~= s);
    }
}

/// What is left of a text without line feeds after trimming fits on one line.
proof fn lemma_trimmed_is_line_text(s: Seq<char>)
    requires
        forall|i: int| 0 <= i < s.len() ==> #[trigger] s[i] != '\n',
    ensures
        is_line_text(trimmed(s)),
{
    let t = trimmed_start(s);
    let r = trimmed(s);
    lemma_trimmed_start(s);
    lemma_trimmed_end_shape(t);
    assert forall|i: int| 0 <= i < r.len() implies #[trigger] r[i] != '\n' by {
        assert(r[i] == t[i]);
        assert(t[i] == s[s.len() - t.len() + i]);
    }
    if r.len() > 0 {
        assert(r[0] == t[0]);
    }
}

/// The words of a text are words.
proof fn lemma_words_are_words(s: Seq<char>)
    ensures
        forall|i: int| 0 <= i < words(s).len() ==> is_word(#[trigger] words(s)[i]),
    decreases s.len(),
{
    let t = trimmed_start(s);
    lemma_trimmed_start(s);
    lemma_word_len(t);
    if t.len() > 0 {
        let n = word_len(t);
        let rest = t.skip(n);
        lemma_words_are_words(rest);
        let first = t.take(n);
        assert(is_word(first)) by {
            assert forall|i: int| 0 <= i < first.len() implies !is_white_space(#[trigger] first[i]) by {
                assert(first[i] == t[i]);
            }
        }
        assert forall|i: int| 0 <= i < words(s).len() implies is_word(#[trigger] words(s)[i]) by {
            if i > 0 {
                assert(words(s)[i] == words(rest)[i - 1]);
            }
        }
    }
}

/// An attribute that was read from a line text is plain.
proof fn lemma_attribute_read(value: Seq<char>)
    requires
        is_line_text(value),
    ensures
        attribute_is_plain(attribute_of(value)),
{
    lemma_until(value, seq![':']);
    assert(seq![':'].contains(':')) by {
        assert(seq![':'][0] == ':');
    }
    let a = attribute_of(value);
    let n = until(value, seq![':']);
    assert forall|i: int| 0 <= i < a.key.len() implies #[trigger] a.key[i] != ':' by {
        assert(a.key[i] == value[i]);
        assert(!seq![':'].contains(value[i]));
    }
    if n < value.len() {
        assert(seq![':'].contains(value[n]));
        assert(value[n] == ':');
        assert(attribute_text(a) =~= value);
    }
}

/// Whether everything that lines have set can be told apart in a text.
spec fn lines_are_plain(state: SdpLines) -> bool {
    &&& state.version matches Some(version) ==> is_line_text(version)
    &&& state.origin matches Some(origin) ==> origin_is_plain(origin)
    &&& state.session_name matches Some(name) ==> is_line_text(name)
    &&& connection_is_plain(state.connection)
    &&& state.timing matches Some(timing) ==> is_word(timing.start) && is_word(timing.stop)
    &&& attributes_are_plain(state.attributes)
    &&& forall|i: int| 0 <= i < state.media.len() ==> media_is_plain(#[trigger] state.media[i])
}

proof fn lemma_push_attribute(list: Seq<AttributeView>, a: AttributeView)
    requires
        attributes_are_plain(list),
        attribute_is_plain(a),
    ensures
        attributes_are_plain(list.push(a)),
{
    assert forall|i: int| 0 <= i < list.push(a).len() implies attribute_is_plain(
        #[trigger] list.push(a)[i],
    ) by {
        if i < list.len() {
            assert(list.push(a)[i] == list[i]);
        }
    }
}

/// One more line sets nothing that could not be told apart.
proof fn lemma_add_line_plain(state: SdpLines, raw: Seq<char>)
    requires
        lines_are_plain(state),
        forall|i: int| 0 <= i < raw.len() ==> #[trigger] raw[i] != '\n',
    ensures
        add_line(state, raw) matches Ok(next) ==> lines_are_plain(next),
{
    let line = trimmed_end_of(raw, '\r');
    lemma_trimmed_end_of_shape(raw, '\r');
    if line.len() >= 2 && line[1] == '=' {
        let behind = line.skip(2);
        assert forall|i: int| 0 <= i < behind.len() implies #[trigger] behind[i] != '\n' by {
            assert(behind[i] == raw[i + 2]);
        }
        let value = trimmed(behind);
        let w = words(value);
        lemma_trimmed_is_line_text(behind);
        lemma_words_are_words(value);
        lemma_attribute_read(value);
        let attribute = attribute_of(value);
        lemma_push_attribute(state.attributes, attribute);
        if state.media.len() > 0 {
            let last = state.media.last();
            assert(media_is_plain(state.media[state.media.len() - 1]));
            lemma_push_attribute(last.attributes, attribute);
        }
        if w.len() >= 4 {
            let formats = w.skip(3);
            assert forall|i: int| 0 <= i < formats.len() implies is_word(#[trigger] formats[i]) by {
                assert(formats[i] == w[i + 3]);
            }
        }
        if let Ok(next) = add_line(state, raw) {
            assert forall|i: int| 0 <= i < next.media.len() implies media_is_plain(
                #[trigger] next.media[i],
            ) by {
                if i < state.media.len() - 1 {
                    assert(next.media[i] == state.media[i]);
                }
            }
        }
    }
}

proof fn lemma_trimmed_end_of_shape(s: Seq<char>, c: char)
    ensures
        trimmed_end_of(s, c).len() <= s.len(),
        trimmed_end_of(s, c) == s.take(trimmed_end_of(s, c).len() as int),
    decreases s.len(),
{
    if s.len() > 0 && s.last() == c {
        lemma_trimmed_end_of_shape(s.drop_last(), c);
        let n = trimmed_end_of(s, c).len() as int;
        assert(s.drop_last().take(n) =~= s.take(n));
    } else {
        assert(s.take(s.len() as int) =~= s);
    }
}

proof fn lemma_add_lines_plain(state: SdpLines, lines: Seq<Seq<char>>)
    requires
        lines_are_plain(state),
        no_line_feeds(lines),
    ensures
        add_lines(state, lines) matches Ok(next) ==> lines_are_plain(next),
    decreases lines.len(),
{
    if lines.len() > 0 {
        let first = lines[0];
        let rest = lines.drop_first();
        assert forall|i: int| 0 <= i < first.len() implies #[trigger] first[i] != '\n' by {
            assert(lines[0][i] != '\n');
        }
        assert forall|i: int, k: int|
            0 <= i < rest.len() && 0 <= k < rest[i].len() implies #[trigger] rest[i][k] != '\n' by {
            assert(lines[i + 1][k] != '\n');
        }
        lemma_add_line_plain(state, first);
        if let Ok(next) = add_line(state, first) {
            lemma_add_lines_plain(next, rest);
        }
    }
}

/// The fields of a description that was read from a text hold nothing that would be read as a
/// separator, whatever the text is.
pub proof fn law_read_session_is_plain(text: Seq<char>)
    ensures
        sdp_of(text) matches Ok(d) ==> session_is_plain(d),
{
    lemma_parts_without(text, '\n');
    lemma_add_lines_plain(no_lines(), parts(text, '\n'));
}

/// A description that was read from any text, formatted and read again is the same description.
pub proof fn law_sdp_reads_back(text: Seq<char>)
    ensures
        sdp_of(text) matches Ok(d) ==> sdp_of(joined_lines(session_lines(d))) == sdp_of(text),
{
    law_read_session_is_plain(text);
    if let Ok(d) = sdp_of(text) {
        law_sdp_round_trip(d);
    }
}

} // verus!
