//! What holds of scanned text, whatever the text is.
use vstd::prelude::*;

verus! {

use crate::text::{
    ascii_lower, decimal, decimal_value, digits_value, find_text, is_digit, is_white_space,
    lemma_decimal_round_trip, lemma_find_text, lemma_trimmed_start, lemma_until, lemma_word_len,
    lines_of, parts, prefixed_hex, same_ignoring_case, split_char, split_last, split_text,
    string_views, texts, trimmed, trimmed_end, trimmed_end_of, trimmed_start, until, with_crlf,
    word_len, words,
};

/// Whether a text is white space throughout.
pub open spec fn is_blank_text(s: Seq<char>) -> bool {
    forall|i: int| 0 <= i < s.len() ==> is_white_space(#[trigger] s[i])
}

/// White space is, by its code: tab to carriage return, the space, next line, the no-break space, the
/// Ogham space mark, the spaces from en quad to hair space, line and paragraph separator, the narrow
/// no-break space, the mathematical space and the ideographic space.
pub proof fn law_white_space(c: char)
    ensures
        is_white_space(c) <==> {
            let code = c as int;
            ||| 9 <= code <= 13
            ||| code == 32
            ||| code == 133
            ||| code == 160
            ||| code == 5760
            ||| 8192 <= code <= 8202
            ||| code == 8232
            ||| code == 8233
            ||| code == 8239
            ||| code == 8287
            ||| code == 12288
        },
{
}

/// Two texts are the same but for case exactly if they are equally long and each character is the
/// other one, or both are the same letter from A to Z, one of them small: 32 codes apart.
pub proof fn law_case_is_ignored(a: Seq<char>, b: Seq<char>)
    ensures
        same_ignoring_case(a, b) <==> {
            &&& a.len() == b.len()
            &&& forall|i: int|
                0 <= i < a.len() ==> {
                    ||| #[trigger] a[i] == b[i]
                    ||| 65 <= a[i] as int <= 90 && b[i] as int == a[i] as int + 32
                    ||| 65 <= b[i] as int <= 90 && a[i] as int == b[i] as int + 32
                }
        },
{
    if same_ignoring_case(a, b) {
        assert forall|i: int| 0 <= i < a.len() implies {
            ||| #[trigger] a[i] == b[i]
            ||| 65 <= a[i] as int <= 90 && b[i] as int == a[i] as int + 32
            ||| 65 <= b[i] as int <= 90 && a[i] as int == b[i] as int + 32
        } by {
            assert(ascii_lower(a[i]) == ascii_lower(b[i]));
        }
    }
}

/// A blank text in front of a text does not matter to trimming.
proof fn lemma_blank_front(blank: Seq<char>, s: Seq<char>)
    requires
        is_blank_text(blank),
    ensures
        trimmed_start(blank + s) == trimmed_start(s),
    decreases blank.len(),
{
    if blank.len() == 0 {
        assert(blank + s =~= s);
    } else {
        let rest = blank.drop_first();
        assert forall|i: int| 0 <= i < rest.len() implies is_white_space(#[trigger] rest[i]) by {
            assert(rest[i] == blank[i + 1]);
        }
        lemma_blank_front(rest, s);
        assert((blank + s).drop_first() =~= rest + s);
        assert(is_white_space(blank[0]));
    }
}

/// A blank text behind a text does not matter to trimming.
proof fn lemma_blank_back(s: Seq<char>, blank: Seq<char>)
    requires
        is_blank_text(blank),
    ensures
        trimmed_end(s + blank) == trimmed_end(s),
    decreases blank.len(),
{
    if blank.len() == 0 {
        assert(s + blank =~= s);
    } else {
        let rest = blank.drop_last();
        assert forall|i: int| 0 <= i < rest.len() implies is_white_space(#[trigger] rest[i]) by {
            assert(rest[i] == blank[i]);
        }
        lemma_blank_back(s, rest);
        assert((s + blank).drop_last() =~= s + rest);
        assert(is_white_space(blank[blank.len() - 1]));
    }
}

/// Trimming takes off the white space at both ends and nothing else.
pub proof fn law_trimming(lead: Seq<char>, s: Seq<char>, trail: Seq<char>)
    requires
        is_blank_text(lead),
        is_blank_text(trail),
        s.len() > 0 ==> !is_white_space(s[0]) && !is_white_space(s.last()),
    ensures
        trimmed(lead + s + trail) == s,
        trimmed_start(lead + s + trail) == (if s.len() > 0 {
            s + trail
        } else {
            Seq::empty()
        }),
{
    assert(lead + s + trail =~= lead + (s + trail));
    lemma_blank_front(lead, s + trail);
    if s.len() == 0 {
        assert(s + trail =~= trail);
        lemma_blank_front(trail, Seq::empty());
        assert(trail + Seq::<char>::empty() =~= trail);
        assert(s =~= Seq::<char>::empty());
    } else {
        assert((s + trail)[0] == s[0]);
        lemma_blank_back(s, trail);
    }
}

/// A text without a word has no words, a text that is one word has that word, and white space between
/// two texts separates their words.
pub proof fn law_words(a: Seq<char>, blank: Seq<char>, b: Seq<char>)
    requires
        is_blank_text(blank),
    ensures
        words(blank) == Seq::<Seq<char>>::empty(),
        a.len() > 0 && (forall|i: int| 0 <= i < a.len() ==> !is_white_space(#[trigger] a[i]))
            ==> words(a) == seq![a],
        blank.len() > 0 ==> words(a + blank + b) == words(a) + words(b),
    decreases a.len(),
{
    lemma_blank_front(blank, Seq::empty());
    assert(blank + Seq::<char>::empty() =~= blank);
    assert(words(blank) =~= Seq::<Seq<char>>::empty());
    lemma_trimmed_start(a);
    let t = trimmed_start(a);
    lemma_word_len(t);
    let n = word_len(t);
    if a.len() > 0 && (forall|i: int| 0 <= i < a.len() ==> !is_white_space(#[trigger] a[i])) {
        assert(!is_white_space(a[0]));
        assert(t == a);
        if n < t.len() {
            assert(!is_white_space(a[n]));
        }
        assert(a.take(n) =~= a);
        assert(a.skip(n) =~= Seq::<char>::empty());
        assert(words(Seq::<char>::empty()) =~= Seq::<Seq<char>>::empty());
        assert(words(a) =~= seq![a]);
    }
    if blank.len() > 0 {
        let whole = a + blank + b;
        let lead = a.take(a.len() - t.len());
        assert(a =~= lead + t);
        lemma_lead_is_blank(a);
        assert(whole =~= lead + (t + blank + b));
        lemma_blank_front(lead, t + blank + b);
        if t.len() == 0 {
            assert(t + blank + b =~= blank + b);
            lemma_blank_front(blank, b);
            assert(words(a) =~= Seq::<Seq<char>>::empty());
            assert(words(a) + words(b) =~= words(b));
            assert(words(whole) == words(b));
        } else {
            let u = t + blank + b;
            assert(u[0] == t[0]);
            assert(trimmed_start(u) == u);
            let rest = t.skip(n);
            assert(u =~= t.take(n) + (rest + blank + b));
            assert(rest.len() + blank.len() > 0);
            assert((rest + blank + b)[0] == (if rest.len() > 0 {
                rest[0]
            } else {
                blank[0]
            }));
            assert(is_white_space((rest + blank + b)[0])) by {
                if rest.len() > 0 {
                    assert(rest[0] == t[n]);
                } else {
                    assert(is_white_space(blank[0]));
                }
            }
            crate::sdp::round_trip::lemma_word_prefix(t.take(n), rest + blank + b);
            assert(word_len(u) == n);
            assert(u.skip(n) =~= rest + blank + b);
            assert(u.take(n) =~= t.take(n));
            assert(n > 0);
            law_words(rest, blank, b);
            assert(words(whole) =~= seq![t.take(n)] + (words(rest) + words(b)));
            assert(words(whole) =~= words(a) + words(b));
        }
    }
}

/// What trimming takes off the front is blank.
proof fn lemma_lead_is_blank(s: Seq<char>)
    ensures
        trimmed_start(s).len() <= s.len(),
        is_blank_text(s.take(s.len() - trimmed_start(s).len())),
        s == s.take(s.len() - trimmed_start(s).len()) + trimmed_start(s),
    decreases s.len(),
{
    let t = trimmed_start(s);
    if s.len() > 0 && is_white_space(s[0]) {
        let rest = s.drop_first();
        lemma_lead_is_blank(rest);
        let lead = s.take(s.len() - t.len());
        let shorter = rest.take(rest.len() - t.len());
        assert forall|i: int| 0 <= i < lead.len() implies is_white_space(#[trigger] lead[i]) by {
            if i > 0 {
                assert(lead[i] == shorter[i - 1]);
            }
        }
        assert(rest == shorter + t);
        assert(lead =~= seq![s[0]] + shorter);
        assert(s =~= seq![s[0]] + rest);
        assert(s =~= lead + t);
    } else {
        assert(s =~= s.take(0) + t);
    }
}

/// A character splits a text at its first occurrence, and at its last one.
pub proof fn law_splitting(head: Seq<char>, c: char, tail: Seq<char>)
    ensures
        !head.contains(c) ==> split_char(head + seq![c] + tail, c) == Some((head, tail)),
        !tail.contains(c) ==> split_last(head + seq![c] + tail, c) == Some((head, tail)),
        !head.contains(c) ==> split_char(head, c) is None && split_last(head, c) is None,
{
    let s = head + seq![c] + tail;
    let n = head.len() as int;
    assert(seq![c].contains(c)) by {
        assert(seq![c][0] == c);
    }
    if !head.contains(c) {
        lemma_until(s, seq![c]);
        lemma_until(head, seq![c]);
        let m = until(s, seq![c]);
        assert forall|i: int| 0 <= i < n implies #[trigger] s[i] != c by {
            assert(head[i] == s[i]);
            assert(head.contains(head[i]));
        }
        if m < n {
            assert(seq![c].contains(s[m]));
        } else if m > n {
            assert(!seq![c].contains(s[n]));
        }
        assert(s.take(n) =~= head);
        assert(s.skip(n + 1) =~= tail);
        let k = until(head, seq![c]);
        if k < n {
            assert(seq![c].contains(head[k]));
            assert(head.contains(head[k]));
        }
        assert forall|i: int| 0 <= i < head.len() implies #[trigger] head[i] != c by {
            assert(head.contains(head[i]));
        }
        crate::text::lemma_through_last(head, c, 0);
    }
    if !tail.contains(c) {
        assert forall|i: int| n + 1 <= i < s.len() implies #[trigger] s[i] != c by {
            assert(s[i] == tail[i - n - 1]);
            assert(tail.contains(tail[i - n - 1]));
        }
        crate::text::lemma_through_last(s, c, n + 1);
        assert(s.take(n) =~= head);
        assert(s.skip(n + 1) =~= tail);
    }
}

proof fn lemma_first_piece(head: Seq<char>, c: char, rest: Seq<char>)
    requires
        !head.contains(c),
    ensures
        parts(head, c) == seq![head],
        parts(head + seq![c] + rest, c) == seq![head] + parts(rest, c),
{
    law_splitting(head, c, rest);
}

/// Each occurrence of a character separates pieces, and pieces hold no other: a text without the
/// character is one piece, and the pieces of two texts around the character are those of the first
/// and those of the second.
pub proof fn law_pieces(a: Seq<char>, c: char, b: Seq<char>)
    ensures
        !a.contains(c) ==> parts(a, c) == seq![a],
        parts(a + seq![c] + b, c) == parts(a, c) + parts(b, c),
    decreases a.len(),
{
    if !a.contains(c) {
        lemma_first_piece(a, c, b);
    } else {
        let at = choose|i: int| 0 <= i < a.len() && a[i] == c;
        let n = lemma_first_place(a, c, at);
        let head = a.take(n);
        let rest = a.skip(n + 1);
        assert(a =~= head + seq![c] + rest);
        assert(a + seq![c] + b =~= head + seq![c] + (rest + seq![c] + b));
        lemma_first_piece(head, c, rest);
        lemma_first_piece(head, c, rest + seq![c] + b);
        law_pieces(rest, c, b);
        assert(seq![head] + (parts(rest, c) + parts(b, c)) =~= (seq![head] + parts(rest, c)) + parts(
            b,
            c,
        ));
    }
}

proof fn lemma_first_place(s: Seq<char>, c: char, at: int) -> (n: int)
    requires
        0 <= at < s.len(),
        s[at] == c,
    ensures
        0 <= n < s.len(),
        s[n] == c,
        !s.take(n).contains(c),
    decreases at,
{
    if s.take(at).contains(c) {
        let i = choose|i: int| 0 <= i < at && s.take(at)[i] == c;
        lemma_first_place(s, c, i)
    } else {
        at
    }
}

/// A pattern is found where it first occurs, and not found where it does not occur.
pub proof fn law_first_occurrence(s: Seq<char>, pattern: Seq<char>, at: int)
    requires
        0 <= at,
        at + pattern.len() <= s.len(),
        s.subrange(at, at + pattern.len()) == pattern,
    ensures
        0 <= find_text(s, pattern) <= at,
        split_text(s, pattern) matches Some((head, tail)) && s == head + pattern + tail
            && head.len() == find_text(s, pattern),
    decreases s.len(),
{
    lemma_find_text(s, pattern);
    if at == 0 {
        assert(pattern.is_prefix_of(s)) by {
            assert(s.subrange(0, pattern.len() as int) =~= pattern);
            assert(s.take(pattern.len() as int) =~= pattern);
        }
    } else if !pattern.is_prefix_of(s) {
        let rest = s.drop_first();
        assert(rest.subrange(at - 1, at - 1 + pattern.len()) =~= s.subrange(
            at,
            at + pattern.len(),
        ));
        law_first_occurrence(rest, pattern, at - 1);
    }
    let k = find_text(s, pattern);
    assert(s =~= s.take(k) + s.subrange(k, k + pattern.len()) + s.skip(k + pattern.len()));
}

/// The digits of a number count from the left: one more digit makes ten times as much and the digit,
/// a zero in front changes nothing, nor does a plus sign.
pub proof fn law_digits(s: Seq<char>, d: int, max: int)
    requires
        0 <= d <= 9,
        s.len() > 0,
        forall|i: int| 0 <= i < s.len() ==> 48 <= (#[trigger] s[i]) as int <= 57,
        s.len() == 1 ==> s[0] as int == 48 + d,
        max >= 0,
    ensures
        s.len() == 1 && d <= max ==> decimal_value(s, max) == Some(d),
        decimal_value(s.push((48 + d) as char), max) == (match decimal_value(s, max) {
            Some(n) => if 10 * n + d <= max {
                Some(10 * n + d)
            } else {
                None
            },
            None => None,
        }),
        decimal_value(seq!['+'] + s, max) == decimal_value(s, max),
        decimal_value(seq!['0'] + s, max) == decimal_value(s, max),
{
    reveal_with_fuel(digits_value, 2);
    assert(forall|i: int| 0 <= i < s.len() ==> is_digit(#[trigger] s[i]));
    let more = s.push((48 + d) as char);
    assert(more.drop_last() =~= s);
    assert forall|i: int| 0 <= i < more.len() implies is_digit(#[trigger] more[i]) by {
        if i < s.len() {
            assert(more[i] == s[i]);
        }
    }
    assert(more[0] == s[0]);
    assert(is_digit(s[0]));
    lemma_value_not_negative(s);
    assert((seq!['+'] + s).drop_first() =~= s);
    let zero = seq!['0'] + s;
    assert forall|i: int| 0 <= i < zero.len() implies is_digit(#[trigger] zero[i]) by {
        if i > 0 {
            assert(zero[i] == s[i - 1]);
        }
    }
    lemma_leading_zero(s);
    if s.len() == 1 {
        assert(s.drop_last() =~= Seq::<char>::empty());
    }
}

proof fn lemma_value_not_negative(s: Seq<char>)
    requires
        forall|i: int| 0 <= i < s.len() ==> is_digit(#[trigger] s[i]),
    ensures
        digits_value(s) >= 0,
    decreases s.len(),
{
    if s.len() > 0 {
        assert(is_digit(s[s.len() - 1]));
        let init = s.drop_last();
        assert forall|i: int| 0 <= i < init.len() implies is_digit(#[trigger] init[i]) by {
            assert(init[i] == s[i]);
        }
        lemma_value_not_negative(init);
    }
}

proof fn lemma_leading_zero(s: Seq<char>)
    ensures
        digits_value(seq!['0'] + s) == digits_value(s),
    decreases s.len(),
{
    let zero = seq!['0'] + s;
    if s.len() == 0 {
        assert(zero.drop_last() =~= Seq::<char>::empty());
        reveal_with_fuel(digits_value, 2);
    } else {
        lemma_leading_zero(s.drop_last());
        assert(zero.drop_last() =~= seq!['0'] + s.drop_last());
    }
}

/// A text is no number if it is empty, or if any of its characters is not a digit, but for a plus sign
/// in front.
pub proof fn law_no_number(s: Seq<char>, i: int, max: int)
    requires
        s.len() > 0 ==> 0 <= i < s.len() && !(48 <= s[i] as int <= 57) && (i == 0 ==> s[0] != '+' || s.len()
            == 1),
    ensures
        decimal_value(s, max) is None,
{
    if s.len() > 0 && s[0] == '+' {
        let rest = s.drop_first();
        if i > 0 {
            assert(rest[i - 1] == s[i]);
            assert(!is_digit(rest[i - 1]));
        }
    } else if s.len() > 0 {
        assert(!is_digit(s[i]));
    }
}

/// The decimal form of a number consists of digits, begins with no zero but for the number zero, and
/// its last digit is the remainder by ten, its front the form of the quotient.
pub proof fn law_decimal_form(n: int)
    requires
        0 <= n,
    ensures
        decimal(n).last() as int == 48 + n % 10,
        n < 10 ==> decimal(n).len() == 1,
        n >= 10 ==> decimal(n).drop_last() == decimal(n / 10),
        decimal_value(decimal(n), n) == Some(n),
        n > 0 ==> decimal(n)[0] != '0',
    decreases n,
{
    lemma_decimal_round_trip(n);
    if n >= 10 {
        law_decimal_form(n / 10);
        assert(decimal(n).drop_last() =~= decimal(n / 10));
        assert(decimal(n)[0] == decimal(n / 10)[0]);
    }
}

/// A line ends at its line feed, and a carriage return in front of that belongs to the line end; what
/// follows are the other lines. A text without a line feed is one line, unless it is empty.
pub proof fn law_lines(line: Seq<char>, rest: Seq<char>)
    requires
        !line.contains('\n'),
    ensures
        line.len() > 0 ==> lines_of(line) == seq![line],
        lines_of(Seq::empty()) == Seq::<Seq<char>>::empty(),
        lines_of(line + seq!['\r', '\n'] + rest) == seq![line] + lines_of(rest),
        line.len() == 0 || line.last() != '\r' ==> lines_of(line + seq!['\n'] + rest) == seq![line]
            + lines_of(rest),
{
    law_splitting(line, '\n', rest);
    let with_return = line.push('\r');
    if with_return.contains('\n') {
        let i = choose|i: int| 0 <= i < with_return.len() && with_return[i] == '\n';
        if i < line.len() {
            assert(line.contains(line[i]));
        }
    }
    law_splitting(with_return, '\n', rest);
    assert(line + seq!['\r', '\n'] + rest =~= with_return + seq!['\n'] + rest);
    assert(with_return.drop_last() =~= line);
    assert((line + seq!['\n'] + rest).len() > 0);
}

/// Line feeds get a carriage return each, and nothing else changes.
pub proof fn law_line_feeds(a: Seq<char>, b: Seq<char>)
    ensures
        !a.contains('\n') ==> with_crlf(a) == a,
        with_crlf(a + seq!['\n'] + b) == with_crlf(a) + seq!['\r', '\n'] + with_crlf(b),
    decreases b.len(), a.len(),
{
    if !a.contains('\n') && a.len() > 0 {
        assert(a.contains(a[a.len() - 1]));
        let init = a.drop_last();
        if init.contains('\n') {
            let i = choose|i: int| 0 <= i < init.len() && init[i] == '\n';
            assert(a[i] == '\n');
        }
        lemma_no_line_feed(init);
        assert(with_crlf(a) =~= a);
    } else if !a.contains('\n') {
        assert(with_crlf(a) =~= a);
    }
    let s = a + seq!['\n'] + b;
    if b.len() == 0 {
        assert(s.drop_last() =~= a);
        assert(with_crlf(s) =~= with_crlf(a) + seq!['\r', '\n'] + with_crlf(b));
    } else {
        law_line_feeds(a, b.drop_last());
        assert(s.drop_last() =~= a + seq!['\n'] + b.drop_last());
        assert(with_crlf(s) =~= with_crlf(a) + seq!['\r', '\n'] + with_crlf(b));
    }
}

proof fn lemma_no_line_feed(a: Seq<char>)
    requires
        !a.contains('\n'),
    ensures
        with_crlf(a) == a,
    decreases a.len(),
{
    if a.len() > 0 {
        assert(a.contains(a[a.len() - 1]));
        let init = a.drop_last();
        if init.contains('\n') {
            let i = choose|i: int| 0 <= i < init.len() && init[i] == '\n';
            assert(a[i] == '\n');
        }
        lemma_no_line_feed(init);
        assert(with_crlf(a) =~= a);
    } else {
        assert(with_crlf(a) =~= a);
    }
}

/// A text ends, but for white space, where it does without its last white space.
proof fn lemma_trail_is_blank(s: Seq<char>)
    ensures
        trimmed_end(s).len() <= s.len(),
        is_blank_text(s.skip(trimmed_end(s).len() as int)),
        s == trimmed_end(s) + s.skip(trimmed_end(s).len() as int),
        trimmed_end(s).len() > 0 ==> !is_white_space(trimmed_end(s).last()),
    decreases s.len(),
{
    let e = trimmed_end(s);
    let n = e.len() as int;
    if s.len() > 0 && is_white_space(s.last()) {
        let rest = s.drop_last();
        lemma_trail_is_blank(rest);
        assert forall|i: int| 0 <= i < s.skip(n).len() implies is_white_space(
            #[trigger] s.skip(n)[i],
        ) by {
            if i + n < rest.len() {
                assert(rest.skip(n)[i] == s.skip(n)[i]);
            }
        }
        assert forall|i: int| 0 <= i < n implies e[i] == s[i] by {
            assert((e + rest.skip(n))[i] == rest[i]);
        }
        assert(s =~= e + s.skip(n));
    } else {
        assert(s =~= e + s.skip(n));
    }
}

proof fn lemma_blank_concat(a: Seq<char>, b: Seq<char>)
    requires
        is_blank_text(a),
        is_blank_text(b),
    ensures
        is_blank_text(a + b),
{
    assert forall|i: int| 0 <= i < (a + b).len() implies is_white_space(#[trigger] (a + b)[i]) by {
        if i < a.len() {
            assert(is_white_space(a[i]));
        } else {
            assert(is_white_space(b[i - a.len()]));
        }
    }
}

/// White space that is put around a text is trimmed off with the rest.
pub proof fn law_trimming_ignores_blanks(lead: Seq<char>, s: Seq<char>, trail: Seq<char>)
    requires
        is_blank_text(lead),
        is_blank_text(trail),
    ensures
        trimmed(lead + s + trail) == trimmed(s),
{
    lemma_lead_is_blank(s);
    let t = trimmed_start(s);
    let a = s.take(s.len() - t.len());
    lemma_trail_is_blank(t);
    let e = trimmed_end(t);
    let b = t.skip(e.len() as int);
    lemma_trimmed_start(s);
    assert(e.len() > 0 ==> e[0] == t[0]);
    lemma_blank_concat(lead, a);
    lemma_blank_concat(b, trail);
    assert(s == a + (e + b));
    assert(lead + s + trail =~= (lead + a) + e + (b + trail));
    law_trimming(lead + a, e, b + trail);
}

/// A number in hexadecimal has a prefix, one digit below sixteen and else two, and small letters.
pub proof fn law_hexadecimal_form(n: u8)
    ensures
        prefixed_hex(n)[0] == '0' && prefixed_hex(n)[1] == 'x',
        n < 16 ==> prefixed_hex(n).len() == 3,
        n >= 16 ==> prefixed_hex(n).len() == 4,
        ({
            let low = prefixed_hex(n).last() as int;
            let d = n as int % 16;
            &&& d < 10 ==> low == 48 + d
            &&& d >= 10 ==> low == 87 + d
        }),
        n >= 16 ==> ({
            let high = prefixed_hex(n)[2] as int;
            let d = n as int / 16;
            &&& d < 10 ==> high == 48 + d
            &&& d >= 10 ==> high == 87 + d
        }),
{
}

/// The contents of a list of texts are those of each, one for one and in order.
pub proof fn law_lists_are_seen(list: Seq<&str>, strings: Seq<String>)
    ensures
        texts(list).len() == list.len(),
        forall|i: int| 0 <= i < list.len() ==> #[trigger] texts(list)[i] == list[i]@,
        string_views(strings).len() == strings.len(),
        forall|i: int| 0 <= i < strings.len() ==> #[trigger] string_views(strings)[i] == strings[i]@,
{
}

/// Carriage returns at the end are taken off, all of them, and nothing else is.
pub proof fn law_ends_are_taken_off(s: Seq<char>, c: char)
    ensures
        trimmed_end_of(Seq::empty(), c) == Seq::<char>::empty(),
        trimmed_end_of(s.push(c), c) == trimmed_end_of(s, c),
        s.len() > 0 && s.last() != c ==> trimmed_end_of(s, c) == s,
{
    assert(s.push(c).drop_last() =~= s);
}

/// The first stop is the first character that is one; without one all of the text stands in front.
pub proof fn law_first_stop(s: Seq<char>, stops: Seq<char>, k: int)
    ensures
        0 <= k < s.len() && stops.contains(s[k]) && (forall|i: int|
            0 <= i < k ==> !stops.contains(#[trigger] s[i])) ==> until(s, stops) == k,
        (forall|i: int| 0 <= i < s.len() ==> !stops.contains(#[trigger] s[i])) ==> until(s, stops)
            == s.len(),
{
    lemma_until(s, stops);
    let m = until(s, stops);
    if 0 <= k < s.len() && stops.contains(s[k]) && (forall|i: int|
        0 <= i < k ==> !stops.contains(#[trigger] s[i])) {
        if m < k {
            assert(!stops.contains(s[m]));
        } else if m > k {
            assert(!stops.contains(s[k]));
        }
    }
}

} // verus!
