//! Scripts that put the codecs through extreme inputs.
pub mod cases;
pub mod coordinator;
pub mod laws;
pub mod support;

use crate::text::{
    after_first, eq_ignore_ascii_case, first_char, parse_usize, split_all, split_once,
    split_whitespace, trim,
};
use vstd::prelude::*;
use vstd::string::*;

verus! {

use crate::text::{decimal_value, parts, same_ignoring_case, split_char, texts, trimmed, words};

/// The protocols that a script can be about.
#[derive(Debug, Clone, Copy, PartialEq, Eq, Structural)]
pub enum Protocol {
    /// Lines of text.
    Line,
    /// Media packets.
    Rtp,
    /// Signalling messages.
    Sip,
    /// Session descriptions.
    Sdp,
}

/// The protocol that a tag names, in any case.
pub open spec fn protocol_of(tag: Seq<char>) -> Option<Protocol> {
    if same_ignoring_case(trimmed(tag), "LINE"@) {
        Some(Protocol::Line)
    } else if same_ignoring_case(trimmed(tag), "RTP"@) {
        Some(Protocol::Rtp)
    } else if same_ignoring_case(trimmed(tag), "SIP"@) {
        Some(Protocol::Sip)
    } else if same_ignoring_case(trimmed(tag), "SDP"@) {
        Some(Protocol::Sdp)
    } else {
        None
    }
}

impl Protocol {
    /// The protocol that a tag names, in any case.
    pub fn from_tag(tag: &str) -> (r: Option<Self>)
        ensures
            r == protocol_of(tag@),
    {
        let name = trim(tag);
        if eq_ignore_ascii_case(name, "LINE") {
            Some(Protocol::Line)
        } else if eq_ignore_ascii_case(name, "RTP") {
            Some(Protocol::Rtp)
        } else if eq_ignore_ascii_case(name, "SIP") {
            Some(Protocol::Sip)
        } else if eq_ignore_ascii_case(name, "SDP") {
            Some(Protocol::Sdp)
        } else {
            None
        }
    }
}

/// Whether a word begins a comment.
pub open spec fn starts_comment(word: Seq<char>) -> bool {
    word.len() > 0 && word[0] == '#'
}

/// The words in front of the first comment, from `at` on.
pub open spec fn before_comment(list: Seq<Seq<char>>, at: int) -> Seq<Seq<char>>
    decreases list.len() - at,
{
    if at >= list.len() || starts_comment(list[at]) {
        Seq::empty()
    } else {
        seq![list[at]] + before_comment(list, at + 1)
    }
}

/// The protocol and the options in the first line of a script.
pub open spec fn header_of(line: Seq<char>) -> Option<(Protocol, Seq<Seq<char>>)> {
    let list = words(line);
    if list.len() == 0 {
        None
    } else {
        match protocol_of(list[0]) {
            Some(protocol) => Some((protocol, before_comment(list, 1))),
            None => None,
        }
    }
}

/// The value that options give to a name, in any case. The last one counts.
pub open spec fn option_of(options: Seq<Seq<char>>, name: Seq<char>) -> Option<Seq<char>>
    decreases options.len(),
{
    if options.len() == 0 {
        None
    } else {
        match split_char(options.last(), '=') {
            Some((key, value)) => if same_ignoring_case(trimmed(key), name) {
                Some(trimmed(value))
            } else {
                option_of(options.drop_last(), name)
            },
            None => option_of(options.drop_last(), name),
        }
    }
}

/// The length that options give to a name.
pub open spec fn limit_of(options: Seq<Seq<char>>, name: Seq<char>) -> Option<usize> {
    match option_of(options, name) {
        Some(value) => match decimal_value(value, usize::MAX as int) {
            Some(n) => Some(n as usize),
            None => None,
        },
        None => None,
    }
}

/// Whether the text begins a comment.
fn is_comment_start(word: &str) -> (r: bool)
    ensures
        r == starts_comment(word@),
{
    match first_char(word) {
        Some(c) => c == '#',
        None => false,
    }
}

/// Reads the first line of a script.
pub fn parse_header<'a>(line: &'a str) -> (r: Option<(Protocol, Vec<&'a str>)>)
    ensures
        match r {
            Some((protocol, options)) => header_of(line@) == Some((protocol, texts(options@))),
            None => header_of(line@) is None,
        },
{
    let list = split_whitespace(line);
    let ghost all = texts(list@);
    if list.len() == 0 {
        return None;
    }
    assert(all[0] == list@[0]@);
    let protocol = match Protocol::from_tag(list[0]) {
        Some(protocol) => protocol,
        None => {
            return None;
        },
    };
    let mut options: Vec<&'a str> = Vec::new();
    let mut i: usize = 1;
    assert(texts(options@) + before_comment(all, 1) =~= before_comment(all, 1));
    while i < list.len()
        invariant
            1 <= i <= list@.len(),
            all == texts(list@),
            all == words(line@),
            protocol_of(all[0]) == Some(protocol),
            before_comment(all, 1) == texts(options@) + before_comment(all, i as int),
        decreases list@.len() - i,
    {
        let ghost so_far = texts(options@);
        assert(all[i as int] == list@[i as int]@);
        if is_comment_start(list[i]) {
            assert(so_far + before_comment(all, i as int) =~= so_far);
            return Some((protocol, options));
        }
        options.push(list[i]);
        proof {
            assert(texts(options@) =~= so_far.push(all[i as int]));
            assert(so_far + (seq![all[i as int]] + before_comment(all, i + 1)) =~= texts(options@)
                + before_comment(all, i + 1));
        }
        i += 1;
    }
    assert(texts(options@) + before_comment(all, i as int) =~= texts(options@));
    Some((protocol, options))
}

/// Looks an option up.
pub fn find_option<'a>(options: &[&'a str], name: &str) -> (r: Option<&'a str>)
    ensures
        match r {
            Some(value) => option_of(texts(options@), name@) == Some(value@),
            None => option_of(texts(options@), name@) is None,
        },
{
    let ghost all = texts(options@);
    let mut n: usize = options.len();
    assert(all.take(n as int) =~= all);
    while n > 0
        invariant
            n <= options@.len(),
            all == texts(options@),
            option_of(all, name@) == option_of(all.take(n as int), name@),
        decreases n,
    {
        let word = options[n - 1];
        proof {
            assert(all.take(n as int).last() == word@);
            assert(all.take(n as int).drop_last() =~= all.take(n - 1));
        }
        match split_once(word, '=') {
            Some((key, value)) => {
                if eq_ignore_ascii_case(trim(key), name) {
                    return Some(trim(value));
                }
            },
            None => {},
        }
        n -= 1;
    }
    None
}

/// Looks a length up in the options.
pub fn find_limit(options: &[&str], name: &str) -> (r: Option<usize>)
    ensures
        r == limit_of(texts(options@), name@),
{
    match find_option(options, name) {
        Some(value) => parse_usize(value),
        None => None,
    }
}

/// The numbers in a list that is separated by commas. What is not a number is left out.
pub open spec fn numbers_in(pieces: Seq<Seq<char>>) -> Seq<usize>
    decreases pieces.len(),
{
    if pieces.len() == 0 {
        Seq::empty()
    } else {
        match decimal_value(trimmed(pieces.last()), usize::MAX as int) {
            Some(n) => numbers_in(pieces.drop_last()).push(n as usize),
            None => numbers_in(pieces.drop_last()),
        }
    }
}

/// Reads a list of numbers that is separated by commas.
pub fn parse_usize_list(text: &str) -> (r: Vec<usize>)
    ensures
        r@ == numbers_in(parts(text@, ',')),
{
    let pieces = split_all(text, ',');
    let ghost all = texts(pieces@);
    let mut out: Vec<usize> = Vec::new();
    let mut i: usize = 0;
    while i < pieces.len()
        invariant
            i <= pieces@.len(),
            all == texts(pieces@),
            out@ == numbers_in(all.take(i as int)),
        decreases pieces@.len() - i,
    {
        proof {
            assert(all.take(i + 1).drop_last() =~= all.take(i as int));
            assert(all.take(i + 1).last() == pieces@[i as int]@);
        }
        match parse_usize(trim(pieces[i])) {
            Some(n) => {
                out.push(n);
            },
            None => {},
        }
        i += 1;
    }
    assert(all.take(i as int) =~= all);
    out
}

/// The value of a hexadecimal digit.
pub open spec fn hex_value(c: char) -> Option<int> {
    if '0' <= c <= '9' {
        Some(c as int - '0' as int)
    } else if 'a' <= c <= 'f' {
        Some(c as int - 'a' as int + 10)
    } else if 'A' <= c <= 'F' {
        Some(c as int - 'A' as int + 10)
    } else {
        None
    }
}

/// Reads a hexadecimal digit.
pub fn hex_digit(c: char) -> (r: Option<u8>)
    ensures
        match r {
            Some(d) => hex_value(c) == Some(d as int) && d < 16,
            None => hex_value(c) is None,
        },
{
    if '0' <= c && c <= '9' {
        Some((c as u32 - '0' as u32) as u8)
    } else if 'a' <= c && c <= 'f' {
        Some((c as u32 - 'a' as u32 + 10) as u8)
    } else if 'A' <= c && c <= 'F' {
        Some((c as u32 - 'A' as u32 + 10) as u8)
    } else {
        None
    }
}

/// What a text with escapes stands for. A backslash goes with `n`, `r`, `t`, a backslash, or `x` and
/// two hexadecimal digits; any other character behind it stands for itself. What is not complete is
/// left out.
pub open spec fn unescaped(s: Seq<char>) -> Seq<char>
    decreases s.len(),
{
    if s.len() == 0 {
        Seq::empty()
    } else if s[0] != '\\' {
        seq![s[0]] + unescaped(s.skip(1))
    } else if s.len() == 1 {
        Seq::empty()
    } else if s[1] == 'n' {
        seq!['\n'] + unescaped(s.skip(2))
    } else if s[1] == 'r' {
        seq!['\r'] + unescaped(s.skip(2))
    } else if s[1] == 't' {
        seq!['\t'] + unescaped(s.skip(2))
    } else if s[1] != 'x' {
        seq![s[1]] + unescaped(s.skip(2))
    } else if s.len() < 4 {
        Seq::empty()
    } else {
        match (hex_value(s[2]), hex_value(s[3])) {
            (Some(high), Some(low)) => seq![(16 * high + low) as char] + unescaped(s.skip(4)),
            _ => unescaped(s.skip(4)),
        }
    }
}

/// The bytes that hexadecimal digits denote, two for each. A digit that is left over is left out.
pub open spec fn hex_pairs(digits: Seq<int>) -> Seq<u8>
    decreases digits.len(),
{
    if digits.len() < 2 {
        Seq::empty()
    } else {
        seq![(16 * digits[0] + digits[1]) as u8] + hex_pairs(digits.skip(2))
    }
}

/// The values of the hexadecimal digits in a text. Other characters are left out.
pub open spec fn hex_digits(s: Seq<char>) -> Seq<int>
    decreases s.len(),
{
    if s.len() == 0 {
        Seq::empty()
    } else {
        match hex_value(s.last()) {
            Some(d) => hex_digits(s.drop_last()).push(d),
            None => hex_digits(s.drop_last()),
        }
    }
}

/// The bytes that a text in hexadecimal denotes.
pub open spec fn hex_bytes(s: Seq<char>) -> Seq<u8> {
    hex_pairs(hex_digits(s))
}

/// One more piece of what a text with escapes stands for, and what is left of it.
pub open spec fn next_unescaped(s: Seq<char>) -> (Seq<char>, Seq<char>) {
    if s[0] != '\\' {
        (seq![s[0]], s.skip(1))
    } else if s.len() == 1 {
        (Seq::empty(), Seq::empty())
    } else if s[1] == 'n' {
        (seq!['\n'], s.skip(2))
    } else if s[1] == 'r' {
        (seq!['\r'], s.skip(2))
    } else if s[1] == 't' {
        (seq!['\t'], s.skip(2))
    } else if s[1] != 'x' {
        (seq![s[1]], s.skip(2))
    } else if s.len() < 4 {
        (Seq::empty(), Seq::empty())
    } else {
        match (hex_value(s[2]), hex_value(s[3])) {
            (Some(high), Some(low)) => (seq![(16 * high + low) as char], s.skip(4)),
            _ => (Seq::empty(), s.skip(4)),
        }
    }
}

/// Taking a text with escapes piece by piece gives all of it.
proof fn lemma_next_unescaped(s: Seq<char>)
    requires
        s.len() > 0,
    ensures
        next_unescaped(s).1.len() < s.len(),
        unescaped(s) == next_unescaped(s).0 + unescaped(next_unescaped(s).1),
{
    assert(unescaped(s) =~= next_unescaped(s).0 + unescaped(next_unescaped(s).1));
}

/// Takes one piece off a text that begins with a backslash.
fn take_escape<'a>(s: &'a str, out: &mut String) -> (r: &'a str)
    requires
        s@.len() > 0,
        s@[0] == '\\',
    ensures
        r@ == next_unescaped(s@).1,
        final(out)@ == old(out)@ + next_unescaped(s@).0,
{
    let ghost before = out@;
    let tail = after_first(s);
    let kind: char = match first_char(tail) {
        Some(kind) => kind,
        None => {
            assert(tail@ =~= Seq::<char>::empty());
            assert(out@ =~= before + next_unescaped(s@).0);
            return tail;
        },
    };
    let rest = after_first(tail);
    assert(rest@ =~= s@.skip(2));
    if kind != 'x' {
        let meant: char = if kind == 'n' {
            '\n'
        } else if kind == 'r' {
            '\r'
        } else if kind == 't' {
            '\t'
        } else {
            kind
        };
        out.push(meant);
        assert(out@ =~= before + next_unescaped(s@).0);
        return rest;
    }
    let high: char = match first_char(rest) {
        Some(high) => high,
        None => {
            assert(rest@ =~= Seq::<char>::empty());
            assert(out@ =~= before + next_unescaped(s@).0);
            return rest;
        },
    };
    let behind_high = after_first(rest);
    assert(behind_high@ =~= s@.skip(3));
    let low: char = match first_char(behind_high) {
        Some(low) => low,
        None => {
            assert(behind_high@ =~= Seq::<char>::empty());
            assert(out@ =~= before + next_unescaped(s@).0);
            return behind_high;
        },
    };
    let left = after_first(behind_high);
    assert(left@ =~= s@.skip(4));
    match (hex_digit(high), hex_digit(low)) {
        (Some(h), Some(l)) => {
            let byte: u8 = 16 * h + l;
            out.push(byte as char);
        },
        _ => {},
    }
    assert(out@ =~= before + next_unescaped(s@).0);
    left
}

/// Replaces escapes by what they stand for.
pub fn decode_escaped(input: &str) -> (r: String)
    ensures
        r@ == unescaped(input@),
{
    let mut out = String::new();
    let mut x: &str = input;
    assert(out@ + unescaped(x@) =~= unescaped(x@));
    loop
        invariant
            unescaped(input@) == out@ + unescaped(x@),
        decreases x@.len(),
    {
        let c: char = match first_char(x) {
            Some(c) => c,
            None => {
                assert(out@ + unescaped(x@) =~= out@);
                return out;
            },
        };
        let ghost before = out@;
        let ghost s = x@;
        proof {
            lemma_next_unescaped(s);
            assert(before + (next_unescaped(s).0 + unescaped(next_unescaped(s).1)) =~= before
                + next_unescaped(s).0 + unescaped(next_unescaped(s).1));
        }
        if c != '\\' {
            out.push(c);
            x = after_first(x);
            proof {
                assert(x@ =~= s.skip(1));
                assert(out@ =~= before + next_unescaped(s).0);
            }
        } else {
            x = take_escape(x, &mut out);
        }
    }
}

/// Two digits more make one byte more.
proof fn lemma_hex_pairs(digits: Seq<int>, a: int, b: int)
    requires
        digits.len() % 2 == 0,
    ensures
        hex_pairs(digits.push(a)) == hex_pairs(digits),
        hex_pairs(digits.push(a).push(b)) == hex_pairs(digits).push((16 * a + b) as u8),
    decreases digits.len(),
{
    reveal_with_fuel(hex_pairs, 2);
    if digits.len() == 0 {
        assert(hex_pairs(digits.push(a)) =~= Seq::<u8>::empty());
        assert(digits.push(a).push(b).skip(2) =~= Seq::<int>::empty());
        assert(hex_pairs(digits.push(a).push(b)) =~= hex_pairs(digits).push((16 * a + b) as u8));
    } else {
        lemma_hex_pairs(digits.skip(2), a, b);
        assert(digits.push(a).skip(2) =~= digits.skip(2).push(a));
        assert(digits.push(a).push(b).skip(2) =~= digits.skip(2).push(a).push(b));
        assert(hex_pairs(digits.push(a)) =~= hex_pairs(digits));
        assert(hex_pairs(digits.push(a).push(b)) =~= hex_pairs(digits).push((16 * a + b) as u8));
    }
}

/// Reads bytes in hexadecimal. Characters that are not digits are passed over.
pub fn decode_hex(text: &str) -> (r: Vec<u8>)
    ensures
        r@ == hex_bytes(text@),
{
    let mut bytes: Vec<u8> = Vec::new();
    let mut high: Option<u8> = None;
    let mut x: &str = text;
    let ghost mut n: int = 0;
    let ghost mut whole: Seq<int> = Seq::empty();
    assert(text@.skip(0) =~= text@);
    assert(text@.take(0) =~= Seq::<char>::empty());
    loop
        invariant
            0 <= n <= text@.len(),
            x@ == text@.skip(n),
            whole.len() % 2 == 0,
            bytes@ == hex_pairs(whole),
            match high {
                Some(h) => h < 16 && hex_digits(text@.take(n)) == whole.push(h as int),
                None => hex_digits(text@.take(n)) == whole,
            },
        decreases x@.len(),
    {
        let c: char = match first_char(x) {
            Some(c) => c,
            None => {
                proof {
                    assert(text@.take(n) =~= text@);
                    if high is Some {
                        lemma_hex_pairs(whole, high->0 as int, 0);
                    }
                }
                return bytes;
            },
        };
        proof {
            assert(text@.take(n + 1).drop_last() =~= text@.take(n));
            assert(text@.take(n + 1).last() == c);
        }
        match hex_digit(c) {
            Some(d) => match high {
                Some(h) => {
                    bytes.push(16 * h + d);
                    high = None;
                    proof {
                        lemma_hex_pairs(whole, h as int, d as int);
                        whole = whole.push(h as int).push(d as int);
                    }
                },
                None => {
                    high = Some(d);
                },
            },
            None => {},
        }
        x = after_first(x);
        proof {
            assert(x@ =~= text@.skip(n + 1));
            n = n + 1;
        }
    }
}

/// A text without a backslash stands for itself.
pub proof fn law_plain_text_stands_for_itself(s: Seq<char>)
    requires
        !s.contains('\\'),
    ensures
        unescaped(s) == s,
    decreases s.len(),
{
    if s.len() > 0 {
        let rest = s.skip(1);
        assert(s.contains(s[0]));
        assert forall|i: int| 0 <= i < rest.len() implies rest[i] != '\\' by {
            assert(s.contains(s[i + 1]));
        }
        law_plain_text_stands_for_itself(rest);
        assert(seq![s[0]] + rest =~= s);
    }
}

} // verus!
