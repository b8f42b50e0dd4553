//! Scanning and building text one character at a time.
pub mod laws;

use vstd::prelude::*;
use vstd::string::*;

verus! {

use vstd::utf8::*;

/// The characters with the Unicode property `White_Space`.
pub open spec fn is_white_space(c: char) -> bool {
    ||| '\u{9}' <= c <= '\u{d}'
    ||| c == '\u{20}'
    ||| c == '\u{85}'
    ||| c == '\u{a0}'
    ||| c == '\u{1680}'
    ||| '\u{2000}' <= c <= '\u{200a}'
    ||| c == '\u{2028}'
    ||| c == '\u{2029}'
    ||| c == '\u{202f}'
    ||| c == '\u{205f}'
    ||| c == '\u{3000}'
}

/// Encoding two texts one after the other is encoding their concatenation.
pub proof fn lemma_encode_concat(a: Seq<char>, b: Seq<char>)
    ensures
        encode_utf8(a + b) == encode_utf8(a) + encode_utf8(b),
    decreases a.len(),
{
    if a.len() == 0 {
        assert(a + b =~= b);
        assert(encode_utf8(a) + encode_utf8(b) =~= encode_utf8(b));
    } else {
        lemma_encode_concat(a.drop_first(), b);
        assert((a + b).drop_first() =~= a.drop_first() + b);
        assert(encode_utf8(a + b) =~= encode_utf8(a) + encode_utf8(b));
    }
}

/// Texts with the same encoding are the same.
pub proof fn lemma_encode_injective(a: Seq<char>, b: Seq<char>)
    requires
        encode_utf8(a) == encode_utf8(b),
    ensures
        a == b,
{
    encode_utf8_decode_utf8(a);
    encode_utf8_decode_utf8(b);
}

/// The end of an encoded prefix is a character boundary.
proof fn lemma_boundary(a: Seq<char>, b: Seq<char>)
    ensures
        is_char_boundary(encode_utf8(a + b), encode_utf8(a).len() as int),
    decreases a.len(),
{
    encode_utf8_valid_utf8(a + b);
    if a.len() == 0 {
        assert(encode_utf8(a).len() == 0);
    } else {
        let bytes = encode_utf8(a + b);
        lemma_boundary(a.drop_first(), b);
        assert((a + b).drop_first() =~= a.drop_first() + b);
        encode_utf8_first_scalar(a + b);
        assert(pop_first_scalar(bytes) =~= encode_utf8(a.drop_first() + b));
        lemma_encode_concat(a, b);
        encode_utf8_valid_utf8(a.drop_first() + b);
    }
}

/// The first character of a text.
pub fn first_char(s: &str) -> (r: Option<char>)
    ensures
        r == (if s@.len() > 0 {
            Some(s@[0])
        } else {
            None
        }),
{
    let mut chars = s.chars();
    chars.next()
}

/// How many bytes the encoding of a character takes.
fn utf8_width(c: char) -> (r: usize)
    ensures
        r == encode_scalar(c as u32).len(),
        r > 0,
{
    let code: u32 = c as u32;
    if code < 0x80 {
        1
    } else if code < 0x800 {
        2
    } else if code < 0x1_0000 {
        3
    } else {
        4
    }
}

/// The text without its first character.
pub fn after_first<'a>(s: &'a str) -> (r: &'a str)
    requires
        s@.len() > 0,
    ensures
        r@ == s@.drop_first(),
{
    let c: char = match first_char(s) {
        Some(c) => c,
        None => {
            return s;
        },
    };
    let width: usize = utf8_width(c);
    proof {
        let head = seq![c];
        assert(s@ =~= head + s@.drop_first());
        assert(head.drop_first() =~= Seq::<char>::empty());
        reveal_with_fuel(encode_utf8, 2);
        assert(encode_utf8(head) =~= encode_scalar(c as u32));
        lemma_boundary(head, s@.drop_first());
        lemma_encode_concat(head, s@.drop_first());
    }
    let (_, rest) = s.split_at(width);
    proof {
        assert(rest.spec_bytes() =~= encode_utf8(s@.drop_first()));
        lemma_encode_injective(rest@, s@.drop_first());
    }
    rest
}

/// Whether `tail` is what remains of `s` behind some prefix.
pub open spec fn is_tail(s: Seq<char>, tail: Seq<char>) -> bool {
    &&& tail.len() <= s.len()
    &&& tail == s.skip(s.len() - tail.len())
}

/// The part of `s` in front of its tail.
pub fn before<'a>(s: &'a str, tail: &str) -> (r: &'a str)
    requires
        is_tail(s@, tail@),
    ensures
        r@ == s@.take(s@.len() - tail@.len()),
{
    let ghost k = s@.len() - tail@.len();
    proof {
        assert(s@ =~= s@.take(k) + tail@);
        lemma_encode_concat(s@.take(k), tail@);
        lemma_boundary(s@.take(k), tail@);
    }
    let s_len: usize = s.as_bytes().len();
    let tail_len: usize = tail.as_bytes().len();
    let (head, _) = s.split_at(s_len - tail_len);
    proof {
        assert(head.spec_bytes() =~= encode_utf8(s@.take(k)));
        lemma_encode_injective(head@, s@.take(k));
    }
    head
}

/// The part of `s` behind its prefix `head`.
pub fn behind<'a>(s: &'a str, head: &str) -> (r: &'a str)
    requires
        head@.is_prefix_of(s@),
    ensures
        r@ == s@.skip(head@.len() as int),
{
    let ghost k = head@.len() as int;
    proof {
        assert(s@ =~= head@ + s@.skip(k));
        lemma_encode_concat(head@, s@.skip(k));
        lemma_boundary(head@, s@.skip(k));
    }
    let head_len: usize = head.as_bytes().len();
    let (_, rest) = s.split_at(head_len);
    proof {
        assert(rest.spec_bytes() =~= encode_utf8(s@.skip(k)));
        lemma_encode_injective(rest@, s@.skip(k));
    }
    rest
}

/// The last character of a text, if that is an ASCII character.
pub fn last_ascii(s: &str) -> (r: Option<u8>)
    ensures
        match r {
            Some(b) => s@.len() > 0 && b < 0x80 && s@.last() as int == b as int,
            None => s@.len() == 0 || s@.last() as int >= 0x80,
        },
{
    let bytes = s.as_bytes();
    if bytes.len() == 0 {
        proof {
            if s@.len() > 0 {
                encode_utf8_first_scalar(s@);
            }
        }
        return None;
    }
    let b: u8 = bytes[bytes.len() - 1];
    proof {
        lemma_last_byte(s@);
    }
    if b < 0x80 {
        Some(b)
    } else {
        None
    }
}

/// The code of a character as a machine integer is its code.
proof fn lemma_char_code(c: char)
    ensures
        c as u32 as int == c as int,
{
}

/// The last byte of an encoded text tells whether the last character is ASCII, and which.
proof fn lemma_last_byte(s: Seq<char>)
    requires
        encode_utf8(s).len() > 0,
    ensures
        s.len() > 0,
        encode_utf8(s).last() < 0x80 ==> s.last() as int == encode_utf8(s).last() as int,
        encode_utf8(s).last() >= 0x80 ==> s.last() as int >= 0x80,
{
    assert(s.len() > 0) by {
        if s.len() == 0 {
            assert(encode_utf8(s).len() == 0);
        }
    }
    let head = s.drop_last();
    let c = s.last();
    assert(s =~= head + seq![c]);
    lemma_encode_concat(head, seq![c]);
    assert(seq![c].drop_first() =~= Seq::<char>::empty());
    reveal_with_fuel(encode_utf8, 2);
    assert(encode_utf8(seq![c]) =~= encode_scalar(c as u32));
    let code = c as u32;
    assert(encode_utf8(s).last() == encode_scalar(code).last());
    char_is_scalar(c);
    lemma_char_code(c);
    lemma_scalar_last(code);
}

/// The last byte of an encoded scalar is the scalar itself, or at least 128.
proof fn lemma_scalar_last(code: u32)
    requires
        is_scalar(code),
    ensures
        encode_scalar(code).len() > 0,
        code < 0x80 ==> encode_scalar(code).last() as int == code as int,
        code >= 0x80 ==> encode_scalar(code).last() >= 0x80,
{
    assert(code < 0x80 ==> (code & 0x7F) as u8 == code) by (bit_vector);
    assert(0x80u8 | ((code & 0x3F) as u8) >= 0x80) by (bit_vector);
}

/// Every byte of an encoded scalar is the scalar itself, or at least 128.
proof fn lemma_scalar_bytes(code: u32)
    requires
        is_scalar(code),
    ensures
        forall|i: int|
            0 <= i < encode_scalar(code).len() ==> #[trigger] encode_scalar(code)[i] as int
                == code as int || encode_scalar(code)[i] >= 0x80,
{
    assert(code < 0x80 ==> (code & 0x7F) as u8 == code) by (bit_vector);
    assert(0xC0u8 | (((code >> 6) & 0x1F) as u8) >= 0x80) by (bit_vector);
    assert(0xE0u8 | (((code >> 12) & 0x0F) as u8) >= 0x80) by (bit_vector);
    assert(0xF0u8 | (((code >> 18) & 0x7) as u8) >= 0x80) by (bit_vector);
    assert(0x80u8 | ((code & 0x3F) as u8) >= 0x80) by (bit_vector);
    assert(0x80u8 | (((code >> 6) & 0x3F) as u8) >= 0x80) by (bit_vector);
    assert(0x80u8 | (((code >> 12) & 0x3F) as u8) >= 0x80) by (bit_vector);
}

/// An ASCII character that does not occur in a text does not occur as a byte of its encoding.
pub proof fn lemma_absent_byte(s: Seq<char>, c: u8)
    requires
        c < 0x80,
        forall|i: int| 0 <= i < s.len() ==> #[trigger] s[i] as int != c as int,
    ensures
        forall|i: int| 0 <= i < encode_utf8(s).len() ==> #[trigger] encode_utf8(s)[i] != c,
    decreases s.len(),
{
    if s.len() > 0 {
        let rest = s.drop_first();
        assert forall|i: int| 0 <= i < rest.len() implies #[trigger] rest[i] as int != c as int by {
            assert(rest[i] == s[i + 1]);
        }
        lemma_absent_byte(rest, c);
        char_is_scalar(s[0]);
        lemma_char_code(s[0]);
        lemma_scalar_bytes(s[0] as u32);
        assert(s[0] as int != c as int);
        let head = encode_scalar(s[0] as u32);
        assert forall|i: int| 0 <= i < encode_utf8(s).len() implies #[trigger] encode_utf8(s)[i]
            != c by {
            if i < head.len() {
                assert(encode_utf8(s)[i] == head[i]);
            } else {
                assert(encode_utf8(s)[i] == encode_utf8(rest)[i - head.len()]);
            }
        }
    }
}

/// The text without its last character, which is an ASCII character.
pub fn drop_last_ascii<'a>(s: &'a str) -> (r: &'a str)
    requires
        s@.len() > 0,
        (s@.last() as int) < 0x80,
    ensures
        r@ == s@.drop_last(),
{
    let n: usize = s.as_bytes().len();
    let ghost head = s@.drop_last();
    let ghost c = s@.last();
    proof {
        assert(s@ =~= head + seq![c]);
        lemma_encode_concat(head, seq![c]);
        lemma_boundary(head, seq![c]);
        assert(seq![c].drop_first() =~= Seq::<char>::empty());
        reveal_with_fuel(encode_utf8, 2);
        assert(encode_utf8(seq![c]) =~= encode_scalar(c as u32));
        lemma_char_code(c);
        assert(encode_scalar(c as u32).len() == 1);
    }
    let (r, _) = s.split_at(n - 1);
    proof {
        assert(r.spec_bytes() =~= encode_utf8(head));
        lemma_encode_injective(r@, head);
    }
    r
}

/// What `core::str::from_utf8` reports about bytes that are not UTF-8.
#[verifier::external_type_specification]
#[verifier::external_body]
pub struct ExUtf8Error(core::str::Utf8Error);

/// The error that `core::str::from_utf8` returns for bytes that are not UTF-8.
pub uninterp spec fn utf8_fault(bytes: Seq<u8>) -> core::str::Utf8Error;

/// Calls `core::str::from_utf8`. Taken on trust: it gives the bytes back as text if they are valid
/// UTF-8, and else an error that depends on the bytes alone.
#[verifier::external_body]
pub(crate) fn utf8_text<'a>(bytes: &'a [u8]) -> (r: Result<&'a str, core::str::Utf8Error>)
    ensures
        match r {
            Ok(text) => valid_utf8(bytes@) && text.spec_bytes() == bytes@,
            Err(e) => !valid_utf8(bytes@) && e == utf8_fault(bytes@),
        },
{
    core::str::from_utf8(bytes)
}

/// The words in which an error of `core::str::from_utf8` displays itself.
pub uninterp spec fn utf8_fault_text(fault: core::str::Utf8Error) -> Seq<char>;

/// Displays a `core::str::Utf8Error`. Taken on trust: the words depend on the error alone.
#[verifier::external_body]
pub(crate) fn fault_text(fault: &core::str::Utf8Error) -> (r: String)
    ensures
        r@ == utf8_fault_text(*fault),
{
    format!("{}", fault)
}

/// Text whose bytes are valid UTF-8 is what those bytes decode to.
pub proof fn lemma_text_of_bytes(text: &str, bytes: Seq<u8>)
    requires
        text.spec_bytes() == bytes,
    ensures
        text@ == decode_utf8(bytes),
{
    encode_utf8_decode_utf8(text@);
}

/// The contents of a list of texts.
pub open spec fn texts(list: Seq<&str>) -> Seq<Seq<char>> {
    Seq::new(list.len(), |i: int| list[i]@)
}

/// The contents of a list of strings.
pub open spec fn string_views(list: Seq<String>) -> Seq<Seq<char>> {
    Seq::new(list.len(), |i: int| list[i]@)
}

/// Whether a character has the Unicode property `White_Space`.
pub fn white_space(c: char) -> (r: bool)
    ensures
        r == is_white_space(c),
{
    ('\u{9}' <= c && c <= '\u{d}') || c == '\u{20}' || c == '\u{85}' || c == '\u{a0}' || c
        == '\u{1680}' || ('\u{2000}' <= c && c <= '\u{200a}') || c == '\u{2028}' || c == '\u{2029}'
        || c == '\u{202f}' || c == '\u{205f}' || c == '\u{3000}'
}

/// Whether two texts are equal.
pub fn text_eq(a: &str, b: &str) -> (r: bool)
    ensures
        r == (a@ == b@),
{
    let mut x: &str = a;
    let mut y: &str = b;
    loop
        invariant
            (a@ == b@) == (x@ == y@),
        decreases x@.len(),
    {
        match (first_char(x), first_char(y)) {
            (Some(c), Some(d)) => {
                if c != d {
                    return false;
                }
                proof {
                    assert(x@ =~= seq![c] + x@.drop_first());
                    assert(y@ =~= seq![c] + y@.drop_first());
                }
                x = after_first(x);
                y = after_first(y);
            },
            (None, None) => {
                assert(x@ =~= y@);
                return true;
            },
            _ => {
                return false;
            },
        }
    }
}

/// The lower-case form of an ASCII letter; any other character as it is.
pub open spec fn ascii_lower(c: char) -> char {
    if 'A' <= c <= 'Z' {
        (c as int + 32) as char
    } else {
        c
    }
}

/// Whether two texts are equal up to the case of ASCII letters.
pub open spec fn same_ignoring_case(a: Seq<char>, b: Seq<char>) -> bool {
    &&& a.len() == b.len()
    &&& forall|i: int| 0 <= i < a.len() ==> ascii_lower(#[trigger] a[i]) == ascii_lower(b[i])
}

/// The code of a character with ASCII letters in lower case.
fn lower_code(c: char) -> (r: u32)
    ensures
        r as int == ascii_lower(c) as int,
{
    let code: u32 = c as u32;
    if 'A' <= c && c <= 'Z' {
        code + 32
    } else {
        code
    }
}

/// Whether two texts are equal up to the case of ASCII letters.
pub fn eq_ignore_ascii_case(a: &str, b: &str) -> (r: bool)
    ensures
        r == same_ignoring_case(a@, b@),
{
    let mut x: &str = a;
    let mut y: &str = b;
    loop
        invariant
            same_ignoring_case(a@, b@) == same_ignoring_case(x@, y@),
        decreases x@.len(),
    {
        match (first_char(x), first_char(y)) {
            (Some(c), Some(d)) => {
                if lower_code(c) != lower_code(d) {
                    return false;
                }
                proof {
                    lemma_same_tail(x@, y@);
                }
                x = after_first(x);
                y = after_first(y);
            },
            (None, None) => {
                return true;
            },
            _ => {
                return false;
            },
        }
    }
}

proof fn lemma_same_tail(a: Seq<char>, b: Seq<char>)
    requires
        a.len() > 0,
        b.len() > 0,
        ascii_lower(a[0]) == ascii_lower(b[0]),
    ensures
        same_ignoring_case(a, b) == same_ignoring_case(a.drop_first(), b.drop_first()),
{
    let x = a.drop_first();
    let y = b.drop_first();
    if same_ignoring_case(a, b) {
        assert forall|i: int| 0 <= i < x.len() implies ascii_lower(#[trigger] x[i]) == ascii_lower(
            y[i],
        ) by {
            assert(a[i + 1] == x[i] && b[i + 1] == y[i]);
        }
    }
    if same_ignoring_case(x, y) {
        assert forall|i: int| 0 <= i < a.len() implies ascii_lower(#[trigger] a[i]) == ascii_lower(
            b[i],
        ) by {
            if i > 0 {
                assert(x[i - 1] == a[i] && y[i - 1] == b[i]);
            }
        }
    }
}

/// The text behind a prefix, if the text begins with that prefix.
pub fn strip_prefix<'a>(s: &'a str, prefix: &str) -> (r: Option<&'a str>)
    ensures
        match r {
            Some(rest) => prefix@.is_prefix_of(s@) && rest@ == s@.skip(prefix@.len() as int),
            None => !prefix@.is_prefix_of(s@),
        },
{
    let mut x: &'a str = s;
    let mut p: &str = prefix;
    let ghost mut n: int = 0;
    loop
        invariant
            0 <= n <= prefix@.len(),
            n <= s@.len(),
            p@ == prefix@.skip(n),
            x@ == s@.skip(n),
            s@.take(n) == prefix@.take(n),
        decreases p@.len(),
    {
        match (first_char(p), first_char(x)) {
            (Some(c), Some(d)) => {
                if c != d {
                    proof {
                        if prefix@.is_prefix_of(s@) {
                            assert(s@.subrange(0, prefix@.len() as int)[n] == prefix@[n]);
                        }
                    }
                    return None;
                }
                x = after_first(x);
                p = after_first(p);
                proof {
                    assert(s@.take(n + 1) =~= s@.take(n).push(c));
                    assert(prefix@.take(n + 1) =~= prefix@.take(n).push(c));
                    assert(x@ =~= s@.skip(n + 1));
                    assert(p@ =~= prefix@.skip(n + 1));
                    n = n + 1;
                }
            },
            (None, _) => {
                assert(prefix@.take(n) =~= prefix@);
                return Some(x);
            },
            (Some(_), None) => {
                return None;
            },
        }
    }
}

/// The position at which `pattern` first occurs in `s`, or -1.
pub open spec fn find_text(s: Seq<char>, pattern: Seq<char>) -> int
    decreases s.len(),
{
    if pattern.is_prefix_of(s) {
        0
    } else if s.len() == 0 {
        -1
    } else {
        let later = find_text(s.drop_first(), pattern);
        if later < 0 {
            -1
        } else {
            later + 1
        }
    }
}

/// What stands in front of and behind the first occurrence of a pattern.
pub open spec fn split_text(s: Seq<char>, pattern: Seq<char>) -> Option<(Seq<char>, Seq<char>)> {
    let at = find_text(s, pattern);
    if at < 0 {
        None
    } else {
        Some((s.take(at), s.skip(at + pattern.len())))
    }
}

/// An occurrence lies inside the text.
pub proof fn lemma_find_text(s: Seq<char>, pattern: Seq<char>)
    ensures
        find_text(s, pattern) >= 0 ==> find_text(s, pattern) + pattern.len() <= s.len(),
        find_text(s, pattern) >= 0 ==> s.subrange(
            find_text(s, pattern),
            find_text(s, pattern) + pattern.len(),
        ) == pattern,
    decreases s.len(),
{
    if pattern.is_prefix_of(s) {
        assert(s.subrange(0, pattern.len() as int) =~= pattern);
    } else if s.len() > 0 {
        lemma_find_text(s.drop_first(), pattern);
        let later = find_text(s.drop_first(), pattern);
        if later >= 0 {
            assert(s.drop_first().subrange(later, later + pattern.len()) =~= s.subrange(
                later + 1,
                later + 1 + pattern.len(),
            ));
        }
    }
}

/// Splits a text at the first occurrence of a pattern.
pub fn split_at_text<'a>(s: &'a str, pattern: &str) -> (r: Option<(&'a str, &'a str)>)
    ensures
        match r {
            Some((a, b)) => split_text(s@, pattern@) == Some((a@, b@)),
            None => split_text(s@, pattern@) is None,
        },
{
    let mut x: &'a str = s;
    let ghost mut n: int = 0;
    loop
        invariant
            0 <= n <= s@.len(),
            x@ == s@.skip(n),
            find_text(s@, pattern@) == (if find_text(x@, pattern@) < 0 {
                -1
            } else {
                n + find_text(x@, pattern@)
            }),
        decreases x@.len(),
    {
        if let Some(rest) = strip_prefix(x, pattern) {
            let head = before(s, x);
            proof {
                assert(rest@ =~= s@.skip(n + pattern@.len()));
                assert(head@ =~= s@.take(n));
            }
            return Some((head, rest));
        }
        if first_char(x).is_none() {
            return None;
        }
        x = after_first(x);
        proof {
            assert(x@ =~= s@.skip(n + 1));
            n = n + 1;
        }
    }
}

/// What stands in front of and behind the first occurrence of a character.
pub open spec fn split_char(s: Seq<char>, c: char) -> Option<(Seq<char>, Seq<char>)> {
    let at = until(s, seq![c]);
    if at == s.len() {
        None
    } else {
        Some((s.take(at), s.skip(at + 1)))
    }
}

/// The number of characters in front of the first one that is among `stops`.
pub open spec fn until(s: Seq<char>, stops: Seq<char>) -> int
    decreases s.len(),
{
    if s.len() == 0 || stops.contains(s[0]) {
        0
    } else {
        1 + until(s.drop_first(), stops)
    }
}

/// The first stop lies inside the text or at its end, and nothing in front of it is a stop.
pub proof fn lemma_until(s: Seq<char>, stops: Seq<char>)
    ensures
        0 <= until(s, stops) <= s.len(),
        until(s, stops) < s.len() ==> stops.contains(s[until(s, stops)]),
        forall|i: int| 0 <= i < until(s, stops) ==> !stops.contains(#[trigger] s[i]),
    decreases s.len(),
{
    if s.len() > 0 && !stops.contains(s[0]) {
        let rest = s.drop_first();
        lemma_until(rest, stops);
        assert forall|i: int| 0 <= i < until(s, stops) implies !stops.contains(#[trigger] s[i]) by {
            if i > 0 {
                assert(rest[i - 1] == s[i]);
            }
        }
    }
}

/// Whether a character is among `stops`.
fn among(stops: &[char], c: char) -> (r: bool)
    ensures
        r == stops@.contains(c),
{
    let mut i: usize = 0;
    while i < stops.len()
        invariant
            i <= stops@.len(),
            forall|k: int| 0 <= k < i ==> stops@[k] != c,
        decreases stops@.len() - i,
    {
        if stops[i] == c {
            return true;
        }
        i += 1;
    }
    false
}

/// Splits a text in front of the first character that is among `stops`.
pub fn split_until<'a>(s: &'a str, stops: &[char]) -> (r: (&'a str, &'a str))
    ensures
        0 <= until(s@, stops@) <= s@.len(),
        r.0@ == s@.take(until(s@, stops@)),
        r.1@ == s@.skip(until(s@, stops@)),
{
    let mut x: &'a str = s;
    let ghost mut n: int = 0;
    loop
        invariant
            0 <= n <= s@.len(),
            x@ == s@.skip(n),
            until(s@, stops@) == n + until(x@, stops@),
        decreases x@.len(),
    {
        match first_char(x) {
            Some(c) => {
                if among(stops, c) {
                    return (before(s, x), x);
                }
            },
            None => {
                return (before(s, x), x);
            },
        }
        x = after_first(x);
        proof {
            assert(x@ =~= s@.skip(n + 1));
            n = n + 1;
        }
    }
}

/// Splits a text at the first occurrence of a character.
pub fn split_once<'a>(s: &'a str, c: char) -> (r: Option<(&'a str, &'a str)>)
    ensures
        match r {
            Some((a, b)) => split_char(s@, c) == Some((a@, b@)),
            None => split_char(s@, c) is None,
        },
{
    let stops: [char; 1] = [c];
    assert(stops@ =~= seq![c]);
    let (head, tail) = split_until(s, &stops);
    proof {
        lemma_until(s@, seq![c]);
    }
    if first_char(tail).is_none() {
        return None;
    }
    let rest = after_first(tail);
    assert(rest@ =~= s@.skip(until(s@, seq![c]) + 1));
    Some((head, rest))
}

/// The number of characters up to and including the last occurrence of `c`.
pub open spec fn through_last(s: Seq<char>, c: char) -> int
    decreases s.len(),
{
    if s.len() == 0 || s.last() == c {
        s.len() as int
    } else {
        through_last(s.drop_last(), c)
    }
}

/// What stands in front of and behind the last occurrence of a character.
pub open spec fn split_last(s: Seq<char>, c: char) -> Option<(Seq<char>, Seq<char>)> {
    let n = through_last(s, c);
    if n == 0 {
        None
    } else {
        Some((s.take(n - 1), s.skip(n)))
    }
}

/// A position is that of the last occurrence if the character stands there and nowhere behind it.
pub proof fn lemma_through_last(s: Seq<char>, c: char, n: int)
    requires
        0 <= n <= s.len(),
        n > 0 ==> s[n - 1] == c,
        forall|i: int| n <= i < s.len() ==> #[trigger] s[i] != c,
    ensures
        through_last(s, c) == n,
    decreases s.len(),
{
    if s.len() > 0 && s.last() != c {
        lemma_through_last(s.drop_last(), c, n);
    }
}

/// Splits a text at the last occurrence of a character.
pub fn rsplit_once<'a>(s: &'a str, c: char) -> (r: Option<(&'a str, &'a str)>)
    ensures
        match r {
            Some((a, b)) => split_last(s@, c) == Some((a@, b@)),
            None => split_last(s@, c) is None,
        },
{
    let mut x: &'a str = s;
    let mut found: Option<&'a str> = None;
    let ghost mut n: int = 0;
    let ghost mut last: int = 0;
    loop
        invariant
            0 <= last <= n <= s@.len(),
            x@ == s@.skip(n),
            forall|i: int| last <= i < n ==> #[trigger] s@[i] != c,
            found is None <==> last == 0,
            found matches Some(tail) ==> s@[last - 1] == c && tail@ == s@.skip(last - 1),
        decreases x@.len(),
    {
        match first_char(x) {
            Some(d) => {
                if c == d {
                    found = Some(x);
                    proof {
                        last = n + 1;
                    }
                }
            },
            None => {
                proof {
                    lemma_through_last(s@, c, last);
                }
                return match found {
                    Some(tail) => {
                        let head = before(s, tail);
                        let rest = after_first(tail);
                        assert(head@ =~= s@.take(last - 1));
                        assert(rest@ =~= s@.skip(last));
                        Some((head, rest))
                    },
                    None => None,
                };
            },
        }
        x = after_first(x);
        proof {
            assert(x@ =~= s@.skip(n + 1));
            n = n + 1;
        }
    }
}

/// The text without the white space it begins with.
pub open spec fn trimmed_start(s: Seq<char>) -> Seq<char>
    decreases s.len(),
{
    if s.len() > 0 && is_white_space(s[0]) {
        trimmed_start(s.drop_first())
    } else {
        s
    }
}

/// The text without the white space it ends with.
pub open spec fn trimmed_end(s: Seq<char>) -> Seq<char>
    decreases s.len(),
{
    if s.len() > 0 && is_white_space(s.last()) {
        trimmed_end(s.drop_last())
    } else {
        s
    }
}

/// The text without white space at either end.
pub open spec fn trimmed(s: Seq<char>) -> Seq<char> {
    trimmed_end(trimmed_start(s))
}

/// A prefix is the trimmed text if only white space follows it and it ends in something else.
pub proof fn lemma_trimmed_end(s: Seq<char>, n: int)
    requires
        0 <= n <= s.len(),
        n > 0 ==> !is_white_space(s[n - 1]),
        forall|i: int| n <= i < s.len() ==> is_white_space(#[trigger] s[i]),
    ensures
        trimmed_end(s) == s.take(n),
    decreases s.len(),
{
    if n == s.len() {
        assert(s.take(n) =~= s);
    } else {
        lemma_trimmed_end(s.drop_last(), n);
        assert(s.drop_last().take(n) =~= s.take(n));
    }
}

/// Removes white space from the front.
pub fn trim_start<'a>(s: &'a str) -> (r: &'a str)
    ensures
        r@ == trimmed_start(s@),
        is_tail(s@, r@),
{
    let mut x: &'a str = s;
    let ghost mut n: int = 0;
    loop
        invariant
            0 <= n <= s@.len(),
            x@ == s@.skip(n),
            trimmed_start(s@) == trimmed_start(x@),
        decreases x@.len(),
    {
        match first_char(x) {
            Some(c) => {
                if !white_space(c) {
                    return x;
                }
            },
            None => {
                return x;
            },
        }
        x = after_first(x);
        proof {
            assert(x@ =~= s@.skip(n + 1));
            n = n + 1;
        }
    }
}

/// Removes white space from the end.
pub fn trim_end<'a>(s: &'a str) -> (r: &'a str)
    ensures
        r@ == trimmed_end(s@),
{
    let mut x: &'a str = s;
    let mut keep: &'a str = s;
    let ghost mut n: int = 0;
    let ghost mut last: int = 0;
    loop
        invariant
            0 <= last <= n <= s@.len(),
            x@ == s@.skip(n),
            keep@ == s@.skip(last),
            last > 0 ==> !is_white_space(s@[last - 1]),
            forall|i: int| last <= i < n ==> is_white_space(#[trigger] s@[i]),
        decreases x@.len(),
    {
        let c: char = match first_char(x) {
            Some(c) => c,
            None => {
                let r = before(s, keep);
                proof {
                    lemma_trimmed_end(s@, last);
                }
                return r;
            },
        };
        x = after_first(x);
        proof {
            assert(x@ =~= s@.skip(n + 1));
            n = n + 1;
        }
        if !white_space(c) {
            keep = x;
            proof {
                last = n;
            }
        }
    }
}

/// Removes white space from both ends.
pub fn trim<'a>(s: &'a str) -> (r: &'a str)
    ensures
        r@ == trimmed(s@),
{
    trim_end(trim_start(s))
}

/// The text without the copies of `c` it ends with.
pub open spec fn trimmed_end_of(s: Seq<char>, c: char) -> Seq<char>
    decreases s.len(),
{
    if s.len() > 0 && s.last() == c {
        trimmed_end_of(s.drop_last(), c)
    } else {
        s
    }
}

/// Removes carriage returns from the end.
pub fn trim_end_cr<'a>(s: &'a str) -> (r: &'a str)
    ensures
        r@ == trimmed_end_of(s@, '\r'),
{
    let mut x: &'a str = s;
    loop
        invariant
            trimmed_end_of(s@, '\r') == trimmed_end_of(x@, '\r'),
        decreases x@.len(),
    {
        match last_ascii(x) {
            Some(b) => {
                if b != 13 {
                    return x;
                }
            },
            None => {
                return x;
            },
        }
        x = drop_last_ascii(x);
    }
}

/// The number of characters in front of the first white space.
pub open spec fn word_len(s: Seq<char>) -> int
    decreases s.len(),
{
    if s.len() == 0 || is_white_space(s[0]) {
        0
    } else {
        1 + word_len(s.drop_first())
    }
}

/// A word reaches to the first white space or to the end.
pub proof fn lemma_word_len(s: Seq<char>)
    ensures
        0 <= word_len(s) <= s.len(),
        word_len(s) < s.len() ==> is_white_space(s[word_len(s)]),
        forall|i: int| 0 <= i < word_len(s) ==> !is_white_space(#[trigger] s[i]),
    decreases s.len(),
{
    if s.len() > 0 && !is_white_space(s[0]) {
        let rest = s.drop_first();
        lemma_word_len(rest);
        assert forall|i: int| 0 <= i < word_len(s) implies !is_white_space(#[trigger] s[i]) by {
            if i > 0 {
                assert(rest[i - 1] == s[i]);
            }
        }
    }
}

/// Removing white space from the front leaves a tail that begins with something else.
pub proof fn lemma_trimmed_start(s: Seq<char>)
    ensures
        is_tail(s, trimmed_start(s)),
        trimmed_start(s).len() > 0 ==> !is_white_space(trimmed_start(s)[0]),
    decreases s.len(),
{
    if s.len() > 0 && is_white_space(s[0]) {
        lemma_trimmed_start(s.drop_first());
        let t = trimmed_start(s);
        assert(t =~= s.skip(s.len() - t.len()));
    } else {
        assert(s =~= s.skip(0));
    }
}

/// The words of a text, that is, its maximal parts without white space.
pub open spec fn words(s: Seq<char>) -> Seq<Seq<char>>
    decreases s.len(),
    via words_decreases
{
    let t = trimmed_start(s);
    if t.len() == 0 {
        Seq::empty()
    } else {
        seq![t.take(word_len(t))] + words(t.skip(word_len(t)))
    }
}

#[via_fn]
proof fn words_decreases(s: Seq<char>) {
    lemma_trimmed_start(s);
    let t = trimmed_start(s);
    lemma_word_len(t);
}

/// The part of a text in front of the first white space, and the part from there on.
fn split_word<'a>(s: &'a str) -> (r: (&'a str, &'a str))
    ensures
        0 <= word_len(s@) <= s@.len(),
        r.0@ == s@.take(word_len(s@)),
        r.1@ == s@.skip(word_len(s@)),
{
    let mut x: &'a str = s;
    let ghost mut n: int = 0;
    loop
        invariant
            0 <= n <= s@.len(),
            x@ == s@.skip(n),
            word_len(s@) == n + word_len(x@),
        decreases x@.len(),
    {
        match first_char(x) {
            Some(c) => {
                if white_space(c) {
                    return (before(s, x), x);
                }
            },
            None => {
                return (before(s, x), x);
            },
        }
        x = after_first(x);
        proof {
            assert(x@ =~= s@.skip(n + 1));
            n = n + 1;
        }
    }
}

/// Splits a text into its words.
pub fn split_whitespace<'a>(s: &'a str) -> (r: Vec<&'a str>)
    ensures
        texts(r@) == words(s@),
{
    let mut out: Vec<&'a str> = Vec::new();
    let mut x: &'a str = s;
    loop
        invariant
            words(s@) == texts(out@) + words(x@),
        decreases x@.len(),
    {
        let t = trim_start(x);
        if first_char(t).is_none() {
            assert(texts(out@) + words(x@) =~= texts(out@));
            return out;
        }
        let (word, rest) = split_word(t);
        proof {
            lemma_trimmed_start(x@);
            lemma_word_len(t@);
            assert(words(x@) == seq![word@] + words(rest@));
        }
        let ghost so_far = texts(out@);
        out.push(word);
        proof {
            assert(texts(out@) =~= so_far.push(word@));
            assert(so_far + (seq![word@] + words(rest@)) =~= texts(out@) + words(rest@));
        }
        x = rest;
    }
}

/// The parts of a text between the occurrences of a character.
pub open spec fn parts(s: Seq<char>, c: char) -> Seq<Seq<char>>
    decreases s.len(),
    via parts_decreases
{
    match split_char(s, c) {
        Some((head, tail)) => seq![head] + parts(tail, c),
        None => seq![s],
    }
}

#[via_fn]
proof fn parts_decreases(s: Seq<char>, c: char) {
    lemma_until(s, seq![c]);
}

/// Splits a text at every occurrence of a character.
pub fn split_all<'a>(s: &'a str, c: char) -> (r: Vec<&'a str>)
    ensures
        texts(r@) == parts(s@, c),
        r@.len() > 0,
{
    let mut out: Vec<&'a str> = Vec::new();
    let mut x: &'a str = s;
    loop
        invariant
            parts(s@, c) == texts(out@) + parts(x@, c),
        decreases x@.len(),
    {
        let ghost so_far = texts(out@);
        proof {
            lemma_until(x@, seq![c]);
        }
        match split_once(x, c) {
            Some((head, tail)) => {
                out.push(head);
                proof {
                    assert(texts(out@) =~= so_far.push(head@));
                    assert(so_far + (seq![head@] + parts(tail@, c)) =~= texts(out@) + parts(
                        tail@,
                        c,
                    ));
                }
                x = tail;
            },
            None => {
                out.push(x);
                assert(texts(out@) =~= so_far + seq![x@]);
                return out;
            },
        }
    }
}

/// Whether a character is an ASCII digit.
pub open spec fn is_digit(c: char) -> bool {
    '0' <= c <= '9'
}

/// Whether every character is an ASCII digit.
pub open spec fn all_digits(s: Seq<char>) -> bool {
    forall|i: int| 0 <= i < s.len() ==> is_digit(#[trigger] s[i])
}

/// The number that a run of digits denotes.
pub open spec fn digits_value(s: Seq<char>) -> int
    decreases s.len(),
{
    if s.len() == 0 {
        0
    } else {
        digits_value(s.drop_last()) * 10 + (s.last() as int - '0' as int)
    }
}

/// The unsigned number that a text denotes: digits behind an optional plus sign, at most `max`.
pub open spec fn decimal_value(s: Seq<char>, max: int) -> Option<int> {
    let digits = if s.len() > 0 && s[0] == '+' {
        s.drop_first()
    } else {
        s
    };
    if digits.len() > 0 && all_digits(digits) && digits_value(digits) <= max {
        Some(digits_value(digits))
    } else {
        None
    }
}

/// More digits make a number no smaller.
proof fn lemma_digits_monotone(s: Seq<char>, n: int)
    requires
        0 <= n <= s.len(),
        all_digits(s),
    ensures
        0 <= digits_value(s.take(n)) <= digits_value(s),
    decreases s.len(),
{
    if s.len() > 0 {
        assert(forall|i: int| 0 <= i < s.len() - 1 ==> #[trigger] s.drop_last()[i] == s[i]);
        if n == s.len() {
            assert(s.take(n) =~= s);
            lemma_digits_monotone(s.drop_last(), n - 1);
        } else {
            lemma_digits_monotone(s.drop_last(), n);
            assert(s.drop_last().take(n) =~= s.take(n));
        }
    } else {
        assert(s.take(n) =~= s);
    }
}

/// A decimal number lies between zero and its limit.
pub proof fn lemma_decimal_value(s: Seq<char>, max: int)
    ensures
        decimal_value(s, max) matches Some(n) ==> 0 <= n <= max,
{
    let digits = if s.len() > 0 && s[0] == '+' {
        s.drop_first()
    } else {
        s
    };
    if all_digits(digits) {
        lemma_digits_monotone(digits, digits.len() as int);
        assert(digits.take(digits.len() as int) =~= digits);
    }
}

/// Reads an unsigned decimal number of at most `max`.
fn parse_decimal_wide(s: &str, max: u64) -> (r: Option<u64>)
    ensures
        match r {
            Some(n) => decimal_value(s@, max as int) == Some(n as int),
            None => decimal_value(s@, max as int) is None,
        },
{
    let digits: &str = match first_char(s) {
        Some(c) => if c == '+' {
            after_first(s)
        } else {
            s
        },
        None => s,
    };
    if first_char(digits).is_none() {
        return None;
    }
    let ghost all = digits@;
    let mut x: &str = digits;
    let mut value: u128 = 0;
    let ghost mut n: int = 0;
    assert(all.take(0) =~= Seq::<char>::empty());
    loop
        invariant
            all == (if s@.len() > 0 && s@[0] == '+' {
                s@.drop_first()
            } else {
                s@
            }),
            0 <= n <= all.len(),
            x@ == all.skip(n),
            all_digits(all.take(n)),
            value == digits_value(all.take(n)),
            value <= max,
        ensures
            all_digits(all),
            value == digits_value(all),
            value <= max,
        decreases x@.len(),
    {
        let c: char = match first_char(x) {
            Some(c) => c,
            None => {
                assert(all.take(n) =~= all);
                break;
            },
        };
        if c < '0' || c > '9' {
            assert(!is_digit(all[n]));
            return None;
        }
        let digit: u128 = (c as u32 - '0' as u32) as u128;
        proof {
            assert(all.take(n + 1).drop_last() =~= all.take(n));
            assert forall|i: int| 0 <= i < n + 1 implies is_digit(#[trigger] all.take(n + 1)[i]) by {
                if i < n {
                    assert(all.take(n)[i] == all.take(n + 1)[i]);
                }
            }
        }
        value = value * 10 + digit;
        if value > max as u128 {
            proof {
                if all_digits(all) {
                    lemma_digits_monotone(all, n + 1);
                }
            }
            return None;
        }
        x = after_first(x);
        proof {
            assert(x@ =~= all.skip(n + 1));
            n = n + 1;
        }
    }
    Some(value as u64)
}

/// Reads an unsigned decimal number of at most `max`.
pub fn parse_decimal(s: &str, max: u32) -> (r: Option<u32>)
    ensures
        match r {
            Some(n) => decimal_value(s@, max as int) == Some(n as int),
            None => decimal_value(s@, max as int) is None,
        },
{
    match parse_decimal_wide(s, max as u64) {
        Some(n) => {
            proof {
                lemma_decimal_value(s@, max as int);
            }
            Some(n as u32)
        },
        None => None,
    }
}

/// Reads an unsigned decimal number that a length can have.
pub fn parse_usize(s: &str) -> (r: Option<usize>)
    ensures
        match r {
            Some(n) => decimal_value(s@, usize::MAX as int) == Some(n as int),
            None => decimal_value(s@, usize::MAX as int) is None,
        },
{
    match parse_decimal_wide(s, usize::MAX as u64) {
        Some(n) => {
            proof {
                lemma_decimal_value(s@, usize::MAX as int);
            }
            Some(n as usize)
        },
        None => None,
    }
}

/// The digit that stands for `d`.
pub open spec fn digit_char(d: int) -> char {
    ('0' as int + d) as char
}

/// The decimal form of a number.
pub open spec fn decimal(n: int) -> Seq<char>
    decreases n,
{
    if n < 10 {
        seq![digit_char(n)]
    } else {
        decimal(n / 10).push(digit_char(n % 10))
    }
}

/// The text that consists of one digit.
fn digit_text(d: u64) -> (r: &'static str)
    requires
        d < 10,
    ensures
        r@ == seq![digit_char(d as int)],
{
    proof {
        reveal_strlit("0");
        reveal_strlit("1");
        reveal_strlit("2");
        reveal_strlit("3");
        reveal_strlit("4");
        reveal_strlit("5");
        reveal_strlit("6");
        reveal_strlit("7");
        reveal_strlit("8");
        reveal_strlit("9");
    }
    let r = match d {
        0 => "0",
        1 => "1",
        2 => "2",
        3 => "3",
        4 => "4",
        5 => "5",
        6 => "6",
        7 => "7",
        8 => "8",
        _ => "9",
    };
    assert(r@ =~= seq![digit_char(d as int)]);
    r
}

/// The hexadecimal digit that stands for `d`.
pub open spec fn hex_char(d: int) -> char {
    if d < 10 {
        digit_char(d)
    } else {
        ('a' as int + d - 10) as char
    }
}

/// The hexadecimal form of a number, with its prefix.
pub open spec fn prefixed_hex(n: u8) -> Seq<char> {
    seq!['0', 'x'] + if n < 16 {
        seq![hex_char(n as int)]
    } else {
        seq![hex_char(n as int / 16), hex_char(n as int % 16)]
    }
}

/// The text that consists of one hexadecimal digit.
fn hex_text(d: u8) -> (r: &'static str)
    requires
        d < 16,
    ensures
        r@ == seq![hex_char(d as int)],
{
    if d < 10 {
        return digit_text(d as u64);
    }
    proof {
        reveal_strlit("a");
        reveal_strlit("b");
        reveal_strlit("c");
        reveal_strlit("d");
        reveal_strlit("e");
        reveal_strlit("f");
    }
    let r = match d {
        10 => "a",
        11 => "b",
        12 => "c",
        13 => "d",
        14 => "e",
        _ => "f",
    };
    assert(r@ =~= seq![hex_char(d as int)]);
    r
}

/// Appends the hexadecimal form of a byte, with its prefix.
pub fn push_hex(out: &mut String, n: u8)
    ensures
        final(out)@ == old(out)@ + prefixed_hex(n),
{
    let ghost before = out@;
    proof {
        reveal_strlit("0x");
        assert("0x"@ =~= seq!['0', 'x']);
    }
    out.append("0x");
    if n >= 16 {
        out.append(hex_text(n / 16));
    }
    out.append(hex_text(n % 16));
    assert(out@ =~= before + prefixed_hex(n));
}

/// Appends the decimal form of a number.
pub fn push_decimal(out: &mut String, n: u64)
    ensures
        final(out)@ == old(out)@ + decimal(n as int),
    decreases n,
{
    let ghost before = out@;
    if n >= 10 {
        push_decimal(out, n / 10);
    }
    out.append(digit_text(n % 10));
    assert(out@ =~= before + decimal(n as int));
}

/// Reading the decimal form of a number gives the number.
pub proof fn lemma_decimal_round_trip(n: int)
    requires
        0 <= n,
    ensures
        decimal(n).len() > 0,
        all_digits(decimal(n)),
        digits_value(decimal(n)) == n,
        decimal(n)[0] != '+',
    decreases n,
{
    reveal_with_fuel(digits_value, 2);
    if n < 10 {
        assert(decimal(n).drop_last() =~= Seq::<char>::empty());
    } else {
        lemma_decimal_round_trip(n / 10);
        assert(decimal(n).drop_last() =~= decimal(n / 10));
        assert(decimal(n)[0] == decimal(n / 10)[0]);
    }
}

/// `String::push`. Taken on trust: it appends the character.
pub assume_specification[ String::push ](s: &mut String, ch: char)
    ensures
        final(s)@ == old(s)@.push(ch),
;

/// Whether a character occurs in a text.
pub fn contains_char(s: &str, c: char) -> (r: bool)
    ensures
        r == s@.contains(c),
{
    let mut x: &str = s;
    let ghost mut n: int = 0;
    assert(s@.skip(0) =~= s@);
    loop
        invariant
            0 <= n <= s@.len(),
            x@ == s@.skip(n),
            forall|i: int| 0 <= i < n ==> #[trigger] s@[i] != c,
        decreases x@.len(),
    {
        match first_char(x) {
            Some(first) => {
                if first == c {
                    assert(s@[n] == c);
                    return true;
                }
            },
            None => {
                return false;
            },
        }
        x = after_first(x);
        proof {
            assert(x@ =~= s@.skip(n + 1));
            n = n + 1;
        }
    }
}

/// A line without the carriage return that may stand at its end.
pub open spec fn without_cr(line: Seq<char>) -> Seq<char> {
    if line.len() > 0 && line.last() == '\r' {
        line.drop_last()
    } else {
        line
    }
}

/// The lines of a text. Each ends with a line feed, with or without a carriage return in front; the
/// last one may end without.
pub open spec fn lines_of(s: Seq<char>) -> Seq<Seq<char>>
    decreases s.len(),
    via lines_decreases
{
    if s.len() == 0 {
        Seq::empty()
    } else {
        match split_char(s, '\n') {
            Some((line, rest)) => seq![without_cr(line)] + lines_of(rest),
            None => seq![s],
        }
    }
}

#[via_fn]
proof fn lines_decreases(s: Seq<char>) {
    lemma_until(s, seq!['\n']);
}

/// Splits a text into lines.
pub fn split_lines<'a>(s: &'a str) -> (r: Vec<&'a str>)
    ensures
        texts(r@) == lines_of(s@),
{
    let mut out: Vec<&'a str> = Vec::new();
    let mut x: &'a str = s;
    assert(texts(out@) + lines_of(x@) =~= lines_of(x@));
    loop
        invariant
            lines_of(s@) == texts(out@) + lines_of(x@),
        decreases x@.len(),
    {
        let ghost so_far = texts(out@);
        if first_char(x).is_none() {
            assert(lines_of(x@) =~= Seq::<Seq<char>>::empty());
            assert(so_far + lines_of(x@) =~= so_far);
            return out;
        }
        proof {
            lemma_until(x@, seq!['\n']);
        }
        match split_once(x, '\n') {
            Some((line, rest)) => {
                let kept: &'a str = match last_ascii(line) {
                    Some(b) => if b == 13 {
                        drop_last_ascii(line)
                    } else {
                        line
                    },
                    None => line,
                };
                assert(kept@ == without_cr(line@));
                out.push(kept);
                proof {
                    assert(texts(out@) =~= so_far.push(kept@));
                    assert(so_far + (seq![kept@] + lines_of(rest@)) =~= texts(out@) + lines_of(
                        rest@,
                    ));
                }
                x = rest;
            },
            None => {
                out.push(x);
                assert(texts(out@) =~= so_far + seq![x@]);
                return out;
            },
        }
    }
}

/// A text with a carriage return in front of each line feed.
pub open spec fn with_crlf(s: Seq<char>) -> Seq<char>
    decreases s.len(),
{
    if s.len() == 0 {
        Seq::empty()
    } else if s.last() == '\n' {
        with_crlf(s.drop_last()).push('\r').push('\n')
    } else {
        with_crlf(s.drop_last()).push(s.last())
    }
}

/// Puts a carriage return in front of each line feed.
pub fn to_crlf(s: &str) -> (r: String)
    ensures
        r@ == with_crlf(s@),
{
    let mut out = String::new();
    let mut x: &str = s;
    let ghost mut n: int = 0;
    assert(s@.skip(0) =~= s@);
    assert(s@.take(0) =~= Seq::<char>::empty());
    loop
        invariant
            0 <= n <= s@.len(),
            x@ == s@.skip(n),
            out@ == with_crlf(s@.take(n)),
        decreases x@.len(),
    {
        let c: char = match first_char(x) {
            Some(c) => c,
            None => {
                assert(s@.take(n) =~= s@);
                return out;
            },
        };
        proof {
            assert(s@.take(n + 1).drop_last() =~= s@.take(n));
            assert(s@.take(n + 1).last() == c);
        }
        if c == '\n' {
            out.push('\r');
        }
        out.push(c);
        x = after_first(x);
        proof {
            assert(x@ =~= s@.skip(n + 1));
            n = n + 1;
        }
    }
}

} // verus!
