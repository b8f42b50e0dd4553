use spark_codecs::text::{
    contains_char, eq_ignore_ascii_case, parse_decimal, parse_usize, push_decimal, push_hex,
    rsplit_once, split_all, split_at_text, split_lines, split_once, split_until, split_whitespace,
    strip_prefix, text_eq, to_crlf, trim, trim_end, trim_end_cr, trim_start, white_space,
};
use spark_codecs::wire::{
    push_be16, push_be32, push_be64, read_be16, read_be32, read_be64, to_be16, to_be32, write_at,
};

const SAMPLES: [&str; 8] =
    ["", " ", "a", " a b ", "ü:é:漢", "\u{2003}x\u{a0}", "a\r\nb\n\nc\r", "::a=b;c=d"];

#[test]
fn texts_are_cut_like_slices_of_the_standard_library() {
    for s in SAMPLES {
        assert_eq!(trim(s), s.trim());
        assert_eq!(trim_start(s), s.trim_start());
        assert_eq!(trim_end(s), s.trim_end());
        assert_eq!(trim_end_cr(s), s.trim_end_matches('\r'));
        assert_eq!(split_whitespace(s), s.split_whitespace().collect::<Vec<_>>());
        assert_eq!(split_lines(s), s.lines().collect::<Vec<_>>());
        assert_eq!(to_crlf(s), s.replace('\n', "\r\n"));
        for c in [':', ' ', 'x', 'é'] {
            assert_eq!(split_once(s, c), s.split_once(c));
            assert_eq!(rsplit_once(s, c), s.rsplit_once(c));
            assert_eq!(split_all(s, c), s.split(c).collect::<Vec<_>>());
            assert_eq!(contains_char(s, c), s.contains(c));
        }
        for t in SAMPLES {
            assert_eq!(text_eq(s, t), s == t);
            assert_eq!(strip_prefix(s, t), s.strip_prefix(t));
        }
        assert_eq!(split_at_text(s, "\r\n"), s.split_once("\r\n"));
    }
    assert_eq!(split_until("ab;c=d", &['=', ';']), ("ab", ";c=d"));
    assert_eq!(split_until("ab", &[';']), ("ab", ""));
}

#[test]
fn white_space_is_what_the_standard_library_says() {
    for code in 0..0x3100u32 {
        if let Some(c) = char::from_u32(code) {
            assert_eq!(white_space(c), c.is_whitespace(), "{code:x}");
        }
    }
}

#[test]
fn case_is_ignored_for_ascii_letters_only() {
    assert!(eq_ignore_ascii_case("SIP", "sip"));
    assert!(!eq_ignore_ascii_case("É", "é"));
    assert!(!eq_ignore_ascii_case("a", "ab"));
}

#[test]
fn numbers_are_read_like_by_the_standard_library() {
    for s in ["", "+", "-1", "+7", "007", "65535", "65536", "4294967295", "4294967296", "1a", "١"] {
        assert_eq!(parse_decimal(s, u32::MAX), s.parse::<u32>().ok());
        assert_eq!(parse_decimal(s, 65535), s.parse::<u16>().ok().map(u32::from));
        assert_eq!(parse_usize(s), s.parse::<usize>().ok());
    }
    let largest = usize::MAX.to_string();
    assert_eq!(parse_usize(&largest), Some(usize::MAX));
    assert_eq!(parse_usize(&format!("{largest}0")), None);
}

#[test]
fn numbers_are_written_like_by_the_standard_library() {
    for n in [0u64, 7, 10, 99, 100, 65535, u64::MAX] {
        let mut out = String::from("n=");
        push_decimal(&mut out, n);
        assert_eq!(out, format!("n={n}"));
    }
    for n in [0u8, 9, 10, 16, 255] {
        let mut out = String::new();
        push_hex(&mut out, n);
        assert_eq!(out, format!("{n:#x}"));
    }
}

#[test]
fn integers_are_big_endian() {
    let bytes = [1u8, 2, 3, 4, 5, 6, 7, 8, 9];
    assert_eq!(read_be16(&bytes, 1), 0x0203);
    assert_eq!(read_be32(&bytes, 1), 0x0203_0405);
    assert_eq!(read_be64(&bytes, 1), 0x0203_0405_0607_0809);
    assert_eq!(to_be16(0x0102), [1, 2]);
    assert_eq!(to_be32(0x0102_0304), [1, 2, 3, 4]);
    let mut out = Vec::new();
    push_be16(&mut out, 0x0102);
    push_be32(&mut out, 0x0304_0506);
    push_be64(&mut out, 0x0708_090a_0b0c_0d0e);
    assert_eq!(out, (1..=14).collect::<Vec<u8>>());
    let mut dst = [0u8; 4];
    write_at(&mut dst, 1, &[8, 9]);
    assert_eq!(dst, [0, 8, 9, 0]);
}
