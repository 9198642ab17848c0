//! Text, tallies and bytes.

use tpcdaq::bytes::{read_u16_at, read_u32_at, read_uint};
use tpcdaq::tally::Tally;
use tpcdaq::text::{
    contains_text, decimal_string, find_text, hex_string, is_decimal_fraction, is_white_space,
    join_texts, parse_unsigned, parse_whole_part, push_padded, push_wide_decimal, push_signed, same, split_lines, split_words,
    starts_with, string_of, trim,
};

fn chars(s: &str) -> Vec<char> {
    s.chars().collect()
}

fn strings(parts: Vec<Vec<char>>) -> Vec<String> {
    parts.iter().map(|p| p.iter().collect()).collect()
}

const SAMPLES: [&str; 12] = [
    "", " ", "a", "a b", "  a\tb\u{3000}c ", "a\nb", "a\n", "\n", "a\r\nb\r", "\r\n\r\n", "x\u{85}y",
    "µm\u{a0}ßz",
];

#[test]
fn text_is_split_as_the_language_splits_it() {
    for s in SAMPLES {
        let words: Vec<String> = s.split_whitespace().map(|w| w.to_string()).collect();
        assert_eq!(strings(split_words(&chars(s))), words, "{s:?}");
        let lines: Vec<String> = s.lines().map(|l| l.to_string()).collect();
        assert_eq!(strings(split_lines(&chars(s))), lines, "{s:?}");
        assert_eq!(trim(&chars(s)), chars(s.trim()), "{s:?}");
        assert_eq!(string_of(&chars(s)), s);
    }
}

#[test]
fn white_space_is_what_the_language_says() {
    for c in '\0'..='\u{ffff}' {
        assert_eq!(is_white_space(c), c.is_whitespace(), "{c:?}");
    }
}

#[test]
fn numbers_are_written_and_read() {
    for n in [0u64, 1, 9, 10, 99, 100, 4294967295, u64::MAX] {
        assert_eq!(decimal_string(n), n.to_string());
        assert_eq!(parse_unsigned(&chars(&n.to_string()), u64::MAX), Some(n));
    }
    for (n, width, expected) in [(7u64, 4usize, "0007"), (12345, 4, "12345"), (0, 0, "0")] {
        let mut s = String::new();
        push_padded(&mut s, n, width);
        assert_eq!(s, expected);
    }
    for n in [0i32, -1, 5, i32::MIN, i32::MAX] {
        let mut s = "n=".to_string();
        push_signed(&mut s, n);
        assert_eq!(s, format!("n={n}"));
    }
}

#[test]
fn a_number_reads_as_the_language_reads_it() {
    for s in ["", "+", "+5", "-5", "007", "255", "256", "1 ", "x", "1_0", "18446744073709551616"] {
        assert_eq!(
            parse_unsigned(&chars(s), 255),
            s.parse::<u8>().ok().map(u64::from),
            "{s:?}"
        );
        assert_eq!(parse_unsigned(&chars(s), u64::MAX), s.parse::<u64>().ok(), "{s:?}");
    }
}

#[test]
fn a_fraction_is_what_the_language_reads_as_one() {
    for s in [
        "1", "1.", ".1", ".", "", "-", "+.5e-7", "1e", "1e+", "e1", "INF", "Infinity", "nAn",
        "-nan", "infinit", "1.5.2", "0x10", "1e1000", "1,5", "١",
    ] {
        assert_eq!(is_decimal_fraction(&chars(s)), s.parse::<f64>().is_ok(), "{s:?}");
    }
}

#[test]
fn texts_are_joined_and_found() {
    let parts: Vec<String> = ["a", "", "bc"].iter().map(|s| s.to_string()).collect();
    assert_eq!(join_texts(&parts, ", "), "a, , bc");
    assert_eq!(join_texts(&vec![], ", "), "");
    assert!(contains_text(&parts, "bc"));
    assert!(!contains_text(&parts, "b"));
    assert!(same("ab", "ab") && !same("ab", "ac") && !same("ab", "abc"));
    assert!(starts_with(&chars("ANGLES: 1"), "ANGLES:"));
    assert!(!starts_with(&chars("ANG"), "ANGLES:"));
    assert_eq!(find_text(&chars("abcabc"), "ca"), Some(2));
    assert_eq!(find_text(&chars("abc"), "d"), None);
    assert_eq!(find_text(&chars("abc"), ""), Some(0));
    assert_eq!(hex_string(&[0, 0x0f, 0xa5, 255]), "000fa5ff");
}

#[test]
fn a_tally_is_listed_in_ascending_order() {
    let mut tally = Tally::new();
    for (key, n) in [(5u64, 1u64), (2, 7), (9, 3), (2, 8)] {
        tally.set(key, n);
    }
    assert_eq!(tally.list(), vec![(2, 8), (5, 1), (9, 3)]);
    assert_eq!((tally.get(2), tally.get(3)), (8, 0));
    assert!(tally.has(9) && !tally.has(3));
}

#[test]
fn bytes_are_read_in_either_order() {
    let data = [0x01u8, 0x02, 0x03, 0x04, 0x05, 0x06];
    assert_eq!(read_uint(&data, false), 0x0102_0304_0506);
    assert_eq!(read_uint(&data, true), 0x0605_0403_0201);
    assert_eq!(read_uint(&[], true), 0);
    assert_eq!(read_u16_at(&data, 1, false), 0x0203);
    assert_eq!(read_u16_at(&data, 1, true), 0x0302);
    assert_eq!(read_u32_at(&data, 2, false), 0x0304_0506);
    assert_eq!(read_u32_at(&data, 2, true), 0x0605_0403);
}

#[test]
fn parts_that_were_joined_are_split_again() {
    for parts in [vec!["a", "b", ""], vec![""], vec!["", ""], vec!["x y", "é", "3"]] {
        let owned: Vec<String> = parts.iter().map(|s| s.to_string()).collect();
        let joined = tpcdaq::text::join_texts(&owned, ",");
        let chars: Vec<char> = joined.chars().collect();
        assert_eq!(tpcdaq::text::split_at_each(&chars, ','), parts);
        assert_eq!(joined.split(',').collect::<Vec<_>>(), parts);
    }
}

#[test]
fn the_whole_part_is_that_of_the_number_read() {
    for s in [
        "0", "7", "7.", ".7", "12.99", "1e3", "1.25e1", "1250e-2", "12345e-9", "0e99999999999999999999",
        "0.00012e5", "1E2", "+3.5", "123.456e2", "999999e-5", "4503599627370496",
    ] {
        let value: f64 = s.parse().unwrap();
        assert_eq!(parse_whole_part(&chars(s)), Some(value as u64), "{s:?}");
    }
    for s in ["-1", "-0", "-0.5e9", "-1e99"] {
        assert_eq!(parse_whole_part(&chars(s)), Some(0), "{s:?}");
    }
    for s in ["18446744073709551616", "1e20", "1e99999999999999999999999", "2e19"] {
        assert_eq!(parse_whole_part(&chars(s)), Some(u64::MAX), "{s:?}");
    }
    assert_eq!(parse_whole_part(&chars("18446744073709551615")), Some(u64::MAX));
    assert_eq!(parse_whole_part(&chars("1844674407370955161.4e1")), Some(18446744073709551614));
    assert_eq!(parse_whole_part(&chars("1e-99999999999999999999999")), Some(0));
    for s in ["", "nan", "-inf", "Infinity", "1e", "x", "--1", "."] {
        assert_eq!(parse_whole_part(&chars(s)), None, "{s:?}");
    }
}

#[test]
fn long_numbers_are_written_whole() {
    for n in [0, 9, 10, u128::from(u64::MAX), u128::from(u64::MAX) * 1000, u128::MAX] {
        let mut s = "n=".to_string();
        push_wide_decimal(&mut s, n);
        assert_eq!(s, format!("n={n}"));
    }
}
