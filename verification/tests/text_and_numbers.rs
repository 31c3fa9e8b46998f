use kid_phone_server::numbers::{
    i64_text, parse_i32, parse_i64, parse_u32, parse_u64, parse_usize, two_digit_text, u64_text,
};
use kid_phone_server::order::{less_text, sort_numbers, sort_texts, TextSet};
use kid_phone_server::text::{
    after_text, before, before_text, contains_char, contains_text, digit, ends_with, find_text,
    first_word, lines, same_text, split, split_once, starts_with, strip_prefix, strip_suffix, trim,
    trim_end_digits, trim_end_matches, white_space,
};

const SAMPLES: [&str; 24] = [
    "", " ", "a", " a ", "\ta b\n", "a,b,,c", ",", "a=b=c", "=", "line\nnext\r\nlast", "\n", "\r\n",
    "x\n", "x\r", "abcabc", "bcab", "0.0.0.0 example.org", "#comment", "caf\u{e9} \u{a0}",
    "\u{2003}wide\u{2003}", "///", "sda12", "mmcblk0p2", "\u{1F4CE} clip",
];

#[test]
fn white_space_is_that_of_the_standard_library() {
    for code in 0u32..0x11_0000 {
        if let Some(c) = char::from_u32(code) {
            assert_eq!(white_space(c), c.is_whitespace(), "{code:#x}");
            assert_eq!(digit(c), c.is_ascii_digit(), "{code:#x}");
        }
    }
}

#[test]
fn cutting_texts_up_agrees_with_the_standard_library() {
    for s in SAMPLES {
        assert_eq!(trim(s), s.trim(), "{s:?}");
        assert_eq!(trim_end_digits(s), s.trim_end_matches(|c: char| c.is_ascii_digit()));
        assert_eq!(lines(s), s.lines().collect::<Vec<_>>(), "{s:?}");
        for c in ['a', ',', '=', '/', '#', '\n', ' ', '.'] {
            assert_eq!(trim_end_matches(s, c), s.trim_end_matches(c));
            assert_eq!(split(s, c), s.split(c).collect::<Vec<_>>(), "{s:?} {c:?}");
            assert_eq!(before(s, c), s.split(c).next().unwrap());
            assert_eq!(
                split_once(s, c),
                s.split_once(c).map(|(a, b)| (a.to_string(), b.to_string()))
            );
            assert_eq!(contains_char(s, c), s.contains(c));
        }
        for part in ["", "a", "abc", "bc", "caf\u{e9}", "p", "..", "0.0.0.0"] {
            assert_eq!(starts_with(s, part), s.starts_with(part));
            assert_eq!(ends_with(s, part), s.ends_with(part));
            assert_eq!(contains_text(s, part), s.contains(part));
            assert_eq!(strip_prefix(s, part), s.strip_prefix(part).map(str::to_string));
            assert_eq!(strip_suffix(s, part), s.strip_suffix(part).map(str::to_string));
            assert_eq!(find_text(s, part), s.find(part).map(|i| s[..i].chars().count()));
            assert_eq!(after_text(s, part), s.split_once(part).map(|(_, b)| b.to_string()));
            assert_eq!(before_text(s, part), s.split_once(part).map_or(s, |(a, _)| a));
            assert_eq!(same_text(s, part), s == part);
        }
        assert_eq!(first_word(s), s.split_whitespace().next().unwrap_or(""));
    }
}

#[test]
fn numbers_are_read_as_the_standard_library_reads_them() {
    let samples = [
        "", "0", "7", "-7", "+7", "+", "-", "--1", "+-1", " 1", "1 ", "00012", "-0", "1_000", "1.5",
        "255", "2147483647", "2147483648", "-2147483648", "-2147483649", "4294967295", "4294967296",
        "9223372036854775807", "9223372036854775808", "-9223372036854775808",
        "-9223372036854775809", "18446744073709551615", "18446744073709551616",
        "99999999999999999999999999", "\u{661}",
    ];
    for s in samples {
        assert_eq!(parse_i64(s), s.parse::<i64>().ok(), "{s:?}");
        assert_eq!(parse_i32(s), s.parse::<i32>().ok(), "{s:?}");
        assert_eq!(parse_u64(s), s.parse::<u64>().ok(), "{s:?}");
        assert_eq!(parse_u32(s), s.parse::<u32>().ok(), "{s:?}");
        assert_eq!(parse_usize(s), s.parse::<usize>().ok(), "{s:?}");
    }
}

#[test]
fn numbers_are_written_as_the_standard_library_writes_them() {
    for n in [0i64, 1, 9, 10, 99, 100, -1, -9, -10, 12345, i64::MAX, i64::MIN] {
        assert_eq!(i64_text(n), n.to_string());
        assert_eq!(two_digit_text(n), format!("{n:02}"));
    }
    for n in [0u64, 9, 10, u64::MAX] {
        assert_eq!(u64_text(n), n.to_string());
    }
}

#[test]
fn texts_are_ordered_and_sorted_as_the_standard_library_does() {
    for a in SAMPLES {
        for b in SAMPLES {
            assert_eq!(less_text(a, b), a < b, "{a:?} {b:?}");
        }
    }
    let given: Vec<String> = SAMPLES.iter().rev().map(|s| s.to_string()).collect();
    let mut wanted = given.clone();
    wanted.sort();
    assert_eq!(sort_texts(given), wanted);
    assert_eq!(sort_numbers(&vec![3, -1, 3, 2, i64::MIN]), vec![i64::MIN, -1, 2, 3, 3]);
}

#[test]
fn a_set_of_texts_holds_each_text_once() {
    let set = TextSet::from_texts(["b", "a", "b", "c", "a"].map(String::from).to_vec());
    assert_eq!(set.to_list(), ["a", "b", "c"]);
    assert_eq!(set.len(), 3);
    assert_eq!(set.at(1), "b");
    assert!(set.contains("c"));
    assert!(!set.contains("d"));
    assert_eq!(TextSet::new().len(), 0);
}
