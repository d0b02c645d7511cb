use wb_switch_core::numerals::{decimal, parse_bounded};
use wb_switch_core::paths::FilePath;
use wb_switch_core::text::{
    byte_length, byte_prefix, eq_ignoring_case, find_byte, find_text, replace_text, separate,
    slice_bytes, split_at_set, split_lines, split_words, starts_with_text, trim, trim_end_of,
    trim_start_of, CharSet,
};

const SAMPLES: [&str; 14] = [
    "",
    " ",
    "a",
    "  a b  ",
    "a\n",
    "a\r\nb\n\nc\r",
    "\r\n",
    "错误 50\u{3000}",
    "\u{85}\u{a0}x\u{2028}",
    "aXbXX",
    "/a//b/",
    "aaaaa",
    "é🦀ß",
    "K\u{212a}k",
];

#[test]
fn texts_are_cut_as_std_cuts_them() {
    for s in SAMPLES {
        assert_eq!(trim(s), s.trim());
        assert_eq!(trim_start_of(s, CharSet::One('a')), s.trim_start_matches('a'));
        assert_eq!(trim_end_of(s, CharSet::Slashes), s.trim_end_matches(['/', '\\']));
        assert_eq!(split_lines(s), s.lines().collect::<Vec<_>>());
        assert_eq!(split_words(s), s.split_whitespace().collect::<Vec<_>>());
        assert_eq!(
            split_at_set(s, CharSet::DateMarks),
            s.split(['/', '_', '-']).collect::<Vec<_>>()
        );
        assert_eq!(byte_length(s), s.len());
        for t in SAMPLES {
            assert_eq!(starts_with_text(s, t), s.starts_with(t));
            assert_eq!(find_byte(s, t), s.find(t));
            assert_eq!(find_text(s, t).is_some(), s.contains(t));
            assert_eq!(eq_ignoring_case(s, t), s.eq_ignore_ascii_case(t));
            assert_eq!(replace_text(s, t, "<>"), s.replace(t, "<>"));
        }
        for from in 0..8 {
            for to in 0..8 {
                assert_eq!(slice_bytes(s, from, to).as_deref(), s.get(from..to));
            }
            let mut end = from.min(s.len());
            while !s.is_char_boundary(end) {
                end -= 1;
            }
            assert_eq!(byte_prefix(s, from), &s[..end]);
        }
    }
}

#[test]
fn white_space_is_what_unicode_calls_so() {
    for code in 0..=0x10FFFFu32 {
        if let Some(c) = char::from_u32(code) {
            let mut buffer = [0u8; 4];
            let s: &str = c.encode_utf8(&mut buffer);
            if c.is_whitespace() || code < 0x3100 {
                assert_eq!(trim(s).is_empty(), c.is_whitespace(), "{code:x}");
            }
        }
    }
}

#[test]
fn numerals_are_read_as_std_reads_them() {
    for s in [
        "", "+", "-", "0", "-0", "+7", "-7", "007", "7 ", "٣", "2147483647", "2147483648",
        "-2147483648", "-2147483649", "4294967295", "4294967296", "9223372036854775807",
        "9223372036854775808", "-9223372036854775808", "-9223372036854775809",
        "99999999999999999999999",
    ] {
        assert_eq!(parse_bounded(s, true, i64::MIN, i64::MAX), s.parse::<i64>().ok(), "{s}");
        assert_eq!(
            parse_bounded(s, true, i32::MIN as i64, i32::MAX as i64),
            s.parse::<i32>().ok().map(i64::from),
            "{s}"
        );
        assert_eq!(
            parse_bounded(s, false, 0, u32::MAX as i64),
            s.parse::<u32>().ok().map(i64::from),
            "{s}"
        );
    }
    for n in [0, 7, -7, 10, 909, i64::MAX, i64::MIN] {
        assert_eq!(decimal(n), n.to_string());
    }
}

#[test]
fn lists_and_paths_are_put_together() {
    let list = vec!["a".to_string(), "b".to_string(), "c".to_string()];
    assert_eq!(separate(&list, "；"), "a；b；c");
    assert_eq!(separate(&Vec::new(), "x"), "");
    let path = FilePath::at("C:\\Users\\me").join("a").join("b.txt");
    assert_eq!(path.base, "C:\\Users\\me");
    assert_eq!(path.names, vec!["a", "b.txt"]);
    assert!(FilePath::at("/").names.is_empty());
}
