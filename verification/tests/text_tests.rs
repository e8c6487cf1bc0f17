use nomad_lite::clock::{millis_between, ms_to_datetime, Clock, Timestamp};
use nomad_lite::proto::JobStatus;
use nomad_lite::text::{
    byte_len, chars_of, contains_text, debug_opt_i32, debug_opt_u64, decimal_text, is_blank,
    is_white_space, lines_of, pad, parse_number, repeat, shorten, signed_decimal_text, split_text,
    strip_prefix, to_ascii_lowercase, trim,
};

#[test]
fn numbers_are_written_and_read() {
    for n in [0, 7, 10, 907, u64::MAX] {
        assert_eq!(decimal_text(n), n.to_string());
        assert_eq!(parse_number(&decimal_text(n), u64::MAX), Some(n));
    }
    for n in [0, -1, i32::MIN, i32::MAX] {
        assert_eq!(signed_decimal_text(n), n.to_string());
    }
    assert_eq!(debug_opt_u64(&Some(3)), format!("{:?}", Some(3u64)));
    assert_eq!(debug_opt_u64(&None), "None");
    assert_eq!(debug_opt_i32(&Some(-3)), "Some(-3)");
    assert_eq!(parse_number("300", 255), None);
    assert_eq!(parse_number("+255", 255), Some(255));
    for text in ["", "+", "-1", "1x", " 1", "\u{661}"] {
        assert_eq!(parse_number(text, u64::MAX), None);
        assert!(text.parse::<u64>().is_err());
    }
}

#[test]
fn white_space_is_that_of_unicode() {
    for code in 0..0x3100u32 {
        if let Some(c) = char::from_u32(code) {
            assert_eq!(is_white_space(c), c.is_whitespace());
        }
    }
    assert!(is_blank(""));
    assert!(is_blank(" \t\u{2003}"));
    assert!(!is_blank(" a "));
    for text in ["", "  ", " a b ", "\u{a0}x\n"] {
        assert_eq!(trim(text), text.trim());
    }
}

#[test]
fn texts_are_taken_apart() {
    assert_eq!(chars_of("a\u{e4}"), vec!['a', '\u{e4}']);
    assert_eq!(byte_len("a\u{e4}"), 3);
    for text in ["", ",", "a,b,,c", "\u{e4},"] {
        let expected: Vec<&str> = text.split(',').collect();
        assert_eq!(split_text(text, ','), expected);
    }
    for text in ["", "\n", "a", "a\n", "a\r\nb", "a\r", "\r\n\n", "a\n\nb\n"] {
        let expected: Vec<&str> = text.lines().collect();
        assert_eq!(lines_of(text), expected);
    }
    for (whole, part) in [("", ""), ("abc", ""), ("abc", "bc"), ("abc", "cb"), ("aab", "ab"), ("a", "ab")] {
        assert_eq!(contains_text(whole, part), whole.contains(part));
        assert_eq!(strip_prefix(whole, part), whole.strip_prefix(part));
    }
}

#[test]
fn ascii_letters_are_put_in_lower_case() {
    for text in ["", "abc", "AbZ-09", "@AZ[`az{", "\u{c4}B\u{e9}"] {
        assert_eq!(to_ascii_lowercase(text), text.to_ascii_lowercase());
    }
}

#[test]
fn texts_are_laid_out() {
    assert_eq!(repeat("-", 3), "---");
    assert_eq!(repeat("-", 0), "");
    assert_eq!(pad("\u{e4}b", 4), format!("{:<4}", "\u{e4}b"));
    assert_eq!(pad("abcde", 4), "abcde");
    assert_eq!(shorten("abcdef", 5, 3), "abc...");
    assert_eq!(shorten("abcde", 5, 3), "abcde");
    assert_eq!(shorten("a\u{e4}cdef", 5, 3), "a\u{e4}...");
    // A letter is never taken apart
    assert_eq!(shorten("a\u{e4}cdef", 5, 2), "a...");
    assert_eq!(shorten("\u{1f600}\u{1f600}", 5, 3), "...");
    assert_eq!(shorten("\u{1f600}\u{1f600}", 5, 7), "\u{1f600}...");
    assert_eq!(shorten("abcdef", 5, 9), "abcdef...");
}

#[test]
fn moments_are_counted_in_milliseconds() {
    let t = Timestamp {
        seconds: -1,
        nanos: 999_999_999,
    };
    assert_eq!(t.timestamp_millis(), -1);
    assert_eq!(
        ms_to_datetime(-1),
        Timestamp {
            seconds: -1,
            nanos: 999_000_000,
        }
    );
    assert_eq!(ms_to_datetime(i64::MAX), Timestamp::epoch());
    assert_eq!(ms_to_datetime(1_500).to_rfc3339(), "1970-01-01T00:00:01.500+00:00");
    assert_eq!(millis_between(1_000_000, 4_500_000), 3);
    assert_eq!(millis_between(4, 1), 0);
    let clock = Clock::start();
    let first = clock.now();
    let second = clock.now();
    assert!(first <= second);
}

#[test]
fn statuses_have_numbers() {
    for number in 0..6 {
        assert_eq!(JobStatus::from_number(number).unwrap().to_number(), number);
    }
    assert_eq!(JobStatus::from_number(6), None);
    assert_eq!(JobStatus::from_number(-1), None);
    assert_eq!(JobStatus::from_number_or_unspecified(9), JobStatus::Unspecified);
}
