use rotation_logger::decimal::{append_decimal, parse_i32, parse_unsigned, read_digits};
use rotation_logger::order::{insert_sorted, less};
use rotation_logger::text::{
    append_spaces, chars_of, contains_text, find_char, is_word, join, lower_char, matches_at,
    remove_all, slice_of, starts_with, text_after_last,
};

fn chars(s: &str) -> Vec<char> {
    s.chars().collect()
}

#[test]
fn characters_of_a_text() {
    assert_eq!(chars_of("aż∑"), vec!['a', 'ż', '∑']);
    assert_eq!(chars_of(""), Vec::<char>::new());
}

#[test]
fn first_position_of_a_character() {
    let v = chars("a:b:c");
    assert_eq!(find_char(&v, 0, ':'), 1);
    assert_eq!(find_char(&v, 1, ':'), 1);
    assert_eq!(find_char(&v, 2, ':'), 3);
    assert_eq!(find_char(&v, 4, ':'), 5);
    assert_eq!(find_char(&v, 5, ':'), 5);
    assert_eq!(find_char(&chars(""), 0, ':'), 0);
}

#[test]
fn part_of_a_text_by_characters() {
    assert_eq!(slice_of("żółw", 1, 3), "ół");
    assert_eq!(slice_of("abc", 0, 3), "abc");
    assert_eq!(slice_of("abc", 2, 2), "");
}

#[test]
fn lower_case_of_ascii_capitals_only() {
    assert_eq!(lower_char('A'), 'a');
    assert_eq!(lower_char('Z'), 'z');
    assert_eq!(lower_char('a'), 'a');
    assert_eq!(lower_char('@'), '@');
    assert_eq!(lower_char('['), '[');
    assert_eq!(lower_char('Ż'), 'Ż');
    assert_eq!(lower_char('\u{212A}'), '\u{212A}');
}

#[test]
fn words_in_any_case() {
    assert!(is_word("LeFt", "left"));
    assert!(is_word("left", "left"));
    assert!(!is_word("lef", "left"));
    assert!(!is_word("lefty", "left"));
    assert!(!is_word("left", "LEFT"));
    assert!(is_word("", ""));
}

#[test]
fn spaces_are_appended() {
    let mut s = String::from("x");
    append_spaces(&mut s, 3);
    assert_eq!(s, "x   ");
    append_spaces(&mut s, 0);
    assert_eq!(s, "x   ");
}

#[test]
fn parts_are_joined() {
    let parts = vec!["a".to_string(), "".to_string(), "bc".to_string()];
    assert_eq!(join(&parts, "::"), "a::::bc");
    assert_eq!(join(&parts[..1].to_vec(), "::"), "a");
    assert_eq!(join(&Vec::new(), "::"), "");
    assert_eq!(join(&parts, ""), "abc");
}

#[test]
fn pattern_at_a_position() {
    let s = chars("log.log12");
    assert!(matches_at(&s, &chars("log"), 0));
    assert!(matches_at(&s, &chars("log"), 4));
    assert!(!matches_at(&s, &chars("log"), 1));
    assert!(matches_at(&s, &chars(""), 9));
    assert!(starts_with(&s, &chars("log.")));
    assert!(starts_with(&s, &chars("")));
    assert!(!starts_with(&s, &chars("og")));
    assert!(!starts_with(&chars("lo"), &chars("log")));
}

#[test]
fn pattern_somewhere() {
    let s = chars("log.log12");
    assert!(contains_text(&s, &chars(".log")));
    assert!(contains_text(&s, &chars("12")));
    assert!(contains_text(&s, &chars("")));
    assert!(!contains_text(&s, &chars(".txt")));
    assert!(!contains_text(&s, &chars("log.log123")));
    assert!(contains_text(&chars(""), &chars("")));
}

#[test]
fn text_behind_the_last_dot() {
    assert_eq!(text_after_last("log.log12", '.'), "log12");
    assert_eq!(text_after_last("a.b.c", '.'), "c");
    assert_eq!(text_after_last("abc", '.'), "abc");
    assert_eq!(text_after_last("abc.", '.'), "");
    assert_eq!(text_after_last("", '.'), "");
}

#[test]
fn every_occurrence_is_taken_out() {
    assert_eq!(remove_all("log12", "log"), "12");
    assert_eq!(remove_all("log", "log"), "");
    assert_eq!(remove_all("1log2log3", "log"), "123");
    assert_eq!(remove_all("aaa", "aa"), "a");
    assert_eq!(remove_all("abc", ""), "abc");
    assert_eq!(remove_all("lo", "log"), "lo");
    assert_eq!(remove_all("", "log"), "");
    assert_eq!(remove_all("ababa", "aba"), "ba");
}

#[test]
fn digits_are_read() {
    assert_eq!(read_digits(&chars("x120"), 1, 1000), Some(120));
    assert_eq!(read_digits(&chars("120"), 0, 120), Some(120));
    assert_eq!(read_digits(&chars("120"), 0, 119), None);
    assert_eq!(read_digits(&chars("120"), 3, 119), None);
    assert_eq!(read_digits(&chars("12a"), 0, 1000), None);
    assert_eq!(read_digits(&chars("18446744073709551615"), 0, u64::MAX), Some(u64::MAX));
    assert_eq!(read_digits(&chars("18446744073709551616"), 0, u64::MAX), None);
    assert_eq!(read_digits(&chars("١٢"), 0, 100), None);
}

#[test]
fn signed_numbers_are_read() {
    assert_eq!(parse_i32("0"), Some(0));
    assert_eq!(parse_i32("-6"), Some(-6));
    assert_eq!(parse_i32("+6"), Some(6));
    assert_eq!(parse_i32("007"), Some(7));
    assert_eq!(parse_i32("2147483647"), Some(i32::MAX));
    assert_eq!(parse_i32("2147483648"), None);
    assert_eq!(parse_i32("-2147483648"), Some(i32::MIN));
    assert_eq!(parse_i32("-2147483649"), None);
    assert_eq!(parse_i32(""), None);
    assert_eq!(parse_i32("-"), None);
    assert_eq!(parse_i32("+"), None);
    assert_eq!(parse_i32("--1"), None);
    assert_eq!(parse_i32("1 "), None);
    assert_eq!(parse_i32("_"), None);
    assert_eq!(parse_i32("1_000"), None);
    for text in ["0", "-6", "+6", "007", "2147483648", "-2147483648", "", "-", "+", "1 ", "_"] {
        assert_eq!(parse_i32(text), text.parse::<i32>().ok());
    }
}

#[test]
fn unsigned_numbers_are_read() {
    assert_eq!(parse_unsigned("42", 100), Some(42));
    assert_eq!(parse_unsigned("+42", 100), Some(42));
    assert_eq!(parse_unsigned("-42", 100), None);
    assert_eq!(parse_unsigned("101", 100), None);
    assert_eq!(parse_unsigned("", 100), None);
    assert_eq!(parse_unsigned("+", 100), None);
    assert_eq!(parse_unsigned("4294967295", 0xffff_ffff), Some(4294967295));
    assert_eq!(parse_unsigned("4294967296", 0xffff_ffff), None);
    for text in ["42", "+42", "-42", "", "+", "4294967295", "4294967296", "0x1"] {
        assert_eq!(
            parse_unsigned(text, 0xffff_ffff),
            text.parse::<u32>().ok().map(u64::from)
        );
    }
}

#[test]
fn numbers_are_written() {
    for n in [0u64, 7, 10, 99, 100, 4294967296, u64::MAX] {
        let mut s = String::from("n=");
        append_decimal(&mut s, n);
        assert_eq!(s, format!("n={n}"));
    }
}

#[test]
fn order_of_texts() {
    assert!(less("log.log", "log.log1"));
    assert!(less("log.log1", "log.log2"));
    assert!(less("log.log10", "log.log2"));
    assert!(!less("log.log2", "log.log10"));
    assert!(!less("a", "a"));
    assert!(less("", "a"));
    assert!(!less("a", ""));
    assert!(less("Z", "a"));
    assert!(less("z", "ż"));
    let samples = ["", "a", "ab", "b", "log.log", "log.log1", "log.log10", "log.log2", "ż", "z"];
    for a in samples {
        for b in samples {
            assert_eq!(less(a, b), a < b, "{a:?} {b:?}");
        }
    }
}

#[test]
fn insertion_keeps_the_order() {
    let mut v: Vec<String> = Vec::new();
    for name in ["log.log2", "log.log", "log.log10", "log.log1", "log.log"] {
        insert_sorted(&mut v, name.to_string());
    }
    assert_eq!(v, vec!["log.log", "log.log", "log.log1", "log.log10", "log.log2"]);
}
