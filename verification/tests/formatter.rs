use rotation_logger::formatter::TemplateError;
use rotation_logger::mask::TextAlign;
use rotation_logger::{Message, MessageFormatter, Moment};

#[test]
fn test_message_formatter_output() {
    let variants = vec![
        (
            "{timestamp:-6:30:right}{splitter}{modules:_:_:left}{splitter}{message}",
            "       2026-02-18 15:44:00.129::Some1::Some2                  ::          test text           ".to_string(),
            30,
        ),
        (
            "{modules:_:_:left}{splitter}{message}",
            "Some1::Some2                  ::          test text           ".to_string(),
            0,
        ),
        (
            "{modules:_:_:left}{splitter}{message}{message}",
            "Some1::Some2                  ::          test text                     test text           ".to_string(),
            0,
        ),
    ];

    let modules = vec!["Some1".into(), "Some2".into()];
    let message = Message::new(&modules, "test text");

    for (format, result, cut) in variants {
        let formatter = MessageFormatter::new("::", format, "%Y-%m-%d %H:%M:%S.%f");

        let formatted_message = formatter.format(&message, &afternoon());
        assert_eq!(formatted_message[cut..], result[cut..]);
    }
}

/// 2026-02-18 15:44:00.129 where local time is UTC.
fn afternoon() -> Moment {
    Moment { seconds: 1771429440, nanoseconds: 129_000_000, offset: 0 }
}

/// 2031-05-06 23:30:00 UTC, where local time is an hour ahead.
fn late_evening() -> Moment {
    Moment { seconds: 1935876600, nanoseconds: 5, offset: 3600 }
}

fn message() -> Message {
    let modules = vec!["Some1".to_string(), "Some2".to_string()];
    Message::new(&modules, "test text")
}

#[test]
fn modules_left_then_splitter_then_message_centred() {
    let formatter = MessageFormatter::new("::", "{modules:_:_:left}{splitter}{message}", "");
    let line = formatter.format(&message(), &afternoon());
    assert_eq!(
        line,
        format!("{:<30}::{:^30}", "Some1::Some2", "test text")
    );
    assert_eq!(line.len(), 62);
}

#[test]
fn render_takes_the_time_as_text() {
    let formatter = MessageFormatter::new(
        "|",
        "[{timestamp:4:6:right}] {modules:_:12:left}{splitter}{message:-5:6:center}",
        "%Y",
    );
    let line = formatter.render(&message(), "2031-05-06");
    assert_eq!(line, "[  2031] Some1|Some2 | test ");
}

#[test]
fn rendering_twice_with_one_time_gives_one_line() {
    let formatter = MessageFormatter::new("::", "{timestamp}{splitter}{message}", "%H");
    let first = formatter.render(&message(), "10:00:00");
    let second = formatter.render(&message(), "10:00:00");
    let later = formatter.render(&message(), "10:00:01.5");
    assert_eq!(first, second);
    assert_eq!(first.len(), later.len());
    assert_eq!(first[30..], later[30..]);
}

#[test]
fn format_without_time_mask_is_repeatable() {
    let formatter = MessageFormatter::new("::", "{modules}{splitter}{message}", "%H:%M:%S%.f");
    assert_eq!(
        formatter.format(&message(), &afternoon()),
        formatter.format(&message(), &late_evening())
    );
}

#[test]
fn format_writes_the_moment_under_the_pattern() {
    let formatter = MessageFormatter::new("", "{timestamp:_:4}", "%Y");
    assert_eq!(formatter.format(&message(), &afternoon()), "2026");
    let formatter = MessageFormatter::new(
        "::",
        "{timestamp:-6:30:right}{splitter}{modules:_:_:left}{splitter}{message}",
        "%Y-%m-%d %H:%M:%S.%f",
    );
    assert_eq!(
        formatter.format(&message(), &afternoon()),
        "       2026-02-18 15:44:00.129::Some1::Some2                  ::          test text           "
    );
}

#[test]
fn format_writes_local_time() {
    let formatter = MessageFormatter::new("", "{timestamp:_:29:left}|", "%Y-%m-%d %H:%M:%S%.9f %z");
    assert_eq!(
        formatter.format(&message(), &late_evening()),
        "2031-05-07 00:30:00.000000005|"
    );
    let formatter = MessageFormatter::new("", "{timestamp:40:36:left}|", "%Y-%m-%d %H:%M:%S%.9f %z");
    assert_eq!(
        formatter.format(&message(), &late_evening()),
        "2031-05-07 00:30:00.000000005 +0100 |"
    );
    let west = Moment { seconds: 0, nanoseconds: 0, offset: -5 * 3600 };
    let formatter = MessageFormatter::new("", "{timestamp:40:19}", "%Y-%m-%d %H:%M:%S");
    assert_eq!(formatter.format(&message(), &west), "1969-12-31 19:00:00");
}

#[test]
fn format_at_one_moment_gives_one_line() {
    let formatter = MessageFormatter::new("::", "{timestamp}{splitter}{message}", "%H:%M:%S%.f");
    let first = formatter.format(&message(), &afternoon());
    let second = formatter.format(&message(), &afternoon());
    let later = formatter.format(&message(), &late_evening());
    assert_eq!(first, second);
    assert_ne!(first, later);
    assert_eq!(first.len(), later.len());
    assert_eq!(first[30..], later[30..]);
}

#[test]
fn format_with_empty_pattern_leaves_the_time_column_blank() {
    let formatter = MessageFormatter::new("", "{timestamp:_:5}|", "");
    assert_eq!(formatter.format(&message(), &afternoon()), "     |");
}

#[test]
fn format_with_a_pattern_that_cannot_be_written_leaves_the_time_column_blank() {
    let formatter = MessageFormatter::new("", "{timestamp:_:5}|{message:_:9}", "%Q");
    assert_eq!(formatter.format(&message(), &afternoon()), "     |test text");
}

#[test]
fn format_at_a_moment_out_of_range_leaves_the_time_column_blank() {
    let formatter = MessageFormatter::new("", "{timestamp:_:5}|", "%Y");
    for now in [
        Moment { seconds: i64::MAX, nanoseconds: 0, offset: 0 },
        Moment { seconds: i64::MIN, nanoseconds: 0, offset: 0 },
        Moment { seconds: 0, nanoseconds: 2_000_000_000, offset: 0 },
        Moment { seconds: 0, nanoseconds: 0, offset: 86_400 },
        Moment { seconds: 0, nanoseconds: 0, offset: -86_400 },
        Moment { seconds: 0, nanoseconds: 0, offset: i32::MIN },
    ] {
        assert_eq!(formatter.format(&message(), &now), "     |");
    }
    let edge = Moment { seconds: 0, nanoseconds: 999_999_999, offset: 86_399 };
    assert_eq!(formatter.format(&message(), &edge), "1970 |");
}

#[test]
fn length_policy_keeps_leading_characters() {
    let f = MessageFormatter::default();
    assert_eq!(f._format_by_length("abcdef", &3), "abc");
    assert_eq!(f._format_by_length("abcdef", &6), "abcdef");
    assert_eq!(f._format_by_length("abcdef", &60), "abcdef");
    assert_eq!(f._format_by_length("", &2), "");
    assert_eq!(f._format_by_length("abcdef", &i32::MAX), "abcdef");
}

#[test]
fn length_policy_drops_trailing_characters() {
    let f = MessageFormatter::default();
    assert_eq!(f._format_by_length("abcdef", &-2), "abcd");
    assert_eq!(f._format_by_length("abcdef", &0), "abcdef");
    assert_eq!(f._format_by_length("abcdef", &-6), "");
    assert_eq!(f._format_by_length("abcdef", &-7), "");
    assert_eq!(f._format_by_length("abcdef", &i32::MIN), "");
}

#[test]
fn length_policy_counts_characters() {
    let f = MessageFormatter::default();
    assert_eq!(f._format_by_length("żółw idzie", &4), "żółw");
    assert_eq!(f._format_by_length("żółw", &-1), "żół");
}

#[test]
fn width_policy_cuts_long_values() {
    let f = MessageFormatter::default();
    assert_eq!(f._format_by_width_align("abcdef", &4, &TextAlign::Left), "abcd");
    assert_eq!(f._format_by_width_align("abcdef", &6, &TextAlign::Right), "abcdef");
    assert_eq!(f._format_by_width_align("abcdef", &0, &TextAlign::Center), "");
}

#[test]
fn width_policy_pads_short_values() {
    let f = MessageFormatter::default();
    assert_eq!(f._format_by_width_align("ab", &5, &TextAlign::Left), "ab   ");
    assert_eq!(f._format_by_width_align("ab", &5, &TextAlign::Right), "   ab");
    assert_eq!(f._format_by_width_align("ab", &5, &TextAlign::Center), " ab  ");
    assert_eq!(f._format_by_width_align("ab", &6, &TextAlign::Center), "  ab  ");
    assert_eq!(f._format_by_width_align("", &3, &TextAlign::Center), "   ");
    assert_eq!(f._format_by_width_align("żó", &4, &TextAlign::Right), "  żó");
}

#[test]
fn try_new_says_what_the_template_lacks() {
    assert_eq!(
        MessageFormatter::try_new("::", "message}", "").err(),
        Some(TemplateError::NoOpeningBrace)
    );
    assert_eq!(
        MessageFormatter::try_new("::", "plain", "").err(),
        Some(TemplateError::NoOpeningBrace)
    );
    assert_eq!(
        MessageFormatter::try_new("::", "", "").err(),
        Some(TemplateError::NoOpeningBrace)
    );
    assert_eq!(
        MessageFormatter::try_new("::", "{message", "").err(),
        Some(TemplateError::NoClosingBrace)
    );
    let formatter = MessageFormatter::try_new("::", "}{", "").unwrap();
    assert_eq!(formatter.render(&message(), ""), "}{");
}

#[test]
fn default_formatter_separates_the_columns() {
    let line = MessageFormatter::default().render(&message(), "now");
    let now = format!("{:^30}", "now");
    let modules = format!("{:^30}", "Some1::Some2");
    let text = format!("{:^30}", "test text");
    assert_eq!(line, format!("{now} :: {modules} :: {text}"));
}
