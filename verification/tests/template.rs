use rotation_logger::mask::{FormatMask, MaskType, TextAlign, DEFAULT_LENGTH, DEFAULT_WIDTH};
use rotation_logger::MessageFormatter;

fn raw_of(mask: &FormatMask) -> Option<&str> {
    match &mask.mask_type {
        MaskType::Raw(text) => Some(text.as_str()),
        _ => None,
    }
}

fn raw_text(masks: &[FormatMask]) -> String {
    masks.iter().filter_map(raw_of).collect()
}

#[test]
fn placeholder_defaults() {
    let mask = FormatMask::from("message");
    assert!(matches!(mask.mask_type, MaskType::Message));
    assert_eq!(mask.length, 30);
    assert_eq!(mask.width, 30);
    assert_eq!(mask.align, TextAlign::Center);
    assert_eq!(DEFAULT_LENGTH, 30);
    assert_eq!(DEFAULT_WIDTH, 30);
}

#[test]
fn placeholder_with_all_fields() {
    let mask = FormatMask::from("timestamp:-6:12:right");
    assert!(matches!(mask.mask_type, MaskType::Timestamp));
    assert_eq!(mask.length, -6);
    assert_eq!(mask.width, 12);
    assert_eq!(mask.align, TextAlign::Right);
}

#[test]
fn placeholder_names_in_any_case() {
    assert!(matches!(FormatMask::from("TimeStamp").mask_type, MaskType::Timestamp));
    assert!(matches!(FormatMask::from("SPLITTER").mask_type, MaskType::Splitter));
    assert!(matches!(FormatMask::from("Modules").mask_type, MaskType::Modules));
    assert!(matches!(FormatMask::from("mESSAGE:1").mask_type, MaskType::Message));
    assert_eq!(FormatMask::from("message:1:1:LEFT").align, TextAlign::Left);
    assert_eq!(FormatMask::from("message:1:1:Right").align, TextAlign::Right);
    assert_eq!(FormatMask::from("message:1:1:CENTER").align, TextAlign::Center);
}

#[test]
fn unknown_name_is_literal_text() {
    let mask = FormatMask::from("level:3:4:left");
    assert_eq!(raw_of(&mask), Some("level"));
    assert_eq!(mask.length, 3);
    assert_eq!(mask.width, 4);
    assert_eq!(raw_of(&FormatMask::from("")), Some(""));
    assert_eq!(raw_of(&FormatMask::from("messages")), Some("messages"));
    assert_eq!(raw_of(&FormatMask::from(" message")), Some(" message"));
    assert_eq!(raw_of(&FormatMask::from("tİmestamp")), Some("tİmestamp"));
}

#[test]
fn fields_that_are_no_numbers_take_the_default() {
    let mask = FormatMask::from("modules:_:_:left");
    assert!(matches!(mask.mask_type, MaskType::Modules));
    assert_eq!(mask.length, 30);
    assert_eq!(mask.width, 30);
    assert_eq!(mask.align, TextAlign::Left);
    assert_eq!(FormatMask::from("message::").length, 30);
    assert_eq!(FormatMask::from("message::").width, 30);
    assert_eq!(FormatMask::from("message: 5").length, 30);
    assert_eq!(FormatMask::from("message:5:-3").width, 30);
    assert_eq!(FormatMask::from("message:2147483648").length, 30);
    assert_eq!(FormatMask::from("message:-2147483648").length, i32::MIN);
    assert_eq!(FormatMask::from("message:+7:+8").length, 7);
    assert_eq!(FormatMask::from("message:+7:+8").width, 8);
    assert_eq!(FormatMask::from("message:1:99999999999999999999999").width, 30);
    assert_eq!(FormatMask::from("message:1:007").width, 7);
}

#[test]
fn zero_length_takes_the_default_and_zero_width_stays() {
    let mask = FormatMask::from("message:0:0");
    assert_eq!(mask.length, 30);
    assert_eq!(mask.width, 0);
    assert_eq!(FormatMask::from("message:-0").length, 30);
}

#[test]
fn unknown_alignment_is_centre() {
    assert_eq!(FormatMask::from("message:1:1:top").align, TextAlign::Center);
    assert_eq!(FormatMask::from("message:1:1:").align, TextAlign::Center);
}

#[test]
fn what_follows_the_third_colon_is_the_alignment() {
    assert_eq!(FormatMask::from("message:1:2:left:more").align, TextAlign::Center);
    let mask = FormatMask::from("message:1:2:right:::");
    assert_eq!(mask.length, 1);
    assert_eq!(mask.width, 2);
    assert_eq!(mask.align, TextAlign::Center);
}

#[test]
fn template_of_placeholders_only() {
    let masks = MessageFormatter::_set_masks(
        "{timestamp:-6:30:right}{splitter}{modules:_:_:left}{splitter}{message}",
    );
    assert_eq!(masks.len(), 5);
    assert!(matches!(masks[0].mask_type, MaskType::Timestamp));
    assert!(matches!(masks[1].mask_type, MaskType::Splitter));
    assert!(matches!(masks[2].mask_type, MaskType::Modules));
    assert!(matches!(masks[3].mask_type, MaskType::Splitter));
    assert!(matches!(masks[4].mask_type, MaskType::Message));
    assert_eq!(raw_text(&masks), "");
}

#[test]
fn literal_text_is_kept_as_it_is() {
    let masks = MessageFormatter::_set_masks("at: {timestamp} message {message:5}!");
    assert_eq!(masks.len(), 5);
    assert_eq!(raw_of(&masks[0]), Some("at: "));
    assert_eq!(raw_of(&masks[2]), Some(" message "));
    assert_eq!(raw_of(&masks[4]), Some("!"));
    assert_eq!(masks[0].length, 30);
    assert_eq!(masks[0].width, 30);
    assert_eq!(raw_text(&masks), "at:  message !");
}

#[test]
fn text_between_and_around_placeholders_is_reconstructed() {
    for template in [
        "{message}",
        "a{message}b{modules}c",
        "}{message}",
        "a}b{splitter}}c",
        "{message}{",
        "x{message}y{z",
        "{}",
        "{timestamp} {splitter} {modules} {splitter} {message}",
        "ż{MESSAGE:1:2:left}ó{Splitter}ł",
    ] {
        let masks = MessageFormatter::_set_masks(template);
        let mut outside = String::new();
        let mut rest = template;
        loop {
            let Some(open) = rest.find('{') else {
                outside.push_str(rest);
                break;
            };
            let Some(close) = rest[open..].find('}') else {
                outside.push_str(rest);
                break;
            };
            outside.push_str(&rest[..open]);
            rest = &rest[open + close + 1..];
        }
        assert_eq!(raw_text(&masks), outside, "template {template:?}");
    }
}

#[test]
fn a_brace_that_is_never_closed_is_literal_text() {
    let masks = MessageFormatter::_set_masks("{message} and {modules");
    assert_eq!(masks.len(), 3);
    assert_eq!(raw_of(&masks[1]), Some(" and "));
    assert_eq!(raw_of(&masks[2]), Some("{modules"));
}

#[test]
fn a_closing_brace_before_the_first_placeholder_is_literal_text() {
    let masks = MessageFormatter::_set_masks("}{");
    assert_eq!(masks.len(), 2);
    assert_eq!(raw_of(&masks[0]), Some("}"));
    assert_eq!(raw_of(&masks[1]), Some("{"));
}

#[test]
fn braces_do_not_nest() {
    let masks = MessageFormatter::_set_masks("{a{message}b}");
    assert_eq!(masks.len(), 2);
    assert_eq!(raw_of(&masks[0]), Some("a{message"));
    assert_eq!(raw_of(&masks[1]), Some("b}"));
}
