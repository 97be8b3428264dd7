use labkit::head::head_output;
use labkit::head::Argument;
use labkit::head::Output;
use labkit::svg::Color;
use labkit::tail::get_bytes;
use labkit::tail::get_line_byte_positions;
use labkit::tail::get_lines;
use labkit::tail::parse_take_value;
use labkit::tail::parse_take_value_to_range;
use labkit::tail::Metadata;
use labkit::tail::TakeValue;
use labkit::uniq::write_to_buffer;
use labkit::uniq::Line;
use labkit::wc::CharacterCounting;
use labkit::wc::Counting;
use labkit::wc::CountingConfig;

#[test]
fn head_parse_number_accepts_positive_counts() {
    assert_eq!(Argument::parse_number("3", "line").unwrap(), 3);
    assert_eq!(Argument::parse_number("+3", "line").unwrap(), 3);
    assert_eq!(Argument::parse_number("007", "byte").unwrap(), 7);
    let err = Argument::parse_number("0", "line").unwrap_err();
    assert_eq!(err.message(), "head: illegal line count -- 0");
    let err = Argument::parse_number("blah", "byte").unwrap_err();
    assert_eq!(err.message(), "head: illegal byte count -- blah");
}

#[test]
fn head_output_takes_lines_and_bytes() {
    assert_eq!(head_output("a\nb\nc\n", Output::Line(2)), "a\nb\n");
    assert_eq!(head_output("a\r\nb\r\nc", Output::Line(1)), "a\r\n");
    // A lone carriage return is not a line ending.
    assert_eq!(head_output("a\rb", Output::Line(1)), "a\rb");
    assert_eq!(head_output("abc", Output::Line(5)), "abc");
    assert_eq!(head_output("Ébc", Output::Byte(1)), "\u{FFFD}");
    assert_eq!(head_output("Ébc", Output::Byte(3)), "Éb");
    assert_eq!(head_output("abc", Output::Byte(10)), "abc");
}

#[test]
fn tail_parse_take_value_signs() {
    assert_eq!(parse_take_value("+0").unwrap(), TakeValue::PlusZero);
    assert_eq!(parse_take_value("5").unwrap(), TakeValue::TakeNum(-5));
    assert_eq!(parse_take_value("+5").unwrap(), TakeValue::TakeNum(5));
    assert_eq!(parse_take_value("-5").unwrap(), TakeValue::TakeNum(5));
    assert!(parse_take_value("five").is_err());
    assert!(parse_take_value("").is_err());
    // An explicit plus keeps whatever sign the rest parses to, as the
    // standard integer parser tolerates a second sign there.
    assert_eq!(parse_take_value("++5").unwrap(), TakeValue::TakeNum(5));
    assert_eq!(parse_take_value("+-5").unwrap(), TakeValue::TakeNum(-5));
    assert_eq!(
        parse_take_value("+9223372036854775807").unwrap(),
        TakeValue::TakeNum(9223372036854775807)
    );
    assert!(parse_take_value("+9223372036854775808").is_err());
}

#[test]
fn tail_metadata_counts_lines_and_bytes() {
    let m = Metadata::get("a\nb");
    assert_eq!((m.line_count, m.byte_count), (2, 3));
    let m = Metadata::get("a\nb\n");
    assert_eq!((m.line_count, m.byte_count), (2, 4));
    let m = Metadata::get("");
    assert_eq!((m.line_count, m.byte_count), (0, 0));
}

#[test]
fn tail_take_ranges() {
    assert_eq!(parse_take_value_to_range(TakeValue::PlusZero, 4), (0, 4));
    assert_eq!(parse_take_value_to_range(TakeValue::TakeNum(2), 4), (2, 4));
    assert_eq!(parse_take_value_to_range(TakeValue::TakeNum(9), 4), (4, 4));
    assert_eq!(parse_take_value_to_range(TakeValue::TakeNum(-3), 4), (1, 4));
    assert_eq!(parse_take_value_to_range(TakeValue::TakeNum(-9), 4), (0, 4));
}

#[test]
fn tail_selects_bytes_and_lines() {
    assert_eq!(get_bytes("hello", TakeValue::TakeNum(-3)), "llo");
    assert_eq!(get_bytes("Ébc", TakeValue::TakeNum(-3)), "\u{FFFD}bc");
    assert_eq!(get_bytes("hello", TakeValue::PlusZero), "hello");
    assert_eq!(get_line_byte_positions("a\nb"), [(0, 2), (2, 3)]);
    assert_eq!(get_line_byte_positions("a\r\nb\rc"), [(0, 3), (3, 5), (5, 6)]);
    assert_eq!(get_lines("a\nb\nc", TakeValue::TakeNum(-2)), "b\nc");
    assert_eq!(get_lines("a\r\nb\r\nc\r\n", TakeValue::TakeNum(-1)), "c\r\n");
    assert_eq!(get_lines("a\nb\nc", TakeValue::PlusZero), "a\nb\nc");
}

#[test]
fn wc_counts_lines_words_and_units() {
    let config = CountingConfig {
        count_line: true,
        count_word: true,
        character_counting: Some(CharacterCounting::ByBytes),
    };
    let counting = Counting::count_from_str("hello world\nsecond line\n", config);
    assert_eq!(counting.line_count, Some(2));
    assert_eq!(counting.word_count, Some(4));
    assert_eq!(counting.character_or_byte_count, Some(24));

    let by_chars = CountingConfig {
        count_line: false,
        count_word: false,
        character_counting: Some(CharacterCounting::ByChars),
    };
    let counting = Counting::count_from_str("Ébc\n", by_chars);
    assert_eq!(counting.line_count, None);
    assert_eq!(counting.word_count, None);
    assert_eq!(counting.character_or_byte_count, Some(4));
}

#[test]
fn uniq_groups_consecutive_lines() {
    let lines = Line::from_reader("a\na\nb\na");
    assert_eq!(
        lines,
        vec![
            Line { value: "a".to_string(), count: 2 },
            Line { value: "b".to_string(), count: 1 },
            Line { value: "a".to_string(), count: 1 },
        ]
    );
}

#[test]
fn uniq_renders_counts_right_aligned() {
    let lines = Line::from_reader("a\na\nb");
    assert_eq!(write_to_buffer(&lines, true), "   2 a\n   1 b");
    assert_eq!(write_to_buffer(&lines, false), "a\nb");
    // A trailing empty line is printed without its count.
    let lines = Line::from_reader("x\n");
    assert_eq!(write_to_buffer(&lines, true), "   1 x\n");
}

#[test]
fn color_to_hex_is_upper_case_padded() {
    assert_eq!(Color::new(10, 11, 12).to_hex(), "#0A0B0C");
    assert_eq!(Color::new(0, 0, 0).to_hex(), "#000000");
    assert_eq!(Color::new(255, 255, 255).to_hex(), "#FFFFFF");
}
