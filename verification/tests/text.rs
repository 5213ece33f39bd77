use vegas::text::{
    chars_of, confirm, display_path, nul_position, parse_u32, push_decimal, push_decimal_signed, read_answer,
    spells, to_stdout, white_space, Line, NumberFault,
};

#[test]
fn white_space_is_that_of_the_standard_library() {
    for code in 0..=0x10ffffu32 {
        if let Some(c) = char::from_u32(code) {
            assert_eq!(white_space(c), c.is_whitespace(), "{code:x}");
        }
    }
}

#[test]
fn decimals_are_those_of_the_standard_library() {
    for n in [0u128, 7, 10, 99, 100, 4294967295, u128::MAX] {
        let mut out = String::from("n=");
        push_decimal(&mut out, n);
        assert_eq!(out, format!("n={n}"));
    }
    for n in [0i32, 1, -1, 255, i32::MIN, i32::MAX] {
        let mut out = String::new();
        push_decimal_signed(&mut out, n);
        assert_eq!(out, n.to_string());
    }
}

#[test]
fn numbers_are_read_as_by_the_standard_library() {
    for text in [
        "", "+", "-", "0", "-0", "+0", "007", "1 ", " 1", "12a", "٣", "4294967295", "4294967296",
        "42949672950", "99999999999x", "++1", "-1",
    ] {
        let expected = text.parse::<u32>();
        let value = parse_u32(&chars_of(text));
        assert_eq!(value.is_ok(), expected.is_ok(), "{text}");
        match (value, expected) {
            (Ok(a), Ok(b)) => assert_eq!(a, b),
            (Err(a), Err(b)) => assert_eq!(a.text(), b.to_string(), "{text}"),
            _ => unreachable!(),
        }
    }
    assert_eq!(parse_u32(&[]), Err(NumberFault::Empty));
    assert_eq!(parse_u32(&['x']), Err(NumberFault::InvalidDigit));
    assert_eq!(parse_u32(&chars_of("4294967296")), Err(NumberFault::TooLarge));
}

#[test]
fn written_numbers_read_back() {
    let mut out = String::new();
    push_decimal(&mut out, 4294967295);
    assert_eq!(parse_u32(&chars_of(&out)), Ok(4294967295));
}

#[test]
fn answers_are_trimmed_and_lowered() {
    for line in ["", "\n", " Y\n", "\t yEs \r\n", "\u{2003}K\u{a0}\n", "Ä B\n", "no\n"] {
        let said: String = read_answer(line).into_iter().collect();
        assert_eq!(said, line.trim().to_ascii_lowercase());
    }
}

#[test]
fn line_end_does_not_change_an_answer() {
    assert_eq!(read_answer("Yes\n"), read_answer("Yes"));
    assert_eq!(read_answer("Yes\r\n"), read_answer("Yes"));
}

#[test]
fn only_y_and_yes_confirm() {
    for line in ["y", "Y\n", "yes", "  YES \n"] {
        assert!(confirm(line));
    }
    for line in ["", "\n", "n", "no", "yess", "ye", "y es", "ja"] {
        assert!(!confirm(line));
    }
}

#[test]
fn words_are_spelled_by_their_characters() {
    assert!(spells(&['y', 'e', 's'], "yes"));
    assert!(!spells(&['y', 'e'], "yes"));
    assert!(!spells(&['y', 'e', 's'], "ye"));
    assert!(spells(&[], ""));
}

#[test]
fn first_zero_byte_is_found() {
    assert_eq!(nul_position(b"abc"), None);
    assert_eq!(nul_position(b"a\0c\0"), Some(1));
    assert_eq!(nul_position(b""), None);
}

#[test]
fn paths_are_shown_as_text() {
    assert_eq!(display_path("/a/ü".as_bytes()), "/a/ü");
    assert_eq!(display_path(b"/\xff"), "/\u{fffd}");
}

#[test]
fn texts_go_to_standard_output() {
    assert_eq!(
        to_stdout(vec!["a".to_string(), "b".to_string()]),
        vec![Line::Stdout("a".to_string()), Line::Stdout("b".to_string())]
    );
}
