use gitspark::text::{
    concat3, decimal_string, find_chars, is_blank_str, parse_usize, replace_char_exec,
    split_lines, to_ascii_lowercase, trim_string,
};
use gitspark::text_edit::{
    apply_key, field_key_handler, next_char_boundary, prev_char_boundary, text_field_display, FieldKeys,
    KeyInput, TextFieldDisplay,
};

fn chars(s: &str) -> Vec<char> {
    s.chars().collect()
}

#[test]
fn characters_survive_the_round_trip() {
    assert_eq!(trim_string(" añ€𝄞 "), "añ€𝄞");
    assert_eq!(gitspark::labels::truncate_middle("añ€𝄞x", 4), "añ…x");
}

#[test]
fn lines_like_str_lines() {
    for s in ["", "a", "a\n", "a\r\nb", "a\n\nb\n", "\r\n", "x\ry"] {
        let got: Vec<String> = split_lines(&chars(s)).iter().map(|l| l.iter().collect()).collect();
        let want: Vec<String> = s.lines().map(String::from).collect();
        assert_eq!(got, want, "input {s:?}");
    }
}

#[test]
fn trimming_and_numbers() {
    assert_eq!(trim_string("\u{3000} x y \t\n"), "x y");
    assert!(is_blank_str(" \u{a0}\n"));
    assert!(!is_blank_str(" a "));
    assert_eq!(parse_usize(&chars("+12")), Some(12));
    assert_eq!(parse_usize(&chars("12a")), None);
    assert_eq!(parse_usize(&chars("")), None);
    assert_eq!(parse_usize(&chars("18446744073709551616")), "18446744073709551616".parse::<usize>().ok());
    assert_eq!(decimal_string(0), "0");
    assert_eq!(decimal_string(1234567), "1234567");
}

#[test]
fn searching_and_replacing() {
    assert_eq!(find_chars(&chars("abcabc"), &chars("ca")), Some(2));
    assert_eq!(find_chars(&chars("abc"), &chars("")), Some(0));
    assert_eq!(find_chars(&chars("abc"), &chars("d")), None);
    assert_eq!(to_ascii_lowercase(&chars("AbÇ")), chars("abÇ"));
    assert_eq!(replace_char_exec("a'b'", '\'', "''"), "a''b''");
    assert_eq!(concat3("a", "-", "b"), "a-b");
}

#[test]
fn char_boundaries() {
    let s = "añb";
    assert_eq!(prev_char_boundary(s, 3), 1);
    assert_eq!(prev_char_boundary(s, 0), 0);
    assert_eq!(next_char_boundary(s, 1), 3);
    assert_eq!(next_char_boundary(s, 4), 4);
}

#[test]
fn apply_key_edits() {
    let mut text = "ab".to_string();
    let mut cursor = 1usize;
    let k = |name: &str, ch: Option<&str>| KeyInput {
        key: name.to_string(),
        secondary: false,
        control: false,
        key_char: ch.map(String::from),
    };
    assert!(apply_key(&mut text, &mut cursor, &k("x", Some("€")), None, false));
    assert_eq!((text.as_str(), cursor), ("a€b", 4));
    assert!(apply_key(&mut text, &mut cursor, &k("left", None), None, false));
    assert_eq!(cursor, 1);
    assert!(apply_key(&mut text, &mut cursor, &k("delete", None), None, false));
    assert_eq!((text.as_str(), cursor), ("ab", 1));
    assert!(apply_key(&mut text, &mut cursor, &k("end", None), None, false));
    assert_eq!(cursor, 2);
    assert!(!apply_key(&mut text, &mut cursor, &k("right", None), None, false));
    assert!(apply_key(&mut text, &mut cursor, &k("home", None), None, false));
    assert!(!apply_key(&mut text, &mut cursor, &k("backspace", None), None, false));
    let select_all = KeyInput { key: "a".to_string(), secondary: true, control: false, key_char: None };
    assert!(apply_key(&mut text, &mut cursor, &select_all, None, false));
    assert_eq!(cursor, 2);
    let ctrl = KeyInput { key: "x".to_string(), secondary: false, control: true, key_char: Some("x".to_string()) };
    assert!(!apply_key(&mut text, &mut cursor, &ctrl, None, false));
    assert_eq!(text, "ab");
}

#[test]
fn text_field_display_cases() {
    assert!(matches!(text_field_display("  ", 0, false), TextFieldDisplay::Placeholder));
    assert!(matches!(text_field_display("abc", 1, false), TextFieldDisplay::Text));
    match text_field_display("añb", 3, true) {
        TextFieldDisplay::Editing { before, after } => {
            assert_eq!(before, "añ");
            assert_eq!(after, "b");
        }
        _ => panic!("expected the editing display"),
    }
    match text_field_display("ab", 9, true) {
        TextFieldDisplay::Editing { before, after } => {
            assert_eq!(before, "ab");
            assert_eq!(after, "");
        }
        _ => panic!("expected the editing display"),
    }
}

#[test]
fn left_then_right_returns() {
    let s = "a€𝄞b";
    for cursor in [1usize, 4, 8, 9] {
        assert_eq!(next_char_boundary(s, prev_char_boundary(s, cursor)), cursor);
    }
    for cursor in [0usize, 1, 4, 8] {
        assert_eq!(prev_char_boundary(s, next_char_boundary(s, cursor)), cursor);
    }
}


#[test]
fn key_handler_by_field_id() {
    assert_eq!(field_key_handler("commit-summary-field"), FieldKeys::Summary);
    assert_eq!(field_key_handler("commit-description-field"), FieldKeys::Description);
    assert_eq!(field_key_handler(""), FieldKeys::Description);
}
