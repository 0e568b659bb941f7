use bintray_resource::text::{
    chars_of, clone_optional, clone_strings, is_whitespace_char, same_optional,
    same_optional_strings, same_strings, same_text, split_on, strip_prefix_of, trim,
    trimmed_lines_of,
};

fn strings(items: &[&str]) -> Vec<String> {
    items.iter().map(|s| s.to_string()).collect()
}

#[test]
fn trim_removes_whitespace_at_both_ends() {
    assert_eq!(trim("  hello \n"), "hello");
    assert_eq!(trim("a b"), "a b");
    assert_eq!(trim("\t1.2.3\r\n"), "1.2.3");
}

#[test]
fn trim_of_blank_text_is_empty() {
    assert_eq!(trim(""), "");
    assert_eq!(trim(" \t \n"), "");
}

#[test]
fn trim_knows_unicode_whitespace() {
    assert_eq!(trim("\u{a0}x\u{3000}"), "x");
    assert_eq!(trim("\u{2003}\u{85}y\u{2028}\u{2029}"), "y");
    assert_eq!(trim("\u{200b}x"), "\u{200b}x");
    assert_eq!(trim("\u{180e}x"), "\u{180e}x");
}

#[test]
fn trim_agrees_with_the_standard_library() {
    let samples = [
        "",
        " ",
        "x",
        " x",
        "x ",
        "  a  b  ",
        "\n\nline\n\n",
        "\u{1680}ogham\u{1680}",
        "\u{202f}narrow\u{205f}",
        "é \u{feff}",
        "\u{c}\u{b}form\u{1c}",
    ];
    for sample in samples.iter() {
        assert_eq!(trim(sample), sample.trim());
    }
}

#[test]
fn whitespace_is_the_unicode_property() {
    for code in 0u32..0x3100 {
        if let Some(c) = char::from_u32(code) {
            assert_eq!(is_whitespace_char(c), c.is_whitespace(), "U+{:04X}", code);
        }
    }
}

#[test]
fn split_keeps_empty_pieces() {
    assert_eq!(split_on("a/b//c", '/'), strings(&["a", "b", "", "c"]));
    assert_eq!(split_on("/a", '/'), strings(&["", "a"]));
    assert_eq!(split_on("a/", '/'), strings(&["a", ""]));
}

#[test]
fn split_of_text_without_separator_is_one_piece() {
    assert_eq!(split_on("", '/'), strings(&[""]));
    assert_eq!(split_on("abc", '/'), strings(&["abc"]));
}

#[test]
fn lines_are_trimmed() {
    assert_eq!(trimmed_lines_of("a\n b \r\n\nc"), strings(&["a", "b", "", "c"]));
}

#[test]
fn trailing_line_feed_opens_no_line() {
    assert_eq!(trimmed_lines_of("x\n"), strings(&["x"]));
    assert_eq!(trimmed_lines_of("x\n\n"), strings(&["x", ""]));
    assert_eq!(trimmed_lines_of(""), Vec::<String>::new());
    assert_eq!(trimmed_lines_of("\n"), strings(&[""]));
}

#[test]
fn lines_agree_with_the_standard_library() {
    let samples = ["", "\n", "a", "a\n", "a\nb", " a \r\n b\r\n", "\n\n\n", "x\r", "*.deb\n*.rpm\n"];
    for sample in samples.iter() {
        let expected: Vec<String> = sample.lines().map(|l| l.trim().to_string()).collect();
        assert_eq!(trimmed_lines_of(sample), expected, "{:?}", sample);
    }
}

#[test]
fn strip_prefix_is_by_characters() {
    assert_eq!(strip_prefix_of("release/1.0/a", "release/1.0"), Some("/a".to_string()));
    assert_eq!(strip_prefix_of("release/1.01/a", "release/1.0"), Some("1/a".to_string()));
    assert_eq!(strip_prefix_of("abc", ""), Some("abc".to_string()));
    assert_eq!(strip_prefix_of("abc", "abc"), Some(String::new()));
}

#[test]
fn strip_prefix_of_other_text_is_none() {
    assert_eq!(strip_prefix_of("abc", "abd"), None);
    assert_eq!(strip_prefix_of("ab", "abc"), None);
    assert_eq!(strip_prefix_of("", "a"), None);
}

#[test]
fn chars_are_those_of_the_text() {
    assert_eq!(chars_of("aé/"), vec!['a', 'é', '/']);
    assert_eq!(chars_of(""), Vec::<char>::new());
}

#[test]
fn text_comparisons() {
    assert!(same_text("abc", "abc"));
    assert!(!same_text("abc", "abd"));
    assert!(!same_text("abc", "ab"));
    assert!(same_text("", ""));
    assert!(same_optional(&None, &None));
    assert!(same_optional(&Some("a".to_string()), &Some("a".to_string())));
    assert!(!same_optional(&Some("a".to_string()), &None));
    assert!(!same_optional(&None, &Some("a".to_string())));
    assert!(!same_optional(&Some("a".to_string()), &Some("b".to_string())));
    assert!(same_strings(&strings(&["a", "b"]), &strings(&["a", "b"])));
    assert!(!same_strings(&strings(&["a", "b"]), &strings(&["b", "a"])));
    assert!(!same_strings(&strings(&["a"]), &strings(&["a", "b"])));
    assert!(same_optional_strings(&None, &None));
    assert!(!same_optional_strings(&Some(strings(&[])), &None));
    assert!(same_optional_strings(&Some(strings(&["x"])), &Some(strings(&["x"]))));
}

#[test]
fn copies_are_equal() {
    assert_eq!(clone_strings(&strings(&["a", "", "c"])), strings(&["a", "", "c"]));
    assert_eq!(clone_optional(&Some("x".to_string())), Some("x".to_string()));
    assert_eq!(clone_optional(&None), None);
}
