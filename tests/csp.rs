use csp_pretty::{
    handle_line, handle_line_with, pretty_print, render, split_pieces, split_words, strip_header,
    Row, Value, ValueType,
};

fn plain_output() {
    colored::control::set_override(false);
}

#[test]
fn it_returns_empty_for_empty_string() {
    plain_output();
    let result = pretty_print(&String::from(""), false);
    assert_eq!(result, "");
}

#[test]
fn it_adds_newlines() {
    plain_output();
    let input = String::from("default-src 'self'; img-src https://*; child-src 'none';");
    let result = pretty_print(&input, false);
    let expected_value = "default-src 'self';\nimg-src https://*;\nchild-src 'none'";
    assert_eq!(result, expected_value);
}

#[test]
fn it_extracts_from_header() {
    plain_output();
    let input = String::from("Content-Security-Policy: default-src 'self'");
    let result = handle_line(&input, false);
    let expected_value = "default-src 'self'";
    assert_eq!(result, expected_value);
}

#[test]
fn it_extracts_from_header_example_2() {
    plain_output();
    let input =
        String::from("Content-Security-Policy: default-src 'self' trusted.com *.trusted.com");
    let result = handle_line(&input, false);
    let expected_value = "default-src 'self' trusted.com *.trusted.com";
    assert_eq!(result, expected_value);
}

#[test]
fn it_extracts_from_header_example_3() {
    plain_output();
    let input = String::from("Content-Security-Policy: default-src 'self'; img-src *; media-src media1.com media2.com; script-src userscripts.example.com");
    let result = handle_line(&input, false);
    let expected_value = "default-src 'self';\nimg-src *;\nmedia-src media1.com media2.com;\nscript-src userscripts.example.com";
    assert_eq!(result, expected_value);
}

#[test]
fn it_extracts_from_header_example_3_with_multiline() {
    plain_output();
    let input = String::from("Content-Security-Policy: default-src 'self'; img-src *; media-src media1.com media2.com; script-src userscripts.example.com");
    let result = handle_line(&input, true);
    let expected_value = "default-src\n\t'self';\nimg-src\n\t*;\nmedia-src\n\tmedia1.com\n\tmedia2.com;\nscript-src\n\tuserscripts.example.com";
    assert_eq!(result, expected_value);
}

#[test]
fn value_classifies_unsafe_inline() {
    let value = Value::from("'unsafe-inline'");
    assert!(matches!(value.value_type, ValueType::UnSafe));
}

#[test]
fn value_classifies_unknown_prop() {
    let value = Value::from("'unsafe-foobar'");
    assert!(matches!(value.value_type, ValueType::Error));
}

#[test]
fn value_classifies_proper_url() {
    let value = Value::from("'https://foo.bar'");
    assert!(matches!(value.value_type, ValueType::Plain));
}

#[test]
fn value_classifies_invalid_url() {
    let value = Value::from("'https://foo'");
    assert!(matches!(value.value_type, ValueType::Error));
}

#[test]
fn safe_keywords() {
    assert_eq!(Value::classify("'self'"), ValueType::Safe);
    assert_eq!(Value::classify("'none'"), ValueType::Safe);
}

#[test]
fn unsafe_keywords() {
    assert_eq!(Value::classify("'unsafe-inline'"), ValueType::UnSafe);
    assert_eq!(Value::classify("'unsafe-eval'"), ValueType::UnSafe);
    assert_eq!(Value::classify("data:"), ValueType::UnSafe);
}

#[test]
fn keywords_are_case_sensitive() {
    assert_eq!(Value::classify("'SELF'"), ValueType::Error);
    assert_eq!(Value::classify("'Unsafe-Eval'"), ValueType::Error);
}

#[test]
fn host_pattern_is_searched_not_anchored() {
    assert_eq!(Value::classify("*"), ValueType::Error);
    assert_eq!(Value::classify("*.trusted.com"), ValueType::Plain);
    assert_eq!(Value::classify("trusted.com"), ValueType::Plain);
    assert_eq!(Value::classify("https://*"), ValueType::Error);
    assert_eq!(Value::classify("!!a.b!!"), ValueType::Plain);
    assert_eq!(Value::classify(""), ValueType::Error);
    assert_eq!(Value::classify("é.ü"), ValueType::Plain);
    assert_eq!(Value::classify("x-.-y"), ValueType::Error);
    assert_eq!(Value::classify("_._"), ValueType::Plain);
}

#[test]
fn verdict_from_a_given_host_answer() {
    assert_eq!(Value::classify_with("'self'", false), ValueType::Safe);
    assert_eq!(Value::classify_with("data:", true), ValueType::UnSafe);
    assert_eq!(Value::classify_with("foo", true), ValueType::Plain);
    assert_eq!(Value::classify_with("foo.bar", false), ValueType::Error);
}

#[test]
fn value_keeps_its_text() {
    let value = Value::from("media1.com");
    assert_eq!(value.text, "media1.com");
    assert_eq!(value.value_type, ValueType::Plain);
}

#[test]
fn empty_line_gives_empty_output() {
    assert_eq!(handle_line_with("", false, false), "");
    assert_eq!(handle_line_with("", true, false), "");
    plain_output();
    assert_eq!(handle_line("", true), "");
}

#[test]
fn lone_word_segment_adds_nothing() {
    let with = handle_line_with("default-src 'self'; foo; img-src *", false, false);
    let without = handle_line_with("default-src 'self'; img-src *", false, false);
    assert_eq!(with, without);
    assert_eq!(with, "default-src 'self';\nimg-src *");
    assert!(Row::from("foo").is_none());
    assert!(Row::from("   ").is_none());
}

#[test]
fn plain_rendering_is_repeatable() {
    let input = "script-src a.com 'unsafe-eval'; style-src *";
    let first = render(input, true, false);
    let second = render(input, true, false);
    assert_eq!(first, second);
    assert_eq!(first, "script-src\n\ta.com\n\t'unsafe-eval';\nstyle-src\n\t*");
}

#[test]
fn plain_end_to_end_scenarios() {
    assert_eq!(
        handle_line_with("default-src 'self'; img-src https://*; child-src 'none';", false, false),
        "default-src 'self';\nimg-src https://*;\nchild-src 'none'"
    );
    assert_eq!(
        handle_line_with("Content-Security-Policy: default-src 'self'", false, false),
        "default-src 'self'"
    );
    let input = "Content-Security-Policy: default-src 'self'; img-src *; media-src media1.com media2.com; script-src userscripts.example.com";
    assert_eq!(
        handle_line_with(input, false, false),
        "default-src 'self';\nimg-src *;\nmedia-src media1.com media2.com;\nscript-src userscripts.example.com"
    );
    assert_eq!(
        handle_line_with(input, true, false),
        "default-src\n\t'self';\nimg-src\n\t*;\nmedia-src\n\tmedia1.com\n\tmedia2.com;\nscript-src\n\tuserscripts.example.com"
    );
}

#[test]
fn header_is_found_in_any_case_and_keeps_the_rest_as_written() {
    assert_eq!(strip_header("CONTENT-SECURITY-POLICY: Default-Src A.com"), " Default-Src A.com");
    assert_eq!(strip_header("x-content-Security-policy:a b"), "a b");
    assert_eq!(strip_header("default-src 'self'"), "default-src 'self'");
    assert_eq!(strip_header("content-security-policy"), "content-security-policy");
    assert_eq!(
        handle_line_with("content-security-policy: Img-Src A.COM; content-security-policy: x y", false, false),
        "Img-Src A.COM;\ncontent-security-policy: x y"
    );
}

#[test]
fn segments_and_words() {
    assert_eq!(split_pieces("a;;b;", false), vec!["a", "", "b", ""]);
    assert_eq!(split_pieces("", false), vec![""]);
    assert_eq!(split_words("  a\tb\u{A0}c\n"), vec!["a", "b", "c"]);
    assert_eq!(split_words(" \t "), Vec::<String>::new());
}

#[test]
fn row_holds_name_and_classified_values() {
    let row = Row::from("  img-src 'self'   data: * ").unwrap();
    assert_eq!(row.key, "img-src");
    assert_eq!(row.values.len(), 3);
    assert_eq!(row.values[0].value_type, ValueType::Safe);
    assert_eq!(row.values[1].value_type, ValueType::UnSafe);
    assert_eq!(row.values[2].value_type, ValueType::Error);
    assert_eq!(row.to_plain_string(" "), "img-src 'self' data: *");
    assert_eq!(row.to_plain_string("\n\t"), "img-src\n\t'self'\n\tdata:\n\t*");
}

#[test]
fn colouring_switched_off_gives_the_text() {
    plain_output();
    assert_eq!(Value::from("'self'").pretty(), "'self'");
    let row = Row::from("img-src * 'none'").unwrap();
    assert_eq!(row.to_colored_string(" "), "img-src * 'none'");
}

#[test]
fn multi_line_turns_value_spaces_into_breaks() {
    let input = "default-src 'self' a.com;  img-src  * data: ; x";
    let flat = render(input, false, false);
    let multi = render(input, true, false);
    assert_eq!(flat, "default-src 'self' a.com;\nimg-src * data:");
    assert_eq!(multi, flat.replace(' ', "\n\t"));
}

#[test]
fn header_name_in_mixed_case_is_stripped() {
    let rest = " script-src a.b 'unsafe-eval'";
    let line = format!("CONTENT-Security-Policy:{}", rest);
    assert_eq!(handle_line_with(&line, false, false), render(rest, false, false));
    assert_eq!(handle_line_with(&line, true, false), render(rest, true, false));
}
