use parse_display::formats::{fmt, parse_with, FromStrRegex};
use parse_display::value::{Value, ValueType};
use regex::Regex;

fn assert_match_str(ty: &ValueType, s: &str, should_match: bool) {
    let re = ty.from_str_regex().unwrap();
    let msg = format!("type = {ty:?}, from_str_regex = {re}");
    assert_eq!(Regex::new(&re).unwrap().is_match(s), should_match, "{msg}");
    let is_match = parse_with(&fmt(), ty, s).is_ok();
    assert_eq!(is_match, should_match, "{msg}");
}

fn assert_match(ty: &ValueType, value: Value) {
    let text = fmt().write(&value).unwrap();
    assert_match_str(ty, &text, true);
}

#[test]
fn test_bool() {
    assert_match(&ValueType::Bool, Value::Bool(true));
    assert_match(&ValueType::Bool, Value::Bool(false));

    assert_match_str(&ValueType::Bool, "TRUE", false);
    assert_match_str(&ValueType::Bool, "False", false);
    assert_match_str(&ValueType::Bool, "1", false);
    assert_match_str(&ValueType::Bool, "0", false);
    assert_match_str(&ValueType::Bool, "yes", false);
    assert_match_str(&ValueType::Bool, "", false);
}

#[test]
fn test_string() {
    assert_match(&ValueType::Str, Value::Str(String::new()));
    assert_match(&ValueType::Str, Value::Str(String::from("abc")));
    assert_match(&ValueType::Str, Value::Str(String::from(" ")));
    assert_match(&ValueType::Str, Value::Str(String::from("\n\t\r")));
}

#[test]
fn test_char() {
    assert_match(&ValueType::Char, Value::Char('x'));
    assert_match(&ValueType::Char, Value::Char('\n'));
}
