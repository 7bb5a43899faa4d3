use zad_al_muslim::json::{JsonNumber, JsonValue};
use zad_al_muslim::text::{
    chars_of, contains_chars, join_texts, parse_i64_text, parse_usize_text, prefix_text, text_eq, text_less_exec,
    trim_text, usize_text,
};

#[test]
fn trimming_and_prefixes() {
    assert_eq!(trim_text("  ab c \n"), "ab c");
    assert_eq!(trim_text("   "), "");
    assert_eq!(prefix_text("abcdef", 3), "abc");
    assert_eq!(prefix_text("ab", 3), "ab");
    assert_eq!(prefix_text("سلام", 2), "سل");
}

#[test]
fn numbers_as_text() {
    assert_eq!(usize_text(0), "0");
    assert_eq!(usize_text(1207), "1207");
    assert_eq!(parse_usize_text("42"), Some(42));
    assert_eq!(parse_usize_text("4a"), None);
    assert_eq!(parse_usize_text(""), None);
    assert_eq!(parse_usize_text("+7"), Some(7));
    assert_eq!(parse_i64_text("-15"), Some(-15));
    assert_eq!(parse_i64_text("9223372036854775808"), None);
    assert_eq!(parse_i64_text("-9223372036854775808"), Some(i64::MIN));
}

#[test]
fn comparing_and_joining() {
    assert!(text_eq("abc", "abc"));
    assert!(!text_eq("abc", "abd"));
    assert!(text_less_exec(&chars_of("12"), &chars_of("3")));
    assert!(!text_less_exec(&chars_of("3"), &chars_of("3")));
    assert!(text_less_exec(&chars_of("3"), &chars_of("30")));
    assert!(contains_chars(&chars_of("hello world"), &chars_of("o w")));
    assert!(!contains_chars(&chars_of("hello"), &chars_of("low")));
    let parts = vec!["a".to_string(), "b".to_string(), "c".to_string()];
    assert_eq!(join_texts(&parts, " - "), "a - b - c");
    assert_eq!(join_texts(&vec![], ", "), "");
}

#[test]
fn json_values_compare_and_copy() {
    let v = JsonValue::Object(vec![
        ("a".to_string(), JsonValue::Number(JsonNumber::Int(1))),
        ("b".to_string(), JsonValue::Array(vec![JsonValue::Bool(true), JsonValue::Null])),
    ]);
    let c = v.deep_clone();
    assert!(v.same_as(&c));
    assert_eq!(c.get("a").unwrap().as_u64(), Some(1));
    assert!(c.get("z").is_none());
    let w = JsonValue::Object(vec![("a".to_string(), JsonValue::Number(JsonNumber::Int(2)))]);
    assert!(!v.same_as(&w));
    assert_eq!(JsonValue::Number(JsonNumber::Int(-1)).as_u64(), None);
    assert_eq!(JsonValue::Number(JsonNumber::Big(u64::MAX)).as_i64(), None);
}
