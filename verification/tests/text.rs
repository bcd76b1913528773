use target_iceberg::text::{decimal_string, starts_with_char, str_eq};

#[test]
fn decimal_string_writes_the_decimal_form() {
    assert_eq!(decimal_string(0), "0");
    assert_eq!(decimal_string(7), "7");
    assert_eq!(decimal_string(1703756002202), "1703756002202");
    assert_eq!(decimal_string(-45), "-45");
    assert_eq!(decimal_string(i64::MAX), i64::MAX.to_string());
    assert_eq!(decimal_string(i64::MIN), i64::MIN.to_string());
}

#[test]
fn starts_with_char_looks_at_the_first_character_only() {
    assert!(starts_with_char("{\"type\":\"STATE\"}", '{'));
    assert!(!starts_with_char(" {", '{'));
    assert!(!starts_with_char("", '{'));
}

#[test]
fn str_eq_compares_characters() {
    assert!(str_eq("abc", "abc"));
    assert!(!str_eq("abc", "abd"));
}
