use rusty_anna::settings::into_bool;
use rusty_anna::text::{join_text, debug_string, decimal_string, string_from_chars};

#[test]
fn decimal_numbers() {
    assert_eq!(decimal_string(0), "0");
    assert_eq!(decimal_string(7), "7");
    assert_eq!(decimal_string(120), "120");
    assert_eq!(decimal_string(4294967295), "4294967295");
    assert_eq!(decimal_string(u64::MAX), u64::MAX.to_string());
}

#[test]
fn debug_quotes_and_escapes() {
    assert_eq!(debug_string("bob"), "\"bob\"");
    assert_eq!(debug_string("a\"b\n"), "\"a\\\"b\\n\"");
}

#[test]
fn joins_text() {
    assert_eq!(string_from_chars(&vec!['a', '_', 'c']), "a_c");
    assert_eq!(join_text("ab", "cd"), "abcd");
}

#[test]
fn yes_no_settings() {
    assert!(into_bool("1".to_string()));
    assert!(into_bool("true".to_string()));
    assert!(into_bool("True".to_string()));
    assert!(!into_bool("TRUE".to_string()));
    assert!(!into_bool("yes".to_string()));
    assert!(!into_bool("0".to_string()));
    assert!(!into_bool(String::new()));
}
