use pt_dict_bot::text::{class_has_token, join_spaced, str_contains, trim_str};

#[test]
fn test_trim_str() {
    assert_eq!(trim_str("  a b  "), "a b");
    assert_eq!(trim_str("\n\t x \r\n"), "x");
    assert_eq!(trim_str(""), "");
    assert_eq!(trim_str("   "), "");
    assert_eq!(trim_str("já"), "já");
}

#[test]
fn test_str_contains() {
    assert!(str_contains("Traduções principais extra", "Traduções principais"));
    assert!(str_contains("abc", ""));
    assert!(!str_contains("abc", "abcd"));
    assert!(!str_contains("abc", "bd"));
}

#[test]
fn test_class_has_token() {
    assert!(class_has_token("WRD", "WRD"));
    assert!(class_has_token("WRD clickTranslate", "WRD"));
    assert!(class_has_token("noTransFrame WRD", "WRD"));
    assert!(!class_has_token("WRDX", "WRD"));
    assert!(!class_has_token("xWRD", "WRD"));
    assert!(!class_has_token("", "WRD"));
}

#[test]
fn test_join_spaced() {
    let parts: Vec<String> = vec!["a".to_string(), "b".to_string(), "c".to_string()];
    assert_eq!(join_spaced(&parts), "a b c");
    let empty: Vec<String> = vec![];
    assert_eq!(join_spaced(&empty), "");
    let one: Vec<String> = vec!["só".to_string()];
    assert_eq!(join_spaced(&one), "só");
}
