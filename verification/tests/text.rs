use kaku::order::{sort_strings, str_lt};
use kaku::text::{decimal_string, join_strings, signed_decimal_string, str_byte_len};

#[test]
fn ordering_and_sorting() {
    assert!(str_lt("a", "b"));
    assert!(str_lt("ab", "abc"));
    assert!(!str_lt("b", "abc"));
    assert!(!str_lt("x", "x"));
    assert!(str_lt("Z", "a"));
    let sorted = sort_strings(vec!["pear".to_string(), "Apple".to_string(), "fig".to_string(), "apple".to_string()]);
    assert_eq!(sorted, vec!["Apple", "apple", "fig", "pear"]);
}

#[test]
fn numbers_and_joins() {
    assert_eq!(decimal_string(0), "0");
    assert_eq!(decimal_string(18446744073709551615), "18446744073709551615");
    assert_eq!(signed_decimal_string(-42), "-42");
    assert_eq!(signed_decimal_string(i64::MIN), "-9223372036854775808");
    assert_eq!(join_strings(&["a".to_string(), "b".to_string()], ", "), "a, b");
    assert_eq!(join_strings(&[], ", "), "");
    assert_eq!(str_byte_len("héllo中"), 9);
}
