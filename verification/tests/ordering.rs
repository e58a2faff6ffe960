use vorgrs::strutil::{str_eq, str_lt};

#[test]
fn lexicographic_order_on_strings() {
    assert!(str_lt("", "a"));
    assert!(!str_lt("a", ""));
    assert!(str_lt("abc", "abd"));
    assert!(str_lt("ab", "abc"));
    assert!(!str_lt("abc", "abc"));
    assert!(str_lt("09c6", "4eff"));
    assert!(!str_lt("4eff", "09c6"));
}

#[test]
fn string_equality_by_characters() {
    assert!(str_eq("", ""));
    assert!(str_eq("meta:Incomplete", "meta:Incomplete"));
    assert!(!str_eq("meta:Incomplete", "meta:incomplete"));
    assert!(!str_eq("abc", "ab"));
}
