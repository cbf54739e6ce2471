use gneurshk::text::{concat3, decimal_string, str_eq};

#[test]
fn numbers_are_written_in_decimal() {
    assert_eq!(decimal_string(0), "0");
    assert_eq!(decimal_string(7), "7");
    assert_eq!(decimal_string(10), "10");
    assert_eq!(decimal_string(1234567890), "1234567890");
    assert_eq!(decimal_string(usize::MAX), usize::MAX.to_string());
}

#[test]
fn text_is_joined_in_order() {
    assert_eq!(concat3("a", "", "bc"), "abc");
    assert_eq!(concat3("", "", ""), "");
}

#[test]
fn text_is_compared_by_characters() {
    assert!(str_eq("", ""));
    assert!(str_eq("h\u{e9}llo", "h\u{e9}llo"));
    assert!(!str_eq("hello", "hellp"));
    assert!(!str_eq("hello", "hell"));
    assert!(!str_eq("e\u{301}", "\u{e9}"));
}
