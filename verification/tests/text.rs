use rabbitmq::error::{broken, protocol_error};
use rabbitmq::text::{
    cut, decimal_of, decoded, same, signed_decimal_of, strip, truth_of,
};

#[test]
fn numbers_are_written_in_decimal() {
    for value in [0, 7, 9, 10, 99, 100, 65535, u64::MAX] {
        assert_eq!(decimal_of(value), value.to_string());
    }
    for value in [0u32, 1, 0x7FFF_FFFF, 0x8000_0000, 0xFFFF_FFFF] {
        assert_eq!(signed_decimal_of(value), (value as i32).to_string());
    }
    assert_eq!(truth_of(true), "true");
    assert_eq!(truth_of(false), "false");
}

#[test]
fn text_is_cut_at_the_first_mark() {
    assert_eq!(cut("a/b/c", '/'), ("a", Some("b/c")));
    assert_eq!(cut("abc", '/'), ("abc", None));
    assert_eq!(cut("/", '/'), ("", Some("")));
    assert_eq!(cut("", '/'), ("", None));
    assert_eq!(cut("åä/ö", '/'), ("åä", Some("ö")));
}

#[test]
fn a_prefix_is_stripped_where_it_is_there() {
    assert_eq!(strip("rabbitmq://h", "rabbitmq://"), Some("h"));
    assert_eq!(strip("rabbitmq:/", "rabbitmq://"), None);
    assert_eq!(strip("abc", ""), Some("abc"));
    assert_eq!(strip("åb", "å"), Some("b"));
    assert_eq!(strip("", "a"), None);
}

#[test]
fn bytes_that_are_not_utf8_are_no_text() {
    assert_eq!(decoded("åäö".as_bytes()), Some("åäö".to_string()));
    assert_eq!(decoded(b""), Some(String::new()));
    assert_eq!(decoded(b"\xFF"), None);
    assert_eq!(decoded(b"\xC3"), None);
}

#[test]
fn the_same_text_is_the_same() {
    assert!(same("abc", "abc"));
    assert!(!same("abc", "abd"));
    assert!(!same("abc", "ab"));
    assert!(same("", ""));
}

#[test]
fn a_protocol_error_is_permanent_and_a_break_is_not() {
    let refused = protocol_error("no".to_string());
    assert_eq!(refused.message, "no");
    assert!(!refused.retryable);
    let gone = broken("gone".to_string());
    assert_eq!(gone.message, "gone");
    assert!(gone.retryable);
}
