use zkfs::numeral::{digit_str, push_decimal, push_decimal_u64, push_hex_pair};
use zkfs::path::{is_root, join_path, same_text};

fn decimal_string(n: i64) -> String {
    let mut text = String::new();
    push_decimal(&mut text, n);
    text
}

#[test]
fn decimal_of_zero_is_a_single_digit() {
    assert_eq!(decimal_string(0), "0");
}

#[test]
fn decimal_of_small_and_large_numbers() {
    assert_eq!(decimal_string(7), "7");
    assert_eq!(decimal_string(10), "10");
    assert_eq!(decimal_string(1234567890), "1234567890");
    assert_eq!(decimal_string(i64::MAX), "9223372036854775807");
}

#[test]
fn decimal_of_negative_numbers_has_a_sign() {
    assert_eq!(decimal_string(-1), "-1");
    assert_eq!(decimal_string(-120), "-120");
    assert_eq!(decimal_string(i64::MIN), "-9223372036854775808");
}

#[test]
fn decimal_agrees_with_the_standard_formatting() {
    for n in [-1000i64, -99, -10, -9, 0, 9, 10, 11, 99, 100, 101, 65535, 4294967296] {
        assert_eq!(decimal_string(n), format!("{}", n));
    }
}

#[test]
fn push_decimal_appends_to_what_is_there() {
    let mut text = String::from("n=");
    push_decimal(&mut text, -42);
    assert_eq!(text, "n=-42");
    push_decimal_u64(&mut text, u64::MAX);
    assert_eq!(text, "n=-4218446744073709551615");
}

#[test]
fn hex_pairs_are_two_lower_case_digits() {
    let mut text = String::new();
    push_hex_pair(&mut text, 0x00);
    push_hex_pair(&mut text, 0x0a);
    push_hex_pair(&mut text, 0xff);
    push_hex_pair(&mut text, 0x5C);
    assert_eq!(text, "000aff5c");
}

#[test]
fn hex_pairs_agree_with_the_standard_formatting() {
    for b in 0u8..=255 {
        let mut text = String::new();
        push_hex_pair(&mut text, b);
        assert_eq!(text, format!("{:02x}", b));
    }
}

#[test]
fn digits_cover_base_sixteen() {
    let all: Vec<&str> = (0u8..16).map(digit_str).collect();
    assert_eq!(all.concat(), "0123456789abcdef");
    assert_eq!(digit_str(16), "0");
    assert_eq!(digit_str(255), "0");
}

#[test]
fn joining_the_root_adds_no_second_slash() {
    assert_eq!(join_path("/", "a"), "/a");
}

#[test]
fn joining_any_other_path_adds_a_slash() {
    assert_eq!(join_path("/a", "b"), "/a/b");
    assert_eq!(join_path("/a/b", "c-0000000001"), "/a/b/c-0000000001");
    assert_eq!(join_path("", "a"), "/a");
    assert_eq!(join_path("/a/", "b"), "/a//b");
}

#[test]
fn root_is_the_single_slash() {
    assert!(is_root("/"));
    assert!(!is_root(""));
    assert!(!is_root("//"));
    assert!(!is_root("/a"));
}

#[test]
fn same_text_compares_contents() {
    assert!(same_text("节点", "节点"));
    assert!(!same_text("节点", "节"));
    assert!(same_text("", ""));
}
