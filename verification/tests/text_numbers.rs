use gravi::numeric::{parse_i64, parse_u64};
use gravi::text::{concat3, i32_to_string, str_contains, str_eq, u64_to_string, usize_to_string};

fn chars(s: &str) -> Vec<char> {
    s.chars().collect()
}

#[test]
fn parse_u64_like_from_str() {
    assert_eq!(parse_u64(&chars("0")), Some(0));
    assert_eq!(parse_u64(&chars("+17")), Some(17));
    assert_eq!(parse_u64(&chars("18446744073709551615")), Some(u64::MAX));
    assert_eq!(parse_u64(&chars("18446744073709551616")), None);
    assert_eq!(parse_u64(&chars("")), None);
    assert_eq!(parse_u64(&chars("-1")), None);
    assert_eq!(parse_u64(&chars("1.5")), None);
    assert_eq!(parse_u64(&chars("+")), None);
}

#[test]
fn parse_i64_like_from_str() {
    assert_eq!(parse_i64(&chars("-9223372036854775808")), Some(i64::MIN));
    assert_eq!(parse_i64(&chars("9223372036854775807")), Some(i64::MAX));
    assert_eq!(parse_i64(&chars("9223372036854775808")), None);
    assert_eq!(parse_i64(&chars("-12")), Some(-12));
    assert_eq!(parse_i64(&chars("+12")), Some(12));
    assert_eq!(parse_i64(&chars("-")), None);
}

#[test]
fn decimal_notation() {
    assert_eq!(usize_to_string(0), "0");
    assert_eq!(usize_to_string(1234), "1234");
    assert_eq!(u64_to_string(u64::MAX), "18446744073709551615");
    assert_eq!(i32_to_string(-2147483648), "-2147483648");
    assert_eq!(i32_to_string(45), "45");
}

#[test]
fn string_helpers() {
    assert_eq!(concat3("a", "bc", "d"), "abcd");
    assert!(str_eq("héllo", "héllo"));
    assert!(!str_eq("ab", "abc"));
    assert!(str_contains("1.5", '.'));
    assert!(!str_contains("15", '.'));
}
