use gomqlet::numbers::{i64_to_decimal, parse_digits, parse_i32, parse_usize, u64_to_decimal};

#[test]
fn decimal_text() {
    assert_eq!("0", u64_to_decimal(0));
    assert_eq!("7", u64_to_decimal(7));
    assert_eq!("10", u64_to_decimal(10));
    assert_eq!("1234567890", u64_to_decimal(1234567890));
    assert_eq!(u64::MAX.to_string(), u64_to_decimal(u64::MAX));
    assert_eq!("0", i64_to_decimal(0));
    assert_eq!("-1", i64_to_decimal(-1));
    assert_eq!("42", i64_to_decimal(42));
    assert_eq!(i64::MIN.to_string(), i64_to_decimal(i64::MIN));
    assert_eq!(i64::MAX.to_string(), i64_to_decimal(i64::MAX));
}

#[test]
fn decimal_numbers() {
    assert_eq!(Some(0), parse_usize("0"));
    assert_eq!(Some(12), parse_usize("12"));
    assert_eq!(Some(12), parse_usize("+12"));
    assert_eq!(Some(12), parse_usize("0012"));
    assert_eq!(Some(usize::MAX), parse_usize(&usize::MAX.to_string()));
    assert_eq!(None, parse_usize("18446744073709551616"));
    assert_eq!(None, parse_usize(""));
    assert_eq!(None, parse_usize("+"));
    assert_eq!(None, parse_usize("-1"));
    assert_eq!(None, parse_usize("1 "));
    assert_eq!(None, parse_usize("１"));
    assert_eq!(Some(-12), parse_i32("-12"));
    assert_eq!(Some(12), parse_i32("+12"));
    assert_eq!(Some(0), parse_i32("-0"));
    assert_eq!(Some(i32::MIN), parse_i32("-2147483648"));
    assert_eq!(Some(i32::MAX), parse_i32("2147483647"));
    assert_eq!(None, parse_i32("2147483648"));
    assert_eq!(None, parse_i32("-2147483649"));
    assert_eq!(None, parse_i32("-"));
    assert_eq!(None, parse_i32("--1"));
    assert_eq!(None, parse_i32("+-1"));
    assert_eq!(Some(34), parse_digits(b"12345", 2, 4, 100));
    assert_eq!(None, parse_digits(b"12345", 2, 4, 33));
    assert_eq!(None, parse_digits(b"12345", 2, 2, 100));
}
