use hank::numbers::{parse_i32, parse_u64};

const CASES: &[&str] = &[
    "", "+", "-", "0", "00", "7", "+7", "-7", "42", "-0", "+0", "12a", " 1", "1 ", "٣", "1_000",
    "2147483647", "2147483648", "-2147483648", "-2147483649", "99999999999",
    "18446744073709551615", "18446744073709551616", "+18446744073709551615", "-1", "X", "++1", "+-1",
    "000000000000000000000000000000012",
];

#[test]
fn parse_i32_agrees_with_std() {
    for s in CASES {
        assert_eq!(parse_i32(s), s.parse::<i32>().ok(), "input {:?}", s);
    }
}

#[test]
fn parse_u64_agrees_with_std() {
    for s in CASES {
        assert_eq!(parse_u64(s), s.parse::<u64>().ok(), "input {:?}", s);
    }
}

#[test]
fn parse_i32_extremes() {
    assert_eq!(parse_i32("-2147483648"), Some(i32::MIN));
    assert_eq!(parse_i32("2147483647"), Some(i32::MAX));
    assert_eq!(parse_i32("2147483648"), None);
}

#[test]
fn parse_u64_extremes() {
    assert_eq!(parse_u64("18446744073709551615"), Some(u64::MAX));
    assert_eq!(parse_u64("18446744073709551616"), None);
    assert_eq!(parse_u64("+5"), Some(5));
}
