use ottotom::format::{fmt_i64, fmt_u64, strip_dot_zero};

#[test]
fn unsigned_decimal_expansion() {
    assert_eq!(fmt_u64(0), "0");
    assert_eq!(fmt_u64(9), "9");
    assert_eq!(fmt_u64(10), "10");
    assert_eq!(fmt_u64(125), "125");
    assert_eq!(fmt_u64(1234567890), "1234567890");
    assert_eq!(fmt_u64(u64::MAX), "18446744073709551615");
}

#[test]
fn signed_decimal_expansion() {
    assert_eq!(fmt_i64(0), "0");
    assert_eq!(fmt_i64(125), "125");
    assert_eq!(fmt_i64(-125), "-125");
    assert_eq!(fmt_i64(i64::MIN), "-9223372036854775808");
    assert_eq!(fmt_i64(i64::MAX), "9223372036854775807");
}

#[test]
fn trailing_dot_zero_is_stripped() {
    assert_eq!(strip_dot_zero("42.0"), "42");
    assert_eq!(strip_dot_zero("4.25"), "4.25");
    assert_eq!(strip_dot_zero("0.0"), "0");
    assert_eq!(strip_dot_zero(".0"), "");
    assert_eq!(strip_dot_zero(""), "");
    assert_eq!(strip_dot_zero("inf"), "inf");
}
