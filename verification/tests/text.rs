use scrape_batch::text::{decimal_pad3_string, decimal_string};

#[test]
fn decimal_of_zero_is_a_single_zero() {
    assert_eq!(decimal_string(0), "0");
}

#[test]
fn decimal_of_single_digits() {
    for n in 0..10u64 {
        assert_eq!(decimal_string(n), format!("{}", n));
    }
}

#[test]
fn decimal_has_no_leading_zero() {
    assert_eq!(decimal_string(10), "10");
    assert_eq!(decimal_string(100), "100");
    assert_eq!(decimal_string(4444), "4444");
    assert_eq!(decimal_string(1_000_000), "1000000");
}

#[test]
fn decimal_of_the_largest_number() {
    assert_eq!(decimal_string(u64::MAX), "18446744073709551615");
}

#[test]
fn decimal_agrees_with_std_formatting() {
    let mut n: u64 = 1;
    for _ in 0..40 {
        assert_eq!(decimal_string(n), format!("{}", n));
        assert_eq!(decimal_string(n - 1), format!("{}", n - 1));
        n = n.wrapping_mul(3).wrapping_add(7);
    }
}

#[test]
fn pad3_fills_with_zeros_on_the_left() {
    assert_eq!(decimal_pad3_string(0), "000");
    assert_eq!(decimal_pad3_string(5), "005");
    assert_eq!(decimal_pad3_string(9), "009");
    assert_eq!(decimal_pad3_string(10), "010");
    assert_eq!(decimal_pad3_string(42), "042");
    assert_eq!(decimal_pad3_string(99), "099");
}

#[test]
fn pad3_leaves_longer_numbers_alone() {
    assert_eq!(decimal_pad3_string(100), "100");
    assert_eq!(decimal_pad3_string(999), "999");
    assert_eq!(decimal_pad3_string(1000), "1000");
    assert_eq!(decimal_pad3_string(4294), "4294");
}

#[test]
fn pad3_agrees_with_std_formatting() {
    for n in 0..1200u64 {
        assert_eq!(decimal_pad3_string(n), format!("{:03}", n));
    }
}
