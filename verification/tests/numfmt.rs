use mgfy::numfmt::{decimal_string, signed_decimal_string};
use mgfy::sizes::bytes_to_string;

#[test]
fn decimal_numbers() {
    assert_eq!(decimal_string(0), "0");
    assert_eq!(decimal_string(7), "7");
    assert_eq!(decimal_string(10), "10");
    assert_eq!(decimal_string(1234567890), "1234567890");
    assert_eq!(decimal_string(u128::MAX), u128::MAX.to_string());
}

#[test]
fn signed_decimal_numbers() {
    assert_eq!(signed_decimal_string(0), "0");
    assert_eq!(signed_decimal_string(-42), "-42");
    assert_eq!(signed_decimal_string(27017), "27017");
    assert_eq!(signed_decimal_string(i64::MIN), i64::MIN.to_string());
}

#[test]
fn negative_sizes_mirror_positive_ones() {
    for v in [1i64, 1023, 1024, 1567, 1567893, 1 << 40, i64::MAX] {
        assert_eq!(bytes_to_string(-v), format!("-{}", bytes_to_string(v)));
    }
}

#[test]
fn small_sizes_are_shown_in_bytes() {
    for v in 0i64..1024 {
        assert_eq!(bytes_to_string(v), format!("{}.00B", v));
    }
}
