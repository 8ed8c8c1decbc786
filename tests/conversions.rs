use binary_visualizer::{binary_to_decimal, decimal_to_binary, parse_binary, BinaryError};

#[test]
fn known_values() {
    assert_eq!(decimal_to_binary(5), "101");
    assert_eq!(binary_to_decimal("101"), "5");
}

#[test]
fn zero_and_one() {
    assert_eq!(decimal_to_binary(0), "0");
    assert_eq!(decimal_to_binary(1), "1");
    assert_eq!(binary_to_decimal("0"), "0");
    assert_eq!(binary_to_decimal("1"), "1");
}

#[test]
fn largest_value() {
    assert_eq!(decimal_to_binary(i32::MAX), "1111111111111111111111111111111");
    assert_eq!(binary_to_decimal("1111111111111111111111111111111"), "2147483647");
}

#[test]
fn negative_is_twos_complement_pattern() {
    assert_eq!(decimal_to_binary(-1), "11111111111111111111111111111111");
    assert_eq!(decimal_to_binary(-5), "11111111111111111111111111111011");
    assert_eq!(decimal_to_binary(i32::MIN), "10000000000000000000000000000000");
}

#[test]
fn invalid_input() {
    assert_eq!(binary_to_decimal("abc"), "Invalid Binary");
    assert_eq!(binary_to_decimal("102"), "Invalid Binary");
    assert_eq!(binary_to_decimal("-101"), "Invalid Binary");
    assert_eq!(binary_to_decimal("+101"), "Invalid Binary");
}

#[test]
fn empty_input_is_invalid() {
    assert_eq!(binary_to_decimal(""), "Invalid Binary");
    assert_eq!(parse_binary(""), Err(BinaryError::Empty));
}

#[test]
fn overflow_is_invalid() {
    assert_eq!(binary_to_decimal("10000000000000000000000000000000"), "Invalid Binary");
    assert_eq!(parse_binary("10000000000000000000000000000000"), Err(BinaryError::Overflow));
}

#[test]
fn leading_zeros_are_read() {
    assert_eq!(binary_to_decimal("0000000000000000000000000000000000000000101"), "5");
    assert_eq!(parse_binary("00110"), Ok(6));
}

#[test]
fn parse_errors_in_order() {
    assert_eq!(parse_binary("abc"), Err(BinaryError::InvalidDigit));
    assert_eq!(parse_binary("111111111111111111111111111111111x"), Err(BinaryError::InvalidDigit));
    assert_eq!(parse_binary("1111111111111111111111111111111"), Ok(i32::MAX));
}

#[test]
fn round_trip_samples() {
    for n in [0, 1, 2, 5, 10, 255, 256, 1000, 65535, 123456789, i32::MAX] {
        assert_eq!(binary_to_decimal(&decimal_to_binary(n)), n.to_string());
    }
}

#[test]
fn repeated_calls_give_identical_output() {
    assert_eq!(decimal_to_binary(42), decimal_to_binary(42));
    assert_eq!(binary_to_decimal("101010"), binary_to_decimal("101010"));
    assert_eq!(binary_to_decimal("xyz"), binary_to_decimal("xyz"));
}
