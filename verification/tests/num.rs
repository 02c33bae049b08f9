use from_ascii::FromAscii;
use from_ascii::FromAsciiRadix;
use from_ascii::IntErrorKind;
use from_ascii::dec_to_digit;

#[test]
fn test_from_ascii() {
    assert_eq!(i8::from_ascii(b"10"), Ok(10));
    assert_eq!(u8::from_ascii(b"10"), Ok(10));
    assert_eq!(i64::from_ascii(b"10"), Ok(10));
    assert_eq!(u64::from_ascii(b"10"), Ok(10));

    assert_eq!(i8::from_ascii(b"-10"), Ok(-10));
    assert_eq!(u8::from_ascii(b"-10").is_err(), true);
    assert_eq!(i64::from_ascii(b"-10"), Ok(-10));
    assert_eq!(u64::from_ascii(b"-10").is_err(), true);

    assert_eq!(i8::from_ascii(b"1000").is_err(), true);
    assert_eq!(u8::from_ascii(b"1000").is_err(), true);
    assert_eq!(i64::from_ascii(b"1000"), Ok(1000));
    assert_eq!(u64::from_ascii(b"1000"), Ok(1000));

    assert_eq!(i8::from_ascii(b"-1000").is_err(), true);
    assert_eq!(u8::from_ascii(b"-1000").is_err(), true);
    assert_eq!(i64::from_ascii(b"-1000"), Ok(-1000));
    assert_eq!(u64::from_ascii(b"-1000").is_err(), true);
}

#[test]
fn test_from_ascii_radix() {
    assert_eq!(i8::from_ascii_radix(b"ff", 16).is_err(), true);
    assert_eq!(u8::from_ascii_radix(b"ff", 16), Ok(255));
    assert_eq!(i8::from_ascii_radix(b"FF", 16).is_err(), true);
    assert_eq!(u8::from_ascii_radix(b"FF", 16), Ok(255));
}

#[test]
fn test_empty_input_for_every_type() {
    assert_eq!(i8::from_ascii(b"").unwrap_err().kind(), IntErrorKind::Empty);
    assert_eq!(i16::from_ascii(b"").unwrap_err().kind(), IntErrorKind::Empty);
    assert_eq!(i32::from_ascii(b"").unwrap_err().kind(), IntErrorKind::Empty);
    assert_eq!(i64::from_ascii(b"").unwrap_err().kind(), IntErrorKind::Empty);
    assert_eq!(isize::from_ascii(b"").unwrap_err().kind(), IntErrorKind::Empty);
    assert_eq!(u8::from_ascii(b"").unwrap_err().kind(), IntErrorKind::Empty);
    assert_eq!(u16::from_ascii(b"").unwrap_err().kind(), IntErrorKind::Empty);
    assert_eq!(u32::from_ascii(b"").unwrap_err().kind(), IntErrorKind::Empty);
    assert_eq!(u64::from_ascii(b"").unwrap_err().kind(), IntErrorKind::Empty);
    assert_eq!(usize::from_ascii(b"").unwrap_err().kind(), IntErrorKind::Empty);
}

#[test]
fn test_sign_only_input_is_empty() {
    assert_eq!(i8::from_ascii(b"+").unwrap_err().kind(), IntErrorKind::Empty);
    assert_eq!(i8::from_ascii(b"-").unwrap_err().kind(), IntErrorKind::Empty);
    assert_eq!(u8::from_ascii(b"+").unwrap_err().kind(), IntErrorKind::Empty);
}

#[test]
fn test_hex_ff_overflows_signed_byte() {
    assert_eq!(u8::from_ascii_radix(b"FF", 16), Ok(255));
    assert_eq!(
        i8::from_ascii_radix(b"FF", 16).unwrap_err().kind(),
        IntErrorKind::Overflow
    );
}

#[test]
fn test_invalid_radix() {
    assert_eq!(
        u8::from_ascii_radix(b"", 1).unwrap_err().kind(),
        IntErrorKind::InvalidRadix(1)
    );
    assert_eq!(
        u8::from_ascii_radix(b"", 37).unwrap_err().kind(),
        IntErrorKind::InvalidRadix(37)
    );
    assert_eq!(
        i64::from_ascii_radix(b"10", 0).unwrap_err().kind(),
        IntErrorKind::InvalidRadix(0)
    );
    assert_eq!(
        i64::from_ascii_radix(b"10", 255).unwrap_err().kind(),
        IntErrorKind::InvalidRadix(255)
    );
}

#[test]
fn test_minus_on_unsigned_is_invalid_digit() {
    assert_eq!(
        u8::from_ascii(b"-10").unwrap_err().kind(),
        IntErrorKind::InvalidDigit(b'-')
    );
    assert_eq!(
        u64::from_ascii(b"-10").unwrap_err().kind(),
        IntErrorKind::InvalidDigit(b'-')
    );
    assert_eq!(
        usize::from_ascii(b"-1").unwrap_err().kind(),
        IntErrorKind::InvalidDigit(b'-')
    );
}

#[test]
fn test_overflow_and_underflow_kinds() {
    assert_eq!(
        i8::from_ascii(b"1000").unwrap_err().kind(),
        IntErrorKind::Overflow
    );
    assert_eq!(i64::from_ascii(b"1000"), Ok(1000));
    assert_eq!(
        i8::from_ascii(b"-1000").unwrap_err().kind(),
        IntErrorKind::Underflow
    );
    assert_eq!(i64::from_ascii(b"-1000"), Ok(-1000));
}

#[test]
fn test_range_endpoints() {
    assert_eq!(i8::from_ascii(b"127"), Ok(127));
    assert_eq!(i8::from_ascii(b"128").unwrap_err().kind(), IntErrorKind::Overflow);
    assert_eq!(i8::from_ascii(b"-128"), Ok(-128));
    assert_eq!(
        i8::from_ascii(b"-129").unwrap_err().kind(),
        IntErrorKind::Underflow
    );
    assert_eq!(u64::from_ascii(b"18446744073709551615"), Ok(u64::MAX));
    assert_eq!(
        u64::from_ascii(b"18446744073709551616").unwrap_err().kind(),
        IntErrorKind::Overflow
    );
    assert_eq!(i64::from_ascii(b"-9223372036854775808"), Ok(i64::MIN));
    assert_eq!(
        i64::from_ascii(b"-9223372036854775809").unwrap_err().kind(),
        IntErrorKind::Underflow
    );
}

#[test]
fn test_invalid_digit_carries_offending_byte() {
    assert_eq!(
        u8::from_ascii(b"1x").unwrap_err().kind(),
        IntErrorKind::InvalidDigit(b'x')
    );
    assert_eq!(
        i32::from_ascii(b" 1").unwrap_err().kind(),
        IntErrorKind::InvalidDigit(b' ')
    );
    assert_eq!(
        i32::from_ascii(b"1 ").unwrap_err().kind(),
        IntErrorKind::InvalidDigit(b' ')
    );
    assert_eq!(
        u8::from_ascii_radix(b"12", 2).unwrap_err().kind(),
        IntErrorKind::InvalidDigit(b'2')
    );
}

#[test]
fn test_round_trip_canonical_strings() {
    // canonical digit strings under several radixes parse back exactly
    assert_eq!(u32::from_ascii_radix(b"101101", 2), Ok(45));
    assert_eq!(u32::from_ascii_radix(b"777", 8), Ok(511));
    assert_eq!(u32::from_ascii_radix(b"12345", 10), Ok(12345));
    assert_eq!(u32::from_ascii_radix(b"deadbeef", 16), Ok(0xdead_beef));
    assert_eq!(u32::from_ascii_radix(b"z", 36), Ok(35));
    assert_eq!(u32::from_ascii_radix(b"10", 36), Ok(36));
    assert_eq!(i64::from_ascii_radix(b"zz", 36), Ok(35 * 36 + 35));
    // the same digit string under every radix it is valid for
    for radix in 2..=36u8 {
        let r = radix as i64;
        assert_eq!(i64::from_ascii_radix(b"10", radix), Ok(r));
        assert_eq!(i64::from_ascii_radix(b"11", radix), Ok(r + 1));
        assert_eq!(i64::from_ascii_radix(b"-101", radix), Ok(-(r * r + 1)));
    }
}

#[test]
fn test_case_insensitive_digits() {
    assert_eq!(u32::from_ascii_radix(b"DeAdBeEf", 16), Ok(0xdead_beef));
    assert_eq!(u32::from_ascii_radix(b"Z", 36), Ok(35));
    assert_eq!(i16::from_ascii_radix(b"aB", 16), Ok(0xab));
}

#[test]
fn test_plus_sign_is_consumed_once() {
    assert_eq!(i32::from_ascii(b"+10"), Ok(10));
    assert_eq!(u32::from_ascii(b"+10"), Ok(10));
    assert!(i32::from_ascii(b"++10").is_err());
    assert!(i32::from_ascii(b"+-10").is_err());
    assert!(i32::from_ascii(b"-+10").is_err());
}

#[test]
fn test_reparsing_is_identical() {
    let input: &[u8] = b"-32768";
    let first = i16::from_ascii(input);
    let second = i16::from_ascii(input);
    let third = i16::from_ascii(input);
    assert_eq!(first, second);
    assert_eq!(second, third);
    assert_eq!(first, Ok(i16::MIN));
    let bad: &[u8] = b"0xff";
    assert_eq!(u8::from_ascii(bad), u8::from_ascii(bad));
}

#[test]
fn test_dec_to_digit() {
    assert_eq!(dec_to_digit(b'0', 10), Some(0));
    assert_eq!(dec_to_digit(b'9', 10), Some(9));
    assert_eq!(dec_to_digit(b'a', 16), Some(10));
    assert_eq!(dec_to_digit(b'A', 16), Some(10));
    assert_eq!(dec_to_digit(b'f', 16), Some(15));
    assert_eq!(dec_to_digit(b'g', 16), None);
    assert_eq!(dec_to_digit(b'z', 36), Some(35));
    assert_eq!(dec_to_digit(b'Z', 36), Some(35));
    assert_eq!(dec_to_digit(b'2', 2), None);
    assert_eq!(dec_to_digit(b' ', 10), None);
    assert_eq!(dec_to_digit(b'-', 10), None);
}

#[test]
fn test_int_error_descriptions() {
    assert_eq!(
        i8::from_ascii(b"").unwrap_err().kind().description(),
        "cannot parse integer from empty string"
    );
    assert_eq!(
        i8::from_ascii(b"x").unwrap_err().kind().description(),
        "invalid digit found in string"
    );
    assert_eq!(
        i8::from_ascii(b"200").unwrap_err().kind().description(),
        "number too large to fit in target type"
    );
    assert_eq!(
        i8::from_ascii(b"-200").unwrap_err().kind().description(),
        "number too small to fit in target type"
    );
    assert_eq!(
        i8::from_ascii_radix(b"1", 99).unwrap_err().kind().description(),
        "radix should be in 2..36 range"
    );
}
