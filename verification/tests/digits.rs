use mini_http::digits::{format_decimal, format_hex, parse_decimal, parse_decimal_u16, parse_hex};

#[test]
fn decimal_digits_of_numbers() {
    assert_eq!(format_decimal(0), b"0");
    assert_eq!(format_decimal(7), b"7");
    assert_eq!(format_decimal(10), b"10");
    assert_eq!(format_decimal(65536), b"65536");
    assert_eq!(format_decimal(usize::MAX), usize::MAX.to_string().as_bytes());
}

#[test]
fn hexadecimal_digits_of_numbers() {
    assert_eq!(format_hex(0), b"0");
    assert_eq!(format_hex(1), b"1");
    assert_eq!(format_hex(10), b"a");
    assert_eq!(format_hex(255), b"ff");
    assert_eq!(format_hex(256), b"100");
    assert_eq!(format_hex(65536), b"10000");
    assert_eq!(format_hex(0xdead_beef), b"deadbeef");
    assert_eq!(format_hex(usize::MAX), format!("{:x}", usize::MAX).as_bytes());
}

#[test]
fn decimal_numerals() {
    assert_eq!(parse_decimal(b"0"), Some(0));
    assert_eq!(parse_decimal(b"42"), Some(42));
    assert_eq!(parse_decimal(b"+42"), Some(42));
    assert_eq!(parse_decimal(b"00042"), Some(42));
    assert_eq!(parse_decimal(usize::MAX.to_string().as_bytes()), Some(usize::MAX));
    assert_eq!(parse_decimal(b""), None);
    assert_eq!(parse_decimal(b"+"), None);
    assert_eq!(parse_decimal(b"-"), None);
    assert_eq!(parse_decimal(b"-1"), None);
    assert_eq!(parse_decimal(b"++1"), None);
    assert_eq!(parse_decimal(b"1+"), None);
    assert_eq!(parse_decimal(b"4 2"), None);
    assert_eq!(parse_decimal(b" 42"), None);
    assert_eq!(parse_decimal(b"42 "), None);
    assert_eq!(parse_decimal(b"4a"), None);
    assert_eq!(parse_decimal(b"\xd9\xa1"), None);
    let mut too_large = usize::MAX.to_string().into_bytes();
    too_large.push(b'0');
    assert_eq!(parse_decimal(&too_large), None);
    let last = too_large.len() - 2;
    too_large.truncate(last + 1);
    too_large[last] += 1;
    assert_eq!(parse_decimal(&too_large), None);
}

#[test]
fn decimal_numerals_of_16_bits() {
    assert_eq!(parse_decimal_u16(b"200"), Some(200));
    assert_eq!(parse_decimal_u16(b"65535"), Some(65535));
    assert_eq!(parse_decimal_u16(b"000065535"), Some(65535));
    assert_eq!(parse_decimal_u16(b"65536"), None);
    assert_eq!(parse_decimal_u16(b"99999"), None);
    assert_eq!(parse_decimal_u16(b"ff"), None);
    assert_eq!(parse_decimal_u16(b""), None);
}

#[test]
fn hexadecimal_numerals() {
    assert_eq!(parse_hex(b"0"), Some(0));
    assert_eq!(parse_hex(b"ff"), Some(255));
    assert_eq!(parse_hex(b"FF"), Some(255));
    assert_eq!(parse_hex(b"fF"), Some(255));
    assert_eq!(parse_hex(b"+1a"), Some(26));
    assert_eq!(parse_hex(b"10000"), Some(65536));
    assert_eq!(parse_hex(format!("{:X}", usize::MAX).as_bytes()), Some(usize::MAX));
    assert_eq!(parse_hex(b"g"), None);
    assert_eq!(parse_hex(b"G"), None);
    assert_eq!(parse_hex(b"0x10"), None);
    assert_eq!(parse_hex(b""), None);
    assert_eq!(parse_hex(b"`"), None);
    assert_eq!(parse_hex(b"@"), None);
    assert_eq!(parse_hex(b"/"), None);
    assert_eq!(parse_hex(b":"), None);
    assert_eq!(parse_hex(format!("1{:x}", usize::MAX).as_bytes()), None);
}

#[test]
fn numbers_are_read_back_from_their_digits() {
    for n in [0usize, 1, 9, 10, 15, 16, 99, 100, 255, 256, 4095, 65535, 65536, usize::MAX] {
        assert_eq!(parse_decimal(&format_decimal(n)), Some(n));
        assert_eq!(parse_hex(&format_hex(n)), Some(n));
    }
}
