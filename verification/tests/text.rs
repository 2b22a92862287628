use raspi_collector::text::{decimal_string, millionths_string, parse_u16, parse_u64, push_decimal, push_zero_padded};

#[test]
fn decimal_and_padding() {
    assert_eq!(decimal_string(0), "0");
    assert_eq!(decimal_string(u64::MAX), "18446744073709551615");
    let mut v = Vec::new();
    push_zero_padded(&mut v, 7, 3);
    push_decimal(&mut v, 42);
    assert_eq!(v, b"00742");
}

#[test]
fn parse_unsigned_like_from_str() {
    for s in ["", "+", "0", "+0", "007", "65535", "65536", "-1", " 1", "1 ", "1e3", "+42", "٣"] {
        assert_eq!(parse_u16(s), s.parse::<u16>().ok(), "{s:?}");
        assert_eq!(parse_u64(s), s.parse::<u64>().ok(), "{s:?}");
    }
    for s in ["18446744073709551615", "18446744073709551616", "99999999999999999999"] {
        assert_eq!(parse_u64(s), s.parse::<u64>().ok(), "{s:?}");
    }
}

#[test]
fn millionths_as_decimals() {
    assert_eq!(millionths_string(0), "0");
    assert_eq!(millionths_string(14_000_000), "14");
    assert_eq!(millionths_string(4_100_000), "4.1");
    assert_eq!(millionths_string(-1_500_000), "-1.5");
    assert_eq!(millionths_string(7_000_001), "7.000001");
    assert_eq!(millionths_string(120_000), "0.12");
}
