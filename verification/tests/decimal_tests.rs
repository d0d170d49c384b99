use lidar_heightmap::decimal::{decimal_string, parse_i16, signed_decimal_string};

#[test]
fn parse_i16_reads_plain_numerals() {
    assert_eq!(parse_i16("0"), Some(0));
    assert_eq!(parse_i16("7"), Some(7));
    assert_eq!(parse_i16("32767"), Some(32767));
    assert_eq!(parse_i16("-32768"), Some(-32768));
    assert_eq!(parse_i16("+15"), Some(15));
    assert_eq!(parse_i16("-0"), Some(0));
    assert_eq!(parse_i16("00042"), Some(42));
}

#[test]
fn parse_i16_rejects_what_is_no_numeral() {
    assert_eq!(parse_i16(""), None);
    assert_eq!(parse_i16("-"), None);
    assert_eq!(parse_i16("+"), None);
    assert_eq!(parse_i16("12a"), None);
    assert_eq!(parse_i16("a12"), None);
    assert_eq!(parse_i16("1 2"), None);
    assert_eq!(parse_i16("--1"), None);
    assert_eq!(parse_i16("+-1"), None);
    assert_eq!(parse_i16("1_000"), None);
    assert_eq!(parse_i16("\u{663}"), None);
}

#[test]
fn parse_i16_rejects_what_does_not_fit() {
    assert_eq!(parse_i16("32768"), None);
    assert_eq!(parse_i16("-32769"), None);
    assert_eq!(parse_i16("100000"), None);
    assert_eq!(parse_i16("-99999999999999999999999999"), None);
    assert_eq!(parse_i16("327680000000x"), None);
}

#[test]
fn parse_i16_agrees_with_the_standard_parser() {
    let samples = [
        "0", "-1", "1", "32767", "32768", "-32768", "-32769", "+0", "+32767", "+32768", "", "-",
        "+", "0x10", "12 ", " 12", "000000000000000000001", "\u{663}", "1e3", "--5",
    ];
    for text in samples {
        assert_eq!(parse_i16(text), text.parse::<i16>().ok(), "{:?}", text);
    }
}

#[test]
fn decimal_string_writes_without_leading_zeros() {
    assert_eq!(decimal_string(0), "0");
    assert_eq!(decimal_string(9), "9");
    assert_eq!(decimal_string(10), "10");
    assert_eq!(decimal_string(40312), "40312");
    assert_eq!(decimal_string(u32::MAX), "4294967295");
}

#[test]
fn signed_decimal_string_writes_a_minus_sign() {
    assert_eq!(signed_decimal_string(0), "0");
    assert_eq!(signed_decimal_string(-3), "-3");
    assert_eq!(signed_decimal_string(462), "462");
    assert_eq!(signed_decimal_string(i16::MIN), "-32768");
    assert_eq!(signed_decimal_string(i16::MAX), "32767");
}

#[test]
fn written_numbers_are_read_back() {
    for v in i16::MIN..=i16::MAX {
        assert_eq!(parse_i16(&signed_decimal_string(v)), Some(v));
    }
}
