use rt_image_rotator::decimal::{format_decimal, parse_decimal};
use rt_image_rotator::fixed::Fixed;

fn read(s: &str) -> Option<i64> {
    parse_decimal(s.as_bytes()).map(|f| f.micros())
}

fn written(m: i64) -> String {
    String::from_utf8(format_decimal(Fixed::from_micros(m))).unwrap()
}

#[test]
fn parse_reads_plain_numerals() {
    assert_eq!(read("0"), Some(0));
    assert_eq!(read("12.5"), Some(12_500_000));
    assert_eq!(read("-12.5"), Some(-12_500_000));
    assert_eq!(read("+12.5"), Some(12_500_000));
    assert_eq!(read("10"), Some(10_000_000));
    assert_eq!(read("10.0"), Some(10_000_000));
    assert_eq!(read("0.000001"), Some(1));
    assert_eq!(read("-0.000001"), Some(-1));
    assert_eq!(read("007"), Some(7_000_000));
    assert_eq!(read("1.123456"), Some(1_123_456));
    assert_eq!(read("-0"), Some(0));
    assert_eq!(read("-0.0"), Some(0));
}

#[test]
fn parse_accepts_a_bare_side_of_the_point() {
    assert_eq!(read(".5"), Some(500_000));
    assert_eq!(read("5."), Some(5_000_000));
    assert_eq!(read("-.25"), Some(-250_000));
    assert_eq!(read("+3."), Some(3_000_000));
}

#[test]
fn parse_rounds_on_the_seventh_digit() {
    assert_eq!(read("0.0000004"), Some(0));
    assert_eq!(read("0.0000005"), Some(1));
    assert_eq!(read("0.00000049999"), Some(0));
    assert_eq!(read("-0.0000005"), Some(-1));
    assert_eq!(read("1.9999995"), Some(2_000_000));
    assert_eq!(read("0.1234567"), Some(123_457));
    assert_eq!(read("0.12345649"), Some(123_456));
    assert_eq!(read("-0.59999999999999998"), Some(-600_000));
    assert_eq!(read("0.30000000000000004"), Some(300_000));
}

#[test]
fn parse_refuses_what_is_no_numeral() {
    for bad in ["", "-", "+", ".", "-.", "abc", "notanumber", " 1", "1 ", "1..2", "1.2.3", "--1",
        "+-1", "1-", "1,5", "0x10", "1_000", "1.5f", "\u{0661}", "1e", "1E", "1e+", "1e-", "e5",
        "E5", ".e1", "-e1", "1e1.5", "1e1e1", "1ee1", "1e 1", "1 e1", "1e++1", "1.2e3.4", "e",
        "inf", "-inf", "+inf", "infinity", "Infinity", "nan", "NaN", "-nan"]
    {
        assert_eq!(read(bad), None, "{bad:?}");
    }
}

#[test]
fn parse_reads_exponents() {
    assert_eq!(read("1e1"), Some(10_000_000));
    assert_eq!(read("1E1"), Some(10_000_000));
    assert_eq!(read("1e+1"), Some(10_000_000));
    assert_eq!(read("-1e1"), Some(-10_000_000));
    assert_eq!(read("+1E+1"), Some(10_000_000));
    assert_eq!(read("1e3"), Some(1_000_000_000));
    assert_eq!(read("1e0"), Some(1_000_000));
    assert_eq!(read("1e-1"), Some(100_000));
    assert_eq!(read("1.5e2"), Some(150_000_000));
    assert_eq!(read("125e-1"), Some(12_500_000));
    assert_eq!(read("0.125e2"), Some(12_500_000));
    assert_eq!(read(".5e1"), Some(5_000_000));
    assert_eq!(read("5.e-1"), Some(500_000));
    assert_eq!(read("0.000001e6"), Some(1_000_000));
    assert_eq!(read("00001e0000001"), Some(10_000_000));
    assert_eq!(read("-2.5E-3"), Some(-2_500));
}

#[test]
fn parse_rounds_what_an_exponent_moves_out_of_reach() {
    assert_eq!(read("1e-6"), Some(1));
    assert_eq!(read("1e-7"), Some(0));
    assert_eq!(read("4e-7"), Some(0));
    assert_eq!(read("5e-7"), Some(1));
    assert_eq!(read("-5e-7"), Some(-1));
    assert_eq!(read("49e-8"), Some(0));
    assert_eq!(read("50e-8"), Some(1));
    assert_eq!(read("9e-8"), Some(0));
    assert_eq!(read("99e-8"), Some(1));
    assert_eq!(read("1234567e-7"), Some(123_457));
    assert_eq!(read("1234564e-7"), Some(123_456));
    assert_eq!(read("0.5e-6"), Some(1));
    assert_eq!(read("1e-999999999999999999999999999999999999999999"), Some(0));
    assert_eq!(read("-1e-999999999999999999999999999999999999999999"), Some(0));
    assert_eq!(read("0e999999999999999999999999999999999999999999"), Some(0));
    assert_eq!(read("0.000e999999999999999999999999999999999999999999"), Some(0));
}

#[test]
fn parse_refuses_what_an_exponent_moves_out_of_range() {
    assert_eq!(read("1e12"), Some(1_000_000_000_000_000_000));
    assert_eq!(read("9e12"), Some(9_000_000_000_000_000_000));
    assert_eq!(read("1e13"), None);
    assert_eq!(read("-1e13"), None);
    assert_eq!(read("1e19"), None);
    assert_eq!(read("1e30"), None);
    assert_eq!(read("0.0001e17"), None);
    assert_eq!(read("1e999999999999999999999999999999999999999999"), None);
    assert_eq!(read("9223372036854775807e-6"), Some(i64::MAX));
    assert_eq!(read("9223372036854775808e-6"), None);
    assert_eq!(read("-9223372036854775808e-6"), Some(i64::MIN));
    assert_eq!(read("-9223372036854775809e-6"), None);
    assert_eq!(read("92233720368547758074e-7"), Some(i64::MAX));
    assert_eq!(read("92233720368547758075e-7"), None);
    assert_eq!(read("-92233720368547758085e-7"), None);
    assert_eq!(read("0.9223372036854775807e13"), Some(i64::MAX));
}

#[test]
fn parse_takes_what_the_standard_library_takes_as_finite() {
    for text in ["1", "1.", ".1", "1e1", "1E1", "1e+1", "1e-1", "+1", "-1", "1.5e3", ".5e-2",
        "5.e2", "", ".", "e1", "1e", "1e+", "+", "-", "1e1e1", "1.2.3", " 1", "1 ", "0x1", "1_0",
        "+.e1", "-.5", "00.00", "1e01", "1e-01"]
    {
        let expected = text.parse::<f64>().ok().map(|v| (v * 1_000_000.0).round() as i64);
        assert_eq!(read(text), expected, "{text:?}");
    }
}

#[test]
fn parse_refuses_what_is_out_of_range() {
    assert_eq!(read("9223372036854.775807"), Some(i64::MAX));
    assert_eq!(read("9223372036854.775808"), None);
    assert_eq!(read("9223372036854.7758074"), Some(i64::MAX));
    assert_eq!(read("9223372036854.7758075"), None);
    assert_eq!(read("-9223372036854.775808"), Some(i64::MIN));
    assert_eq!(read("-9223372036854.775809"), None);
    assert_eq!(read("-9223372036854.7758085"), None);
    assert_eq!(read("9223372036855"), None);
    assert_eq!(read("-9223372036855"), None);
    assert_eq!(read("99999999999999999999999999999999"), None);
    assert_eq!(read("0000000000000000000000000000001"), Some(1_000_000));
}

#[test]
fn format_writes_the_shortest_numeral() {
    assert_eq!(written(0), "0");
    assert_eq!(written(10_000_000), "10");
    assert_eq!(written(12_500_000), "12.5");
    assert_eq!(written(-12_500_000), "-12.5");
    assert_eq!(written(1), "0.000001");
    assert_eq!(written(-1), "-0.000001");
    assert_eq!(written(100), "0.0001");
    assert_eq!(written(100_000), "0.1");
    assert_eq!(written(1_000_001), "1.000001");
    assert_eq!(written(-45_000_000), "-45");
    assert_eq!(written(123_456_789), "123.456789");
    assert_eq!(written(1_230_000), "1.23");
    assert_eq!(written(i64::MAX), "9223372036854.775807");
    assert_eq!(written(i64::MIN), "-9223372036854.775808");
}

#[test]
fn format_reads_back() {
    let mut values: Vec<i64> = vec![0, 1, -1, 9, 10, 99, 100, 999_999, 1_000_000, 1_000_001,
        -999_999, -1_000_000, 45_000_000, -45_000_000, i64::MAX, i64::MIN, i64::MAX - 1,
        i64::MIN + 1];
    let mut x: i64 = 1;
    for _ in 0..200 {
        x = x.wrapping_mul(6_364_136_223_846_793_005).wrapping_add(1_442_695_040_888_963_407);
        values.push(x);
        values.push(x % 1_000_000_000);
    }
    for v in values {
        let text = format_decimal(Fixed::from_micros(v));
        assert_eq!(parse_decimal(&text), Some(Fixed::from_micros(v)), "{v}");
    }
}
