use blazecut::decimal::{digits_to_u64, signed_to_i64};
use blazecut::probe::parse_bitrate;
use blazecut::rate::{parse_duration_micros, parse_fps, FrameRate};

fn rate_as_f64(r: FrameRate) -> f64 {
    r.num as f64 / r.den as f64
}

#[test]
fn fps_ntsc_ratio() {
    let r = parse_fps("30000/1001");
    assert_eq!(r, FrameRate { num: 30000, den: 1001 });
    assert!((rate_as_f64(r) - 29.97).abs() < 0.001);
}

#[test]
fn fps_zero_over_zero_is_zero() {
    let r = parse_fps("0/0");
    assert_eq!(r, FrameRate { num: 0, den: 1 });
    assert_eq!(rate_as_f64(r), 0.0);
}

#[test]
fn fps_exact_ratio() {
    assert_eq!(parse_fps("25/1"), FrameRate { num: 25, den: 1 });
    assert_eq!(parse_fps("-30/2"), FrameRate { num: -30, den: 2 });
    assert_eq!(parse_fps("+24000/1001"), FrameRate { num: 24000, den: 1001 });
}

#[test]
fn fps_decimal_numerals() {
    assert_eq!(parse_fps("29.97/1"), FrameRate { num: 2997, den: 100 });
    assert!((rate_as_f64(parse_fps("29.97/1")) - 29.97).abs() < 1e-12);
    assert_eq!(parse_fps("30000/1.001"), FrameRate { num: 30_000_000, den: 1001 });
    assert_eq!(parse_fps("2.5e1/1"), FrameRate { num: 25, den: 1 });
    assert_eq!(parse_fps(".5/1"), FrameRate { num: 5, den: 10 });
    assert_eq!(parse_fps("0/5"), FrameRate { num: 0, den: 1 });
    assert_eq!(parse_fps("1/0.0"), FrameRate { num: 0, den: 1 });
    assert_eq!(parse_fps("1e30/1"), FrameRate { num: 0, den: 1 });
}

#[test]
fn fps_malformed_is_zero() {
    let zero = FrameRate { num: 0, den: 1 };
    assert_eq!(parse_fps(""), zero);
    assert_eq!(parse_fps("30"), zero);
    assert_eq!(parse_fps("30/1/1"), zero);
    assert_eq!(parse_fps("a/1"), zero);
    assert_eq!(parse_fps("30/b"), zero);
    assert_eq!(parse_fps("30/"), zero);
    assert_eq!(parse_fps("/1"), zero);
    assert_eq!(parse_fps("30/-1"), zero);
    assert_eq!(parse_fps("99999999999999999999/1"), zero);
}

#[test]
fn duration_with_fraction() {
    assert_eq!(parse_duration_micros("123.456000"), 123_456_000);
    assert_eq!(parse_duration_micros("1.5"), 1_500_000);
    assert_eq!(parse_duration_micros("2."), 2_000_000);
    assert_eq!(parse_duration_micros("0.1234567"), 123_456);
    assert_eq!(parse_duration_micros(".5"), 500_000);
    assert_eq!(parse_duration_micros("+1.5"), 1_500_000);
}

#[test]
fn duration_with_exponent() {
    assert_eq!(parse_duration_micros("1e2"), 100_000_000);
    assert_eq!(parse_duration_micros("1.5E-3"), 1_500);
    assert_eq!(parse_duration_micros("2e-7"), 0);
    assert_eq!(parse_duration_micros("1e30"), 0);
    assert_eq!(parse_duration_micros("1e"), 0);
    assert_eq!(parse_duration_micros("1e2E3"), 0);
    assert_eq!(parse_duration_micros("-0"), 0);
}

#[test]
fn duration_whole_seconds() {
    assert_eq!(parse_duration_micros("120"), 120_000_000);
    assert_eq!(parse_duration_micros("0"), 0);
}

#[test]
fn duration_unreadable_is_zero() {
    assert_eq!(parse_duration_micros(""), 0);
    assert_eq!(parse_duration_micros("abc"), 0);
    assert_eq!(parse_duration_micros("1.2.3"), 0);
    assert_eq!(parse_duration_micros("-1.0"), 0);
    assert_eq!(parse_duration_micros("N/A"), 0);
    assert_eq!(parse_duration_micros("99999999999999999"), 0);
}

#[test]
fn duration_largest_whole_seconds() {
    assert_eq!(parse_duration_micros("18446744073709"), 18_446_744_073_709_000_000);
    assert_eq!(parse_duration_micros("18446744073709.551615"), u64::MAX);
    assert_eq!(parse_duration_micros("18446744073709.551616"), 0);
}

#[test]
fn bitrate_digits() {
    assert_eq!(parse_bitrate("1205959"), 1_205_959);
    assert_eq!(parse_bitrate("4294967295"), u32::MAX);
    assert_eq!(parse_bitrate("4294967296"), 0);
    assert_eq!(parse_bitrate(""), 0);
    assert_eq!(parse_bitrate("12kb"), 0);
    assert_eq!(parse_bitrate("+5"), 5);
    assert_eq!(parse_bitrate("-5"), 0);
    assert_eq!(parse_bitrate("+"), 0);
}

#[test]
fn integer_readers() {
    assert_eq!(digits_to_u64("x18446744073709551615", 1, 21), Some(u64::MAX));
    assert_eq!(digits_to_u64("18446744073709551616", 0, 20), None);
    assert_eq!(signed_to_i64("-9223372036854775808", 0, 20), Some(i64::MIN));
    assert_eq!(signed_to_i64("9223372036854775808", 0, 19), None);
    assert_eq!(signed_to_i64("-", 0, 1), None);
    assert_eq!(signed_to_i64("+7", 0, 2), Some(7));
}
