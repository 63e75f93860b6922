use ext_duration::{from_float_parts, from_int_secs, parse_str, Duration};

#[test]
fn int_seconds() {
    let d = from_int_secs(5).unwrap();
    assert_eq!(d, Duration::from_secs(5));
}

#[test]
fn float_ms_rounding() {
    let v: f64 = 1.234;
    let secs = v.trunc() as u64;
    let millis = ((v - v.trunc()) * 1000.0).round() as u64;
    let d = from_float_parts(v.is_finite(), v < 0.0, secs, millis).unwrap();
    assert_eq!(d, Duration::new(1, 234 * 1_000_000));

    let v: f64 = 1.9996;
    let secs = v.trunc() as u64;
    let millis = ((v - v.trunc()) * 1000.0).round() as u64;
    let d = from_float_parts(v.is_finite(), v < 0.0, secs, millis).unwrap();
    assert_eq!(d, Duration::from_secs(2));
}

#[test]
fn string_units_hms() {
    let d = parse_str("1h 23m 45s").unwrap();
    assert_eq!(d, Duration::from_secs(3600 + 23 * 60 + 45));
}

#[test]
fn string_units_mix_and_order_free() {
    let d = parse_str("1m250ms").unwrap();
    assert_eq!(d, Duration::from_millis(60_000 + 250));
    let d = parse_str("30m 1h").unwrap();
    assert_eq!(d, Duration::from_secs(90 * 60));
}

#[test]
fn string_days_hours() {
    let d = parse_str("1d 2h").unwrap();
    assert_eq!(d, Duration::from_secs(26 * 3600));
}

#[test]
fn error_negative_int() {
    let e = from_int_secs(-1).unwrap_err();
    assert!(e.message().contains("negative"));
}

#[test]
fn error_negative_float() {
    let v: f64 = -0.1;
    let e = from_float_parts(v.is_finite(), v < 0.0, 0, 0).unwrap_err();
    assert!(e.message().contains("negative"));
}

#[test]
fn error_empty_string() {
    let e = parse_str("  \t  ").unwrap_err();
    assert!(e.message().contains("empty duration"));
}

#[test]
fn error_unknown_unit() {
    let e = parse_str("5q").unwrap_err();
    assert!(e.message().contains("unknown unit"));
}
