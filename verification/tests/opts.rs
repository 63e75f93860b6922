use ext_duration::{
    format_human_opt, format_millis, format_secs, from_float_parts, from_int_secs, parse_str,
    Duration,
};

#[test]
fn opt_missing_and_null() {
    let v: Option<Duration> = None;
    assert!(format_human_opt(&v).is_none());
    let w: Option<Duration> = Some(Duration::from_secs(1));
    assert!(format_human_opt(&w).is_some());
}

#[test]
fn opt_some_from_string_float_int() {
    let d = parse_str("1m 250ms").unwrap();
    assert_eq!(Some(d), Some(Duration::from_millis(60_000 + 250)));

    let v: f64 = 1.234;
    let secs = v.trunc() as u64;
    let millis = ((v - v.trunc()) * 1000.0).round() as u64;
    let d = from_float_parts(v.is_finite(), v < 0.0, secs, millis).unwrap();
    assert_eq!(Some(d), Some(Duration::new(1, 234 * 1_000_000)));

    let d = from_int_secs(42).unwrap();
    assert_eq!(Some(d), Some(Duration::from_secs(42)));
}

#[test]
fn opt_errors_propagate() {
    let e = parse_str("3q").unwrap_err();
    assert!(e.message().contains("unknown unit"));
    let e = from_int_secs(-1).unwrap_err();
    assert!(e.message().contains("negative"));
}

#[test]
fn opt_serialize_human_some_and_none() {
    let some = format_human_opt(&Some(Duration::from_millis(65_000)));
    assert_eq!(some, Some(String::from("1m 5s")));
    let none = format_human_opt(&None);
    assert_eq!(none, None);
}

#[test]
fn opt_serialize_secs_truncates_subsec() {
    let d = Duration::from_millis(1234);
    assert_eq!(format_secs(&d), 1);
}

#[test]
fn opt_serialize_millis_rounding() {
    let d = Duration::new(1, 999_500_000);
    assert_eq!(format_millis(&d).unwrap(), 2000);
}

#[test]
fn opt_serialize_secs_f64_ms_precision() {
    let d = Duration::from_millis(1234);
    let f = d.as_secs() as f64 + (d.subsec_millis() as f64) / 1000.0;
    let f = (f * 1000.0).round() / 1000.0;
    assert_eq!(f, 1.234);
}

#[test]
fn opt_skip_serializing_if_none() {
    // the host omits the field entirely; the core's duty is only that an
    // absent value never turns into a rendered duration
    assert!(format_human_opt(&None).is_none());
}
