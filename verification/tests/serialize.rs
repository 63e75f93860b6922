use ext_duration::{
    format_millis, format_secs, parse_str, to_human_string, Duration, ExtDuration,
};

#[test]
fn human_string_zero_and_basic() {
    assert_eq!(to_human_string(&Duration::from_secs(0)), "0s");
    assert_eq!(to_human_string(&Duration::from_millis(65_000)), "1m 5s");
}

#[test]
fn secs_u64_trunc_subsec() {
    let d = Duration::from_millis(1234);
    assert_eq!(format_secs(&d), 1);
}

#[test]
fn millis_u64_rounded_and_boundary() {
    let d = Duration::from_millis(1234);
    assert_eq!(format_millis(&d).unwrap(), 1234);
    let b = Duration::new(1, 999_500_000);
    assert_eq!(format_millis(&b).unwrap(), 2000);
}

#[test]
fn secs_f64_ms_three_decimals() {
    let d = Duration::from_millis(1234);
    let f = d.as_secs() as f64 + (d.subsec_millis() as f64) / 1000.0;
    let f = (f * 1000.0).round() / 1000.0;
    assert_eq!(f, 1.234);
}

#[test]
fn newtype_roundtrip_human() {
    let e = ExtDuration(Duration::from_millis(65_000));
    let s = to_human_string(&e.0);
    assert_eq!(s, "1m 5s");
    let back = parse_str(&s).unwrap();
    assert_eq!(back, e.0);
}

#[test]
fn root_with_roundtrip() {
    let d = Duration::from_millis(3_723_250);
    let s = to_human_string(&d);
    assert_eq!(s, "1h 2m 3s 250ms");
    let back = parse_str(&s).unwrap();
    assert_eq!(back, d);
}
