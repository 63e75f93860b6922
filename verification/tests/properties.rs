use ext_duration::{
    format_human_opt, format_millis, format_secs, from_float_parts, from_int_secs, parse_str,
    to_human_string, u64_to_string, Duration,
};

#[test]
fn int_parse_then_secs_is_identity() {
    for n in [0u64, 1, 59, 60, 86_399, 86_400, 1_000_000] {
        let d = from_int_secs(n as i64).unwrap();
        assert_eq!(d, Duration::from_secs(n));
        assert_eq!(format_secs(&d), n);
    }
}

#[test]
fn float_carry_hits_next_second() {
    // a fraction that rounds to a full 1000 ms must carry into seconds
    let v: f64 = 0.9999;
    let secs = v.trunc() as u64;
    let millis = ((v - v.trunc()) * 1000.0).round() as u64;
    assert_eq!(millis, 1000);
    let d = from_float_parts(true, false, secs, millis).unwrap();
    assert_eq!(d, Duration::from_secs(1));
}

#[test]
fn token_order_and_repeats() {
    assert_eq!(parse_str("30m 1h").unwrap(), parse_str("1h 30m").unwrap());
    assert_eq!(parse_str("30m 1h").unwrap(), Duration::from_secs(5400));
    assert_eq!(parse_str("1h 1h").unwrap(), Duration::from_secs(7200));
}

#[test]
fn token_order_free_under_any_whitespace() {
    assert_eq!(parse_str("1h30m").unwrap(), parse_str("30m \t 1h").unwrap());
    assert_eq!(parse_str("1h30m").unwrap(), Duration::from_secs(5400));
}

#[test]
fn human_round_trip_many() {
    for ms in [1u64, 999, 1000, 1001, 59_999, 60_000, 61_001, 3_600_000, 86_400_000, 90_061_001] {
        let d = Duration::from_millis(ms);
        let s = to_human_string(&d);
        assert_eq!(parse_str(&s).unwrap(), d);
    }
}

#[test]
fn formatting_is_pure() {
    let d = Duration::from_millis(90_061_001);
    let a = to_human_string(&d);
    let b = to_human_string(&d);
    assert_eq!(a, b);
    assert_eq!(a, "1d 1h 1m 1s 1ms");
}

#[test]
fn hms_string_renders_back_canonically() {
    let d = parse_str("1h 23m 45s").unwrap();
    assert_eq!(format_secs(&d), 5025);
    assert_eq!(to_human_string(&d), "1h 23m 45s");
}

#[test]
fn compact_pair_sequence_in_millis() {
    let d = parse_str("1m250ms").unwrap();
    assert_eq!(format_millis(&d).unwrap(), 60_250);
}

#[test]
fn case_insensitive_units() {
    assert_eq!(parse_str("1H 30M").unwrap(), parse_str("1h 30m").unwrap());
    assert_eq!(parse_str("5MS").unwrap(), Duration::from_millis(5));
}

#[test]
fn error_positions_and_texts() {
    let e = parse_str("q").unwrap_err();
    assert_eq!(e.message(), "expected number at position 0");
    let e = parse_str("  x5s").unwrap_err();
    assert_eq!(e.message(), "expected number at position 2");
    let e = parse_str("5").unwrap_err();
    assert_eq!(e.message(), "expected unit after number at position 1");
    let e = parse_str("5Q").unwrap_err();
    assert_eq!(e.message(), "unknown unit 'q' (use d, h, m, s, ms)");
    let e = parse_str("").unwrap_err();
    assert_eq!(e.message(), "empty duration string");
}

#[test]
fn overflow_paths() {
    let e = parse_str("999999999999999999d").unwrap_err();
    assert!(e.message().contains("overflow"));
    let e = parse_str("18446744073709551616ms").unwrap_err();
    assert!(e.message().contains("overflow"));
    let e = from_float_parts(true, false, u64::MAX, 1000).unwrap_err();
    assert!(e.message().contains("overflow"));
}

#[test]
fn not_finite_float_rejected() {
    let v = f64::NAN;
    let e = from_float_parts(v.is_finite(), false, 0, 0).unwrap_err();
    assert_eq!(e.message(), "non-finite float");
}

#[test]
fn millis_too_large_for_u64() {
    let d = Duration::new(u64::MAX, 999_999_999);
    let e = format_millis(&d).unwrap_err();
    assert_eq!(e.message(), "duration too large");
}

#[test]
fn decimal_rendering_exact() {
    assert_eq!(u64_to_string(0), "0");
    assert_eq!(u64_to_string(1_234_567_890), "1234567890");
    assert_eq!(u64_to_string(u64::MAX), "18446744073709551615");
}

#[test]
fn scenario_five_seconds_all_modes() {
    let d = from_int_secs(5).unwrap();
    assert_eq!(to_human_string(&d), "5s");
    assert_eq!(format_secs(&d), 5);
    assert_eq!(format_millis(&d).unwrap(), 5000);
    let f = d.as_secs() as f64 + (d.subsec_millis() as f64) / 1000.0;
    assert_eq!(f, 5.0);
}

#[test]
fn secs_mode_agrees_with_rounded_total() {
    // the three modes agree on a value whose sub-millisecond part rounds
    // across the second boundary
    let d = Duration::new(1, 999_600_000);
    assert_eq!(to_human_string(&d), "2s");
    assert_eq!(format_millis(&d).unwrap(), 2000);
    assert_eq!(format_secs(&d), 2);
    // yet a whole-millisecond remainder still truncates, never rounds
    let d = Duration::new(1, 900_000_000);
    assert_eq!(format_secs(&d), 1);
}

#[test]
fn secs_mode_saturates_at_the_top() {
    // the one total whose rounded second count cannot fit saturates
    let d = Duration::new(u64::MAX, 999_600_000);
    assert_eq!(format_secs(&d), u64::MAX);
}

#[test]
fn subsec_millis_rounds_half_up_in_human() {
    // 1 s + 999.5 ms rounds up across the second boundary
    let d = Duration::new(1, 999_500_000);
    assert_eq!(to_human_string(&d), "2s");
    // just below the tie stays down
    let d = Duration::new(1, 999_499_999);
    assert_eq!(to_human_string(&d), "1s 999ms");
}

#[test]
fn optional_human_never_zero_string() {
    assert_ne!(format_human_opt(&None), Some(String::from("0s")));
    assert_eq!(
        format_human_opt(&Some(Duration::from_secs(0))),
        Some(String::from("0s"))
    );
}

#[test]
fn whitespace_tolerance() {
    assert_eq!(parse_str("  1s  ").unwrap(), Duration::from_secs(1));
    assert_eq!(parse_str("1 s").unwrap(), Duration::from_secs(1));
    assert_eq!(parse_str("\t2m\n3s").unwrap(), Duration::from_secs(123));
}
