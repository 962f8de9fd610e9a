use std::time::Duration;
use wrk3::binary64::{event_period, from_seconds, quotient, times_hundred, to_nanoseconds, truncate};
use wrk3::dt::{check_text_range, Binary64, LuaDt, ParseDtError, RawDtValue};

fn number(n: f64) -> Binary64 {
    Binary64 { bits: n.to_bits() }
}

fn random(state: &mut u64) -> u64 {
    *state ^= *state << 13;
    *state ^= *state >> 7;
    *state ^= *state << 17;
    *state
}

fn some_times() -> Vec<(u64, u32)> {
    let mut times = vec![
        (0, 1),
        (0, 999_999_999),
        (1, 0),
        (1, 1),
        (2, 500_000_000),
        (3, 333_333_333),
        (59, 999_999_999),
        (86_400, 0),
        (4_294_967_296, 123_456_789),
        (9_007_199_254_740_993, 1),
        (u64::MAX, 999_999_999),
    ];
    let mut state: u64 = 0x9E37_79B9_7F4A_7C15;
    for _ in 0..400 {
        let shift = random(&mut state) % 64;
        let secs = random(&mut state) >> shift;
        let nanos = (random(&mut state) % 1_000_000_000) as u32;
        if (secs, nanos) != (0, 0) {
            times.push((secs, nanos));
        }
    }
    times
}

#[test]
fn seconds_are_those_of_std() {
    for (secs, nanos) in some_times() {
        let expected = Duration::new(secs, nanos).as_secs_f64();
        assert_eq!(f64::from_bits(from_seconds(secs, nanos)), expected);
        assert_eq!(LuaDt::from_parts(secs, nanos).secs(), number(expected));
    }
    assert_eq!(LuaDt::zero().secs(), number(0.0));
}

#[test]
fn quotients_are_those_of_the_machine() {
    let times = some_times();
    for (i, a) in times.iter().enumerate() {
        let b = times[(i * 7 + 3) % times.len()];
        let x = Duration::new(a.0, a.1).as_secs_f64();
        let y = Duration::new(b.0, b.1).as_secs_f64();
        assert_eq!(quotient(x.to_bits(), y.to_bits()), (x / y).to_bits());
        let q = x / y;
        assert_eq!(times_hundred(q.to_bits()), (q * 100.0).to_bits());
        assert_eq!(truncate((q * 100.0).to_bits()), (q * 100.0) as u64);
        assert_eq!(truncate(q.to_bits()), q as u64);
    }
}

#[test]
fn nanoseconds_are_those_of_std() {
    let mut numbers = vec![
        0.0, 2.5e-9, 0.5e-9, 1.5e-9, 0.49e-9, 0.51e-9, 1e-12, 1e-300, 5e-324, 0.1, 1.0 / 3.0, 1.0,
        2.000_000_000_5, 0.999_999_999_4, 0.999_999_999_6, 0.999_999_999_999, 1e9, 1.8e19,
        18_446_744_073_709_549_568.0,
    ];
    let mut state: u64 = 88_172_645_463_325_252;
    for _ in 0..2000 {
        let exponent = (random(&mut state) % 110) as i32 - 50;
        let fraction = (random(&mut state) >> 11) as f64 / (1u64 << 53) as f64;
        let n = (1.0 + fraction) * 2f64.powi(exponent);
        if n < 1.8e19 {
            numbers.push(n);
        }
    }
    for n in numbers {
        let expected = Duration::from_secs_f64(n);
        assert_eq!(
            to_nanoseconds(n.to_bits()),
            Some((expected.as_secs(), expected.subsec_nanos()))
        );
    }
    assert_eq!(to_nanoseconds(18_446_744_073_709_551_616.0f64.to_bits()), None);
    assert_eq!(to_nanoseconds(1e300f64.to_bits()), None);
}

#[test]
fn periods_are_those_of_std() {
    let mut rates = vec![1.0, 2.0, 3.0, 20.5, 300.0, 0.1, 1e9, 3e9, 1e-9, 7.25, 1e-19];
    let mut state: u64 = 1234567;
    for _ in 0..1000 {
        let exponent = (random(&mut state) % 80) as i32 - 40;
        let fraction = (random(&mut state) >> 11) as f64 / (1u64 << 53) as f64;
        rates.push((1.0 + fraction) * 2f64.powi(exponent));
    }
    for rate in rates {
        let expected = Duration::from_secs_f64(rate.recip());
        assert_eq!(
            event_period(rate.to_bits()),
            Some((expected.as_secs(), expected.subsec_nanos()))
        );
    }
    assert_eq!(event_period(0.0f64.to_bits()), None);
    assert_eq!(event_period(5e-324f64.to_bits()), None);
    assert_eq!(event_period((-1.0f64).to_bits()), None);
    assert_eq!(event_period(f64::NAN.to_bits()), None);
    assert_eq!(event_period(f64::INFINITY.to_bits()), Some((0, 0)));
}

#[test]
fn lengths_of_time_are_read_from_numbers() {
    assert_eq!(RawDtValue::I64(7).into_lua_dt().ok(), Some(LuaDt::from_secs(7)));
    assert!(matches!(RawDtValue::I64(-1).into_lua_dt(), Err(ParseDtError::MustBePositive)));
    assert_eq!(
        RawDtValue::F64(number(1.25)).into_lua_dt().ok(),
        Some(LuaDt::from_parts(1, 250_000_000))
    );
    assert!(matches!(
        RawDtValue::F64(number(-0.0)).into_lua_dt(),
        Err(ParseDtError::MustBePositive)
    ));
    assert!(RawDtValue::F64(number(-1.0)).check_convertible());
    assert!(!RawDtValue::F64(number(f64::INFINITY)).check_convertible());
    assert!(!RawDtValue::F64(number(f64::NAN)).check_convertible());
    assert!(!RawDtValue::F64(number(2e19)).check_convertible());
    let t = LuaDt::from_parts(3, 4);
    assert_eq!(RawDtValue::Dt(t).into_lua_dt().ok(), Some(t));
}

#[test]
fn lengths_of_time_are_read_from_text() {
    let read = |s: &str| RawDtValue::String(s.to_string()).into_lua_dt();
    assert_eq!(read("10s").ok(), Some(LuaDt::from_secs(10)));
    assert_eq!(read("2h 37min").ok(), Some(LuaDt::from_secs(9420)));
    assert_eq!(read("32ms").ok(), Some(LuaDt::from_parts(0, 32_000_000)));
    assert!(matches!(read("10"), Err(ParseDtError::InvalidFormat(_))));
    assert!(matches!(read(""), Err(ParseDtError::InvalidFormat(_))));
    assert!(matches!(read("ten"), Err(ParseDtError::InvalidFormat(_))));
}

#[test]
fn texts_of_times_agree_with_humantime() {
    for (secs, nanos) in some_times() {
        let t = LuaDt::from_parts(secs, nanos);
        let expected = humantime::format_duration(Duration::new(secs, nanos)).to_string();
        assert_eq!(t.to_text(), expected);
        assert_eq!(t.debug_text(), format!("LuaDt({:?})", expected));
        assert_eq!(t.serialize_text(), Duration::new(secs, nanos).as_nanos().to_string());
        assert!(check_text_range(&t.to_text()));
        assert_eq!(LuaDt::from_str(&t.to_text()).ok(), Some(t));
    }
    assert_eq!(LuaDt::zero().to_text(), "0s");
    assert_eq!(LuaDt::zero().serialize_text(), "0");
}

#[test]
fn texts_out_of_range_are_told() {
    assert!(check_text_range("10s"));
    assert!(check_text_range("nonsense"));
    assert!(check_text_range("500years"));
    assert!(!check_text_range("18446744073709551615s 999999999ns 1ns"));
    assert!(!check_text_range("18446744073709551615s1000ms"));
    assert!(!check_text_range("18446744073709551556s 59.5s 0.5 s"));
    assert!(!check_text_range("18446744073709551615.5s 500000usec"));
    // No second is made up of parts, or more than one.
    for s in ["18446744073709551615s 2000ms", "18446744073709551615s 999ms 1001ms", "1y 1x 5ms"] {
        assert!(check_text_range(s));
        assert!(LuaDt::from_str(s).is_err());
    }
    assert!(check_text_range("18446744073709551615s 1s"));
    assert!(LuaDt::from_str("18446744073709551615s 1s").is_err());
    assert!(check_text_range("99999999999999999999999s"));
    assert!(LuaDt::from_str("99999999999999999999999s").is_err());
    // What comes before the sum is out of range is refused.
    for s in [
        ", 18446744073709551615s 1000ms",
        "18446744073709551615s, 1000ms",
        "18446744073709551615s 1000ms, 1s",
        "18446744073709551615s. 1000ms",
        "18446744073709551615s ms 1000ms",
        "18446744073709551615..0s 1000ms",
        "18446744073709551615.s 1000ms",
        "18446744073709551615s 18446744073709551616ns 1000ms",
        "18446744073709551615s 0.5ns 1000ms",
        "18446744073709551615s 0.0001us 1000ms",
        "100000000000000000us 18346744073709551615s 1000ms",
        "0.0001h 18446744073709551615s 1000ms",
        "0.00000000000000000001s 18446744073709551615s 1000ms",
        "18446744073709551615s 1000",
        "18446744073709551615s 1000.0",
    ] {
        assert!(check_text_range(s), "{}", s);
        assert!(LuaDt::from_str(s).is_err(), "{}", s);
    }
    for s in ["18446744073709551615s\u{3000}1 000 ms ,", " 18446744073709551615 s0.5s 0.5sec x"] {
        assert!(!check_text_range(s), "{}", s);
    }
    for s in ["700000000000s", "10000000000000ms", "7000000000000m", "584542046090.5 min",
        "18446744073709551615s 999999999ns", "9 months 3M", "0.5min", "1.5h", "12", "1s", "1ns", "999999999ns", "1year 1day", "100 days 3 h"] {
        assert!(check_text_range(s));
        assert_eq!(
            LuaDt::from_str(s).ok().map(|t| Duration::new(t.as_secs(), t.subsec_nanos())),
            humantime::parse_duration(s).ok()
        );
    }
}

#[test]
fn white_space_parts_units_from_numbers() {
    for n in (0..0x3100).filter(|n| !(0xd800..0xe000).contains(n)) {
        let c = char::from_u32(n).unwrap();
        if c.is_ascii_alphanumeric() || c == '\u{b5}' {
            continue;
        }
        let s = format!("18446744073709551615s{}1000ms", c);
        assert_eq!(!check_text_range(&s), c.is_whitespace());
        let s = format!("1s{}1000ms", c);
        assert_eq!(LuaDt::from_str(&s).is_ok(), c.is_whitespace());
    }
}

#[test]
fn forms_of_whole_seconds_agree() {
    for k in [0, 1, 59, 4_294_967_296, 9_007_199_254_740_991i64] {
        let expected = Some(LuaDt::from_secs(k as u64));
        assert_eq!(RawDtValue::I64(k).into_lua_dt().ok(), expected);
        assert_eq!(RawDtValue::F64(number(k as f64)).into_lua_dt().ok(), expected);
        let s = format!("{}s", k);
        assert!(check_text_range(&s));
        assert_eq!(RawDtValue::String(s).into_lua_dt().ok(), expected);
        assert_eq!(RawDtValue::Dt(LuaDt::from_secs(k as u64)).into_lua_dt().ok(), expected);
    }
}

#[test]
fn times_add_and_subtract() {
    let a = LuaDt::from_parts(1, 999_999_999);
    let b = LuaDt::from_parts(0, 2);
    assert_eq!(a.checked_add(&b), Some(LuaDt::from_parts(2, 1)));
    assert_eq!(a.sub(&b), LuaDt::from_parts(1, 999_999_997));
    assert_eq!(b.since(&a), LuaDt::zero());
    assert_eq!(a.since(&b), LuaDt::from_parts(1, 999_999_997));
    assert_eq!(b.checked_mul(3), Some(LuaDt::from_parts(0, 6)));
    assert_eq!(a.checked_mul(2), Some(LuaDt::from_parts(3, 999_999_998)));
    let most = LuaDt::from_parts(u64::MAX, 999_999_999);
    assert_eq!(most.checked_add(&LuaDt::from_parts(0, 1)), None);
    assert_eq!(most.checked_mul(2), None);
    assert!(b.before(&a) && !a.before(&b) && !a.before(&a));
    assert!(a.same(&a) && !a.same(&b));
    assert_eq!(a.as_nanos(), 1_999_999_999);
}

#[test]
fn messages_of_time_errors() {
    assert_eq!(ParseDtError::MustBePositive.message(""), "value must be positive");
    let e = match LuaDt::from_str("x") {
        Err(e) => e,
        Ok(_) => panic!("no length of time"),
    };
    let reason = match &e {
        ParseDtError::InvalidFormat(e) => e.to_string(),
        ParseDtError::MustBePositive => panic!("not a number"),
    };
    assert_eq!(e.message(&reason), format!("invalid dt format: {}", reason));
}
