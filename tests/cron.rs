use my_timers::cron::{CronInterval, CronParseError, CronRange, CronValue, IntErrorKind, Moment};

fn at(minute: u32, hour: u32, day: u32, month: u32, weekday: u32) -> Moment {
    Moment { minute, hour, day, month, weekday }
}

fn parse(s: &str) -> CronInterval {
    match CronInterval::from_str(s) {
        Ok(iv) => iv,
        Err(e) => panic!("{:?}", e),
    }
}

fn interval(day: CronValue, weekday: CronValue) -> CronInterval {
    CronInterval {
        minute: CronValue::Every,
        hour: CronValue::Every,
        day,
        month: CronValue::Every,
        weekday,
        startup: false,
    }
}

#[test]
fn every_minute_matches_every_moment() {
    let iv = parse("* * * * *");
    for minute in [0, 17, 59] {
        for hour in [0, 12, 23] {
            for day in [1, 15, 31] {
                for month in [1, 6, 12] {
                    for weekday in 1..=7 {
                        assert!(iv.match_time(&at(minute, hour, day, month, weekday)));
                    }
                }
            }
        }
    }
}

#[test]
fn new_year_midnight_only() {
    let iv = parse("0 0 1 1 *");
    for weekday in 1..=7 {
        assert!(iv.match_time(&at(0, 0, 1, 1, weekday)));
    }
    assert!(!iv.match_time(&at(1, 0, 1, 1, 3)));
    assert!(!iv.match_time(&at(0, 1, 1, 1, 3)));
    assert!(!iv.match_time(&at(0, 0, 2, 1, 3)));
    assert!(!iv.match_time(&at(0, 0, 1, 2, 3)));
}

#[test]
fn sunday_is_zero_and_seven() {
    let zero = parse("* * * * 0");
    let seven = parse("* * * * 7");
    assert!(zero.match_time(&at(5, 5, 5, 5, 7)));
    assert!(seven.match_time(&at(5, 5, 5, 5, 7)));
    for weekday in 1..=6 {
        assert!(!zero.match_time(&at(5, 5, 5, 5, weekday)));
        assert!(!seven.match_time(&at(5, 5, 5, 5, weekday)));
    }
}

#[test]
fn wildcard_day_intersects_weekday() {
    let iv = interval(CronValue::Every, CronValue::Value(1));
    // Monday
    assert!(iv.match_time(&at(0, 0, 9, 3, 1)));
    // Tuesday
    assert!(!iv.match_time(&at(0, 0, 10, 3, 2)));
}

#[test]
fn wildcard_weekday_intersects_day() {
    let iv = interval(CronValue::Value(15), CronValue::Every);
    assert!(iv.match_time(&at(0, 0, 15, 3, 4)));
    assert!(!iv.match_time(&at(0, 0, 16, 3, 4)));
}

#[test]
fn explicit_day_and_weekday_unite() {
    let iv = interval(CronValue::Value(15), CronValue::Value(1));
    assert!(iv.match_time(&at(0, 0, 16, 3, 1)));
    assert!(!iv.match_time(&at(0, 0, 16, 3, 2)));
    assert!(iv.match_time(&at(0, 0, 15, 3, 2)));
}

#[test]
fn set_is_sorted_and_unique() {
    match CronValue::from_str("5,1,5,3") {
        Ok(CronValue::List(v)) => assert_eq!(v, vec![1, 3, 5]),
        other => panic!("{:?}", other),
    }
    let v = CronValue::from_str("5,1,5,3").unwrap();
    assert!(v.compare(3));
    assert!(!v.compare(2));
}

#[test]
fn inverted_range_is_kept_and_never_matches() {
    let v = CronValue::from_str("10-5").unwrap();
    assert!(matches!(v, CronValue::Range((10, 5))));
    for n in 0..=59 {
        assert!(!v.compare(n));
    }
    let iv = parse("10-5 * * * *");
    for minute in 0..60 {
        assert!(!iv.match_time(&at(minute, 3, 3, 3, 3)));
    }
}

#[test]
fn range_matches_inclusive() {
    let v = CronValue::from_str("5-7").unwrap();
    assert!(!v.compare(4));
    assert!(v.compare(5));
    assert!(v.compare(7));
    assert!(!v.compare(8));
}

#[test]
fn single_values_and_signs() {
    assert!(matches!(CronValue::from_str("42"), Ok(CronValue::Value(42))));
    assert!(matches!(CronValue::from_str("+5"), Ok(CronValue::Value(5))));
    assert!(matches!(CronValue::from_str("*"), Ok(CronValue::Every)));
}

#[test]
fn number_errors() {
    assert!(matches!(
        CronValue::from_str(""),
        Err(CronParseError::ParseIntError(IntErrorKind::Empty))
    ));
    assert!(matches!(
        CronValue::from_str("x"),
        Err(CronParseError::ParseIntError(IntErrorKind::InvalidDigit))
    ));
    assert!(matches!(
        CronValue::from_str("+"),
        Err(CronParseError::ParseIntError(IntErrorKind::InvalidDigit))
    ));
    assert!(matches!(
        CronValue::from_str("4294967296"),
        Err(CronParseError::ParseIntError(IntErrorKind::PosOverflow))
    ));
    assert!(matches!(CronValue::from_str("4294967295"), Ok(CronValue::Value(4294967295))));
    assert!(matches!(
        CronValue::from_str("1,x"),
        Err(CronParseError::ParseIntError(IntErrorKind::InvalidDigit))
    ));
}

#[test]
fn malformed_range() {
    match CronValue::from_str("1-2-3") {
        Err(CronParseError::MalformedTokens(m)) => assert_eq!(m, "Invalid cron range"),
        other => panic!("{:?}", other),
    }
    assert!(matches!(
        CronValue::from_str("-5"),
        Err(CronParseError::ParseIntError(IntErrorKind::Empty))
    ));
}

#[test]
fn too_few_fields() {
    match CronInterval::from_str("1 2 3") {
        Err(CronParseError::SyntaxError(m)) => assert_eq!(
            m,
            "1 2 3 - unexpected number of cron values (expected 5, received 3)"
        ),
        other => panic!("{:?}", other),
    }
}

#[test]
fn out_of_range_names_value_and_bounds() {
    match CronInterval::from_str("60 * * * *") {
        Err(CronParseError::OutOfRange(v, r)) => {
            assert!(matches!(*v, CronValue::Value(60)));
            assert_eq!((r.0, r.1), (0, 59));
        }
        other => panic!("{:?}", other),
    }
    assert!(matches!(
        CronInterval::from_str("* 24 * * *"),
        Err(CronParseError::OutOfRange(_, _))
    ));
    assert!(matches!(
        CronInterval::from_str("* * 0 * *"),
        Err(CronParseError::OutOfRange(_, _))
    ));
    assert!(matches!(
        CronInterval::from_str("* * * 13 *"),
        Err(CronParseError::OutOfRange(_, _))
    ));
    assert!(matches!(
        CronInterval::from_str("* * * * 8"),
        Err(CronParseError::OutOfRange(_, _))
    ));
    assert!(matches!(
        CronInterval::from_str("1,70 * * * *"),
        Err(CronParseError::OutOfRange(_, _))
    ));
}

#[test]
fn validate_by_range() {
    let r = CronRange(1, 12);
    assert!(r.validate(&CronValue::Value(12)).is_ok());
    assert!(r.validate(&CronValue::Value(0)).is_err());
    assert!(r.validate(&CronValue::Range((1, 13))).is_err());
    assert!(r.validate(&CronValue::List(vec![1, 12])).is_ok());
    assert!(r.validate(&CronValue::Every).is_ok());
}

#[test]
fn startup_flag() {
    assert!(parse("* * * * * @startup").startup);
    assert!(!parse("* * * * *").startup);
    assert!(!parse("* * * * * ").startup);
}

#[test]
fn startup_flag_tolerates_white_space() {
    assert!(parse("* * * * * @startup ").startup);
    assert!(parse("0 0 1 1 *  @startup ").startup);
    assert!(parse("0 0 1 1 * \t@startup").startup);
}

#[test]
fn other_trailing_text_is_an_error() {
    match CronInterval::from_str("* * * * * later") {
        Err(CronParseError::SyntaxError(m)) => assert_eq!(
            m,
            "* * * * * later - unexpected text after the cron values (expected @startup)"
        ),
        other => panic!("{:?}", other),
    }
    assert!(matches!(
        CronInterval::from_str("1 2 3 4 5 6 7"),
        Err(CronParseError::SyntaxError(_))
    ));
}

#[test]
fn field_bounds() {
    let m = CronInterval::minute_range();
    assert_eq!((m.0, m.1), (0, 59));
    let h = CronInterval::hour_range();
    assert_eq!((h.0, h.1), (0, 23));
    let d = CronInterval::day_range();
    assert_eq!((d.0, d.1), (1, 31));
    let mo = CronInterval::month_range();
    assert_eq!((mo.0, mo.1), (1, 12));
    let w = CronInterval::weekday_range();
    assert_eq!((w.0, w.1), (0, 7));
}
