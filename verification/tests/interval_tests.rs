use flood_rust::config::{Dur, Interval};

#[test]
fn parse_plain_integer_is_count() {
    assert_eq!(Interval::parse("100"), Ok(Interval::Count(100)));
    assert_eq!(Interval::parse("0"), Ok(Interval::Count(0)));
    assert_eq!(Interval::parse("+7"), Ok(Interval::Count(7)));
    assert_eq!(
        Interval::parse("18446744073709551615"),
        Ok(Interval::Count(u64::MAX))
    );
}

#[test]
fn parse_time_unit_is_duration() {
    assert_eq!(
        Interval::parse("60s"),
        Ok(Interval::Time(Dur { secs: 60, nanos: 0 }))
    );
    assert_eq!(
        Interval::parse("500ms"),
        Ok(Interval::Time(Dur {
            secs: 0,
            nanos: 500_000_000
        }))
    );
    assert_eq!(
        Interval::parse("2m"),
        Ok(Interval::Time(Dur { secs: 120, nanos: 0 }))
    );
}

#[test]
fn parse_garbage_fails() {
    let expected = Err("Required integer number of cycles or time duration".to_string());
    assert_eq!(Interval::parse("abc"), expected);
    assert_eq!(Interval::parse(""), expected);
    assert_eq!(Interval::parse("12x34"), expected);
}

#[test]
fn parse_overflowing_integer_fails() {
    // one past u64::MAX: not a count, and the duration parser rejects it too
    assert!(Interval::parse("18446744073709551616").is_err());
}

#[test]
fn is_not_zero_cases() {
    assert!(!Interval::Unbounded.is_not_zero());
    assert!(!Interval::Count(0).is_not_zero());
    assert!(Interval::Count(1).is_not_zero());
    assert!(!Interval::Time(Dur { secs: 0, nanos: 0 }).is_not_zero());
    assert!(Interval::Time(Dur { secs: 0, nanos: 1 }).is_not_zero());
    assert!(Interval::Time(Dur { secs: 3, nanos: 0 }).is_not_zero());
}

#[test]
fn is_bounded_cases() {
    assert!(!Interval::Unbounded.is_bounded());
    assert!(Interval::Count(0).is_bounded());
    assert!(Interval::Time(Dur { secs: 0, nanos: 0 }).is_bounded());
}

#[test]
fn count_accessor() {
    assert_eq!(Interval::Count(42).count(), Some(42));
    assert_eq!(Interval::Unbounded.count(), None);
    assert_eq!(Interval::Time(Dur { secs: 1, nanos: 0 }).count(), None);
}

#[test]
fn bound_reached_cases() {
    let by_count = Interval::Count(100);
    let zero = Dur { secs: 0, nanos: 0 };
    assert!(!by_count.bound_reached(99, &zero));
    assert!(by_count.bound_reached(100, &zero));

    let by_time = Interval::Time(Dur { secs: 1, nanos: 0 });
    assert!(!by_time.bound_reached(
        0,
        &Dur {
            secs: 0,
            nanos: 999_999_999
        }
    ));
    assert!(by_time.bound_reached(0, &Dur { secs: 1, nanos: 0 }));

    assert!(!Interval::Unbounded.bound_reached(u64::MAX, &Dur { secs: 1, nanos: 0 }));
}

#[test]
fn error_message_accessor() {
    let e = flood_rust::FloodError::Parse("bad value".to_string());
    assert_eq!(e.message(), "bad value");
    let e = flood_rust::FloodError::Session("no session".to_string());
    assert_eq!(e.message(), "no session");
}
