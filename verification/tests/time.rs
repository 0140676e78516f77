use minesweeper::duration::{
    deserialise_extra_time, extra_time_fits_text, serialise_extra_time, DurationSerError, TimeSpan,
};
use minesweeper::nice_time::{as_nice_time, nice_time};

fn read(s: &str) -> Result<TimeSpan, DurationSerError> {
    assert!(extra_time_fits_text(s));
    deserialise_extra_time(s)
}

#[test]
fn time_span_new_carries() {
    assert_eq!(TimeSpan::new(3, 1_500_000_000), TimeSpan { secs: 4, nanos: 500_000_000 });
    assert_eq!(TimeSpan::new(0, 999_999_999), TimeSpan { secs: 0, nanos: 999_999_999 });
    assert_eq!(TimeSpan::zero(), TimeSpan { secs: 0, nanos: 0 });
}

#[test]
fn serialise_values() {
    assert_eq!(serialise_extra_time(TimeSpan { secs: 12, nanos: 345 }), "12-345");
    assert_eq!(serialise_extra_time(TimeSpan::zero()), "0-0");
    assert_eq!(
        serialise_extra_time(TimeSpan { secs: u64::MAX, nanos: 999_999_999 }),
        "18446744073709551615-999999999"
    );
}

#[test]
fn deserialise_values() {
    assert_eq!(read("12-345").unwrap(), TimeSpan { secs: 12, nanos: 345 });
    assert_eq!(read("+3-4").unwrap(), TimeSpan { secs: 3, nanos: 4 });
    assert_eq!(read("1-2000000000").unwrap(), TimeSpan { secs: 3, nanos: 0 });
    // only the first separator splits
    assert!(matches!(read("1-2-3"), Err(DurationSerError::ErrorParsingNanos(_))));
}

#[test]
fn deserialise_errors() {
    assert!(matches!(read("12345"), Err(DurationSerError::CantFindSeparator)));
    assert!(matches!(read("-5"), Err(DurationSerError::EmptySeconds)));
    assert!(matches!(read("5-"), Err(DurationSerError::EmptyNanos)));
    assert!(matches!(read("a-5"), Err(DurationSerError::ErrorParsingSeconds(_))));
    assert!(matches!(read("5-x"), Err(DurationSerError::ErrorParsingNanos(_))));
    assert!(matches!(read("5-4294967296"), Err(DurationSerError::ErrorParsingNanos(_))));
    assert!(matches!(read("18446744073709551616-0"), Err(DurationSerError::ErrorParsingSeconds(_))));
}

#[test]
fn deserialise_overflow_is_detected() {
    assert!(!extra_time_fits_text("18446744073709551615-1000000000"));
    assert!(extra_time_fits_text("18446744073709551615-999999999"));
    assert!(extra_time_fits_text("nonsense"));
}

#[test]
fn extra_time_round_trip() {
    for t in [
        TimeSpan { secs: 0, nanos: 0 },
        TimeSpan { secs: 59, nanos: 1 },
        TimeSpan { secs: 123456789, nanos: 999_999_999 },
        TimeSpan { secs: u64::MAX, nanos: 0 },
    ] {
        assert_eq!(read(&serialise_extra_time(t)).unwrap(), t);
    }
}

#[test]
fn duration_error_messages() {
    assert_eq!(DurationSerError::CantFindSeparator.message(), "Unable to find separator '-'");
    assert_eq!(DurationSerError::EmptySeconds.message(), "Seconds part was empty");
    assert_eq!(DurationSerError::EmptyNanos.message(), "Sub-second nanoseconds part was empty");
    let e = "x".parse::<u64>().unwrap_err();
    let err = DurationSerError::ErrorParsingSeconds(e);
    assert_eq!(err.message(), "Error parsing seconds: invalid digit found in string");
    assert!(err.source().is_some());
    let e = "".parse::<u32>().unwrap_err();
    assert_eq!(
        DurationSerError::ErrorParsingNanos(e).message(),
        "Error parsing sub-second nanoseconds: cannot parse integer from empty string"
    );
    assert!(DurationSerError::EmptyNanos.source().is_none());
}

#[test]
fn nice_time_values() {
    assert_eq!(nice_time(125, 500_000_000, 2), "2'5.50\"");
    assert_eq!(nice_time(125, 0, 2), "2'5\"");
    assert_eq!(nice_time(59, 123_456_789, 9), "0'59.123456789\"");
    assert_eq!(nice_time(3600, 5_000_000, 2), "60'0.0\"");
    assert_eq!(nice_time(1, 900_000_000, 0), "0'1.0\"");
    assert_eq!(nice_time(-125, -500_000_000, 1), "-2'-5.-5\"");
}

#[test]
fn as_nice_time_values() {
    let d = chrono::TimeDelta::new(125, 500_000_000).unwrap();
    assert_eq!(as_nice_time(&d, 2), "2'5.50\"");
    let d = chrono::TimeDelta::new(61, 0).unwrap();
    assert_eq!(as_nice_time(&d, 3), "1'1\"");
    let d = chrono::TimeDelta::milliseconds(-1500);
    assert_eq!(as_nice_time(&d, 1), "0'-1.-5\"");
}
