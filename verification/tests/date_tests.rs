use gl::date::{to_absolute, to_epoch_seconds, CommitDate, MAX_EPOCH_SECONDS};
use gl::GlError;

#[test]
fn epoch_start_is_thursday() {
    let d = to_absolute(0, 0).unwrap();
    assert_eq!(d.year, 1970);
    assert_eq!(d.month, 1);
    assert_eq!(d.day, 1);
    assert_eq!(d.weekday, 4);
    assert_eq!(d.hour, 0);
    assert_eq!(d.minute, 0);
    assert_eq!(d.second, 0);
}

#[test]
fn leap_day_conversion() {
    let d = to_absolute(1709208000, 0).unwrap();
    assert_eq!((d.year, d.month, d.day), (2024, 2, 29));
    assert_eq!((d.hour, d.minute, d.second), (12, 0, 0));
}

#[test]
fn century_non_leap_boundary() {
    // 2000 is a leap year (divisible by 400); the day after 2000-02-29.
    let d = to_absolute(951868800, 0).unwrap();
    assert_eq!((d.year, d.month, d.day), (2000, 3, 1));
}

#[test]
fn offset_shifts_calendar_day() {
    // 1999-12-31T23:30 at +02:00 is 21:30 UTC.
    let d = to_absolute(946675800, 7200).unwrap();
    assert_eq!((d.year, d.month, d.day), (1999, 12, 31));
    assert_eq!((d.hour, d.minute), (23, 30));
    let utc = to_absolute(946675800, 0).unwrap();
    assert_eq!((utc.hour, utc.minute), (21, 30));
}

#[test]
fn largest_supported_timestamp() {
    let d = to_absolute(MAX_EPOCH_SECONDS, 0).unwrap();
    assert_eq!((d.year, d.month, d.day), (9999, 12, 31));
    assert_eq!((d.hour, d.minute, d.second), (23, 59, 59));
    assert_eq!(to_absolute(MAX_EPOCH_SECONDS + 1, 0), Err(GlError::MalformedTimestamp));
}

#[test]
fn malformed_timestamps_are_fatal() {
    assert_eq!(to_absolute(-1, 0), Err(GlError::MalformedTimestamp));
    assert_eq!(to_absolute(0, 86400), Err(GlError::MalformedTimestamp));
    assert_eq!(to_absolute(0, -86400), Err(GlError::MalformedTimestamp));
    assert_eq!(to_absolute(0, -1), Err(GlError::MalformedTimestamp));
    assert!(to_absolute(0, -1).unwrap_err().message().contains("timestamp"));
}

#[test]
fn date_round_trip() {
    // to_absolute formatted back to epoch seconds + offset is the identity.
    for &(ts, off) in &[
        (0i64, 0i32),
        (1709208000, 0),
        (946675800, 7200),
        (946675800, -3600),
        (MAX_EPOCH_SECONDS, 0),
        (86399, -86399),
        (1, 1),
    ] {
        let d = to_absolute(ts, off).unwrap();
        assert_eq!(d.offset, off);
        assert_eq!(to_epoch_seconds(&d), ts);
    }
}

#[test]
fn format_abs_shape() {
    let d = to_absolute(1709208000, 0).unwrap();
    let cd = CommitDate::new(1709208000, 0, 1709208000).unwrap();
    assert_eq!(cd.abs, d);
    assert_eq!(cd.format_abs(), "Thu 29 Feb 2024");
    let start = CommitDate::new(0, 0, 0).unwrap();
    assert_eq!(start.format_abs(), "Thu 01 Jan 1970");
    let m = CommitDate::new(951868800, 0, 951868800).unwrap();
    assert_eq!(m.format_abs(), "Wed 01 Mar 2000");
}

#[test]
fn commit_date_new_rejects_bad_offsets() {
    assert!(CommitDate::new(0, 90000, 0).is_err());
    assert!(CommitDate::from_time(0, 90000).is_err());
    assert!(CommitDate::from_time(1709208000, 0).is_ok());
}
