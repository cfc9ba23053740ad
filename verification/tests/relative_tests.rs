use gl::relative::to_relative;

#[test]
fn seconds_to_minutes_boundary() {
    // 89 seconds still reports in seconds; at 90 the output switches to
    // minutes, rounded to (90 + 30) / 60 = 2.
    assert_eq!(to_relative(11, 100), "89 seconds ago");
    assert_eq!(to_relative(10, 100), "2 minutes ago");
}

#[test]
fn singular_and_plural() {
    assert_eq!(to_relative(0, 0), "0 seconds ago");
    assert_eq!(to_relative(0, 1), "1 second ago");
    assert_eq!(to_relative(0, 2), "2 seconds ago");
}

#[test]
fn future_times() {
    assert_eq!(to_relative(1, 0), "in the future");
    assert_eq!(to_relative(i64::MAX, i64::MIN), "in the future");
}

#[test]
fn bucket_walkthrough() {
    assert_eq!(to_relative(0, 3600), "60 minutes ago");
    assert_eq!(to_relative(0, 21600), "6 hours ago");
    assert_eq!(to_relative(0, 259200), "3 days ago");
    assert_eq!(to_relative(0, 1728000), "3 weeks ago");
    assert_eq!(to_relative(0, 8640000), "3 months ago");
    assert_eq!(to_relative(0, 34560000), "1 year ago, 1 month ago");
    assert_eq!(to_relative(0, 172800000), "5 years ago");
    assert_eq!(to_relative(0, 189216000), "6 years ago");
}

#[test]
fn extreme_differences_still_render() {
    let s = to_relative(i64::MIN, i64::MAX);
    assert!(s.ends_with(" years ago"));
}
