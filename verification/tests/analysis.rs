use wavly::analysis::{format_duration, TrackDuration};

#[test]
fn formats_durations_as_minutes_and_seconds() {
    assert_eq!(format_duration(TrackDuration::from_secs(0)), "00:00");
    assert_eq!(format_duration(TrackDuration::from_secs(65)), "01:05");
    assert_eq!(format_duration(TrackDuration::new(599, 999_999_999)), "09:59");
    assert_eq!(format_duration(TrackDuration::from_secs(600)), "10:00");
    assert_eq!(format_duration(TrackDuration::from_secs(6000)), "100:00");
}
