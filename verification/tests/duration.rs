use qsoripper::duration::{format_duration_seconds, format_qso_duration, qso_duration_seconds, QsoRecord, Timestamp};

fn ts(seconds: i64) -> Timestamp {
    Timestamp { seconds, nanos: 0 }
}

#[test]
fn returns_none_for_non_positive_seconds() {
    assert_eq!(format_duration_seconds(0), None);
    assert_eq!(format_duration_seconds(-5), None);
}

#[test]
fn formats_seconds_only_under_one_minute() {
    assert_eq!(format_duration_seconds(1).as_deref(), Some("1s"));
    assert_eq!(format_duration_seconds(45).as_deref(), Some("45s"));
    assert_eq!(format_duration_seconds(59).as_deref(), Some("59s"));
}

#[test]
fn formats_minutes_and_seconds_under_one_hour() {
    assert_eq!(format_duration_seconds(60).as_deref(), Some("1m 00s"));
    assert_eq!(format_duration_seconds(155).as_deref(), Some("2m 35s"));
    assert_eq!(format_duration_seconds(3599).as_deref(), Some("59m 59s"));
}

#[test]
fn formats_hours_and_minutes_for_one_hour_or_more() {
    assert_eq!(format_duration_seconds(3600).as_deref(), Some("1h 00m"));
    assert_eq!(format_duration_seconds(4320).as_deref(), Some("1h 12m"));
    assert_eq!(format_duration_seconds(7_265).as_deref(), Some("2h 01m"));
    assert_eq!(format_duration_seconds(86_400).as_deref(), Some("24h 00m"));
}

#[test]
fn duration_seconds_requires_both_timestamps() {
    assert_eq!(qso_duration_seconds(None, None), None);
    assert_eq!(qso_duration_seconds(Some(&ts(100)), None), None);
    assert_eq!(qso_duration_seconds(None, Some(&ts(100))), None);
}

#[test]
fn duration_seconds_requires_strictly_positive_delta() {
    assert_eq!(qso_duration_seconds(Some(&ts(100)), Some(&ts(100))), None);
    assert_eq!(qso_duration_seconds(Some(&ts(200)), Some(&ts(100))), None);
    assert_eq!(qso_duration_seconds(Some(&ts(100)), Some(&ts(155))), Some(55));
}

#[test]
fn format_qso_duration_returns_none_when_either_timestamp_is_missing() {
    let mut record = QsoRecord::default();
    assert_eq!(format_qso_duration(&record), None);
    record.utc_timestamp = Some(ts(100));
    assert_eq!(format_qso_duration(&record), None);
    record.utc_timestamp = None;
    record.utc_end_timestamp = Some(ts(100));
    assert_eq!(format_qso_duration(&record), None);
}

#[test]
fn format_qso_duration_uses_record_timestamps() {
    let record = QsoRecord {
        utc_timestamp: Some(ts(1_700_000_000)),
        utc_end_timestamp: Some(ts(1_700_000_155)),
        ..QsoRecord::default()
    };
    assert_eq!(format_qso_duration(&record).as_deref(), Some("2m 35s"));
}

#[test]
fn format_qso_duration_returns_none_when_end_not_after_start() {
    let record = QsoRecord {
        utc_timestamp: Some(ts(1_700_000_000)),
        utc_end_timestamp: Some(ts(1_700_000_000)),
        ..QsoRecord::default()
    };
    assert_eq!(format_qso_duration(&record), None);
}

#[test]
fn duration_of_a_day_and_a_half_counts_hours_past_a_day() {
    assert_eq!(format_duration_seconds(129_600).as_deref(), Some("36h 00m"));
    assert_eq!(format_duration_seconds(i64::MAX).is_some(), true);
}

#[test]
fn duration_ignores_nanoseconds() {
    let start = Timestamp { seconds: 10, nanos: 999_999_999 };
    let end = Timestamp { seconds: 11, nanos: 0 };
    assert_eq!(qso_duration_seconds(Some(&start), Some(&end)), Some(1));
}
