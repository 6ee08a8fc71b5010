use openusage::{app_started_day_key, format_ymd, should_track_app_started, today_utc_ymd};

#[test]
fn should_track_when_no_previous_day() {
    assert!(should_track_app_started(None, "2026-02-12"));
}

#[test]
fn should_not_track_when_same_day() {
    assert!(!should_track_app_started(Some("2026-02-12"), "2026-02-12"));
}

#[test]
fn should_track_when_day_changes() {
    assert!(should_track_app_started(Some("2026-02-11"), "2026-02-12"));
}

#[test]
fn key_is_version_scoped() {
    let v1_key = app_started_day_key("0.6.2");
    let v2_key = app_started_day_key("0.6.3");
    assert_ne!(v1_key, v2_key);
    assert!(v1_key.ends_with("0.6.2"));
    assert!(v2_key.ends_with("0.6.3"));
}

#[test]
fn day_key_has_prefix() {
    assert_eq!(app_started_day_key("1.0.0"), "analytics.app_started_day.1.0.0");
}

#[test]
fn ymd_is_zero_padded() {
    assert_eq!(format_ymd(2026, 2, 12), "2026-02-12");
    assert_eq!(format_ymd(987, 11, 3), "0987-11-03");
    assert_eq!(format_ymd(-5, 1, 1), "-005-01-01");
    assert_eq!(format_ymd(0, 12, 31), "0000-12-31");
}

#[test]
fn today_has_date_shape() {
    let today = today_utc_ymd();
    assert_eq!(today.len(), 10);
    let bytes = today.as_bytes();
    assert_eq!(bytes[4], b'-');
    assert_eq!(bytes[7], b'-');
    assert!(today.as_str() >= "2024-01-01");
}
