use watermarker::settings::{interval_minutes_setting, parse_u64, pause_seconds, switch_setting, DEFAULT_INTERVAL_MINUTES};

#[test]
fn parses_unsigned_numbers() {
    assert_eq!(parse_u64("45"), Some(45));
    assert_eq!(parse_u64("+7"), Some(7));
    assert_eq!(parse_u64("007"), Some(7));
    assert_eq!(parse_u64("18446744073709551615"), Some(u64::MAX));
}

#[test]
fn rejects_invalid_numbers() {
    assert_eq!(parse_u64(""), None);
    assert_eq!(parse_u64("+"), None);
    assert_eq!(parse_u64("-1"), None);
    assert_eq!(parse_u64("12a"), None);
    assert_eq!(parse_u64(" 12"), None);
    assert_eq!(parse_u64("18446744073709551616"), None);
}

#[test]
fn interval_defaults() {
    assert_eq!(DEFAULT_INTERVAL_MINUTES, 30);
    assert_eq!(interval_minutes_setting(None), 30);
    assert_eq!(interval_minutes_setting(Some("often")), 30);
    assert_eq!(interval_minutes_setting(Some("15")), 15);
}

#[test]
fn run_once_only_on_exact_true() {
    assert!(switch_setting(Some("true")));
    assert!(!switch_setting(Some("TRUE")));
    assert!(!switch_setting(Some("1")));
    assert!(!switch_setting(None));
}

#[test]
fn pause_in_seconds() {
    assert_eq!(pause_seconds(30), 1800);
    assert_eq!(pause_seconds(0), 0);
    assert_eq!(pause_seconds(u64::MAX), u64::MAX);
}
