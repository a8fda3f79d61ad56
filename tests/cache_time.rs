use spicetify_guard::cache::{elapsed_whole_secs, Cache, Timestamp, DEFAULT_WINDOW_SECS};
use spicetify_guard::settings::{parse_u64, timeout_from, DEFAULT_TIMEOUT_SECS};

fn ts(secs: u64, nanos: u32) -> Timestamp {
    Timestamp { secs, nanos }
}

#[test]
fn elapsed_counts_whole_seconds() {
    assert_eq!(elapsed_whole_secs(ts(10, 0), ts(15, 0)), 5);
    assert_eq!(elapsed_whole_secs(ts(10, 500), ts(15, 499)), 4);
    assert_eq!(elapsed_whole_secs(ts(10, 500), ts(15, 500)), 5);
    assert_eq!(elapsed_whole_secs(ts(10, 999_999_999), ts(11, 0)), 0);
    assert_eq!(elapsed_whole_secs(ts(0, 0), ts(u64::MAX, 999_999_999)), u64::MAX);
}

#[test]
fn elapsed_is_zero_when_clock_went_back() {
    assert_eq!(elapsed_whole_secs(ts(20, 0), ts(15, 0)), 0);
    assert_eq!(elapsed_whole_secs(ts(15, 2), ts(15, 1)), 0);
}

#[test]
fn recently_ok_window_edges() {
    let c = Cache { last_ok: Some(ts(1000, 0)), spotify_ver: None, backup_ver: None };
    assert_eq!(DEFAULT_WINDOW_SECS, 43200);
    assert!(c.is_recently_ok(ts(1000, 0), DEFAULT_WINDOW_SECS));
    assert!(c.is_recently_ok(ts(1000 + 43199, 999_999_999), DEFAULT_WINDOW_SECS));
    assert!(!c.is_recently_ok(ts(1000 + 43200, 0), DEFAULT_WINDOW_SECS));
    assert!(c.is_recently_ok(ts(10, 0), DEFAULT_WINDOW_SECS));
    assert!(!c.is_recently_ok(ts(1000, 0), 0));
    assert!(!Cache::default().is_recently_ok(ts(1000, 0), DEFAULT_WINDOW_SECS));
}

#[test]
fn record_success_writes_all_fields() {
    let mut c = Cache::default();
    assert!(c.last_ok.is_none() && c.spotify_ver.is_none() && c.backup_ver.is_none());
    c.record_success(ts(7, 8), Some("1.2.3".to_string()), None);
    assert_eq!(c.last_ok, Some(ts(7, 8)));
    assert_eq!(c.spotify_ver, Some("1.2.3".to_string()));
    assert_eq!(c.backup_ver, None);
}

#[test]
fn parse_u64_as_std_reads_it() {
    assert_eq!(parse_u64("600"), Some(600));
    assert_eq!(parse_u64("+42"), Some(42));
    assert_eq!(parse_u64("007"), Some(7));
    assert_eq!(parse_u64("18446744073709551615"), Some(u64::MAX));
    assert_eq!(parse_u64("18446744073709551616"), None);
    assert_eq!(parse_u64("99999999999999999999x"), None);
    assert_eq!(parse_u64(""), None);
    assert_eq!(parse_u64("+"), None);
    assert_eq!(parse_u64("-1"), None);
    assert_eq!(parse_u64(" 5"), None);
    assert_eq!(parse_u64("5s"), None);
    for s in ["0", "1", "123", "+9", "", "x", "1 2", "4294967296"] {
        assert_eq!(parse_u64(s), s.parse::<u64>().ok());
    }
}

#[test]
fn timeout_setting_or_default() {
    assert_eq!(DEFAULT_TIMEOUT_SECS, 600);
    assert_eq!(timeout_from("30"), 30);
    assert_eq!(timeout_from("0"), 0);
    assert_eq!(timeout_from("ten"), 600);
    assert_eq!(timeout_from(""), 600);
}
