use shell_sync::stats::parse_last_filter;

fn now_ms() -> i64 {
    chrono::Utc::now().timestamp_millis()
}

#[test]
fn parse_last_7d() {
    let now = now_ms();
    let ts = parse_last_filter("7d", now).unwrap();
    let diff = now - ts;
    assert!((diff - 7 * 86400 * 1000).abs() < 1000);
}

#[test]
fn parse_last_30d() {
    let now = now_ms();
    let ts = parse_last_filter("30d", now).unwrap();
    let diff = now - ts;
    assert!((diff - 30 * 86400 * 1000).abs() < 1000);
}

#[test]
fn parse_last_1y() {
    let now = now_ms();
    let ts = parse_last_filter("1y", now).unwrap();
    let diff = now - ts;
    assert!((diff - 365 * 86400 * 1000).abs() < 1000);
}

#[test]
fn parse_last_all() {
    assert!(parse_last_filter("all", now_ms()).is_none());
}

#[test]
fn parse_last_invalid() {
    assert!(parse_last_filter("foo", now_ms()).is_none());
}

#[test]
fn parse_last_trims_and_lowercases() {
    let ts = parse_last_filter("  2W ", 1_000_000_000_000).unwrap();
    assert_eq!(ts, 1_000_000_000_000 - 2 * 7 * 86400 * 1000);
    assert!(parse_last_filter(" ALL ", 0).is_none());
}
