use chicago_data_bot::error::BotError;
use chicago_data_bot::schedule::{check_health, check_store, due};

fn ts(s: &str) -> i64 {
    chrono::DateTime::parse_from_rfc3339(s).unwrap().timestamp()
}

#[test]
fn weekends_and_dst_follow_chicago_schedule() {
    for (now, expected) in [
        ("2026-09-20T14:00:00Z", "2026-09-18T23:03:00Z"),
        ("2026-09-21T13:20:00Z", "2026-09-18T23:03:00Z"),
        ("2026-09-21T13:34:00Z", "2026-09-21T13:03:00Z"),
        ("2026-11-02T14:34:00Z", "2026-11-02T14:03:00Z"),
    ] {
        assert_eq!(due(ts(now)).unwrap(), ts(expected));
    }
}

#[test]
fn a_run_counts_half_an_hour_after_it_starts() {
    assert_eq!(due(ts("2026-09-22T19:32:59Z")).unwrap(), ts("2026-09-22T13:03:00Z"));
    assert_eq!(due(ts("2026-09-22T19:33:00Z")).unwrap(), ts("2026-09-22T19:03:00Z"));
    assert_eq!(due(ts("2026-09-22T23:33:00Z")).unwrap(), ts("2026-09-22T23:03:00Z"));
    assert_eq!(due(i64::MIN), Err(BotError::InvalidTimestamp));
    assert_eq!(due(-8_300_000_000_000_000), Err(BotError::InvalidTimestamp));
    assert_eq!(due(i64::MAX), Err(BotError::InvalidTimestamp));
    assert_eq!(due(-8_334_601_300_000), Err(BotError::InvalidTimestamp));
    assert_eq!(due(8_300_000_000_000), Err(BotError::InvalidTimestamp));
    let far = 8_000_000_001_801;
    let t = due(far).unwrap();
    assert!(t <= far - 1800 && far - 1800 - t < 4 * 86_400);
    let early = -8_000_000_000_000;
    let t = due(early).unwrap();
    assert!(t <= early - 1800 && early - 1800 - t < 4 * 86_400);
}

#[test]
fn health_needs_a_recent_scan_and_no_stale_pending_post() {
    let now = ts("2026-09-21T13:34:00Z");
    assert_eq!(check_health("2026-09-21T13:05:00Z", None, now), Ok(()));
    assert_eq!(check_health("2026-09-21T13:02:00Z", None, now), Err(BotError::ScanOverdue));
    assert_eq!(
        check_health("2026-09-21T13:05:00Z", Some("2026-09-21T13:04:00+00:00"), now),
        Ok(())
    );
    assert_eq!(
        check_health("2026-09-21T13:05:00Z", Some("2026-09-18T23:04:00Z"), now),
        Err(BotError::PendingSurvived)
    );
    assert_eq!(check_health("soon", None, now), Err(BotError::InvalidTimestamp));
    assert_eq!(
        check_health("2026-09-21T13:05:00Z", Some("later"), now),
        Err(BotError::InvalidTimestamp)
    );
}

#[test]
fn store_check_needs_integrity_and_a_baseline_timestamp() {
    assert_eq!(check_store("ok", "2026-09-17T00:00:00Z"), Ok(()));
    assert_eq!(check_store("corrupt", "2026-09-17T00:00:00Z"), Err(BotError::IntegrityCheckFailed));
    assert_eq!(check_store("ok", "time"), Err(BotError::InvalidTimestamp));
}
