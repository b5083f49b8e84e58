use ai_pool::quota::{
    consume_window, window_usable, window_wait_ms, KeyLimits, KeyQuotaInfo, WindowInfo, WindowState,
    HOUR_MS, MINUTE_MS,
};

#[test]
fn fresh_key_is_usable() {
    assert!(window_usable(None, Some(5), 0, MINUTE_MS));
    assert!(window_usable(None, None, 0, MINUTE_MS));
}

#[test]
fn window_counts_up_and_blocks_at_limit() {
    let mut w = None;
    let now = 1_000_000;
    for _ in 0..5 {
        assert!(window_usable(w, Some(5), now, MINUTE_MS));
        consume_window(&mut w, now, MINUTE_MS);
    }
    assert_eq!(w.unwrap().used, 5);
    assert!(!window_usable(w, Some(5), now, MINUTE_MS));
    // 60s later the window has passed: usable again.
    assert!(window_usable(w, Some(5), now + MINUTE_MS, MINUTE_MS));
}

#[test]
fn consume_resets_expired_window() {
    let mut w = Some(WindowState {
        start_ms: 0,
        used: 99,
    });
    consume_window(&mut w, MINUTE_MS + 1, MINUTE_MS);
    let w = w.unwrap();
    assert_eq!(w.used, 1);
    assert_eq!(w.start_ms, MINUTE_MS + 1);
}

#[test]
fn wait_ms_reports_time_to_reset() {
    let w = Some(WindowState {
        start_ms: 0,
        used: 5,
    });
    assert_eq!(window_wait_ms(w, Some(5), 10_000, MINUTE_MS), Some(50_000));
    // Not exhausted -> no wait.
    assert_eq!(window_wait_ms(w, Some(6), 10_000, MINUTE_MS), None);
    // No limit -> no wait.
    assert_eq!(window_wait_ms(w, None, 10_000, MINUTE_MS), None);
}

#[test]
fn window_info_snapshot() {
    let w = Some(WindowState {
        start_ms: 0,
        used: 3,
    });
    let info = WindowInfo::build(w, Some(5), 20_000, MINUTE_MS).unwrap();
    assert_eq!(info.used, 3);
    assert_eq!(info.remaining, Some(2));
    assert_eq!(info.resets_at_ms, 60_000);
    assert_eq!(info.resets_in_ms, 40_000);
    // Expired window reports fresh zero usage.
    let info = WindowInfo::build(w, Some(5), 70_000, MINUTE_MS).unwrap();
    assert_eq!(info.used, 0);
    assert_eq!(info.remaining, Some(5));
    // No usage, no limit -> nothing to report.
    assert!(WindowInfo::build(None, None, 0, MINUTE_MS).is_none());
}

#[test]
fn limits_builder_and_flags() {
    let l = KeyLimits::none().per_minute(5).max_concurrency(2);
    assert!(l.has_rate_limits());
    assert!(!l.is_unlimited());
    assert!(KeyLimits::none().is_unlimited());
    assert!(!KeyLimits::none().max_concurrency(1).has_rate_limits());
}

#[test]
fn windows_at_the_ends_of_time_do_not_wrap() {
    let late = WindowState {
        start_ms: i64::MAX - 5,
        used: 1,
    };
    assert_eq!(late.resets_at_ms(MINUTE_MS), i64::MAX);
    assert!(!late.expired(i64::MAX - 1, MINUTE_MS));
    assert!(late.expired(i64::MAX, MINUTE_MS));
    // A count at its end stays there.
    let mut full = Some(WindowState {
        start_ms: 0,
        used: u32::MAX,
    });
    consume_window(&mut full, 1, HOUR_MS);
    assert_eq!(full.unwrap().used, u32::MAX);
}

#[test]
fn a_limit_of_zero_admits_nothing() {
    let used = Some(WindowState {
        start_ms: 0,
        used: 3,
    });
    for w in [None, used] {
        for now in [10, MINUTE_MS, 10 * MINUTE_MS] {
            assert!(!window_usable(w, Some(0), now, MINUTE_MS));
            // Nothing ends this, so there is no time to wait for.
            assert_eq!(window_wait_ms(w, Some(0), now, MINUTE_MS), None);
        }
    }
    let info = WindowInfo::build(None, Some(0), 10, MINUTE_MS).unwrap();
    assert_eq!((info.used, info.remaining), (0, Some(0)));
}

#[test]
fn exhausted_window_blocks_until_the_reset_it_reports() {
    let w = Some(WindowState {
        start_ms: 1_000,
        used: 4,
    });
    let now = 31_000;
    let wait = window_wait_ms(w, Some(4), now, MINUTE_MS).unwrap();
    assert_eq!(wait, 30_000);
    assert!(!window_usable(w, Some(4), now + wait as i64 - 1, MINUTE_MS));
    assert!(window_usable(w, Some(4), now + wait as i64, MINUTE_MS));
}

#[test]
fn limits_carry_every_setting() {
    let l = KeyLimits::none()
        .per_hour(7)
        .concurrency_cooldown_ms(1_500);
    assert_eq!(l.per_minute, None);
    assert_eq!(l.per_hour, Some(7));
    assert_eq!(l.max_concurrency, None);
    assert_eq!(l.concurrency_cooldown_ms, Some(1_500));
    assert!(l == KeyLimits::default().concurrency_cooldown_ms(1_500).per_hour(7));
    // A saturation cooldown alone is no limit.
    assert!(KeyLimits::none().concurrency_cooldown_ms(1).is_unlimited());
}

#[test]
fn quota_snapshots_compare_by_value() {
    let info = KeyQuotaInfo {
        minute: None,
        hour: None,
        in_flight: 2,
        max_concurrency: Some(3),
    };
    assert!(info == info.clone());
}
