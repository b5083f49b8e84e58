use ai_pool::clock::{Clock, Duration, Instant, Moment};
use ai_pool::engine::{proactive, reactive, KeyPool, LeasedKey, Round};
use ai_pool::{KeyHealth, KeyLimits, KeySeed, RotationMode, SecretString, WindowState};

fn seed(i: usize) -> KeySeed {
    KeySeed::new(
        &format!("k{i}"),
        SecretString::new(format!("sk-{i}")),
        "sk-...",
    )
}

fn pool(mode: RotationMode, n: usize) -> KeyPool {
    pool_with_limits(mode, n, KeyLimits::none())
}

fn pool_with_limits(mode: RotationMode, n: usize, limits: KeyLimits) -> KeyPool {
    let mut p = KeyPool::new(mode, limits);
    for i in 0..n {
        p.upsert(seed(i));
    }
    p
}

/// Leases the next key for a request that ends at once.
fn pick(p: &mut KeyPool) -> Option<String> {
    let lease = p.next_key()?;
    let id = lease.id.clone();
    p.release(lease);
    Some(id)
}

fn moment(ms: u64) -> Moment {
    Moment {
        at: Instant {
            nanos: ms as u128 * 1_000_000,
        },
        unix: Duration::from_millis(ms),
    }
}

fn leased(round: Round) -> LeasedKey {
    match round {
        Round::Leased(lease) => lease,
        Round::Exhausted => panic!("exhausted"),
        Round::Full => panic!("full"),
    }
}

#[test]
fn proactive_round_robins() {
    let mut p = pool(RotationMode::Proactive, 3);
    let picks: Vec<String> = (0..6).map(|_| pick(&mut p).unwrap()).collect();
    assert_eq!(picks, ["k0", "k1", "k2", "k0", "k1", "k2"]);
}

#[test]
fn reactive_sticks_until_failure() {
    let mut p = pool(RotationMode::Reactive, 3);
    assert_eq!(pick(&mut p).unwrap(), "k0");
    assert_eq!(pick(&mut p).unwrap(), "k0");
    p.set_health(
        "k0",
        KeyHealth::Banned {
            reason: "401".into(),
        },
    );
    assert_eq!(pick(&mut p).unwrap(), "k1");
    assert_eq!(pick(&mut p).unwrap(), "k1");
}

#[test]
fn exhausted_pool_returns_none() {
    let mut p = pool(RotationMode::Proactive, 2);
    p.set_health("k0", KeyHealth::Banned { reason: "x".into() });
    let until = p.clock().now().plus(Duration::from_secs(60));
    p.set_health("k1", KeyHealth::Cooldown { retry_after: until });
    assert!(p.next_key().is_none());
    let wait = p.earliest_recovery_ms().unwrap();
    assert!(wait > 55_000 && wait <= 60_000, "wait was {wait}");
}

#[test]
fn expired_cooldown_auto_recovers() {
    let mut p = pool(RotationMode::Proactive, 1);
    let since = p
        .clock()
        .now()
        .checked_sub(Duration::from_secs(1))
        .unwrap();
    p.set_health("k0", KeyHealth::Cooldown { retry_after: since });
    assert!(p.next_key().is_some());
}

#[test]
fn minute_limit_blocks_then_reports_wait() {
    let mut p = pool_with_limits(RotationMode::Reactive, 1, KeyLimits::none().per_minute(3));
    for _ in 0..3 {
        assert!(pick(&mut p).is_some());
    }
    assert!(p.next_key().is_none(), "4th lease must be quota-blocked");
    let wait = p.earliest_recovery_ms().unwrap();
    assert!(wait > 0 && wait <= 60_000, "wait was {wait}");

    let q = p.quota_of("k0").unwrap();
    let minute = q.minute.unwrap();
    assert_eq!(minute.used, 3);
    assert_eq!(minute.remaining, Some(0));
    assert!(minute.resets_in_ms > 0);
}

#[test]
fn hour_limit_tracks_independently() {
    let mut p = pool_with_limits(
        RotationMode::Reactive,
        1,
        KeyLimits::none().per_minute(10).per_hour(2),
    );
    assert!(pick(&mut p).is_some());
    assert!(pick(&mut p).is_some());
    assert!(p.next_key().is_none(), "hour quota must block third lease");
    let q = p.quota_of("k0").unwrap();
    assert_eq!(q.hour.unwrap().used, 2);
    assert_eq!(q.minute.unwrap().used, 2);
}

#[test]
fn quota_blocked_key_rotates_to_next() {
    let mut p = pool_with_limits(RotationMode::Reactive, 2, KeyLimits::none().per_minute(1));
    assert_eq!(pick(&mut p).unwrap(), "k0");
    // k0 exhausted its minute quota: reactive must fail over to k1.
    assert_eq!(pick(&mut p).unwrap(), "k1");
    assert!(p.next_key().is_none());
}

#[test]
fn concurrency_splits_reactive_traffic() {
    let mut p = pool_with_limits(
        RotationMode::Reactive,
        2,
        KeyLimits::none().max_concurrency(2),
    );
    let lease1 = p.next_key().unwrap();
    let lease2 = p.next_key().unwrap();
    assert_eq!(lease1.id, "k0");
    assert_eq!(lease2.id, "k0");
    // k0 saturated (2 in flight): overflow spills to k1 immediately.
    let lease3 = p.next_key().unwrap();
    assert_eq!(lease3.id, "k1");
    let lease4 = p.next_key().unwrap();
    assert_eq!(lease4.id, "k1");
    // Everything saturated now.
    assert!(p.next_key().is_none());
    // Ending a lease frees a slot on the (sticky) primary.
    p.release(lease1);
    assert_eq!(p.next_key().unwrap().id, "k0");
}

#[test]
fn lease_drop_releases_in_flight() {
    let mut p = pool_with_limits(
        RotationMode::Reactive,
        1,
        KeyLimits::none().max_concurrency(1),
    );
    let lease = p.next_key().unwrap();
    assert_eq!(p.quota_of("k0").unwrap().in_flight, 1);
    assert!(p.next_key().is_none());
    p.release(lease);
    assert_eq!(p.quota_of("k0").unwrap().in_flight, 0);
    assert!(p.next_key().is_some());
}

#[test]
fn saturation_cooldown_marks_key() {
    let mut p = pool_with_limits(
        RotationMode::Reactive,
        1,
        KeyLimits::none()
            .max_concurrency(1)
            .concurrency_cooldown_ms(30_000),
    );
    let _lease = p.next_key().unwrap();
    assert!(p.next_key().is_none());
    // The saturated key was put into an observable cooldown.
    assert!(matches!(
        p.health_of("k0").unwrap(),
        KeyHealth::Cooldown { .. }
    ));
    assert!(p.earliest_recovery_ms().is_some());
}

#[test]
fn unlimited_keys_ignore_quota_machinery() {
    let mut p = pool(RotationMode::Reactive, 1);
    for _ in 0..100 {
        assert!(pick(&mut p).is_some());
    }
    let q = p.quota_of("k0").unwrap();
    assert!(q.minute.is_none());
    assert!(q.hour.is_none());
    assert_eq!(q.in_flight, 0, "all leases released");
}

#[test]
fn per_key_limits_override_default() {
    let mut p = pool_with_limits(RotationMode::Reactive, 2, KeyLimits::none().per_minute(1));
    p.set_limits("k1", KeyLimits::none()); // k1 unlimited
    assert_eq!(pick(&mut p).unwrap(), "k0");
    for _ in 0..5 {
        assert_eq!(pick(&mut p).unwrap(), "k1");
    }
}

#[test]
fn cursor_maps_onto_the_usable_list_and_starts_over() {
    let usable = vec!["a".to_string(), "b".to_string(), "c".to_string()];
    let mut cursor: usize = 4;
    assert_eq!(proactive::pick(&mut cursor, &usable), "b");
    assert_eq!(cursor, 5);
    cursor = usize::MAX;
    assert_eq!(proactive::pick(&mut cursor, &usable), "a");
    assert_eq!(cursor, 0);
}

#[test]
fn primary_is_chosen_kept_and_replaced() {
    let usable = vec!["a".to_string(), "b".to_string(), "c".to_string()];
    let free = vec![false, false, false];
    let mut primary: Option<String> = None;
    // The first usable key becomes primary.
    assert_eq!(reactive::pick(&mut primary, &usable, &free).unwrap(), "a");
    assert_eq!(primary.as_deref(), Some("a"));
    // A saturated primary keeps its role.
    let full = vec![true, false, false];
    assert_eq!(reactive::pick(&mut primary, &usable, &full).unwrap(), "b");
    assert_eq!(primary.as_deref(), Some("a"));
    assert_eq!(reactive::pick(&mut primary, &usable, &free).unwrap(), "a");
    // An unusable primary is replaced.
    let rest = vec!["b".to_string(), "c".to_string()];
    assert_eq!(
        reactive::pick(&mut primary, &rest, &vec![true, false]).unwrap(),
        "c"
    );
    assert_eq!(primary.as_deref(), Some("c"));
    // All saturated: no choice, and the primary stays.
    assert!(reactive::pick(&mut primary, &rest, &vec![true, true]).is_none());
    assert_eq!(primary.as_deref(), Some("c"));
}

#[test]
fn rounds_at_given_moments_are_reproducible() {
    let mut p = pool_with_limits(RotationMode::Reactive, 2, KeyLimits::none().per_minute(1));
    assert_eq!(leased(p.next_key_at(moment(1_000))).id, "k0");
    assert_eq!(leased(p.next_key_at(moment(2_000))).id, "k1");
    assert!(matches!(p.next_key_at(moment(3_000)), Round::Exhausted));
    assert_eq!(p.earliest_recovery_ms_at(moment(3_000)), Some(58_000));
    // The first window resets a minute after its first use.
    assert!(matches!(p.next_key_at(moment(60_999)), Round::Exhausted));
    assert_eq!(leased(p.next_key_at(moment(61_000))).id, "k0");
}

#[test]
fn waits_take_the_last_blocker_of_a_key_and_the_soonest_key() {
    let mut p = pool_with_limits(
        RotationMode::Reactive,
        1,
        KeyLimits::none().per_minute(1).per_hour(1),
    );
    leased(p.next_key_at(moment(0)));
    // Minute and hour windows are both exhausted: the hour decides.
    assert_eq!(p.earliest_recovery_ms_at(moment(1_000)), Some(3_599_000));
    p.upsert(seed(1).health(KeyHealth::Cooldown {
        retry_after: moment(6_000).at,
    }));
    assert_eq!(p.earliest_recovery_ms_at(moment(1_000)), Some(5_000));
    p.upsert(seed(2).health(KeyHealth::Banned {
        reason: "gone".into(),
    }));
    assert_eq!(p.earliest_recovery_ms_at(moment(1_000)), Some(5_000));
    p.remove("k0");
    p.remove("k1");
    assert_eq!(p.earliest_recovery_ms_at(moment(1_000)), None);
}

#[test]
fn proactive_mode_looks_past_a_saturated_key() {
    let mut p = pool(RotationMode::Proactive, 2);
    p.set_limits("k0", KeyLimits::none().max_concurrency(1));
    let held = p.next_key().unwrap();
    assert_eq!(held.id, "k0");
    assert_eq!(pick(&mut p).unwrap(), "k1");
    // It is k0's turn again; the next attempt takes k1.
    assert!(matches!(p.next_key_at(moment(5)), Round::Full));
    assert_eq!(pick(&mut p).unwrap(), "k1");
    p.release(held);
    assert_eq!(pick(&mut p).unwrap(), "k0");
}

#[test]
fn reloading_a_key_keeps_its_place_and_forgets_its_leases() {
    let mut p = pool_with_limits(
        RotationMode::Reactive,
        2,
        KeyLimits::none().max_concurrency(1),
    );
    let stale = p.next_key().unwrap();
    assert_eq!(stale.id, "k0");
    p.upsert(seed(0));
    assert_eq!(p.quota_of("k0").unwrap().in_flight, 0);
    let fresh = p.next_key().unwrap();
    assert_eq!(fresh.id, "k0");
    // The stale lease does not count against the new loading.
    p.release(stale);
    assert_eq!(p.quota_of("k0").unwrap().in_flight, 1);
    p.release(fresh);
    assert_eq!(p.quota_of("k0").unwrap().in_flight, 0);
    assert_eq!(p.len(), 2);
}

#[test]
fn removing_the_primary_makes_room_for_another() {
    let mut p = pool(RotationMode::Reactive, 2);
    let lease = p.next_key().unwrap();
    p.remove("k0");
    assert_eq!(pick(&mut p).unwrap(), "k1");
    p.upsert(seed(0));
    assert_eq!(pick(&mut p).unwrap(), "k1", "the new primary stays");
    p.release(lease);
    assert_eq!(p.quota_of("k0").unwrap().in_flight, 0);
}

#[test]
fn ids_break_ties_by_bytes_and_order_comes_first() {
    let mut p = KeyPool::new(RotationMode::Proactive, KeyLimits::none());
    for id in ["zebra", "apple", "mango"] {
        p.upsert(KeySeed::new(id, SecretString::new(id.to_string()), "..."));
    }
    assert_eq!(
        p.rate_usable_ids(moment(0)),
        ["zebra", "apple", "mango"],
        "insertion order, not alphabetical"
    );
}

#[test]
fn unknown_keys_are_reported_as_such() {
    let mut p = pool(RotationMode::Reactive, 1);
    assert!(p.health_of("nope").is_none());
    assert!(p.quota_of("nope").is_none());
    assert!(p.limits_of("nope").is_none());
    assert!(p.windows_of("nope").is_none());
    assert!(p.set_health("nope", KeyHealth::Active).is_none());
    assert!(p.set_limits("nope", KeyLimits::none()).is_none());
    assert!(!p.is_saturated("nope"));
    assert!(p.try_lease("nope", 0).is_none());
    p.remove("nope");
    assert_eq!(p.len(), 1);
    assert!(!p.is_empty());
    assert!(KeyPool::new(RotationMode::Reactive, KeyLimits::none()).is_empty());
}

#[test]
fn concurrency_caps_are_found_wherever_they_are() {
    let mut p = pool(RotationMode::Proactive, 3);
    assert!(!p.any_concurrency_limit());
    p.set_limits("k1", KeyLimits::none().max_concurrency(4));
    assert!(p.any_concurrency_limit());
    let d = pool_with_limits(
        RotationMode::Reactive,
        0,
        KeyLimits::none().max_concurrency(4),
    );
    assert!(d.any_concurrency_limit());
}

#[test]
fn persisted_windows_are_counted_on() {
    let mut p = KeyPool::with_clock(
        RotationMode::Reactive,
        KeyLimits::none().per_hour(3),
        Clock::new(),
    );
    let hour = WindowState {
        start_ms: 1_000,
        used: 2,
    };
    p.upsert(seed(0).windows(None, Some(hour)));
    leased(p.next_key_at(moment(2_000)));
    let (minute, hour, limits) = p.windows_of("k0").unwrap();
    assert_eq!(minute, None);
    assert_eq!(
        hour,
        Some(WindowState {
            start_ms: 1_000,
            used: 3
        })
    );
    assert_eq!(limits.per_hour, Some(3));
    assert!(matches!(p.next_key_at(moment(3_000)), Round::Exhausted));
}

#[test]
fn saturated_keys_cool_for_as_long_as_configured() {
    let mut p = pool_with_limits(
        RotationMode::Reactive,
        1,
        KeyLimits::none()
            .max_concurrency(1)
            .concurrency_cooldown_ms(250),
    );
    leased(p.next_key_at(moment(1_000)));
    assert!(matches!(p.next_key_at(moment(2_000)), Round::Exhausted));
    assert_eq!(
        p.health_of("k0"),
        Some(KeyHealth::Cooldown {
            retry_after: moment(2_250).at
        })
    );
    assert_eq!(p.earliest_recovery_ms_at(moment(2_000)), Some(250));
}

#[test]
fn a_key_with_a_limit_of_zero_is_never_leased() {
    for limits in [
        KeyLimits::none().per_minute(0),
        KeyLimits::none().per_hour(0),
    ] {
        let mut p = pool_with_limits(RotationMode::Reactive, 1, limits);
        assert!(p.next_key().is_none());
        assert!(p.earliest_recovery_ms().is_none());
        // Not even a cooldown that ends makes it usable.
        p.set_health(
            "k0",
            KeyHealth::Cooldown {
                retry_after: moment(5_000).at,
            },
        );
        assert_eq!(p.earliest_recovery_ms_at(moment(1_000)), None);
        assert!(p.lease_at(moment(9_000)).is_none());
        // Another key serves in its place.
        p.upsert(seed(1).limits(Some(KeyLimits::none())));
        assert_eq!(pick(&mut p).unwrap(), "k1");
    }
}

#[test]
fn leases_at_one_moment_look_past_full_keys() {
    let mut p = pool(RotationMode::Proactive, 3);
    p.set_limits("k0", KeyLimits::none().max_concurrency(1));
    p.set_limits("k1", KeyLimits::none().max_concurrency(0));
    let held = p.lease_at(moment(1)).unwrap();
    assert_eq!(held.id, "k0");
    assert_eq!(p.lease_at(moment(1)).unwrap().id, "k2");
    assert_eq!(p.lease_at(moment(1)).unwrap().id, "k2");
    p.remove("k2");
    assert!(p.lease_at(moment(1)).is_none());
}

#[test]
fn cooling_keys_rest_until_their_time() {
    let mut p = pool(RotationMode::Reactive, 2);
    p.set_health(
        "k0",
        KeyHealth::Cooldown {
            retry_after: moment(500).at,
        },
    );
    assert_eq!(p.lease_at(moment(499)).unwrap().id, "k1");
    p.set_health("k1", KeyHealth::Banned { reason: "x".into() });
    assert!(p.lease_at(moment(499)).is_none());
    assert_eq!(p.lease_at(moment(500)).unwrap().id, "k0");
}

#[test]
fn limits_hold_over_a_long_run() {
    let limits = KeyLimits::none()
        .per_minute(3)
        .per_hour(5)
        .max_concurrency(2);
    let mut p = pool_with_limits(RotationMode::Reactive, 2, limits);
    let mut live: Vec<LeasedKey> = Vec::new();
    for step in 0..400u64 {
        if let Some(lease) = p.lease_at(moment(step * 7_000)) {
            live.push(lease);
        }
        if step % 3 == 2 && !live.is_empty() {
            let lease = live.remove((step as usize) % live.len());
            p.release(lease);
        }
        for id in ["k0", "k1"] {
            let held = live.iter().filter(|l| l.id == id).count() as u32;
            let info = p.quota_of_at(id, step as i64 * 7_000).unwrap();
            assert_eq!(info.in_flight, held);
            assert!(held <= 2);
            let (minute, hour, _) = p.windows_of(id).unwrap();
            assert!(minute.map_or(0, |w| w.used) <= 3);
            assert!(hour.map_or(0, |w| w.used) <= 5);
        }
    }
}

#[test]
fn new_keys_come_last() {
    let mut p = pool(RotationMode::Proactive, 3);
    p.remove("k1");
    p.upsert(seed(0));
    p.upsert(seed(1));
    assert_eq!(p.rate_usable_ids(moment(0)), ["k0", "k2", "k1"]);
}
