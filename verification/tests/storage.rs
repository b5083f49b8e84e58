use ai_pool::clock::{Duration, Instant, Moment};
use ai_pool::crypto::{deterministic_id, Envelope};
use ai_pool::secret::{MasterKey, SecretString};
use ai_pool::storage::sqlite::{
    changed_rows, found_row, record_to_row, row_to_record, window_columns, window_from_columns,
};
use ai_pool::storage::{MemoryStore, Stamps, Vault};
use ai_pool::{KeyHealth, KeyLimits, KeyRecord, KeyStatus, KeyStore, VaultError, WindowState};

fn moment(ms: u64) -> Moment {
    Moment {
        at: Instant {
            nanos: ms as u128 * 1_000_000,
        },
        unix: Duration::from_millis(1_000_000 + ms),
    }
}

fn record(id: &str, created_at_ms: i64) -> KeyRecord {
    KeyRecord {
        id: id.to_string(),
        ciphertext: vec![1, 2, 3],
        censored: "sk-...".to_string(),
        health: KeyHealth::Active,
        limits: None,
        minute_window: None,
        hour_window: None,
        created_at_ms,
    }
}

fn vault() -> Vault<MemoryStore> {
    Vault::new(
        MemoryStore::new(),
        Envelope::new(MasterKey::new([42u8; 32])),
    )
}

fn secret(text: &str) -> SecretString {
    SecretString::new(text.to_string())
}

#[test]
fn memory_store_reads_back_what_was_inserted() {
    let mut store = MemoryStore::new();
    store.insert(&record("a", 5)).unwrap();
    let found = store.get("a").ok().unwrap();
    assert_eq!(found.ciphertext, vec![1, 2, 3]);
    assert_eq!(found.created_at_ms, 5);
    match store.get("b") {
        Err(VaultError::NotFound(id)) => assert_eq!(id, "b"),
        _ => panic!("b was never inserted"),
    }
}

#[test]
fn memory_store_keeps_the_first_record_of_an_id() {
    let mut store = MemoryStore::new();
    store.insert(&record("a", 5)).unwrap();
    let mut again = record("a", 9);
    again.ciphertext = vec![9];
    store.insert(&again).unwrap();
    let found = store.get("a").ok().unwrap();
    assert_eq!(found.ciphertext, vec![1, 2, 3]);
    assert_eq!(found.created_at_ms, 5);
}

#[test]
fn memory_store_lists_by_creation_then_id() {
    let mut store = MemoryStore::new();
    for (id, at) in [("z", 3), ("b", 7), ("a", 7), ("y", 1)] {
        store.insert(&record(id, at)).unwrap();
    }
    let ids: Vec<String> = store
        .load_all()
        .ok()
        .unwrap()
        .into_iter()
        .map(|r| r.id)
        .collect();
    assert_eq!(ids, ["y", "z", "a", "b"]);
}

#[test]
fn memory_store_updates_and_deletes() {
    let mut store = MemoryStore::new();
    store.insert(&record("a", 5)).unwrap();
    store
        .update_health(
            "a",
            KeyHealth::Banned {
                reason: "x".to_string(),
            },
        )
        .unwrap();
    let minute = WindowState {
        start_ms: 7,
        used: 2,
    };
    store
        .update_quota("a", Some(KeyLimits::none().per_minute(4)), Some(minute), None)
        .unwrap();
    let found = store.get("a").ok().unwrap();
    assert!(found.health
        == KeyHealth::Banned {
            reason: "x".to_string()
        });
    assert_eq!(found.minute_window, Some(minute));
    assert_eq!(found.limits.unwrap().per_minute, Some(4));
    assert_eq!(found.hour_window, None);
    store.delete("a").unwrap();
    assert!(matches!(store.get("a"), Err(VaultError::NotFound(_))));
    assert!(matches!(store.delete("a"), Err(VaultError::NotFound(_))));
    assert!(matches!(
        store.update_health("a", KeyHealth::Active),
        Err(VaultError::NotFound(_))
    ));
    assert!(matches!(
        store.update_quota("a", None, None, None),
        Err(VaultError::NotFound(_))
    ));
}

#[test]
fn vault_seals_what_it_stores() {
    let mut v = vault();
    let r = v
        .insert_plain("id", &secret("sk-proj-abcdefgh8f92"), None, &mut Stamps::new())
        .ok()
        .unwrap();
    assert_eq!(r.id, "id");
    assert_eq!(r.censored, "sk-proj...8f92");
    assert!(r.health == KeyHealth::Active);
    let text: Vec<u8> = b"abcdefgh".to_vec();
    assert!(!r.ciphertext.windows(8).any(|w| w == text.as_slice()));
    assert_eq!(
        v.decrypt_one("id").ok().unwrap().expose_secret(),
        "sk-proj-abcdefgh8f92"
    );
    assert!(matches!(v.decrypt_one("other"), Err(VaultError::NotFound(_))));
}

#[test]
fn insertion_order_survives_the_clock() {
    let mut stamps = Stamps::new();
    assert_eq!(stamps.monotonic_ms_at(100), 100);
    assert_eq!(stamps.monotonic_ms_at(100), 101);
    // The clock was set back.
    assert_eq!(stamps.monotonic_ms_at(50), 102);
    assert_eq!(stamps.monotonic_ms_at(500), 500);

    let mut v = vault();
    for i in 0..20 {
        v.insert_plain(&format!("k{}", 20 - i), &secret("sk"), None, &mut stamps)
            .ok()
            .unwrap();
    }
    let keys = v.load_all_decrypted().ok().unwrap();
    let ids: Vec<String> = keys.into_iter().map(|k| k.id).collect();
    let wanted: Vec<String> = (0..20).map(|i| format!("k{}", 20 - i)).collect();
    assert_eq!(ids, wanted);
}

#[test]
fn tampered_record_is_banned_and_the_rest_loads() {
    let mut v = vault();
    v.insert_plain("honest", &secret("sk-honest-key-2222"), None, &mut Stamps::new())
        .ok()
        .unwrap();
    let mut victim = record("victim", 1);
    victim.ciphertext = vec![0xDE, 0xAD, 0xBE, 0xEF];
    v.store.insert(&victim).unwrap();
    let keys = v.load_all_decrypted().ok().unwrap();
    assert_eq!(keys.len(), 1);
    assert_eq!(keys[0].secret.expose_secret(), "sk-honest-key-2222");
    match v.store.get("victim").ok().unwrap().health {
        KeyHealth::Banned { reason } => {
            assert!(reason.starts_with("corrupted: "), "reason: {reason}")
        }
        _ => panic!("victim must be banned"),
    }
    assert!(v.store.get("honest").ok().unwrap().health == KeyHealth::Active);
}

#[test]
fn stale_windows_are_dropped_on_load() {
    let mut v = vault();
    v.insert_plain("k", &secret("sk"), None, &mut Stamps::new()).ok().unwrap();
    let minute = WindowState {
        start_ms: 1_000,
        used: 5,
    };
    let hour = WindowState {
        start_ms: 1_000,
        used: 9,
    };
    v.store
        .update_quota("k", None, Some(minute), Some(hour))
        .unwrap();
    let keys = v.load_all_decrypted_at(61_000).ok().unwrap();
    assert_eq!(keys[0].minute_window, None);
    assert_eq!(keys[0].hour_window, Some(hour));
    let keys = v.load_all_decrypted_at(60_999).ok().unwrap();
    assert_eq!(keys[0].minute_window, Some(minute));
    // What is stored stays as it was.
    assert_eq!(v.store.get("k").ok().unwrap().minute_window, Some(minute));
}

#[test]
fn health_survives_its_columns() {
    let m = moment(0);
    let cooling = KeyHealth::Cooldown {
        retry_after: moment(2_500).at,
    };
    let (status, reason, until) = cooling.to_columns_at(m);
    assert_eq!((status.as_str(), until), ("cooldown", Some(1_002_500)));
    assert!(reason.is_none());
    assert!(KeyHealth::from_columns_at(&status, reason, until, m) == cooling);
    // After the cooldown the key is active again.
    assert!(
        KeyHealth::from_columns_at("cooldown", None, Some(1_002_500), moment(2_500))
            == KeyHealth::Active
    );
    assert!(KeyHealth::from_columns_at("cooldown", None, None, m) == KeyHealth::Active);

    let banned = KeyHealth::Banned {
        reason: "why".to_string(),
    };
    let (status, reason, until) = banned.to_columns_at(m);
    assert_eq!((status.as_str(), until), ("banned", None));
    assert!(KeyHealth::from_columns_at(&status, reason, until, m) == banned);
    assert!(
        KeyHealth::from_columns_at("banned", None, None, m)
            == KeyHealth::Banned {
                reason: "unknown".to_string()
            }
    );
    assert!(KeyHealth::from_columns_at("???", None, None, m) == KeyHealth::Active);
    assert_eq!(KeyHealth::Active.status_label(), "active");
}

#[test]
fn stored_cooldowns_end_when_they_would_have() {
    // Written at one moment, read 700.4 ms later on both clocks.
    let written = Moment {
        at: Instant { nanos: 5_000_300_000 },
        unix: Duration { nanos: 9_000_700_000 },
    };
    let read = Moment {
        at: Instant { nanos: 5_700_700_000 },
        unix: Duration { nanos: 9_701_100_000 },
    };
    let end = 6_123_456_789;
    let cooling = KeyHealth::Cooldown {
        retry_after: Instant { nanos: end },
    };
    let (status, reason, until) = cooling.to_columns_at(written);
    let loaded = KeyHealth::from_columns_at(&status, reason, until, read);
    match &loaded {
        KeyHealth::Cooldown { retry_after } => {
            assert!(retry_after.nanos.abs_diff(end) < 1_000_000);
        }
        _ => panic!("the cooldown is not over"),
    }
    // Stored again, it ends at the same time.
    assert_eq!(loaded.to_columns_at(read).2, until);
    // A wall clock that drifted by two milliseconds shifts it by as much.
    let drifted = Moment {
        at: read.at,
        unix: Duration {
            nanos: read.unix.nanos + 2_000_000,
        },
    };
    match KeyHealth::from_columns_at("cooldown", None, until, drifted) {
        KeyHealth::Cooldown { retry_after } => {
            assert!(retry_after.nanos.abs_diff(end) < 3_000_000);
        }
        _ => panic!("the cooldown is not over"),
    }
    // Once it has passed the key is active.
    let late = Moment {
        at: Instant { nanos: end },
        unix: Duration {
            nanos: end + 4_000_400_000,
        },
    };
    assert!(KeyHealth::from_columns_at("cooldown", None, until, late) == KeyHealth::Active);
}

#[test]
fn status_shows_the_time_left() {
    let cooling = KeyHealth::Cooldown {
        retry_after: moment(2_500).at,
    };
    assert!(
        KeyStatus::from_health(&cooling, moment(1_000).at)
            == KeyStatus::Cooldown {
                remaining_ms: 1_500
            }
    );
    assert!(
        KeyStatus::from_health(&cooling, moment(9_000).at) == KeyStatus::Cooldown { remaining_ms: 0 }
    );
    assert!(!cooling.is_usable(moment(2_499).at));
    assert!(cooling.is_usable(moment(2_500).at));
}

#[test]
fn rows_give_their_records_back() {
    let mut r = record("a", 5);
    r.limits = Some(KeyLimits::none().per_hour(3));
    r.hour_window = Some(WindowState {
        start_ms: 77,
        used: 2,
    });
    r.health = KeyHealth::Banned {
        reason: "x".to_string(),
    };
    let row = record_to_row(&r, moment(0));
    assert_eq!(row.hour_start_ms, Some(77));
    assert_eq!(row.hour_used, Some(2));
    assert_eq!(row.minute_start_ms, None);
    assert_eq!(row.status, "banned");
    let back = row_to_record(row, moment(10));
    assert_eq!(back.id, r.id);
    assert_eq!(back.ciphertext, r.ciphertext);
    assert_eq!(back.hour_window, r.hour_window);
    assert!(back.limits == r.limits);
    assert!(back.health == r.health);
}

#[test]
fn window_columns_go_together() {
    let w = WindowState {
        start_ms: -5,
        used: u32::MAX,
    };
    let (start, used) = window_columns(Some(w));
    assert_eq!((start, used), (Some(-5), Some(4_294_967_295)));
    assert_eq!(window_from_columns(start, used), Some(w));
    assert_eq!(window_columns(None), (None, None));
    assert_eq!(window_from_columns(Some(1), None), None);
    assert_eq!(window_from_columns(None, Some(1)), None);
    assert_eq!(window_from_columns(Some(1), Some(-1)).unwrap().used, u32::MAX);
}

#[test]
fn changes_that_hit_no_row_are_reported() {
    assert!(changed_rows(1, "k").is_ok());
    match changed_rows(0, "k") {
        Err(VaultError::NotFound(id)) => assert_eq!(id, "k"),
        _ => panic!("nothing was changed"),
    }
    assert!(matches!(
        found_row(None, "k", moment(0)),
        Err(VaultError::NotFound(_))
    ));
    let row = record_to_row(&record("k", 3), moment(0));
    assert_eq!(
        found_row(Some(row), "k", moment(0)).ok().unwrap().created_at_ms,
        3
    );
}

#[test]
fn ids_of_seeds_are_those_of_their_plaintexts() {
    let mut v = vault();
    let id = deterministic_id("sk-tamper-victim-1");
    v.insert_plain(&id, &secret("sk-tamper-victim-1"), None, &mut Stamps::new())
        .ok()
        .unwrap();
    assert_eq!(v.load_all_decrypted().ok().unwrap()[0].id, id);
}

#[test]
fn vaults_share_one_source_of_stamps() {
    let (mut first, mut second) = (vault(), vault());
    let mut stamps = Stamps::new();
    let nonce = [4u8; 12];
    let a = first
        .insert_plain_at("a", &secret("sk-a"), None, &nonce, 1_000, &mut stamps)
        .ok()
        .unwrap();
    assert_eq!(a.created_at_ms, 1_000);
    assert_eq!(&a.ciphertext[..12], &nonce);
    // In the same millisecond, and with the clock set back.
    for (id, now, expected) in [("b", 1_000, 1_001), ("c", 900, 1_002)] {
        let r = second
            .insert_plain_at(id, &secret("sk-b"), None, &nonce, now, &mut stamps)
            .ok()
            .unwrap();
        assert_eq!(r.created_at_ms, expected);
    }
    assert_eq!(stamps.last, 1_003);
}

#[test]
fn secrets_copy_whole() {
    let s = secret("schlüssel");
    assert_eq!(s.clone().expose_secret(), "schlüssel");
    let key = MasterKey::from_slice(&[3u8; 32]).unwrap();
    assert_eq!(key.clone().expose_secret(), &[3u8; 32]);
    assert!(MasterKey::from_slice(&[3u8; 31]).is_none());
}
