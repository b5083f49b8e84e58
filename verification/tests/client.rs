use ai_pool::clock::{Clock, Duration};
use ai_pool::engine::KeyPool;
use ai_pool::error::AiError;
use ai_pool::http::dispatcher::{Dispatcher, Event, Step};
use ai_pool::secret::MasterKey;
use ai_pool::storage::{MemoryStore, Stamps};
use ai_pool::{
    AiClient, AiClientBuilder, KeyHealth, KeyLimits, KeyRecord, KeyStatus, KeyStore, MasterKeyProvider,
    RotationMode, VaultError, WindowState,
};

type Client = AiClient<MemoryStore>;

fn builder() -> AiClientBuilder {
    Client::builder()
        .default_url("http://127.0.0.1:1/v1")
        .request_timeout(Duration::from_secs(5))
        .max_server_error_retries(2)
}

fn master() -> MasterKey {
    MasterKey::new([42u8; 32])
}

fn build_on(b: AiClientBuilder, store: MemoryStore) -> Client {
    match b.build(master(), store, Clock::new(), &mut Stamps::new()) {
        Ok(c) => c,
        Err(e) => panic!("{}", e.message()),
    }
}

fn build(b: AiClientBuilder) -> Client {
    build_on(b, MemoryStore::new())
}

fn keys(list: &[&str]) -> Vec<String> {
    list.iter().map(|k| k.to_string()).collect()
}

fn client(list: &[&str], mode: RotationMode) -> Client {
    build(builder().rotation_mode(mode).api_keys(keys(list)))
}

/// A response of the scripted server.
#[derive(Clone)]
struct Reply {
    status: u16,
    retry_after: Option<&'static str>,
    body: &'static str,
}

fn answer(status: u16, body: &'static str) -> Reply {
    Reply {
        status,
        retry_after: None,
        body,
    }
}

/// The text of the first choice of a response.
fn content(body: &str) -> String {
    let response: serde_json::Value = serde_json::from_str(body).unwrap();
    ai_pool::json::content_text(response["choices"][0]["message"]["content"].clone()).unwrap()
}

/// Sends one request to a server that gives the scripted replies in turn and
/// repeats the last one; returns the content of the response and the bearers
/// that the server saw.
fn chat(c: &mut Client, script: &[Reply]) -> (Result<String, AiError>, Vec<String>) {
    let mut bearers: Vec<String> = Vec::new();
    let mut body: &str = "";
    let (mut execution, mut step) = Dispatcher::execute(&mut c.manager);
    loop {
        step = match step {
            Step::Send => {
                let bearer = execution.lease.as_ref().unwrap().secret.expose_secret();
                bearers.push(bearer.to_string());
                let reply = script[(bearers.len() - 1).min(script.len() - 1)].clone();
                body = reply.body;
                let event = Event::Response {
                    status: reply.status,
                    retry_after: reply.retry_after.map(|v| v.to_string()),
                    body: reply.body.to_string(),
                };
                c.dispatcher.advance(&mut c.manager, &mut execution, event)
            }
            Step::Wait(_) => c
                .dispatcher
                .advance(&mut c.manager, &mut execution, Event::Waited),
            Step::Done(lease) => {
                c.manager.pool.release(lease);
                return (Ok(content(body)), bearers);
            }
            Step::Failed(e) => return (Err(e), bearers),
        };
    }
}

fn ok() -> Vec<Reply> {
    vec![answer(
        200,
        r#"{"choices":[{"message":{"role":"assistant","content":"ok"}}]}"#,
    )]
}

fn statuses(c: &mut Client) -> Vec<KeyStatus> {
    let list = c.manager.list_keys().ok().unwrap();
    list.into_iter().map(|m| m.status).collect()
}

fn first_id(c: &mut Client) -> String {
    c.manager.list_keys().ok().unwrap()[0].id.clone()
}

#[test]
fn ok_returns_parsed_json() {
    let mut c = client(&["sk-aaaa-1111"], RotationMode::Proactive);
    let hello = answer(
        200,
        r#"{"choices":[{"message":{"role":"assistant","content":"hello world"}}]}"#,
    );
    let (r, bearers) = chat(&mut c, &[hello]);
    assert_eq!(r.ok().unwrap(), "hello world");
    assert_eq!(bearers, vec!["sk-aaaa-1111"]);
}

#[test]
fn rate_limit_rotates_to_next_key_and_retries() {
    let mut c = client(
        &["sk-key-one-11", "sk-key-two-22"],
        RotationMode::Proactive,
    );
    let mut limited = answer(429, r#"{"error":{"message":"slow down"}}"#);
    limited.retry_after = Some("60");
    let recovered = answer(
        200,
        r#"{"choices":[{"message":{"role":"assistant","content":"recovered"}}]}"#,
    );
    let (r, bearers) = chat(&mut c, &[limited, recovered]);
    assert_eq!(r.ok().unwrap(), "recovered");
    assert_eq!(bearers.len(), 2);
    assert_ne!(bearers[0], bearers[1], "must have rotated keys");

    // The 429'd key must now be in cooldown.
    let all = statuses(&mut c);
    assert!(all.iter().any(|s| match s {
        KeyStatus::Cooldown { remaining_ms } => *remaining_ms > 55_000 && *remaining_ms <= 60_500,
        _ => false,
    }));
    assert!(all.iter().any(|s| matches!(s, KeyStatus::Active)));
}

#[test]
fn unauthorized_bans_key_and_rotates() {
    let mut c = client(
        &["sk-badkey-0000", "sk-goodkey-1111"],
        RotationMode::Reactive,
    );
    let script = [
        answer(401, r#"{"error":{"message":"bad key"}}"#),
        answer(
            200,
            r#"{"choices":[{"message":{"role":"assistant","content":"second key worked"}}]}"#,
        ),
    ];
    let (r, bearers) = chat(&mut c, &script);
    assert_eq!(r.ok().unwrap(), "second key worked");
    assert_eq!(bearers, vec!["sk-badkey-0000", "sk-goodkey-1111"]);
    let reasons: Vec<String> = statuses(&mut c)
        .into_iter()
        .filter_map(|s| match s {
            KeyStatus::Banned { reason } => Some(reason),
            _ => None,
        })
        .collect();
    assert_eq!(reasons, vec![r#"http 401: {"error":{"message":"bad key"}}"#]);
}

#[test]
fn bad_request_fails_fast_without_rotation() {
    let mut c = client(
        &["sk-key-one-11", "sk-key-two-22"],
        RotationMode::Proactive,
    );
    let script = [answer(400, r#"{"error":{"message":"model not found"}}"#)];
    let (r, bearers) = chat(&mut c, &script);
    assert!(matches!(r, Err(AiError::BadRequest { status: 400, .. })));
    // Exactly ONE request: no rotation happened.
    assert_eq!(bearers.len(), 1);
    // Both keys must still be active.
    assert!(statuses(&mut c)
        .iter()
        .all(|s| matches!(s, KeyStatus::Active)));
}

#[test]
fn server_error_retries_same_key_then_gives_up() {
    let mut c = client(&["sk-only-key-99"], RotationMode::Proactive);
    let (r, bearers) = chat(&mut c, &[answer(503, "oops")]);
    match r {
        Err(AiError::ServerError { status, body }) => {
            assert_eq!(status, 503);
            assert_eq!(body, "oops");
        }
        _ => panic!("the server never recovered"),
    }
    // 1 initial + 2 retries, all on the SAME key.
    assert_eq!(bearers.len(), 3);
    assert!(bearers.iter().all(|b| b == "sk-only-key-99"));
}

#[test]
fn server_error_recovers_mid_retry() {
    let mut c = client(&["sk-only-key-99"], RotationMode::Proactive);
    let recovered = answer(
        200,
        r#"{"choices":[{"message":{"role":"assistant","content":"finally"}}]}"#,
    );
    let (r, bearers) = chat(&mut c, &[answer(502, "bad gateway"), recovered]);
    assert_eq!(r.ok().unwrap(), "finally");
    assert_eq!(bearers.len(), 2);
}

#[test]
fn all_keys_exhausted() {
    let mut c = client(
        &["sk-key-one-11", "sk-key-two-22"],
        RotationMode::Proactive,
    );
    let mut limited = answer(429, "{}");
    limited.retry_after = Some("120");
    let (r, bearers) = chat(&mut c, &[limited]);
    match r {
        Err(AiError::AllKeysExhausted { retry_in_ms }) => {
            let ms = retry_in_ms.unwrap();
            assert!(ms > 115_000 && ms <= 120_500, "retry_in_ms was {ms}");
        }
        _ => panic!("both keys are cooling"),
    }
    // Both keys were tried once each before exhaustion.
    assert_eq!(bearers.len(), 2);
}

#[test]
fn empty_pool_is_exhausted_immediately() {
    let mut c = client(&[], RotationMode::Proactive);
    let (r, bearers) = chat(&mut c, &ok());
    assert!(matches!(
        r,
        Err(AiError::AllKeysExhausted { retry_in_ms: None })
    ));
    assert_eq!(bearers.len(), 0);
}

#[test]
fn proactive_spreads_requests_round_robin() {
    let mut c = client(
        &["sk-key-one-11", "sk-key-two-22"],
        RotationMode::Proactive,
    );
    let mut bearers: Vec<String> = Vec::new();
    for _ in 0..4 {
        bearers.extend(chat(&mut c, &ok()).1);
    }
    assert_eq!(bearers.len(), 4);
    assert_ne!(bearers[0], bearers[1]);
    assert_eq!(bearers[0], bearers[2]);
    assert_eq!(bearers[1], bearers[3]);
}

#[test]
fn manager_crud_and_censoring() {
    let mut c = client(&[], RotationMode::Proactive);
    let m = &mut c.manager;

    let id = m.add_key("sk-proj-abcdefgh8f92", &mut Stamps::new()).ok().unwrap();
    let metas = m.list_keys().ok().unwrap();
    assert_eq!(metas.len(), 1);
    assert_eq!(metas[0].censored_key, "sk-proj...8f92");
    assert!(!metas[0].censored_key.contains("abcdefgh"));

    // Explicit decryption round-trips the plaintext.
    let secret = m.get_decrypted_key(&id).ok().unwrap();
    assert_eq!(secret.expose_secret(), "sk-proj-abcdefgh8f92");

    // Ban / recover
    m.ban_key(&id).ok().unwrap();
    match &m.list_keys().ok().unwrap()[0].status {
        KeyStatus::Banned { reason } => assert_eq!(reason, "manually banned"),
        _ => panic!("the key was banned"),
    }
    m.recover_key(&id).ok().unwrap();
    assert!(matches!(
        m.list_keys().ok().unwrap()[0].status,
        KeyStatus::Active
    ));

    // Remove
    m.remove_key(&id).ok().unwrap();
    assert!(m.list_keys().ok().unwrap().is_empty());
    assert!(m.pool.is_empty());
}

#[test]
fn idempotent_seeding_no_duplicates() {
    // Same key passed twice + re-adding via manager must not duplicate.
    let mut c = client(
        &["sk-same-key-123", "sk-same-key-123"],
        RotationMode::Proactive,
    );
    assert_eq!(c.manager.list_keys().ok().unwrap().len(), 1);
    c.manager.add_key("sk-same-key-123", &mut Stamps::new()).ok().unwrap();
    assert_eq!(c.manager.list_keys().ok().unwrap().len(), 1);
}

#[test]
fn minute_quota_exhausts_then_reports_retry_time() {
    let mut c = build(
        builder()
            .rotation_mode(RotationMode::Reactive)
            .api_key_with_limits("sk-quota-min-0001", KeyLimits::none().per_minute(3)),
    );
    for _ in 0..3 {
        assert!(chat(&mut c, &ok()).0.is_ok());
    }
    // 4th request: quota-blocked before any HTTP call.
    let (r, bearers) = chat(&mut c, &ok());
    match r {
        Err(AiError::AllKeysExhausted { retry_in_ms }) => {
            let ms = retry_in_ms.expect("window reset time must be knowable");
            assert!(ms > 0 && ms <= 60_000, "retry_in_ms was {ms}");
        }
        _ => panic!("expected AllKeysExhausted"),
    }
    assert_eq!(bearers.len(), 0);
}

#[test]
fn quota_info_endpoint_tracks_realtime() {
    let mut c = build(
        builder()
            .rotation_mode(RotationMode::Reactive)
            .api_key_with_limits(
                "sk-quota-info-01",
                KeyLimits::none().per_minute(5).per_hour(100),
            ),
    );
    let id = first_id(&mut c);

    // Fresh key: minute window unused.
    let q = c.manager.key_quota(&id).ok().unwrap();
    assert_eq!(q.minute.as_ref().unwrap().used, 0);
    assert_eq!(q.minute.as_ref().unwrap().remaining, Some(5));

    assert!(chat(&mut c, &ok()).0.is_ok());
    assert!(chat(&mut c, &ok()).0.is_ok());

    let q = c.manager.key_quota(&id).ok().unwrap();
    let minute = q.minute.unwrap();
    assert_eq!(minute.used, 2);
    assert_eq!(minute.remaining, Some(3));
    assert!(minute.resets_in_ms > 0 && minute.resets_in_ms <= 60_000);
    let hour = q.hour.unwrap();
    assert_eq!(hour.used, 2);
    assert_eq!(hour.remaining, Some(98));
    assert!(hour.resets_in_ms > 60_000 && hour.resets_in_ms <= 3_600_000);

    // list_keys carries the same quota snapshot.
    let metas = c.manager.list_keys().ok().unwrap();
    assert_eq!(metas[0].quota.as_ref().unwrap().minute.as_ref().unwrap().used, 2);
}

#[test]
fn quota_blocked_key_rotates_to_backup() {
    let mut c = build(
        builder()
            .rotation_mode(RotationMode::Reactive)
            .api_key_with_limits("sk-limited-00001", KeyLimits::none().per_minute(2))
            .api_key("sk-unlimited-0002"),
    );
    let mut bearers: Vec<String> = Vec::new();
    for _ in 0..6 {
        let (r, seen) = chat(&mut c, &ok());
        assert!(r.is_ok());
        bearers.extend(seen);
    }
    let limited = bearers.iter().filter(|b| *b == "sk-limited-00001").count();
    let unlimited = bearers.iter().filter(|b| *b == "sk-unlimited-0002").count();
    assert_eq!(limited, 2, "limited key must stop at its quota");
    assert_eq!(unlimited, 4, "overflow must spill to the unlimited key");
}

#[test]
fn proactive_plus_concurrency_is_a_build_error() {
    let b = builder()
        .rotation_mode(RotationMode::Proactive)
        .api_key_with_limits("sk-bad-config-01", KeyLimits::none().max_concurrency(5));
    assert!(matches!(b.validate(), Err(AiError::InvalidConfig(_))));
    assert!(matches!(
        b.build(master(), MemoryStore::new(), Clock::new(), &mut Stamps::new()),
        Err(AiError::InvalidConfig(_))
    ));

    // Also rejected via default limits.
    let r = builder()
        .rotation_mode(RotationMode::Proactive)
        .default_key_limits(KeyLimits::none().max_concurrency(5))
        .api_key("sk-some-key-0001")
        .build(master(), MemoryStore::new(), Clock::new(), &mut Stamps::new());
    match r {
        Err(AiError::InvalidConfig(why)) => assert_eq!(
            why,
            "max_concurrency limits require RotationMode::Reactive;                      proactive mode already rotates keys per request"
        ),
        _ => panic!("caps are for reactive mode"),
    }

    // And via the manager at runtime.
    let mut c = client(&["sk-some-key-0001"], RotationMode::Proactive);
    let r = c.manager.add_key_with_limits(
        "sk-other-key-02",
        Some(KeyLimits::none().max_concurrency(2)),
        &mut Stamps::new(),
    );
    match r {
        Err(AiError::InvalidConfig(why)) => assert_eq!(
            why,
            "max_concurrency limits require RotationMode::Reactive;                  proactive mode already spreads load"
        ),
        _ => panic!("caps are for reactive mode"),
    }
    let id = first_id(&mut c);
    let r = c
        .manager
        .set_key_limits(&id, Some(KeyLimits::none().max_concurrency(2)));
    match r {
        Err(AiError::InvalidConfig(why)) => assert_eq!(
            why,
            "max_concurrency limits require RotationMode::Reactive"
        ),
        _ => panic!("caps are for reactive mode"),
    }
}

#[test]
fn rate_limits_work_fine_with_proactive() {
    let mut c = build(
        builder()
            .rotation_mode(RotationMode::Proactive)
            .default_key_limits(KeyLimits::none().per_minute(2))
            .api_keys(keys(&["sk-key-aa-000001", "sk-key-bb-000002"])),
    );
    // 2 per key = 4 total capacity this minute.
    for _ in 0..4 {
        assert!(chat(&mut c, &ok()).0.is_ok());
    }
    let (r, bearers) = chat(&mut c, &ok());
    assert!(matches!(
        r,
        Err(AiError::AllKeysExhausted {
            retry_in_ms: Some(_)
        })
    ));
    assert_eq!(bearers.len(), 0);
}

#[test]
fn concurrency_splits_parallel_requests_across_keys() {
    let mut c = build(
        builder()
            .rotation_mode(RotationMode::Reactive)
            .default_key_limits(KeyLimits::none().max_concurrency(2))
            .api_keys(keys(&["sk-key-aa-000001", "sk-key-bb-000002"])),
    );
    // Four requests on their way at once.
    let mut bearers: Vec<String> = Vec::new();
    for _ in 0..4 {
        let (execution, step) = Dispatcher::execute(&mut c.manager);
        assert!(matches!(step, Step::Send));
        bearers.push(execution.lease.unwrap().secret.expose_secret().to_string());
    }
    let a = bearers.iter().filter(|b| *b == "sk-key-aa-000001").count();
    let b = bearers.iter().filter(|b| *b == "sk-key-bb-000002").count();
    assert_eq!(a, 2, "key A must carry exactly its concurrency cap");
    assert_eq!(b, 2, "overflow must split to key B");
}

#[test]
fn saturation_beyond_total_capacity_errors_not_hangs() {
    let mut c = build(
        builder()
            .rotation_mode(RotationMode::Reactive)
            .api_key_with_limits("sk-only-key-0001", KeyLimits::none().max_concurrency(1)),
    );
    let (mut slow, step) = Dispatcher::execute(&mut c.manager);
    assert!(matches!(step, Step::Send));

    // Second request while the only slot is held: immediate exhaustion.
    let (r, _) = chat(&mut c, &ok());
    assert!(matches!(r, Err(AiError::AllKeysExhausted { .. })));

    let event = Event::Response {
        status: 200,
        retry_after: None,
        body: String::new(),
    };
    match c.dispatcher.advance(&mut c.manager, &mut slow, event) {
        Step::Done(lease) => c.manager.pool.release(lease),
        _ => panic!("the slow request succeeds"),
    }
    // Slot freed: works again.
    assert!(chat(&mut c, &ok()).0.is_ok());
}

#[test]
fn set_key_limits_updates_live() {
    let mut c = build(
        builder()
            .rotation_mode(RotationMode::Reactive)
            .api_key("sk-mutable-00001"),
    );
    let id = first_id(&mut c);
    c.manager
        .set_key_limits(&id, Some(KeyLimits::none().per_minute(1)))
        .ok()
        .unwrap();

    assert!(chat(&mut c, &ok()).0.is_ok());
    let (r, _) = chat(&mut c, &ok());
    assert!(matches!(
        r,
        Err(AiError::AllKeysExhausted {
            retry_in_ms: Some(_)
        })
    ));

    // Lifting the limit restores service.
    c.manager.set_key_limits(&id, None).ok().unwrap();
    assert!(chat(&mut c, &ok()).0.is_ok());
    assert!(matches!(
        c.manager.set_key_limits("nope", None),
        Err(AiError::KeyNotFound(_))
    ));
}

#[test]
fn keys_persist_across_restart() {
    let mut c = client(&["sk-persist-me-0001"], RotationMode::Proactive);
    assert_eq!(c.manager.list_keys().ok().unwrap().len(), 1);

    // "Restart" with NO seed keys: the key must load back from the store.
    let mut c = build_on(builder(), c.manager.vault.store);
    let metas = c.manager.list_keys().ok().unwrap();
    assert_eq!(metas.len(), 1);
    let secret = c.manager.get_decrypted_key(&metas[0].id).ok().unwrap();
    assert_eq!(secret.expose_secret(), "sk-persist-me-0001");
    assert_eq!(c.manager.pool.len(), 1);
}

#[test]
fn seeding_is_idempotent_across_restarts() {
    let mut store = MemoryStore::new();
    for _ in 0..3 {
        let mut c = build_on(
            builder().api_keys(keys(&["sk-seeded-1111", "sk-seeded-2222"])),
            store,
        );
        assert_eq!(c.manager.list_keys().ok().unwrap().len(), 2);
        store = c.manager.vault.store;
    }
}

#[test]
fn health_persists() {
    let mut c = client(&["sk-tobeban-9999"], RotationMode::Proactive);
    let id = first_id(&mut c);
    c.manager.ban_key(&id).ok().unwrap();

    let mut c = build_on(builder(), c.manager.vault.store);
    let metas = c.manager.list_keys().ok().unwrap();
    assert_eq!(metas[0].id, id);
    assert!(matches!(metas[0].status, KeyStatus::Banned { .. }));

    c.manager.recover_key(&id).ok().unwrap();
    let mut c2 = build_on(builder(), c.manager.vault.store);
    assert!(matches!(statuses(&mut c2)[0], KeyStatus::Active));
}

#[test]
fn wrong_master_key_bans_everything_gracefully() {
    let c = client(&["sk-locked-away-777"], RotationMode::Proactive);
    // Reopen with a different master key: decryption fails auth, key banned.
    let r = builder().build(
        MasterKey::new([7u8; 32]),
        c.manager.vault.store,
        Clock::new(),
        &mut Stamps::new(),
    );
    let mut c = r.ok().unwrap();
    assert!(matches!(statuses(&mut c)[0], KeyStatus::Banned { .. }));
    assert!(c.manager.pool.is_empty());
    let id = first_id(&mut c);
    assert!(matches!(
        c.manager.get_decrypted_key(&id),
        Err(AiError::Vault(VaultError::Corrupted(_)))
    ));
    // A stored key that is not loaded can be told so.
    assert!(matches!(
        c.manager.recover_key(&id),
        Err(AiError::KeyNotFound(_))
    ));
}

#[test]
fn hour_quota_survives_restart_and_sums_up() {
    let limited = || {
        builder()
            .rotation_mode(RotationMode::Reactive)
            .api_key_with_limits("sk-hourly-000001", KeyLimits::none().per_hour(3))
    };
    // Session 1: consume 2 of 3.
    let mut c = build(limited());
    assert!(chat(&mut c, &ok()).0.is_ok());
    assert!(chat(&mut c, &ok()).0.is_ok());
    let id = first_id(&mut c);
    assert_eq!(c.manager.key_quota(&id).ok().unwrap().hour.unwrap().used, 2);

    // Session 2 ("restart"): persisted usage must sum up, not reset.
    let mut c = build_on(limited(), c.manager.vault.store);
    let q = c.manager.key_quota(&id).ok().unwrap().hour.unwrap();
    assert_eq!(q.used, 2, "persisted hour usage must reload");
    assert_eq!(q.remaining, Some(1));

    assert!(chat(&mut c, &ok()).0.is_ok()); // 3rd of 3
    let (r, bearers) = chat(&mut c, &ok());
    assert!(matches!(
        r,
        Err(AiError::AllKeysExhausted {
            retry_in_ms: Some(_)
        })
    ));
    assert_eq!(bearers.len(), 0);
}

#[test]
fn stale_persisted_window_resets_on_load() {
    let mut c = client(&["sk-stale-win-0001"], RotationMode::Proactive);
    let id = first_id(&mut c);
    // Persist an hour window whose time has long passed.
    let stale = WindowState {
        start_ms: 1000,
        used: 5,
    };
    c.manager
        .vault
        .store
        .update_quota(&id, Some(KeyLimits::none().per_hour(5)), None, Some(stale))
        .unwrap();

    // Reload: the expired window must NOT block the key.
    let c = build_on(builder(), c.manager.vault.store);
    let q = c.manager.key_quota(&id).ok().unwrap();
    assert_eq!(q.hour.unwrap().used, 0, "stale window must reset to fresh");
}

#[test]
fn persisted_caps_are_refused_in_proactive_mode() {
    let c = build(
        builder()
            .rotation_mode(RotationMode::Reactive)
            .api_key_with_limits("sk-capped-000001", KeyLimits::none().max_concurrency(1)),
    );
    let r = builder()
        .rotation_mode(RotationMode::Proactive)
        .build(master(), c.manager.vault.store, Clock::new(), &mut Stamps::new());
    match r {
        Err(AiError::InvalidConfig(why)) => assert_eq!(
            why,
            "a persisted key carries max_concurrency, which requires                  RotationMode::Reactive"
        ),
        _ => panic!("the stored key has a cap"),
    }
}

#[test]
fn builder_settings_add_up() {
    let b = builder()
        .concurrency_limit(0)
        .default_cooldown(Duration::from_secs(9))
        .master_key_provider(MasterKeyProvider::OsKeychain)
        .api_key("a")
        .api_keys(keys(&["b", "c"]))
        .api_key_with_limits("d", KeyLimits::none().per_minute(1));
    assert_eq!(b.config.concurrency_limit, 1);
    assert_eq!(b.config.default_cooldown.as_millis(), 9_000);
    assert_eq!(b.config.request_timeout.as_millis(), 5_000);
    assert_eq!(b.config.max_server_error_retries, 2);
    assert_eq!(b.config.default_url, "http://127.0.0.1:1/v1");
    assert!(matches!(b.master, MasterKeyProvider::OsKeychain));
    let names: Vec<&str> = b.seed_keys.iter().map(|s| s.0.as_str()).collect();
    assert_eq!(names, ["b", "c", "d"], "api_keys replaces what was given before");
    assert!(b.seed_keys[2].1.is_some());
    let d = AiClientBuilder::default();
    assert!(matches!(d.master, MasterKeyProvider::Ephemeral));
    assert_eq!(d.config.concurrency_limit, 32);
}

#[test]
fn unknown_keys_are_not_found() {
    for list in [&[][..], &["sk-known-000001"][..]] {
        let mut c = client(list, RotationMode::Proactive);
        let id_of = |e: AiError| match e {
            AiError::KeyNotFound(id) => id,
            other => panic!("{}", other.message()),
        };
        let m = &mut c.manager;
        assert_eq!(id_of(m.remove_key("k-none").unwrap_err()), "k-none");
        assert_eq!(id_of(m.ban_key("k-none").unwrap_err()), "k-none");
        assert_eq!(id_of(m.recover_key("k-none").unwrap_err()), "k-none");
        assert_eq!(id_of(m.key_quota("k-none").unwrap_err()), "k-none");
        assert_eq!(id_of(m.set_key_limits("k-none", None).unwrap_err()), "k-none");
        assert_eq!(id_of(m.get_decrypted_key("k-none").err().unwrap()), "k-none");
        // Pool and store are unchanged.
        assert_eq!(m.list_keys().ok().unwrap().len(), list.len());
        assert_eq!(m.pool.len(), list.len());
    }
}

#[test]
fn idle_unlimited_keys_report_no_quota() {
    let mut c = client(&["sk-idle-0000001"], RotationMode::Reactive);
    assert!(c.manager.list_keys().ok().unwrap()[0].quota.is_none());
    let (_execution, step) = Dispatcher::execute(&mut c.manager);
    assert!(matches!(step, Step::Send));
    let quota = c.manager.list_keys().ok().unwrap()[0].quota.unwrap();
    assert_eq!(quota.in_flight, 1);
}

/// A store that takes nothing and gives nothing back.
struct BrokenStore;

fn broken<T>() -> Result<T, VaultError> {
    Err(VaultError::Storage("disk on fire".to_string()))
}

impl KeyStore for BrokenStore {
    fn load_all(&mut self) -> Result<Vec<KeyRecord>, VaultError> {
        broken()
    }

    fn insert(&mut self, _record: &KeyRecord) -> Result<(), VaultError> {
        broken()
    }

    fn delete(&mut self, _id: &str) -> Result<(), VaultError> {
        broken()
    }

    fn update_health(&mut self, _id: &str, _health: KeyHealth) -> Result<(), VaultError> {
        broken()
    }

    fn update_quota(
        &mut self,
        _id: &str,
        _limits: Option<KeyLimits>,
        _minute: Option<WindowState>,
        _hour: Option<WindowState>,
    ) -> Result<(), VaultError> {
        broken()
    }

    fn get(&mut self, _id: &str) -> Result<KeyRecord, VaultError> {
        broken()
    }
}

#[test]
fn a_broken_store_is_reported_and_survived() {
    for b in [builder(), builder().api_key("sk-some-key-0001")] {
        match b.build(master(), BrokenStore, Clock::new(), &mut Stamps::new()) {
            Err(AiError::Vault(VaultError::Storage(why))) => assert_eq!(why, "disk on fire"),
            _ => panic!("nothing can be built on this store"),
        }
    }
    // With a live pool, requests go on without persistence.
    let mut pool = KeyPool::new(RotationMode::Reactive, KeyLimits::none().per_minute(9));
    pool.upsert(ai_pool::KeySeed::new(
        "k",
        ai_pool::SecretString::new("sk".to_string()),
        "sk",
    ));
    let vault = ai_pool::storage::Vault::new(
        BrokenStore,
        ai_pool::crypto::Envelope::new(master()),
    );
    let mut manager = ai_pool::KeyManager::new(vault, pool);
    let (_execution, step) = Dispatcher::execute(&mut manager);
    assert!(matches!(step, Step::Send));
    Dispatcher::ban_key(&mut manager, "k", "gone");
    assert!(matches!(
        manager.pool.health_of("k"),
        Some(KeyHealth::Banned { .. })
    ));
    assert!(matches!(manager.list_keys(), Err(AiError::Vault(_))));
    assert!(matches!(
        manager.add_key("sk-new-000001", &mut Stamps::new()),
        Err(AiError::Vault(_))
    ));
    assert_eq!(manager.pool.len(), 1);
    assert!(matches!(manager.remove_key("k"), Err(AiError::Vault(_))));
    assert_eq!(manager.pool.len(), 1);
}

/// A store that counts its calls.
struct CountingStore {
    inner: MemoryStore,
    calls: std::rc::Rc<std::cell::Cell<u32>>,
}

impl CountingStore {
    fn counted(&mut self) -> &mut MemoryStore {
        self.calls.set(self.calls.get() + 1);
        &mut self.inner
    }
}

impl KeyStore for CountingStore {
    fn load_all(&mut self) -> Result<Vec<KeyRecord>, VaultError> {
        self.counted().load_all()
    }

    fn insert(&mut self, record: &KeyRecord) -> Result<(), VaultError> {
        self.counted().insert(record)
    }

    fn delete(&mut self, id: &str) -> Result<(), VaultError> {
        self.counted().delete(id)
    }

    fn update_health(&mut self, id: &str, health: KeyHealth) -> Result<(), VaultError> {
        self.counted().update_health(id, health)
    }

    fn update_quota(
        &mut self,
        id: &str,
        limits: Option<KeyLimits>,
        minute: Option<WindowState>,
        hour: Option<WindowState>,
    ) -> Result<(), VaultError> {
        self.counted().update_quota(id, limits, minute, hour)
    }

    fn get(&mut self, id: &str) -> Result<KeyRecord, VaultError> {
        self.counted().get(id)
    }
}

#[test]
fn a_conflicting_configuration_never_reaches_the_store() {
    let capped = KeyLimits::none().max_concurrency(2);
    let cases = [
        (builder().default_key_limits(capped).api_key("a"), 0),
        (builder().api_key("a").api_key_with_limits("b", capped), 0),
        (builder().api_key("a").api_key("b"), 3),
    ];
    for (b, expected) in cases {
        let calls = std::rc::Rc::new(std::cell::Cell::new(0));
        let store = CountingStore {
            inner: MemoryStore::new(),
            calls: calls.clone(),
        };
        let r = b.build(master(), store, Clock::new(), &mut Stamps::new());
        assert_eq!(matches!(r, Err(AiError::InvalidConfig(_))), expected == 0);
        assert_eq!(calls.get(), expected);
    }
}

#[test]
fn loaded_keys_make_the_pool() {
    let mut vault = ai_pool::storage::Vault::new(
        MemoryStore::new(),
        ai_pool::crypto::Envelope::new(master()),
    );
    let seeded = builder()
        .rotation_mode(RotationMode::Reactive)
        .api_key("sk-one-0000001")
        .api_key_with_limits("sk-two-0000002", KeyLimits::none().max_concurrency(1));
    let pool = seeded.open_pool(&mut vault, Clock::new(), &mut Stamps::new()).ok().unwrap();
    assert_eq!(pool.len(), 2);
    let keys = vault.load_all_decrypted().ok().unwrap();
    let proactive = builder().pool_of(keys, Clock::new());
    assert!(matches!(proactive, Err(AiError::InvalidConfig(_))));
    let keys = vault.load_all_decrypted().ok().unwrap();
    let reactive = builder()
        .rotation_mode(RotationMode::Reactive)
        .pool_of(keys, Clock::new());
    assert_eq!(reactive.ok().unwrap().len(), 2);
    let empty = builder().pool_of(Vec::new(), Clock::new());
    assert!(empty.ok().unwrap().is_empty());
}

#[test]
fn a_live_key_without_a_record_is_a_failure_of_the_vault() {
    let mut c = client(&["sk-live-0000001"], RotationMode::Reactive);
    let id = first_id(&mut c);
    let m = &mut c.manager;
    m.vault.store.delete(&id).ok().unwrap();
    let missing = |r: Result<(), AiError>| match r {
        Err(AiError::Vault(VaultError::NotFound(missing))) => missing,
        Err(other) => panic!("{}", other.message()),
        Ok(()) => panic!("the record is gone"),
    };
    assert_eq!(missing(m.ban_key(&id)), id);
    assert_eq!(missing(m.recover_key(&id)), id);
    assert_eq!(missing(m.remove_key(&id)), id);
    assert_eq!(missing(m.set_key_limits(&id, None)), id);
    assert_eq!(missing(m.get_decrypted_key(&id).map(|_| ())), id);
    assert!(m.pool.health_of(&id) == Some(KeyHealth::Active));
}

#[test]
fn keys_added_later_are_stamped_after_the_seeds() {
    let mut stamps = Stamps::new();
    let mut seeded = builder()
        .api_keys(keys(&["sk-a-0000001", "sk-b-0000002"]))
        .build(master(), MemoryStore::new(), Clock::new(), &mut stamps)
        .ok()
        .unwrap();
    let last_seed = seeded.manager.list_keys().ok().unwrap()[1].created_at_ms;
    assert_eq!(stamps.last, last_seed + 1);
    // Another client of the same process goes on from there.
    stamps.last = i64::MAX - 10;
    let mut other = builder()
        .build(master(), MemoryStore::new(), Clock::new(), &mut stamps)
        .ok()
        .unwrap();
    other.manager.add_key("sk-c-0000003", &mut stamps).ok().unwrap();
    seeded.manager.add_key("sk-d-0000004", &mut stamps).ok().unwrap();
    let c = other.manager.list_keys().ok().unwrap()[0].created_at_ms;
    let d = seeded.manager.list_keys().ok().unwrap()[2].created_at_ms;
    assert_eq!((c, d), (i64::MAX - 10, i64::MAX - 9));
    // A refused key stamps nothing.
    let capped = Some(KeyLimits::none().max_concurrency(1));
    let before = stamps.last;
    assert!(seeded
        .manager
        .add_key_with_limits("sk-e-0000005", capped, &mut stamps)
        .is_err());
    assert_eq!(stamps.last, before);
}

#[test]
fn seeding_adds_what_is_missing_and_keeps_the_rest() {
    let mut stamps = Stamps::new();
    let mut c = builder()
        .api_key("sk-kept-0000001")
        .build(master(), MemoryStore::new(), Clock::new(), &mut stamps)
        .ok()
        .unwrap();
    let id = first_id(&mut c);
    c.manager.ban_key(&id).ok().unwrap();
    let again = builder().api_keys(keys(&[
        "sk-new-0000002",
        "sk-kept-0000001",
        "sk-new-0000002",
    ]));
    let mut c = again
        .build(master(), c.manager.vault.store, Clock::new(), &mut stamps)
        .ok()
        .unwrap();
    let list = c.manager.list_keys().ok().unwrap();
    assert_eq!(list.len(), 2);
    assert_eq!(list[0].id, id);
    assert!(matches!(list[0].status, KeyStatus::Banned { .. }));
    assert!(matches!(list[1].status, KeyStatus::Active));
}
