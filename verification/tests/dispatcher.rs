use ai_pool::clock::{Duration, Instant, Moment};
use ai_pool::config::PoolConfig;
use ai_pool::crypto::Envelope;
use ai_pool::engine::KeyPool;
use ai_pool::http::dispatcher::{
    backoff, jitter, jitter_of, unreadable_response, Classified, Dispatcher, Event, Execution, Step,
};
use ai_pool::http::models::{ApiErrorBody, ChatChunk};
use ai_pool::http::stream::{
    handle_line, handle_payload_at, payload_of, Line, LineBuffer, Outcome, Payload, SseParser,
    StreamStep,
};
use ai_pool::secret::{MasterKey, SecretString};
use ai_pool::storage::{MemoryStore, Stamps, Vault};
use ai_pool::{
    AiError, KeyHealth, KeyLimits, KeyManager, KeyStore, RotationMode, StreamInterruption,
};
use serde_json::Value;

fn manager(n: usize, limits: KeyLimits) -> KeyManager<MemoryStore> {
    let vault = Vault::new(
        MemoryStore::new(),
        Envelope::new(MasterKey::new([1u8; 32])),
    );
    let pool = KeyPool::new(RotationMode::Reactive, limits);
    let mut m = KeyManager::new(vault, pool);
    let mut stamps = Stamps::new();
    for i in 0..n {
        m.add_key(&format!("sk-number-{i:06}"), &mut stamps)
            .ok()
            .unwrap();
    }
    m
}

fn dispatcher() -> Dispatcher {
    Dispatcher::new(PoolConfig::default())
}

fn classify(status: u16, header: Option<&str>, body: &str) -> Classified {
    dispatcher().classify(
        status,
        &header.map(|h| h.to_string()),
        body.to_string(),
        Duration::from_secs(0),
    )
}

fn lease_id(e: &Execution) -> String {
    e.lease.as_ref().unwrap().id.clone()
}

#[test]
fn table_of_http_semantics() {
    for status in [200, 204, 299] {
        assert!(matches!(classify(status, None, ""), Classified::Success));
    }
    for status in [400, 404, 422] {
        match classify(status, None, "why") {
            Classified::FailFast(AiError::BadRequest { status: s, body }) => {
                assert_eq!((s, body.as_str()), (status, "why"));
            }
            _ => panic!("{status} is the request's fault"),
        }
    }
    for status in [401, 403] {
        match classify(status, None, "nope") {
            Classified::RotateBan(reason) => assert_eq!(reason, format!("http {status}: nope")),
            _ => panic!("{status} is the key's fault"),
        }
    }
    for status in [500, 503, 599] {
        assert!(matches!(
            classify(status, None, ""),
            Classified::RetrySameKey { .. }
        ));
    }
    for status in [100, 199, 301, 402, 409, 418, 600] {
        assert!(matches!(
            classify(status, None, ""),
            Classified::FailFast(AiError::UnexpectedStatus { .. })
        ));
    }
}

#[test]
fn rate_limits_cool_for_as_long_as_asked() {
    let wait = |header: Option<&str>| match classify(429, header, "") {
        Classified::RotateCooldown(span) => span.as_millis(),
        _ => panic!("429 is a rate limit"),
    };
    assert_eq!(wait(Some("7")), 7_000);
    assert_eq!(wait(None), 30_000);
    assert_eq!(wait(Some("later")), 30_000);
    assert_eq!(wait(Some("86400")), 3_600_000);
    assert_eq!(wait(Some("Thu, 01 Jan 1970 00:01:00 GMT")), 60_000);
}

#[test]
fn ban_reasons_are_shortened() {
    match classify(401, None, &"x".repeat(250)) {
        Classified::RotateBan(reason) => {
            assert_eq!(reason, format!("http 401: {}…", "x".repeat(200)));
        }
        _ => panic!("401 is the key's fault"),
    }
}

#[test]
fn backoff_doubles_per_retry() {
    let base = Duration::from_millis(200);
    assert_eq!(backoff(base, 0).as_millis(), 200);
    assert_eq!(backoff(base, 1).as_millis(), 400);
    assert_eq!(backoff(base, 5).as_millis(), 6_400);
    assert_eq!(backoff(base, u32::MAX).nanos, u128::MAX);
    assert_eq!(backoff(Duration::from_millis(0), u32::MAX).nanos, 0);
}

#[test]
fn jitter_stays_below_half_a_second() {
    let mut seen: Vec<u128> = Vec::new();
    for _ in 0..200 {
        let span = jitter();
        assert!(span.as_millis() < 500);
        assert_eq!(span.nanos % 1_000_000, 0);
        seen.push(span.nanos);
    }
    seen.sort();
    seen.dedup();
    assert!(seen.len() > 20, "jitter must vary");
}

#[test]
fn timeouts_and_broken_connections_end_the_request_and_spare_the_key() {
    for (event, timeout) in [
        (Event::TimedOut, true),
        (Event::Disconnected("reset".to_string()), false),
    ] {
        let mut m = manager(2, KeyLimits::none());
        let (mut e, step) = Dispatcher::execute(&mut m);
        assert!(matches!(step, Step::Send));
        let id = lease_id(&e);
        assert_eq!(m.key_quota(&id).ok().unwrap().in_flight, 1);
        match dispatcher().advance(&mut m, &mut e, event) {
            Step::Failed(AiError::Timeout) => assert!(timeout),
            Step::Failed(AiError::Network(why)) => {
                assert!(!timeout);
                assert_eq!(why, "reset");
            }
            _ => panic!("the request fails"),
        }
        assert!(e.lease.is_none());
        assert_eq!(m.key_quota(&id).ok().unwrap().in_flight, 0);
        assert!(m.pool.health_of(&id) == Some(KeyHealth::Active));
    }
}

#[test]
fn waits_grow_while_the_same_key_is_retried() {
    let mut m = manager(2, KeyLimits::none());
    let (mut e, _) = Dispatcher::execute(&mut m);
    let id = lease_id(&e);
    for retry in 0..3u32 {
        let event = Event::Response {
            status: 500,
            retry_after: None,
            body: "oops".to_string(),
        };
        match dispatcher().advance(&mut m, &mut e, event) {
            Step::Wait(span) => {
                let base = 200u128 << retry;
                assert!(span.as_millis() >= base && span.as_millis() < base + 500);
            }
            _ => panic!("the key is retried"),
        }
        assert_eq!(e.server_retries, retry + 1);
        assert!(matches!(
            dispatcher().advance(&mut m, &mut e, Event::Waited),
            Step::Send
        ));
        assert_eq!(lease_id(&e), id);
    }
    let event = Event::Response {
        status: 500,
        retry_after: None,
        body: "oops".to_string(),
    };
    assert!(matches!(
        dispatcher().advance(&mut m, &mut e, event),
        Step::Failed(AiError::ServerError { status: 500, .. })
    ));
    assert_eq!(m.key_quota(&id).ok().unwrap().in_flight, 0);
}

#[test]
fn no_more_keys_are_tried_than_there_are() {
    let mut m = manager(3, KeyLimits::none());
    let (mut e, mut step) = Dispatcher::execute(&mut m);
    let mut sends = 0;
    while matches!(step, Step::Send) {
        sends += 1;
        step = dispatcher().decide(
            &mut m,
            &mut e,
            Classified::RotateCooldown(Duration::from_millis(0)),
        );
        // Whoever cools is recovered at once: only the count ends this.
        for meta in m.list_keys().ok().unwrap() {
            m.recover_key(&meta.id).ok().unwrap();
        }
    }
    assert!(matches!(
        step,
        Step::Failed(AiError::AllKeysExhausted { .. })
    ));
    assert!(sends <= 3, "{sends} sends");
}

#[test]
fn quota_is_persisted_with_each_lease() {
    let mut m = manager(1, KeyLimits::none().per_hour(5));
    let (e, _) = Dispatcher::execute(&mut m);
    let id = lease_id(&e);
    let record = m.vault.store.get(&id).ok().unwrap();
    assert_eq!(record.hour_window.unwrap().used, 1);
    // The limits are the pool's default, so none are stored.
    assert!(record.limits.is_none());
    m.set_key_limits(&id, Some(KeyLimits::none().per_minute(5)))
        .ok()
        .unwrap();
    let (_e, _) = Dispatcher::execute(&mut m);
    let record = m.vault.store.get(&id).ok().unwrap();
    assert_eq!(record.limits.unwrap().per_minute, Some(5));
    assert_eq!(record.minute_window.unwrap().used, 1);
}

#[test]
fn health_reports_reach_pool_and_store() {
    let mut m = manager(1, KeyLimits::none());
    let id = m.list_keys().ok().unwrap()[0].id.clone();
    Dispatcher::cooldown_key(&mut m, &id, Duration::from_secs(60));
    assert!(matches!(
        m.pool.health_of(&id),
        Some(KeyHealth::Cooldown { .. })
    ));
    assert!(m.vault.store.get(&id).ok().unwrap().health == m.pool.health_of(&id).unwrap());
    let wait = m.pool.earliest_recovery_ms().unwrap();
    assert!(wait > 55_000 && wait <= 60_500, "wait was {wait}");
    Dispatcher::ban_key(&mut m, &id, "why");
    assert!(
        m.vault.store.get(&id).ok().unwrap().health
            == KeyHealth::Banned {
                reason: "why".to_string()
            }
    );
}

#[test]
fn unreadable_bodies_are_shown_in_part() {
    let mut body = vec![b'x'; 299];
    body.push(0xFF);
    body.push(b'y');
    match unreadable_response("expected value", &body) {
        AiError::InvalidResponse(why) => {
            // The replacement character takes three bytes and does not fit.
            assert_eq!(
                why,
                format!("expected value; body: {}…", "x".repeat(299))
            );
        }
        _ => panic!("a body that cannot be read is an invalid response"),
    }
}

fn data(line: &str) -> Option<String> {
    match handle_line(line) {
        Line::Data(text) => Some(text),
        _ => None,
    }
}

#[test]
fn only_data_lines_carry_payloads() {
    assert_eq!(data("data: {\"a\":1}").as_deref(), Some("{\"a\":1}"));
    assert_eq!(data("data:x ").as_deref(), Some("x"));
    for line in ["", ": comment", "event: ping", "data:", "data:   ", " data: x"] {
        assert!(matches!(handle_line(line), Line::Ignore), "{line}");
    }
    assert!(matches!(handle_line("data: [DONE]"), Line::Done));
    assert!(matches!(handle_line("data:[DONE] "), Line::Done));
}

#[test]
fn lines_come_out_whole_wherever_the_bytes_are_cut() {
    let text = "data: one\r\n\r\ndata: two\n: tail";
    let whole = LineBuffer::new().feed(text.as_bytes());
    assert_eq!(whole, ["data: one", "", "data: two"]);
    for cut in 0..text.len() {
        let mut buffer = LineBuffer::new();
        let mut lines = buffer.feed(&text.as_bytes()[..cut]);
        lines.extend(buffer.feed(&text.as_bytes()[cut..]));
        assert_eq!(lines, whole, "cut at {cut}");
        assert_eq!(buffer.pending, ": tail");
    }
    let mut buffer = LineBuffer::new();
    assert_eq!(buffer.feed_text("a"), Vec::<String>::new());
    assert_eq!(buffer.feed_text("b\n\n"), ["ab", ""]);
    // Bytes that are no text are replaced.
    assert_eq!(buffer.feed(&[0xFF, b'\n']), ["\u{fffd}"]);
}

fn error(message: &str, code: Option<Value>, kind: Option<&str>, status: Option<Value>) -> ApiErrorBody {
    ApiErrorBody {
        message: message.to_string(),
        code,
        kind: kind.map(|k| k.to_string()),
        status,
    }
}

#[test]
fn error_codes_are_found_in_many_forms() {
    let code = |code: Option<Value>| error("", code, None, None).numeric_code();
    assert_eq!(code(Some(Value::from(429))), Some(429));
    assert_eq!(code(Some(Value::from("429"))), Some(429));
    assert_eq!(code(Some(Value::from("rate_limit_exceeded"))), Some(429));
    assert_eq!(code(Some(Value::from("RESOURCE_EXHAUSTED"))), Some(429));
    assert_eq!(code(Some(Value::from("invalid_api_key"))), Some(401));
    assert_eq!(code(Some(Value::from("Unauthenticated"))), Some(401));
    assert_eq!(code(Some(Value::from("permission_denied"))), Some(403));
    assert_eq!(code(Some(Value::from("other"))), None);
    assert_eq!(code(None), None);
    // A number that is no code decides all the same.
    let big = error("", Some(Value::from(70_000)), Some("rate_limit"), None);
    assert_eq!(big.numeric_code(), None);
    // Neither negative nor fractional numbers are codes.
    for odd in [Value::from(-1), Value::from(429.5), Value::Null, Value::from(true)] {
        let e = error("", Some(odd), None, Some(Value::from(503)));
        assert_eq!(e.numeric_code(), Some(503));
    }
    let tagged = error("", None, Some("Rate_Limit_Error"), None);
    assert_eq!(tagged.numeric_code(), Some(429));
    let status = error("", Some(Value::from("oops")), None, Some(Value::from("401")));
    assert_eq!(status.numeric_code(), Some(401));
}

fn chunk() -> ChatChunk {
    ChatChunk {
        id: "c1".to_string(),
        model: "m".to_string(),
        choices: Vec::new(),
    }
}

fn stream_outcome(payload: Payload) -> (Outcome, Option<KeyHealth>) {
    let mut m = manager(1, KeyLimits::none());
    let id = m.list_keys().ok().unwrap()[0].id.clone();
    let at = m.pool.clock().now();
    let extra = Duration::from_millis(250);
    let outcome = handle_payload_at(&mut m, &id, Duration::from_secs(30), payload, at, extra);
    if let Some(KeyHealth::Cooldown { retry_after }) = m.pool.health_of(&id) {
        assert_eq!(retry_after.nanos, at.nanos + 30_250_000_000);
    }
    (outcome, m.pool.health_of(&id))
}

#[test]
fn mid_stream_rate_limit_aborts_and_cools_key() {
    let (outcome, health) = stream_outcome(Payload::Chunk(chunk()));
    assert!(matches!(outcome, Outcome::Chunk(_)));
    assert!(health == Some(KeyHealth::Active));

    let injected = error(
        "quota exceeded mid-flight",
        Some(Value::from(429)),
        None,
        None,
    );
    let (outcome, health) = stream_outcome(Payload::Error(injected));
    assert!(matches!(
        outcome,
        Outcome::Fatal(AiError::StreamInterrupted(StreamInterruption::RateLimited))
    ));
    assert!(matches!(health, Some(KeyHealth::Cooldown { .. })));
}

#[test]
fn mid_stream_auth_error_bans_key() {
    for code in [401, 403] {
        let revoked = error("key revoked", Some(Value::from(code)), None, None);
        let (outcome, health) = stream_outcome(Payload::Error(revoked));
        assert!(matches!(
            outcome,
            Outcome::Fatal(AiError::StreamInterrupted(StreamInterruption::Unauthorized))
        ));
        assert!(
            health
                == Some(KeyHealth::Banned {
                    reason: "mid-stream: key revoked".to_string()
                })
        );
    }
}

#[test]
fn other_stream_errors_leave_the_key_alone() {
    let (outcome, health) =
        stream_outcome(Payload::Error(error("boom", Some(Value::from(500)), None, None)));
    match outcome {
        Outcome::Fatal(AiError::StreamInterrupted(StreamInterruption::Api(why))) => {
            assert_eq!(why, "boom");
        }
        _ => panic!("the stream ends with the provider's message"),
    }
    assert!(health == Some(KeyHealth::Active));

    let (outcome, health) = stream_outcome(Payload::Malformed("eof".to_string()));
    match outcome {
        Outcome::Fatal(AiError::InvalidResponse(why)) => assert_eq!(why, "bad SSE chunk: eof"),
        _ => panic!("the stream ends"),
    }
    assert!(health == Some(KeyHealth::Active));
}

#[test]
fn secrets_are_those_of_the_leased_key() {
    let mut m = manager(1, KeyLimits::none());
    let (e, _) = Dispatcher::execute(&mut m);
    assert_eq!(
        e.lease.unwrap().secret.expose_secret(),
        SecretString::new("sk-number-000000".to_string()).expose_secret()
    );
}

/// Runs a stream over the given pieces; every payload but one that says
/// "error" is a chunk of its own. Returns what was delivered.
fn run_stream(pieces: &[&str]) -> (Vec<String>, bool) {
    let mut m = manager(1, KeyLimits::none());
    let id = m.list_keys().ok().unwrap()[0].id.clone();
    let mut parser = SseParser::new(&id, Duration::from_secs(30));
    let mut delivered: Vec<String> = Vec::new();
    let mut rest = pieces.iter();
    loop {
        match parser.poll() {
            StreamStep::Ended => return (delivered, true),
            StreamStep::Read => match rest.next() {
                Some(piece) => parser.receive(piece.as_bytes()),
                None => return (delivered, false),
            },
            StreamStep::Parse(data) => {
                let payload = if data == "error" {
                    Payload::Error(error("slow", Some(Value::from(429)), None, None))
                } else {
                    let mut c = chunk();
                    c.id = data;
                    Payload::Chunk(c)
                };
                match parser.settle(&mut m, payload) {
                    Outcome::Chunk(c) => delivered.push(c.id),
                    Outcome::Fatal(e) => {
                        delivered.push(e.message());
                        assert!(matches!(
                            m.pool.health_of(&id),
                            Some(KeyHealth::Cooldown { .. })
                        ));
                    }
                }
            }
        }
    }
}

#[test]
fn stream_happy_path_collects_deltas_and_stops_at_done() {
    let body = "data: Hel\n\ndata: lo\n\n: ping\n\ndata: !\n\ndata: [DONE]\n\ndata: late\n\n";
    let (items, ended) = run_stream(&[body]);
    assert_eq!(items, ["Hel", "lo", "!"]);
    assert!(ended);
    // The same in pieces.
    for cut in 0..body.len() {
        let (items, ended) = run_stream(&[&body[..cut], &body[cut..]]);
        assert_eq!(items, ["Hel", "lo", "!"], "cut at {cut}");
        assert!(ended);
    }
}

#[test]
fn nothing_is_delivered_after_a_fatal_error() {
    let (items, ended) = run_stream(&["data: partial\ndata: error\ndata: never\ndata: [DONE]\n"]);
    assert_eq!(
        items,
        ["partial", "stream interrupted: rate limited mid-stream"]
    );
    assert!(ended);
}

#[test]
fn a_connection_that_closes_ends_the_stream() {
    let (items, ended) = run_stream(&["data: a\nda", "ta: b\ndata: c"]);
    // The last line never ended.
    assert_eq!(items, ["a", "b"]);
    assert!(!ended);
    let mut parser = SseParser::new("k", Duration::from_secs(1));
    assert!(matches!(parser.fail(true, "x"), AiError::Timeout));
    assert!(matches!(parser.poll(), StreamStep::Ended));
    match parser.fail(false, "reset") {
        AiError::Network(why) => assert_eq!(why, "reset"),
        _ => panic!("a broken connection is a network error"),
    }
    parser.receive(b"data: x\n");
    assert!(matches!(parser.poll(), StreamStep::Ended));
}

fn moment(ms: u64) -> Moment {
    Moment {
        at: Instant {
            nanos: ms as u128 * 1_000_000,
        },
        unix: Duration::from_millis(1_445_412_000_000 + ms),
    }
}

#[test]
fn jitter_is_the_drawn_number_in_range() {
    assert_eq!(jitter_of(0).as_millis(), 0);
    assert_eq!(jitter_of(499).as_millis(), 499);
    assert_eq!(jitter_of(500).as_millis(), 0);
    assert_eq!(jitter_of(u64::MAX).as_millis(), (u64::MAX % 500) as u128);
}

#[test]
fn cooldowns_are_counted_from_the_moment_of_the_response() {
    let mut m = manager(1, KeyLimits::none());
    let id = m.list_keys().ok().unwrap()[0].id.clone();
    Dispatcher::cooldown_key_at(
        &mut m,
        &id,
        Duration::from_secs(7),
        moment(1_000).at,
        Duration::from_millis(30),
    );
    let expected = KeyHealth::Cooldown {
        retry_after: moment(8_030).at,
    };
    assert!(m.pool.health_of(&id).unwrap() == expected);
    assert!(m.vault.store.get(&id).ok().unwrap().health == expected);
}

fn limited(header: &str) -> Event {
    Event::Response {
        status: 429,
        retry_after: Some(header.to_string()),
        body: String::new(),
    }
}

#[test]
fn steps_at_given_moments_are_reproducible() {
    let mut m = manager(2, KeyLimits::none());
    let (mut e, step) = Dispatcher::execute_at(&mut m, moment(0));
    assert!(matches!(step, Step::Send));
    let first = lease_id(&e);
    // A date seven minutes ahead of the moment of the response.
    let header = "Wed, 21 Oct 2015 07:28:00 GMT";
    let step = dispatcher().advance_at(
        &mut m,
        &mut e,
        limited(header),
        moment(60_000),
        Duration::from_millis(99),
    );
    assert!(matches!(step, Step::Send));
    assert_ne!(lease_id(&e), first);
    assert!(
        m.pool.health_of(&first).unwrap()
            == KeyHealth::Cooldown {
                retry_after: moment(480_099).at
            }
    );
    let oops = Event::Response {
        status: 500,
        retry_after: None,
        body: String::new(),
    };
    match dispatcher().advance_at(
        &mut m,
        &mut e,
        oops,
        moment(60_001),
        Duration::from_millis(3),
    ) {
        Step::Wait(span) => assert_eq!(span.as_millis(), 203),
        _ => panic!("the key is retried"),
    }
}

#[test]
fn each_key_is_tried_once_when_all_are_limited() {
    for n in 0..5usize {
        let mut m = manager(n, KeyLimits::none());
        let (mut e, mut step) = Dispatcher::execute_at(&mut m, moment(0));
        let mut tried: Vec<String> = Vec::new();
        while matches!(step, Step::Send) {
            tried.push(lease_id(&e));
            let tick = moment(tried.len() as u64 * 10);
            let extra = Duration::from_millis(499);
            step = dispatcher().advance_at(&mut m, &mut e, limited("120"), tick, extra);
        }
        let count = tried.len();
        tried.sort();
        tried.dedup();
        assert_eq!((count, tried.len()), (n, n));
        match step {
            Step::Failed(AiError::AllKeysExhausted { retry_in_ms }) => match retry_in_ms {
                Some(ms) => assert!(n > 0 && ms <= 120_500),
                None => assert_eq!(n, 0),
            },
            _ => panic!("no key is left"),
        }
    }
}

#[test]
fn error_objects_go_before_chunks() {
    let both = payload_of(Some(error("x", None, None, None)), Ok(chunk()));
    assert!(matches!(both, Payload::Error(_)));
    assert!(matches!(payload_of(None, Ok(chunk())), Payload::Chunk(_)));
    match payload_of(None, Err("eof".to_string())) {
        Payload::Malformed(why) => assert_eq!(why, "eof"),
        _ => panic!("neither"),
    }
}
