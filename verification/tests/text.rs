use ai_pool::config::PoolConfig;
use ai_pool::text::{
    contains, decimal, parse_unsigned, precedes, strip_prefix, strip_suffix, trim, trim_end, truncate,
};
use ai_pool::{AiError, RotationMode, StreamInterruption, VaultError};

#[test]
fn trimming_takes_all_white_space() {
    assert_eq!(trim(" \t\r\n a b \u{a0}\u{2003}"), "a b");
    assert_eq!(trim(" \n "), "");
    assert_eq!(trim_end("  a \r\n"), "  a");
}

#[test]
fn truncation_keeps_to_characters() {
    assert_eq!(truncate("abc", 3), "abc");
    assert_eq!(truncate("abcd", 3), "abc…");
    // Two bytes each: the second does not fit any more.
    assert_eq!(truncate("ää", 3), "ä…");
    assert_eq!(truncate("🔑", 3), "…");
    assert_eq!(truncate("", 0), "");
    assert_eq!(truncate("a", 0), "…");
}

#[test]
fn prefixes_suffixes_and_occurrences() {
    assert_eq!(strip_prefix("data: x", "data:").as_deref(), Some(" x"));
    assert!(strip_prefix("dat", "data:").is_none());
    assert_eq!(strip_suffix("a```", "```").as_deref(), Some("a"));
    assert!(strip_suffix("``", "```").is_none());
    assert!(contains("xrate_limity", "rate_limit"));
    assert!(contains("x", ""));
    assert!(!contains("rate", "rate_limit"));
}

#[test]
fn numbers_read_back() {
    for n in [0, 7, 10, 429, u64::MAX] {
        assert_eq!(decimal(n), n.to_string());
        assert_eq!(parse_unsigned(&decimal(n), u64::MAX), Some(n));
    }
    assert_eq!(parse_unsigned("+5", 10), Some(5));
    assert_eq!(parse_unsigned("0010", 10), Some(10));
    assert_eq!(parse_unsigned("11", 10), None);
    assert_eq!(parse_unsigned("18446744073709551616", u64::MAX), None);
    for bad in ["", "+", "-1", "1.0", " 1", "1 ", "٣"] {
        assert_eq!(parse_unsigned(bad, u64::MAX), None, "{bad}");
    }
}

#[test]
fn strings_are_ordered_by_bytes() {
    assert!(precedes("a", "b"));
    assert!(precedes("a", "aa"));
    assert!(precedes("Z", "a"));
    assert!(precedes("z", "ä"));
    assert!(!precedes("a", "a"));
    assert!(!precedes("b", "aa"));
}

#[test]
fn endpoint_is_joined_with_one_slash() {
    let mut config = PoolConfig::default();
    assert_eq!(
        config.chat_completions_url(),
        "https://api.openai.com/v1/chat/completions"
    );
    config.default_url = "http://h/v1".to_string();
    assert_eq!(config.chat_completions_url(), "http://h/v1/chat/completions");
    config.default_url = "http://h/v1///".to_string();
    assert_eq!(config.chat_completions_url(), "http://h/v1/chat/completions");
    config.default_url = "".to_string();
    assert_eq!(config.chat_completions_url(), "/chat/completions");
}

#[test]
fn configuration_defaults() {
    let config = PoolConfig::default();
    assert!(config.rotation_mode == RotationMode::Proactive);
    assert!(RotationMode::default() == RotationMode::Proactive);
    assert_eq!(config.concurrency_limit, 32);
    assert_eq!(config.request_timeout.as_millis(), 60_000);
    assert_eq!(config.max_server_error_retries, 3);
    assert_eq!(config.default_cooldown.as_millis(), 30_000);
    assert_eq!(config.backoff_base.as_millis(), 200);
    assert!(config.default_limits.is_unlimited());
}

#[test]
fn vault_errors_say_what_happened() {
    let cases = [
        (
            VaultError::KeychainLocked,
            "OS keychain is locked or unavailable",
        ),
        (VaultError::Keychain("x".into()), "keychain error: x"),
        (VaultError::Crypto("x".into()), "crypto failure: x"),
        (
            VaultError::Corrupted("x".into()),
            "encrypted record corrupted or tampered with: x",
        ),
        (VaultError::Storage("x".into()), "storage error: x"),
        (VaultError::NotFound("x".into()), "key not found in vault: x"),
        (
            VaultError::InvalidMasterKey,
            "master key must be exactly 32 bytes",
        ),
    ];
    for (e, text) in cases {
        assert_eq!(e.message(), text);
    }
}

#[test]
fn client_errors_say_what_happened() {
    let cases = [
        (
            AiError::AllKeysExhausted {
                retry_in_ms: Some(1),
            },
            "all keys in the pool are exhausted (rate-limited, quota-blocked, or banned)",
        ),
        (
            AiError::InvalidConfig("x".into()),
            "invalid configuration: x",
        ),
        (AiError::Timeout, "request timed out"),
        (
            AiError::BadRequest {
                status: 404,
                body: "b".into(),
            },
            "bad request (404): b",
        ),
        (
            AiError::ServerError {
                status: 503,
                body: "b".into(),
            },
            "upstream server error (503) after retries: b",
        ),
        (
            AiError::UnexpectedStatus {
                status: 302,
                body: "b".into(),
            },
            "unexpected status (302): b",
        ),
        (AiError::Network("x".into()), "network error: x"),
        (
            AiError::InvalidResponse("x".into()),
            "invalid response body: x",
        ),
        (
            AiError::StreamInterrupted(StreamInterruption::RateLimited),
            "stream interrupted: rate limited mid-stream",
        ),
        (
            AiError::StreamInterrupted(StreamInterruption::Unauthorized),
            "stream interrupted: unauthorized mid-stream",
        ),
        (
            AiError::StreamInterrupted(StreamInterruption::Api("x".into())),
            "stream interrupted: api error mid-stream: x",
        ),
        (
            AiError::Vault(VaultError::NotFound("k".into())),
            "key not found in vault: k",
        ),
        (AiError::KeyNotFound("k".into()), "key not found: k"),
    ];
    for (e, text) in cases {
        assert_eq!(e.message(), text);
    }
}
