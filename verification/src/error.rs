//! The two error domains:
//! - [`VaultError`]: storage and cryptography failures
//! - [`AiError`]: everything callers see from the public API

use vstd::prelude::*;

use crate::text::{decimal, decimal_text};

verus! {

/// Errors originating in the vault layer (storage backends and envelope
/// encryption).
#[derive(Debug)]
pub enum VaultError {
    /// The OS keychain is locked or unavailable. Callers should prompt the
    /// user to unlock it and retry.
    KeychainLocked,
    /// Any other keychain failure.
    Keychain(String),
    /// AES-GCM encryption or decryption failure that is *not* a tamper event.
    Crypto(String),
    /// AES-256-GCM authentication failed: the encrypted blob was modified on
    /// disk or the master key changed. The offending key is banned as
    /// corrupted instead of failing the whole load.
    Corrupted(String),
    /// Storage backend failure.
    Storage(String),
    /// No record with this id exists in the store.
    NotFound(String),
    /// A custom master key was provided that is not exactly 32 bytes.
    InvalidMasterKey,
}

impl VaultError {
    /// The message shown for the error.
    pub open spec fn text(self) -> Seq<char> {
        match self {
            VaultError::KeychainLocked => "OS keychain is locked or unavailable"@,
            VaultError::Keychain(why) => "keychain error: "@ + why@,
            VaultError::Crypto(why) => "crypto failure: "@ + why@,
            VaultError::Corrupted(why) => "encrypted record corrupted or tampered with: "@ + why@,
            VaultError::Storage(why) => "storage error: "@ + why@,
            VaultError::NotFound(id) => "key not found in vault: "@ + id@,
            VaultError::InvalidMasterKey => "master key must be exactly 32 bytes"@,
        }
    }

    /// The message shown for the error.
    pub fn message(&self) -> (r: String)
        ensures
            r@ == self.text(),
    {
        match self {
            VaultError::KeychainLocked => "OS keychain is locked or unavailable".to_string(),
            VaultError::Keychain(why) => "keychain error: ".to_string().concat(why.as_str()),
            VaultError::Crypto(why) => "crypto failure: ".to_string().concat(why.as_str()),
            VaultError::Corrupted(why) => "encrypted record corrupted or tampered with: ".to_string().concat(
                why.as_str(),
            ),
            VaultError::Storage(why) => "storage error: ".to_string().concat(why.as_str()),
            VaultError::NotFound(id) => "key not found in vault: ".to_string().concat(id.as_str()),
            VaultError::InvalidMasterKey => "master key must be exactly 32 bytes".to_string(),
        }
    }
}

/// Reason a stream was aborted mid-flight.
#[derive(Debug, Clone, PartialEq, Eq)]
pub enum StreamInterruption {
    /// The provider injected a 429-style error object inside the stream.
    RateLimited,
    /// The provider injected a 401/403-style error object inside the stream.
    Unauthorized,
    /// Any other in-stream API error.
    Api(String),
}

impl StreamInterruption {
    /// The message shown for the interruption.
    pub open spec fn text(self) -> Seq<char> {
        match self {
            StreamInterruption::RateLimited => "rate limited mid-stream"@,
            StreamInterruption::Unauthorized => "unauthorized mid-stream"@,
            StreamInterruption::Api(why) => "api error mid-stream: "@ + why@,
        }
    }

    /// The message shown for the interruption.
    pub fn message(&self) -> (r: String)
        ensures
            r@ == self.text(),
    {
        match self {
            StreamInterruption::RateLimited => "rate limited mid-stream".to_string(),
            StreamInterruption::Unauthorized => "unauthorized mid-stream".to_string(),
            StreamInterruption::Api(why) => "api error mid-stream: ".to_string().concat(
                why.as_str(),
            ),
        }
    }
}

/// Errors returned by the client and the key manager.
#[derive(Debug)]
pub enum AiError {
    /// Every key in the pool is currently unusable (cooldown, ban, exhausted
    /// rate window, or concurrency saturation).
    ///
    /// `retry_in_ms` is the soonest known recovery time: `Some(ms)` when a
    /// cooldown or rate window is the blocker, `None` when recovery time is
    /// unknowable (all banned, or saturated without a configured cooldown).
    AllKeysExhausted {
        /// Milliseconds until the soonest key frees up, if knowable.
        retry_in_ms: Option<u64>,
    },
    /// The builder was configured invalidly (e.g. per-key `max_concurrency`
    /// combined with `RotationMode::Proactive`).
    InvalidConfig(String),
    /// The request timed out. The key is NOT rotated: the network is at fault.
    Timeout,
    /// 400 / 404 / 422: the request itself is wrong. Fail fast, never rotate.
    BadRequest {
        /// HTTP status code.
        status: u16,
        /// Raw response body.
        body: String,
    },
    /// 5xx persisted after exponential-backoff retries on the same key.
    ServerError {
        /// HTTP status code.
        status: u16,
        /// Raw response body.
        body: String,
    },
    /// A status code outside the table of known ones.
    UnexpectedStatus {
        /// HTTP status code.
        status: u16,
        /// Raw response body.
        body: String,
    },
    /// Transport-level failure (DNS, TLS, connection reset, ...).
    Network(String),
    /// 200 OK but the body could not be deserialized.
    InvalidResponse(String),
    /// The stream returned 200 OK, started, then injected an error object. The
    /// stream is aborted and the key's health updated.
    StreamInterrupted(StreamInterruption),
    /// Bubbled-up vault failure.
    Vault(VaultError),
    /// A key manager operation referenced an unknown key id.
    KeyNotFound(String),
}

/// `head`, the status in parentheses, `tail`, and the body.
pub open spec fn status_text(head: Seq<char>, status: u16, tail: Seq<char>, body: Seq<char>) -> Seq<
    char,
> {
    head + decimal_text(status as nat) + tail + body
}

fn status_message(head: &str, status: u16, tail: &str, body: &str) -> (r: String)
    ensures
        r@ == status_text(head@, status, tail@, body@),
{
    head.to_string().concat(decimal(status as u64).as_str()).concat(tail).concat(body)
}

impl AiError {
    /// The message shown for the error.
    pub open spec fn text(self) -> Seq<char> {
        match self {
            AiError::AllKeysExhausted { .. } =>
                "all keys in the pool are exhausted (rate-limited, quota-blocked, or banned)"@,
            AiError::InvalidConfig(why) => "invalid configuration: "@ + why@,
            AiError::Timeout => "request timed out"@,
            AiError::BadRequest { status, body } => status_text(
                "bad request ("@,
                status,
                "): "@,
                body@,
            ),
            AiError::ServerError { status, body } => status_text(
                "upstream server error ("@,
                status,
                ") after retries: "@,
                body@,
            ),
            AiError::UnexpectedStatus { status, body } => status_text(
                "unexpected status ("@,
                status,
                "): "@,
                body@,
            ),
            AiError::Network(why) => "network error: "@ + why@,
            AiError::InvalidResponse(why) => "invalid response body: "@ + why@,
            AiError::StreamInterrupted(why) => "stream interrupted: "@ + why.text(),
            AiError::Vault(inner) => inner.text(),
            AiError::KeyNotFound(id) => "key not found: "@ + id@,
        }
    }

    /// The message shown for the error.
    pub fn message(&self) -> (r: String)
        ensures
            r@ == self.text(),
    {
        match self {
            AiError::AllKeysExhausted { .. } =>
                "all keys in the pool are exhausted (rate-limited, quota-blocked, or banned)".to_string(),
            AiError::InvalidConfig(why) => "invalid configuration: ".to_string().concat(
                why.as_str(),
            ),
            AiError::Timeout => "request timed out".to_string(),
            AiError::BadRequest { status, body } => status_message(
                "bad request (",
                *status,
                "): ",
                body.as_str(),
            ),
            AiError::ServerError { status, body } => status_message(
                "upstream server error (",
                *status,
                ") after retries: ",
                body.as_str(),
            ),
            AiError::UnexpectedStatus { status, body } => status_message(
                "unexpected status (",
                *status,
                "): ",
                body.as_str(),
            ),
            AiError::Network(why) => "network error: ".to_string().concat(why.as_str()),
            AiError::InvalidResponse(why) => "invalid response body: ".to_string().concat(
                why.as_str(),
            ),
            AiError::StreamInterrupted(why) => "stream interrupted: ".to_string().concat(
                why.message().as_str(),
            ),
            AiError::Vault(inner) => inner.message(),
            AiError::KeyNotFound(id) => "key not found: ".to_string().concat(id.as_str()),
        }
    }
}

/// A message says what kind of failure it is of, and then all that was said of
/// it.
pub proof fn law_messages_say_why(e: AiError, inner: VaultError, cut: StreamInterruption)
    ensures
        e matches AiError::InvalidConfig(why) ==> e.text() == "invalid configuration: "@ + why@,
        e matches AiError::Network(why) ==> e.text() == "network error: "@ + why@,
        e matches AiError::InvalidResponse(why) ==> e.text() == "invalid response body: "@ + why@,
        e matches AiError::KeyNotFound(id) ==> e.text() == "key not found: "@ + id@,
        e matches AiError::BadRequest { status, body } ==> e.text() == "bad request ("@
            + decimal_text(status as nat) + "): "@ + body@,
        e matches AiError::ServerError { status, body } ==> e.text()
            == "upstream server error ("@ + decimal_text(status as nat) + ") after retries: "@
            + body@,
        e matches AiError::UnexpectedStatus { status, body } ==> e.text()
            == "unexpected status ("@ + decimal_text(status as nat) + "): "@ + body@,
        e is Timeout ==> e.text() == "request timed out"@,
        e is AllKeysExhausted ==> e.text()
            == "all keys in the pool are exhausted (rate-limited, quota-blocked, or banned)"@,
        AiError::Vault(inner).text() == inner.text(),
        AiError::StreamInterrupted(cut).text() == "stream interrupted: "@ + cut.text(),
        cut matches StreamInterruption::Api(why) ==> cut.text() == "api error mid-stream: "@ + why@,
        cut is RateLimited ==> cut.text() == "rate limited mid-stream"@,
        cut is Unauthorized ==> cut.text() == "unauthorized mid-stream"@,
        inner matches VaultError::Keychain(why) ==> inner.text() == "keychain error: "@ + why@,
        inner matches VaultError::Crypto(why) ==> inner.text() == "crypto failure: "@ + why@,
        inner matches VaultError::Corrupted(why) ==> inner.text()
            == "encrypted record corrupted or tampered with: "@ + why@,
        inner matches VaultError::Storage(why) ==> inner.text() == "storage error: "@ + why@,
        inner matches VaultError::NotFound(id) ==> inner.text() == "key not found in vault: "@ + id@,
        inner is KeychainLocked ==> inner.text() == "OS keychain is locked or unavailable"@,
        inner is InvalidMasterKey ==> inner.text() == "master key must be exactly 32 bytes"@,
{
}

} // verus!
