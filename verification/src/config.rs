//! Timeouts, limits, default URLs and rotation configuration.

use vstd::prelude::*;

use crate::clock::Duration;
use crate::quota::{unlimited, KeyLimits};
use crate::text::{chars_of, string_of};

verus! {

/// How the engine picks the next key from the pool.
#[derive(Debug, Clone, Copy, PartialEq, Eq, Structural)]
pub enum RotationMode {
    /// Round-robin cursor: every request gets the next key in the pool
    /// (`index % pool_size`). The right default when requests arrive
    /// concurrently and load should spread evenly.
    Proactive,
    /// Stick to one "primary" key until it fails (429/401), then fall back to
    /// the next healthy key.
    Reactive,
}

impl Default for RotationMode {
    fn default() -> (r: RotationMode)
        ensures
            r == RotationMode::Proactive,
    {
        RotationMode::Proactive
    }
}

/// Resolved runtime configuration shared by the engine and the dispatcher.
#[derive(Debug, Clone)]
pub struct PoolConfig {
    /// Base URL of an OpenAI-compatible API, e.g.
    /// `https://api.openai.com/v1/`.
    pub default_url: String,
    /// Rotation strategy.
    pub rotation_mode: RotationMode,
    /// Maximum concurrent in-flight requests.
    pub concurrency_limit: usize,
    /// Per-request timeout.
    pub request_timeout: Duration,
    /// How many times a 5xx is retried on the *same* key with exponential
    /// backoff before giving up.
    pub max_server_error_retries: u32,
    /// Cooldown applied on a 429 when the server does not send `Retry-After`.
    pub default_cooldown: Duration,
    /// Base delay for 5xx exponential backoff (doubled per attempt, plus
    /// jitter).
    pub backoff_base: Duration,
    /// Default quota limits applied to keys without per-key limits.
    pub default_limits: KeyLimits,
}

impl Default for PoolConfig {
    fn default() -> (r: PoolConfig)
        ensures
            r.default_url@ == "https://api.openai.com/v1/"@,
            r.rotation_mode == RotationMode::Proactive,
            r.concurrency_limit == 32,
            r.request_timeout.nanos == 60_000_000_000,
            r.max_server_error_retries == 3,
            r.default_cooldown.nanos == 30_000_000_000,
            r.backoff_base.nanos == 200_000_000,
            r.default_limits == unlimited(),
    {
        PoolConfig {
            default_url: "https://api.openai.com/v1/".to_string(),
            rotation_mode: RotationMode::Proactive,
            concurrency_limit: 32,
            request_timeout: Duration::from_secs(60),
            max_server_error_retries: 3,
            default_cooldown: Duration::from_secs(30),
            backoff_base: Duration::from_millis(200),
            default_limits: KeyLimits::none(),
        }
    }
}

/// The text without the slashes at its end.
pub open spec fn without_slashes(s: Seq<char>) -> Seq<char>
    decreases s.len(),
{
    if s.len() > 0 && s.last() == '/' {
        without_slashes(s.drop_last())
    } else {
        s
    }
}

/// The `chat/completions` endpoint under a base URL.
pub open spec fn completions_url(base: Seq<char>) -> Seq<char> {
    without_slashes(base) + "/chat/completions"@
}

impl PoolConfig {
    /// Joins the base URL with the `chat/completions` endpoint, tolerating a
    /// missing trailing slash.
    pub fn chat_completions_url(&self) -> (r: String)
        ensures
            r@ == completions_url(self.default_url@),
    {
        let base: Vec<char> = chars_of(self.default_url.as_str());
        let mut end: usize = base.len();
        assert(base@.subrange(0, end as int) =~= base@);
        while end > 0 && base[end - 1] == '/'
            invariant
                end <= base.len(),
                without_slashes(base@) == without_slashes(base@.subrange(0, end as int)),
            decreases end,
        {
            assert(base@.subrange(0, end as int).drop_last() =~= base@.subrange(0, end - 1));
            assert(base@.subrange(0, end as int).last() == base@[end - 1]);
            end = end - 1;
        }
        if end > 0 {
            assert(base@.subrange(0, end as int).last() == base@[end - 1]);
        }
        string_of(&base, 0, end).concat("/chat/completions")
    }
}

/// Slashes at the end of the base URL make no difference to the endpoint.
pub proof fn law_trailing_slashes_do_not_matter(base: Seq<char>)
    ensures
        completions_url(base.push('/')) == completions_url(base),
{
    assert(base.push('/').drop_last() =~= base);
}

/// The address of the API is the base address, which may end in a slash or not,
/// and the path of the endpoint.
pub proof fn law_endpoint_address(base: Seq<char>)
    requires
        base.len() == 0 || base.last() != '/',
    ensures
        completions_url(base) == base + "/chat/completions"@,
        completions_url(base.push('/')) == base + "/chat/completions"@,
{
    reveal_with_fuel(without_slashes, 2);
    assert(base.push('/').drop_last() =~= base);
}

} // verus!
