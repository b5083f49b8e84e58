//! Request dispatch and retry policy.
//!
//! The policy is a state machine: it says what to do next (send the request
//! with the leased key, wait, hand the response out, fail) and is told what
//! came of it. It applies the table of HTTP semantics:
//!
//! | HTTP code        | Action                                                  |
//! |------------------|---------------------------------------------------------|
//! | 2xx              | Return JSON / SSE stream                                |
//! | 429              | Cooldown key (parse `Retry-After`), rotate, retry       |
//! | 401 / 403        | Ban key, rotate, retry                                  |
//! | 400 / 404 / 422  | Fail fast with `AiError::BadRequest`, no rotation       |
//! | 5xx              | Retry SAME key with exponential backoff and jitter      |
//! | timeout          | `AiError::Timeout`, no rotation                         |
//! | pool empty       | `AiError::AllKeysExhausted { retry_in_ms }`             |

use vstd::arithmetic::power2::{lemma_pow2_pos, lemma_pow2_unfold, pow2};
use vstd::prelude::*;
use vstd::utf8::{decode_utf8, valid_utf8};

use super::retry_after::{asked_cooldown, retry_after};
use crate::clock::{read_from, Duration, Instant, Moment, Reading, ORIGIN_NANOS};
use crate::config::PoolConfig;
use crate::crypto::primitives::{lossy_text, text_lossy};
use crate::crypto::random::DrawnNumber;
use crate::engine::pool::{is_soonest, lease_view, repeated};
use crate::engine::{KeyPool, LeaseView, LeasedKey, PoolView};
use crate::error::{AiError, VaultError};
use crate::quota::KeyLimits;
use crate::storage::manager::KeyManager;
use crate::storage::store::{KeyStore, StoreEvent};
use crate::storage::{HealthView, KeyHealth};
use crate::text::{decimal, decimal_text, shortened, text_of, truncate};

verus! {

/// Jitter stays below this many milliseconds.
pub const JITTER_MS: u64 = 500;

/// Outcome of classifying a response status for the retry loop.
pub enum Classified {
    /// The response can be handed out.
    Success,
    /// The key is rate limited: let it cool for this long, then rotate.
    RotateCooldown(Duration),
    /// The key is refused: ban it for this reason, then rotate.
    RotateBan(String),
    /// The upstream has a bad day: retry the same key.
    RetrySameKey {
        /// HTTP status code.
        status: u16,
        /// Raw response body.
        body: String,
    },
    /// The request itself is at fault.
    FailFast(AiError),
}

/// The reason given for a ban on a refused request.
pub open spec fn ban_reason(status: u16, body: Seq<char>) -> Seq<char> {
    "http "@ + decimal_text(status as nat) + ": "@ + shortened(body, 200)
}

/// The table of HTTP semantics: whether `class` is what a response comes to.
pub open spec fn by_the_table(
    status: u16,
    header: Option<Seq<char>>,
    body: Seq<char>,
    unix: Duration,
    fallback: Duration,
    class: Classified,
) -> bool {
    if 200 <= status <= 299 {
        class is Success
    } else if status == 429 {
        class matches Classified::RotateCooldown(wait) && wait == asked_cooldown(
            header,
            unix,
            fallback,
        )
    } else if status == 401 || status == 403 {
        class matches Classified::RotateBan(reason) && reason@ == ban_reason(status, body)
    } else if status == 400 || status == 404 || status == 422 {
        class matches Classified::FailFast(AiError::BadRequest { status: s, body: b }) && s == status
            && b@ == body
    } else if 500 <= status <= 599 {
        class matches Classified::RetrySameKey { status: s, body: b } && s == status && b@ == body
    } else {
        class matches Classified::FailFast(AiError::UnexpectedStatus { status: s, body: b }) && s
            == status && b@ == body
    }
}

/// The delay before retry number `retries` on the same key, before jitter:
/// doubled with every retry.
pub open spec fn backed_off(base: Duration, retries: u32) -> Duration {
    base.product(pow2(retries as nat))
}

/// The delay before retry number `retries` on the same key, before jitter.
pub fn backoff(base: Duration, retries: u32) -> (r: Duration)
    ensures
        r == backed_off(base, retries),
{
    let mut span: Duration = base;
    let mut i: u32 = 0;
    assert(pow2(0) == 1) by {
        vstd::arithmetic::power2::lemma2_to64();
    }
    assert(base.product(1) == base);
    while i < retries && span.nanos > 0 && span.nanos < u128::MAX
        invariant
            i <= retries,
            span == base.product(pow2(i as nat)),
        decreases retries - i,
    {
        proof {
            lemma_pow2_unfold(i as nat + 1);
            lemma_doubled(base, pow2(i as nat));
        }
        span = span.times(2);
        i = i + 1;
    }
    proof {
        if i < retries {
            lemma_settled(base, i as nat, retries as nat);
        }
    }
    span
}

proof fn lemma_doubled(base: Duration, factor: nat)
    requires
        0 < base.product(factor).nanos < u128::MAX,
    ensures
        base.product(factor).product(2) == base.product(2 * factor),
{
    assert(base.nanos * (2 * factor) == base.nanos * factor * 2) by (nonlinear_arith);
}

proof fn lemma_settled(base: Duration, i: nat, n: nat)
    requires
        i <= n,
        base.product(pow2(i)).nanos == 0 || base.product(pow2(i)).nanos == u128::MAX,
    ensures
        base.product(pow2(n)) == base.product(pow2(i)),
    decreases n - i,
{
    if i < n {
        lemma_settled(base, i, (n - 1) as nat);
        lemma_pow2_unfold(n);
        lemma_pow2_pos((n - 1) as nat);
        let half = pow2((n - 1) as nat);
        assert(base.nanos * (2 * half) == 2 * (base.nanos * half)) by (nonlinear_arith);
        assert(half > 0 && base.nanos * half == 0 ==> base.nanos == 0) by (nonlinear_arith);
    }
}

/// Whether `span` is a possible jitter: whole milliseconds below the bound.
pub open spec fn is_jitter(span: Duration) -> bool {
    exists|ms: u64| ms < JITTER_MS && span == #[trigger] Duration::of_millis(ms)
}

/// Whether the moment is a look at the pool's clock, not before any that was
/// taken into account and not before the clock started.
pub open spec fn consulted(pool: KeyPool, m: Moment) -> bool {
    &&& read_from(pool.timepiece(), m)
    &&& m.at.nanos >= pool.latest().nanos
    &&& m.at.nanos >= ORIGIN_NANOS
}

/// Whether the pool's clock was looked at, showing `m`, and the look was taken into
/// account where it is `noted`.
pub open spec fn looked(before: KeyPool, after: KeyPool, m: Moment, noted: bool) -> bool {
    &&& consulted(before, m)
    &&& after.timepiece() == before.timepiece()
    &&& noted ==> after.latest() == m.at
    &&& !noted ==> after.latest() == before.latest()
}

/// Whether the event takes the request to another key.
pub open spec fn rotating(event: Event) -> bool {
    event matches Event::Response { status, .. } && (status == 429 || status == 401 || status
        == 403)
}

/// Whether the pool keeps its clock and the latest look at it.
pub open spec fn clock_kept(before: KeyPool, after: KeyPool) -> bool {
    &&& after.timepiece() == before.timepiece()
    &&& after.latest() == before.latest()
}

/// Whether `span` is a jitter that was drawn at random.
pub open spec fn drawn_jitter(span: Duration) -> bool {
    &&& is_jitter(span)
    &&& exists|d: DrawnNumber| span == Duration::of_millis((#[trigger] d@ % JITTER_MS) as u64)
}

/// The jitter that a random number makes.
pub fn jitter_of(drawn: u64) -> (r: Duration)
    ensures
        r == Duration::of_millis((drawn % JITTER_MS) as u64),
        is_jitter(r),
{
    let ms: u64 = drawn % JITTER_MS;
    Duration::from_millis(ms)
}

/// Random jitter below half a second, so that many concurrent retries do not
/// stampede.
pub fn jitter() -> (r: Duration)
    ensures
        is_jitter(r),
        drawn_jitter(r),
{
    let lot: DrawnNumber = DrawnNumber::draw();
    jitter_of(lot.number())
}

/// Whether the body of a response with this status is looked at.
pub fn reads_body(status: u16) -> (r: bool)
    ensures
        r == !(200 <= status <= 299 || status == 429),
        !r ==> forall|
            header: Option<Seq<char>>,
            body: Seq<char>,
            other: Seq<char>,
            unix: Duration,
            fallback: Duration,
            class: Classified,
        | #[trigger]
            by_the_table(status, header, body, unix, fallback, class) ==> #[trigger] by_the_table(
                status,
                header,
                other,
                unix,
                fallback,
                class,
            ),
{
    !((200 <= status && status <= 299) || status == 429)
}

/// What came of the last step.
pub enum Event {
    /// A response arrived. Its body is needed as far as [`reads_body`] says.
    Response {
        /// HTTP status code.
        status: u16,
        /// Value of the `Retry-After` header, if it is there and printable.
        retry_after: Option<String>,
        /// Response body.
        body: String,
    },
    /// The request timed out.
    TimedOut,
    /// The transport failed, as described.
    Disconnected(String),
    /// The wait is over.
    Waited,
}

/// What to do next.
pub enum Step {
    /// Send the request with the leased key.
    Send,
    /// Wait for this long.
    Wait(Duration),
    /// Hand out the response; the lease is the caller's to release.
    Done(LeasedKey),
    /// Give up.
    Failed(AiError),
}

/// One request on its way through the retry policy.
pub struct Execution {
    /// How many more keys may be tried.
    pub rotations_left: usize,
    /// The key in use, if any.
    pub lease: Option<LeasedKey>,
    /// How often the key in use was retried after a server error.
    pub server_retries: u32,
}

/// A request before its first key: as many keys may be tried as the pool
/// holds, and at least one.
pub open spec fn started(pool: PoolView) -> Execution {
    Execution {
        rotations_left: if pool.keys.dom().len() > 0 {
            pool.keys.dom().len() as usize
        } else {
            1
        },
        lease: None,
        server_retries: 0,
    }
}

/// Whether `e` says that the pool is exhausted, with its soonest recovery.
pub open spec fn exhausted(pool: PoolView, m: Moment, e: AiError) -> bool {
    e matches AiError::AllKeysExhausted { retry_in_ms } && is_soonest(pool.keys, m, retry_in_ms)
}

/// Nothing about how the vault seals changed.
pub open spec fn same_seal<S: KeyStore>(before: KeyManager<S>, after: KeyManager<S>) -> bool {
    after.vault.envelope == before.vault.envelope
}

/// The store was told a key's new health, and the pool follows, whatever the
/// store replied.
pub open spec fn health_reported<S: KeyStore>(
    before: KeyManager<S>,
    after: KeyManager<S>,
    id: Seq<char>,
    health: HealthView,
) -> bool {
    let events = after.history();
    &&& same_seal(before, after)
    &&& after.pool@ == before.pool@.with_health(id, health)
    &&& events.len() == before.history().len() + 1
    &&& events.drop_last() == before.history()
    &&& events.last() matches StoreEvent::UpdateHealth { id: told, health: state, .. } && told == id
        && state == health
}

/// The store was told a key's windows, as far as the key has rate limits. The
/// limits are told only where they differ from the pool's default, so that a
/// stored `None` keeps meaning "inherit the default".
pub open spec fn quota_reported(
    before: Seq<StoreEvent>,
    after: Seq<StoreEvent>,
    pool: PoolView,
    id: Seq<char>,
) -> bool {
    if pool.keys.contains_key(id) && pool.keys[id].limits.rate_limited() {
        let state = pool.keys[id];
        &&& after.len() == before.len() + 1
        &&& after.drop_last() == before
        &&& after.last() matches StoreEvent::UpdateQuota { id: told, limits, minute, hour, .. }
            && told == id && minute == state.minute && hour == state.hour && limits == (
        if state.limits == pool.default_limits {
            None
        } else {
            Some(state.limits)
        })
    } else {
        after == before
    }
}

/// What taking the next key at `m` comes to, with at most `left` more keys to be
/// tried: the pool and the store's calls go from `pool` and `history` to
/// `next_pool` and `next_history`. The pool is exhausted when no key is left to
/// be tried or none is usable.
pub open spec fn rotated(
    pool: PoolView,
    history: Seq<StoreEvent>,
    next_pool: PoolView,
    next_history: Seq<StoreEvent>,
    left: usize,
    to: Execution,
    m: Moment,
    step: Step,
) -> bool {
    if left == 0 {
        &&& next_pool == pool
        &&& next_history == history
        &&& to.lease is None
        &&& step matches Step::Failed(e) && exhausted(pool, m, e)
    } else {
        let (leased, lease) = pool.attempts(repeated(m));
        &&& next_pool == leased
        &&& lease_view(to.lease) == lease
        &&& match lease {
            Some(taken) => {
                &&& step is Send
                &&& to.rotations_left == left - 1
                &&& to.server_retries == 0
                &&& quota_reported(history, next_history, leased, taken.id)
            },
            None => {
                &&& step matches Step::Failed(e) && exhausted(leased, m, e)
                &&& next_history == history
            },
        }
    }
}

/// What starting a request at `m` comes to.
pub open spec fn begun<S: KeyStore>(
    before: KeyManager<S>,
    after: KeyManager<S>,
    to: Execution,
    m: Moment,
    step: Step,
) -> bool {
    &&& same_seal(before, after)
    &&& rotated(
        before.pool@,
        before.history(),
        after.pool@,
        after.history(),
        started(before.pool@).rotations_left,
        to,
        m,
        step,
    )
}

/// The lease in use.
pub open spec fn lease_of(execution: Execution) -> LeaseView {
    execution.lease->0@
}

/// What giving up comes to: the lease ends, and nothing else changes.
pub open spec fn abandoned<S: KeyStore>(
    before: KeyManager<S>,
    after: KeyManager<S>,
    from: Execution,
    to: Execution,
) -> bool {
    &&& same_seal(before, after)
    &&& after.pool@ == before.pool@.released(lease_of(from))
    &&& after.history() == before.history()
    &&& to.lease is None
}

/// What rotating away from a key at `m` comes to: its new health is reported,
/// its lease ends, and the next key is taken.
pub open spec fn moved_on<S: KeyStore>(
    before: KeyManager<S>,
    after: KeyManager<S>,
    from: Execution,
    to: Execution,
    health: HealthView,
    m: Moment,
    step: Step,
) -> bool {
    let id = lease_of(from).id;
    &&& same_seal(before, after)
    &&& exists|reply: Result<(), VaultError>| #[trigger]
        rotated(
            before.pool@.with_health(id, health).released(lease_of(from)),
            before.history().push(StoreEvent::UpdateHealth { id, health, reply }),
            after.pool@,
            after.history(),
            from.rotations_left,
            to,
            m,
            step,
        )
}

/// The health of a key that is to cool for `wait` and some jitter from `at` on.
pub open spec fn cooling(at: Instant, wait: Duration, extra: Duration) -> HealthView {
    HealthView::Cooldown { retry_after: at.after(wait).after(extra) }
}

/// What a classified response comes to at `m`, with the jitter `extra`.
pub open spec fn decided<S: KeyStore>(
    config: PoolConfig,
    before: KeyManager<S>,
    after: KeyManager<S>,
    from: Execution,
    to: Execution,
    class: Classified,
    m: Moment,
    extra: Duration,
    step: Step,
) -> bool {
    match class {
        Classified::Success => {
            &&& after == before
            &&& to.lease is None
            &&& step matches Step::Done(lease) && lease == from.lease->0
        },
        Classified::RotateCooldown(wait) => moved_on(
            before,
            after,
            from,
            to,
            cooling(m.at, wait, extra),
            m,
            step,
        ),
        Classified::RotateBan(reason) => moved_on(
            before,
            after,
            from,
            to,
            HealthView::Banned { reason: reason@ },
            m,
            step,
        ),
        Classified::RetrySameKey { status, body } => if from.server_retries
            >= config.max_server_error_retries {
            &&& abandoned(before, after, from, to)
            &&& step matches Step::Failed(AiError::ServerError { status: s, body: b }) && s == status
                && b == body
        } else {
            &&& after == before
            &&& to.lease == from.lease
            &&& to.rotations_left == from.rotations_left
            &&& to.server_retries == from.server_retries + 1
            &&& step matches Step::Wait(span) && span == backed_off(
                config.backoff_base,
                from.server_retries,
            ).sum(extra)
        },
        Classified::FailFast(e) => {
            &&& abandoned(before, after, from, to)
            &&& step matches Step::Failed(inner) && inner == e
        },
    }
}

/// What an event comes to at `m`, with the jitter `extra`.
pub open spec fn advanced<S: KeyStore>(
    config: PoolConfig,
    before: KeyManager<S>,
    after: KeyManager<S>,
    from: Execution,
    to: Execution,
    event: Event,
    m: Moment,
    extra: Duration,
    step: Step,
) -> bool {
    match event {
        Event::Response { status, retry_after, body } => exists|class: Classified|
            {
                &&& #[trigger] by_the_table(
                    status,
                    text_of(retry_after),
                    body@,
                    m.unix,
                    config.default_cooldown,
                    class,
                )
                &&& decided(config, before, after, from, to, class, m, extra, step)
            },
        Event::TimedOut => {
            &&& abandoned(before, after, from, to)
            &&& step matches Step::Failed(AiError::Timeout)
        },
        Event::Disconnected(why) => {
            &&& abandoned(before, after, from, to)
            &&& step matches Step::Failed(AiError::Network(told)) && told == why
        },
        Event::Waited => {
            &&& after == before
            &&& to == from
            &&& step is Send
        },
    }
}

/// A decision to rotate is the same whether or not a look at the clock was taken
/// into account before.
proof fn lemma_noted<S: KeyStore>(
    config: PoolConfig,
    before: KeyManager<S>,
    noted: KeyManager<S>,
    after: KeyManager<S>,
    from: Execution,
    to: Execution,
    class: Classified,
    m: Moment,
    extra: Duration,
    step: Step,
)
    requires
        noted.pool@ == before.pool@,
        noted.vault == before.vault,
        class is RotateCooldown || class is RotateBan,
        decided(config, noted, after, from, to, class, m, extra, step),
    ensures
        decided(config, before, after, from, to, class, m, extra, step),
{
    assert(noted.history() == before.history());
    let health = match class {
        Classified::RotateCooldown(wait) => cooling(m.at, wait, extra),
        Classified::RotateBan(reason) => HealthView::Banned { reason: reason@ },
        _ => HealthView::Active,
    };
    assert(moved_on(noted, after, from, to, health, m, step));
    assert(moved_on(before, after, from, to, health, m, step));
}

/// Executes requests: applies the retry policy and reports key health back to
/// the pool and vault.
pub struct Dispatcher {
    /// Timeouts, retry counts and delays.
    pub config: PoolConfig,
}

impl Dispatcher {
    /// A dispatcher for the given configuration.
    pub fn new(config: PoolConfig) -> (r: Dispatcher)
        ensures
            r.config == config,
    {
        Dispatcher { config }
    }

    /// Gives a key a new health in RAM and (best-effort) on disk.
    fn report_health<S: KeyStore>(manager: &mut KeyManager<S>, id: &str, health: KeyHealth)
        requires
            old(manager).wf(),
        ensures
            final(manager).wf(),
            clock_kept(old(manager).pool, final(manager).pool),
            health_reported(*old(manager), *final(manager), id@, health@),
    {
        let live: KeyHealth = health.clone();
        manager.pool.set_health(id, live);
        let _reply = manager.vault.store.update_health(id, health);
        assert(manager.history().drop_last() =~= old(manager).history());
    }

    /// Marks a key cooling in RAM and (best-effort) on disk, for `wait` and the
    /// jitter `extra` from `at` on.
    pub fn cooldown_key_at<S: KeyStore>(
        manager: &mut KeyManager<S>,
        id: &str,
        wait: Duration,
        at: Instant,
        extra: Duration,
    )
        requires
            old(manager).wf(),
        ensures
            final(manager).wf(),
            clock_kept(old(manager).pool, final(manager).pool),
            health_reported(*old(manager), *final(manager), id@, cooling(at, wait, extra)),
    {
        Dispatcher::report_health(
            manager,
            id,
            KeyHealth::Cooldown { retry_after: at.plus(wait).plus(extra) },
        );
    }

    /// Marks a key cooling from now on, in RAM and (best-effort) on disk.
    pub fn cooldown_key<S: KeyStore>(manager: &mut KeyManager<S>, id: &str, wait: Duration)
        requires
            old(manager).wf(),
        ensures
            final(manager).wf(),
            final(manager).pool.timepiece() == old(manager).pool.timepiece(),
            exists|m: Moment, extra: Duration|
                drawn_jitter(extra) && looked(old(manager).pool, final(manager).pool, m, true)
                    && #[trigger] health_reported(
                    *old(manager),
                    *final(manager),
                    id@,
                    cooling(m.at, wait, extra),
                ),
    {
        let reading: Reading = manager.pool.peek();
        let m: Moment = reading.moment();
        manager.pool.note(&reading);
        let extra: Duration = jitter();
        Dispatcher::cooldown_key_at(manager, id, wait, m.at, extra);
        assert(health_reported(*old(manager), *manager, id@, cooling(m.at, wait, extra)));
    }

    /// Bans a key in RAM and (best-effort) on disk.
    pub fn ban_key<S: KeyStore>(manager: &mut KeyManager<S>, id: &str, reason: &str)
        requires
            old(manager).wf(),
        ensures
            final(manager).wf(),
            clock_kept(old(manager).pool, final(manager).pool),
            health_reported(
                *old(manager),
                *final(manager),
                id@,
                (HealthView::Banned { reason: reason@ }),
            ),
    {
        Dispatcher::report_health(manager, id, KeyHealth::Banned { reason: reason.to_string() });
    }

    /// Applies the semantics table to a response that arrived at the unix time
    /// `unix`.
    pub fn classify(
        &self,
        status: u16,
        header: &Option<String>,
        body: String,
        unix: Duration,
    ) -> (r: Classified)
        ensures
            by_the_table(
                status,
                text_of(*header),
                body@,
                unix,
                self.config.default_cooldown,
                r,
            ),
    {
        if 200 <= status && status <= 299 {
            Classified::Success
        } else if status == 429 {
            Classified::RotateCooldown(retry_after(header, unix, self.config.default_cooldown))
        } else if status == 401 || status == 403 {
            let reason: String = "http ".to_string().concat(decimal(status as u64).as_str()).concat(
                ": ",
            ).concat(truncate(body.as_str(), 200).as_str());
            Classified::RotateBan(reason)
        } else if status == 400 || status == 404 || status == 422 {
            Classified::FailFast(AiError::BadRequest { status, body })
        } else if 500 <= status && status <= 599 {
            Classified::RetrySameKey { status, body }
        } else {
            Classified::FailFast(AiError::UnexpectedStatus { status, body })
        }
    }

    /// Best-effort persistence of a key's live quota windows so that hour usage
    /// survives restarts. Skipped entirely for keys without rate limits.
    pub fn persist_quota<S: KeyStore>(manager: &mut KeyManager<S>, id: &str)
        requires
            old(manager).wf(),
        ensures
            final(manager).wf(),
            clock_kept(old(manager).pool, final(manager).pool),
            final(manager).pool == old(manager).pool,
            same_seal(*old(manager), *final(manager)),
            quota_reported(
                old(manager).history(),
                final(manager).history(),
                old(manager).pool@,
                id@,
            ),
    {
        if let Some((minute, hour, limits)) = manager.pool.windows_of(id) {
            if limits.has_rate_limits() {
                let stored: Option<KeyLimits> = if limits == manager.pool.default_limits() {
                    None
                } else {
                    Some(limits)
                };
                let _reply = manager.vault.store.update_quota(id, stored, minute, hour);
                assert(manager.history().drop_last() =~= old(manager).history());
            }
        }
    }

    /// Takes the next key at `m`, if one is usable and may still be tried.
    pub fn rotate_at<S: KeyStore>(
        manager: &mut KeyManager<S>,
        execution: &mut Execution,
        m: Moment,
    ) -> (r: Step)
        requires
            old(manager).wf(),
            old(execution).lease is None,
        ensures
            final(manager).wf(),
            clock_kept(old(manager).pool, final(manager).pool),
            same_seal(*old(manager), *final(manager)),
            rotated(
                old(manager).pool@,
                old(manager).history(),
                final(manager).pool@,
                final(manager).history(),
                old(execution).rotations_left,
                *final(execution),
                m,
                r,
            ),
    {
        if execution.rotations_left == 0 {
            return Step::Failed(
                AiError::AllKeysExhausted { retry_in_ms: manager.pool.earliest_recovery_ms_at(m) },
            );
        }
        match manager.pool.lease_at(m) {
            None => Step::Failed(
                AiError::AllKeysExhausted { retry_in_ms: manager.pool.earliest_recovery_ms_at(m) },
            ),
            Some(lease) => {
                let id: String = lease.id.clone();
                execution.rotations_left = execution.rotations_left - 1;
                execution.server_retries = 0;
                execution.lease = Some(lease);
                Dispatcher::persist_quota(manager, id.as_str());
                Step::Send
            },
        }
    }

    /// Starts a request at `m`: at most one full pass over the pool is made for
    /// it (each dead key is skipped by the engine on the next lease).
    pub fn execute_at<S: KeyStore>(manager: &mut KeyManager<S>, m: Moment) -> (r: (Execution, Step))
        requires
            old(manager).wf(),
        ensures
            final(manager).wf(),
            clock_kept(old(manager).pool, final(manager).pool),
            begun(*old(manager), *final(manager), r.0, m, r.1),
    {
        let len: usize = manager.pool.len();
        let rotations_left: usize = if len > 0 {
            len
        } else {
            1
        };
        let mut execution: Execution = Execution { rotations_left, lease: None, server_retries: 0 };
        let step: Step = Dispatcher::rotate_at(manager, &mut execution, m);
        (execution, step)
    }

    /// Starts a request now.
    pub fn execute<S: KeyStore>(manager: &mut KeyManager<S>) -> (r: (Execution, Step))
        requires
            old(manager).wf(),
        ensures
            final(manager).wf(),
            final(manager).pool.timepiece() == old(manager).pool.timepiece(),
            exists|m: Moment| #[trigger]
                begun(*old(manager), *final(manager), r.0, m, r.1) && looked(
                    old(manager).pool,
                    final(manager).pool,
                    m,
                    true,
                ),
    {
        let reading: Reading = manager.pool.peek();
        let m: Moment = reading.moment();
        manager.pool.note(&reading);
        let (execution, step) = Dispatcher::execute_at(manager, m);
        assert(begun(*old(manager), *manager, execution, m, step));
        (execution, step)
    }

    /// Ends the lease in use.
    fn abandon<S: KeyStore>(manager: &mut KeyManager<S>, execution: &mut Execution)
        requires
            old(manager).wf(),
            old(execution).lease is Some,
        ensures
            final(manager).wf(),
            clock_kept(old(manager).pool, final(manager).pool),
            abandoned(*old(manager), *final(manager), *old(execution), *final(execution)),
            final(execution).rotations_left == old(execution).rotations_left,
    {
        if let Some(lease) = execution.lease.take() {
            manager.pool.release(lease);
        }
    }

    /// Decides what a classified response comes to at `m`, with the jitter
    /// `extra`.
    pub fn decide_at<S: KeyStore>(
        &self,
        manager: &mut KeyManager<S>,
        execution: &mut Execution,
        class: Classified,
        m: Moment,
        extra: Duration,
    ) -> (r: Step)
        requires
            old(manager).wf(),
            old(execution).lease is Some,
        ensures
            final(manager).wf(),
            clock_kept(old(manager).pool, final(manager).pool),
            decided(
                self.config,
                *old(manager),
                *final(manager),
                *old(execution),
                *final(execution),
                class,
                m,
                extra,
                r,
            ),
    {
        let id: String = match &execution.lease {
            Some(lease) => lease.id.clone(),
            None => String::new(),
        };
        match class {
            Classified::Success => {
                match execution.lease.take() {
                    Some(lease) => Step::Done(lease),
                    None => vstd::pervasive::unreached(),
                }
            },
            Classified::RotateCooldown(wait) => {
                Dispatcher::cooldown_key_at(manager, id.as_str(), wait, m.at, extra);
                Dispatcher::leave(manager, execution, m, Ghost(*old(manager)), Ghost(
                    cooling(m.at, wait, extra),
                ))
            },
            Classified::RotateBan(reason) => {
                Dispatcher::ban_key(manager, id.as_str(), reason.as_str());
                Dispatcher::leave(manager, execution, m, Ghost(*old(manager)), Ghost(
                    HealthView::Banned { reason: reason@ },
                ))
            },
            Classified::RetrySameKey { status, body } => {
                if execution.server_retries >= self.config.max_server_error_retries {
                    Dispatcher::abandon(manager, execution);
                    return Step::Failed(AiError::ServerError { status, body });
                }
                let span: Duration = backoff(
                    self.config.backoff_base,
                    execution.server_retries,
                ).plus(extra);
                execution.server_retries = execution.server_retries + 1;
                Step::Wait(span)
            },
            Classified::FailFast(e) => {
                Dispatcher::abandon(manager, execution);
                Step::Failed(e)
            },
        }
    }

    /// Leaves a key whose health was reported, and takes the next one.
    fn leave<S: KeyStore>(
        manager: &mut KeyManager<S>,
        execution: &mut Execution,
        m: Moment,
        Ghost(before): Ghost<KeyManager<S>>,
        Ghost(health): Ghost<HealthView>,
    ) -> (r: Step)
        requires
            old(manager).wf(),
            old(execution).lease is Some,
            health_reported(before, *old(manager), lease_of(*old(execution)).id, health),
        ensures
            final(manager).wf(),
            clock_kept(old(manager).pool, final(manager).pool),
            moved_on(before, *final(manager), *old(execution), *final(execution), health, m, r),
    {
        let ghost told = *manager;
        let ghost id = lease_of(*execution).id;
        Dispatcher::abandon(manager, execution);
        let step: Step = Dispatcher::rotate_at(manager, execution, m);
        proof {
            if let StoreEvent::UpdateHealth { reply, .. } = told.history().last() {
                assert(told.history() =~= before.history().push(
                    StoreEvent::UpdateHealth { id, health, reply },
                ));
                assert(rotated(
                    before.pool@.with_health(id, health).released(lease_of(*old(execution))),
                    before.history().push(StoreEvent::UpdateHealth { id, health, reply }),
                    manager.pool@,
                    manager.history(),
                    old(execution).rotations_left,
                    *execution,
                    m,
                    step,
                ));
            }
        }
        step
    }

    /// Decides what a classified response comes to now.
    pub fn decide<S: KeyStore>(
        &self,
        manager: &mut KeyManager<S>,
        execution: &mut Execution,
        class: Classified,
    ) -> (r: Step)
        requires
            old(manager).wf(),
            old(execution).lease is Some,
        ensures
            final(manager).wf(),
            final(manager).pool.timepiece() == old(manager).pool.timepiece(),
            exists|m: Moment, extra: Duration|
                drawn_jitter(extra) && looked(
                    old(manager).pool,
                    final(manager).pool,
                    m,
                    class is RotateCooldown || class is RotateBan,
                ) && #[trigger] decided(
                    self.config,
                    *old(manager),
                    *final(manager),
                    *old(execution),
                    *final(execution),
                    class,
                    m,
                    extra,
                    r,
                ),
    {
        let reading: Reading = manager.pool.peek();
        let m: Moment = reading.moment();
        match &class {
            Classified::RotateCooldown(_) | Classified::RotateBan(_) => {
                manager.pool.note(&reading);
            },
            _ => {},
        }
        let ghost came = class;
        let ghost noted = *manager;
        let extra: Duration = jitter();
        let step: Step = self.decide_at(manager, execution, class, m, extra);
        proof {
            if came is RotateCooldown || came is RotateBan {
                lemma_noted(
                    self.config,
                    *old(manager),
                    noted,
                    *manager,
                    *old(execution),
                    *execution,
                    came,
                    m,
                    extra,
                    step,
                );
            }
        }
        assert(decided(
            self.config,
            *old(manager),
            *manager,
            *old(execution),
            *execution,
            came,
            m,
            extra,
            step,
        ));
        step
    }

    /// Takes a request one step further at `m`, with the jitter `extra`: rotates
    /// keys on 429/401/403, retries the same key on 5xx with exponential backoff
    /// and jitter, fails fast on client errors and timeouts.
    pub fn advance_at<S: KeyStore>(
        &self,
        manager: &mut KeyManager<S>,
        execution: &mut Execution,
        event: Event,
        m: Moment,
        extra: Duration,
    ) -> (r: Step)
        requires
            old(manager).wf(),
            old(execution).lease is Some,
        ensures
            final(manager).wf(),
            clock_kept(old(manager).pool, final(manager).pool),
            advanced(
                self.config,
                *old(manager),
                *final(manager),
                *old(execution),
                *final(execution),
                event,
                m,
                extra,
                r,
            ),
    {
        match event {
            Event::Response { status, retry_after: header, body } => {
                let ghost text = body@;
                let class: Classified = self.classify(status, &header, body, m.unix);
                let ghost came = class;
                assert(by_the_table(
                    status,
                    text_of(header),
                    text,
                    m.unix,
                    self.config.default_cooldown,
                    came,
                ));
                self.decide_at(manager, execution, class, m, extra)
            },
            Event::TimedOut => {
                Dispatcher::abandon(manager, execution);
                Step::Failed(AiError::Timeout)
            },
            Event::Disconnected(why) => {
                Dispatcher::abandon(manager, execution);
                Step::Failed(AiError::Network(why))
            },
            Event::Waited => Step::Send,
        }
    }

    /// Takes a request one step further now.
    pub fn advance<S: KeyStore>(
        &self,
        manager: &mut KeyManager<S>,
        execution: &mut Execution,
        event: Event,
    ) -> (r: Step)
        requires
            old(manager).wf(),
            old(execution).lease is Some,
        ensures
            final(manager).wf(),
            final(manager).pool.timepiece() == old(manager).pool.timepiece(),
            exists|m: Moment, extra: Duration|
                drawn_jitter(extra) && looked(
                    old(manager).pool,
                    final(manager).pool,
                    m,
                    rotating(event),
                ) && #[trigger] advanced(
                    self.config,
                    *old(manager),
                    *final(manager),
                    *old(execution),
                    *final(execution),
                    event,
                    m,
                    extra,
                    r,
                ),
    {
        let reading: Reading = manager.pool.peek();
        let m: Moment = reading.moment();
        if let Event::Response { status, .. } = &event {
            if *status == 429 || *status == 401 || *status == 403 {
                manager.pool.note(&reading);
            }
        }
        let ghost came = event;
        let ghost noted = *manager;
        let extra: Duration = jitter();
        let step: Step = self.advance_at(manager, execution, event, m, extra);
        proof {
            if rotating(came) {
                let class = choose|class: Classified|
                    #[trigger] by_the_table(
                        came->status,
                        text_of(came->retry_after),
                        came->body@,
                        m.unix,
                        self.config.default_cooldown,
                        class,
                    ) && decided(
                        self.config,
                        noted,
                        *manager,
                        *old(execution),
                        *execution,
                        class,
                        m,
                        extra,
                        step,
                    );
                lemma_noted(
                    self.config,
                    *old(manager),
                    noted,
                    *manager,
                    *old(execution),
                    *execution,
                    class,
                    m,
                    extra,
                    step,
                );
            }
        }
        assert(advanced(
            self.config,
            *old(manager),
            *manager,
            *old(execution),
            *execution,
            came,
            m,
            extra,
            step,
        ));
        step
    }
}

/// The error for a successful response whose body could not be read.
pub open spec fn unreadable(why: Seq<char>, bytes: Seq<u8>) -> Seq<char> {
    why + "; body: "@ + shortened(lossy_text(bytes), 300)
}

/// The error for a successful response whose body could not be read.
pub fn unreadable_response(why: &str, bytes: &[u8]) -> (r: AiError)
    ensures
        r matches AiError::InvalidResponse(text) && text@ == unreadable(why@, bytes@),
        valid_utf8(bytes@) ==> lossy_text(bytes@) == decode_utf8(bytes@),
{
    let shown: String = truncate(text_lossy(bytes).as_str(), 300);
    AiError::InvalidResponse(why.to_string().concat("; body: ").concat(shown.as_str()))
}

} // verus!
