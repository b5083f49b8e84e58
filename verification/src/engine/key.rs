//! One key of the live pool: its state in RAM, what it takes to load it, and
//! what a request is handed when it leases it.

use vstd::prelude::*;

use crate::clock::{Duration, Instant, Moment};
use crate::quota::{
    admits, consume_window, consumed, consumed_all, wait_of, window_usable, window_wait_ms, KeyLimits,
    KeyQuotaInfo, WindowInfo, WindowState, HOUR_MS, MINUTE_MS,
};
use crate::secret::SecretString;
use crate::storage::health::{millis_left, whole_millis};
use crate::storage::{HealthView, KeyHealth};

verus! {

/// Everything needed to (re)load one key into the pool.
pub struct KeySeed {
    /// Stable key id.
    pub id: String,
    /// Decrypted API key.
    pub secret: SecretString,
    /// Censored display form.
    pub censored: String,
    /// Initial health.
    pub health: KeyHealth,
    /// Per-key limits (`None` = pool default).
    pub limits: Option<KeyLimits>,
    /// Persisted minute window, if any.
    pub minute: Option<WindowState>,
    /// Persisted hour window, if any.
    pub hour: Option<WindowState>,
}

/// What a [`KeySeed`] stands for.
pub struct SeedView {
    /// Stable key id.
    pub id: Seq<char>,
    /// Decrypted API key.
    pub secret: Seq<char>,
    /// Censored display form.
    pub censored: Seq<char>,
    /// Initial health.
    pub health: HealthView,
    /// Per-key limits.
    pub limits: Option<KeyLimits>,
    /// Persisted minute window.
    pub minute: Option<WindowState>,
    /// Persisted hour window.
    pub hour: Option<WindowState>,
}

impl View for KeySeed {
    type V = SeedView;

    open spec fn view(&self) -> SeedView {
        SeedView {
            id: self.id@,
            secret: self.secret@,
            censored: self.censored@,
            health: self.health@,
            limits: self.limits,
            minute: self.minute,
            hour: self.hour,
        }
    }
}

impl KeySeed {
    /// A fresh, healthy, unlimited-unless-default key.
    pub fn new(id: &str, secret: SecretString, censored: &str) -> (r: KeySeed)
        ensures
            r@ == (SeedView {
                id: id@,
                secret: secret@,
                censored: censored@,
                health: HealthView::Active,
                limits: None,
                minute: None,
                hour: None,
            }),
    {
        KeySeed {
            id: id.to_string(),
            secret,
            censored: censored.to_string(),
            health: KeyHealth::Active,
            limits: None,
            minute: None,
            hour: None,
        }
    }

    /// Sets the initial health.
    #[must_use]
    pub fn health(self, health: KeyHealth) -> (r: KeySeed)
        ensures
            r@ == (SeedView { health: health@, ..self@ }),
    {
        KeySeed { health, ..self }
    }

    /// Sets per-key limits.
    #[must_use]
    pub fn limits(self, limits: Option<KeyLimits>) -> (r: KeySeed)
        ensures
            r@ == (SeedView { limits, ..self@ }),
    {
        KeySeed { limits, ..self }
    }

    /// Sets persisted windows.
    #[must_use]
    pub fn windows(self, minute: Option<WindowState>, hour: Option<WindowState>) -> (r: KeySeed)
        ensures
            r@ == (SeedView { minute, hour, ..self@ }),
    {
        KeySeed { minute, hour, ..self }
    }
}

/// A decrypted key held in RAM.
pub struct KeyState {
    /// Stable key id.
    pub id: String,
    /// Decrypted API key.
    pub secret: SecretString,
    /// Censored display form.
    pub censored: String,
    /// Live health state.
    pub health: KeyHealth,
    /// Insertion order, used for stable round-robin iteration.
    pub order: usize,
    /// Optional quota limits for this key.
    pub limits: KeyLimits,
    /// Rolling minute window (starts at first use).
    pub minute: Option<WindowState>,
    /// Rolling hour window (persisted across restarts).
    pub hour: Option<WindowState>,
    /// Requests currently in flight on this key.
    pub in_flight: u32,
    /// Tells this loading of the key from earlier ones: leases of an earlier
    /// loading do not count against this one.
    pub slot: u64,
}

/// What a [`KeyState`] stands for.
pub struct StateView {
    /// Stable key id.
    pub id: Seq<char>,
    /// Decrypted API key.
    pub secret: Seq<char>,
    /// Censored display form.
    pub censored: Seq<char>,
    /// Live health state.
    pub health: HealthView,
    /// Insertion order.
    pub order: usize,
    /// Quota limits.
    pub limits: KeyLimits,
    /// Rolling minute window.
    pub minute: Option<WindowState>,
    /// Rolling hour window.
    pub hour: Option<WindowState>,
    /// Requests currently in flight.
    pub in_flight: u32,
    /// Which loading of the key this is.
    pub slot: u64,
}

impl View for KeyState {
    type V = StateView;

    open spec fn view(&self) -> StateView {
        StateView {
            id: self.id@,
            secret: self.secret@,
            censored: self.censored@,
            health: self.health@,
            order: self.order,
            limits: self.limits,
            minute: self.minute,
            hour: self.hour,
            in_flight: self.in_flight,
            slot: self.slot,
        }
    }
}

impl Clone for KeyState {
    fn clone(&self) -> (r: KeyState)
        ensures
            r@ == self@,
    {
        KeyState {
            id: self.id.clone(),
            secret: self.secret.clone(),
            censored: self.censored.clone(),
            health: self.health.clone(),
            order: self.order,
            limits: self.limits,
            minute: self.minute,
            hour: self.hour,
            in_flight: self.in_flight,
            slot: self.slot,
        }
    }
}

/// The larger of two waits, where there is any.
pub open spec fn longer(a: Option<u64>, b: Option<u64>) -> Option<u64> {
    match (a, b) {
        (Some(x), Some(y)) => Some(
            if x >= y {
                x
            } else {
                y
            },
        ),
        (Some(x), None) => Some(x),
        (None, y) => y,
    }
}

/// The larger of two waits, where there is any.
fn longer_wait(a: Option<u64>, b: Option<u64>) -> (r: Option<u64>)
    ensures
        r == longer(a, b),
{
    match (a, b) {
        (Some(x), Some(y)) => Some(
            if x >= y {
                x
            } else {
                y
            },
        ),
        (Some(x), None) => Some(x),
        (None, y) => y,
    }
}

impl StateView {
    /// Whether the rate windows admit a request at `now_ms`.
    pub open spec fn within_windows(self, now_ms: i64) -> bool {
        &&& admits(self.minute, self.limits.per_minute, now_ms, MINUTE_MS)
        &&& admits(self.hour, self.limits.per_hour, now_ms, HOUR_MS)
    }

    /// Whether a limit of zero keeps the key from ever taking a request.
    pub open spec fn shut_out(self) -> bool {
        self.limits.per_minute == Some(0u32) || self.limits.per_hour == Some(0u32)
    }

    /// Whether the key is healthy and inside its rate windows.
    pub open spec fn rate_usable(self, m: Moment) -> bool {
        self.health.usable(m.at) && self.within_windows(m.ms())
    }

    /// Whether the key has as many requests in flight as it may.
    pub open spec fn saturated(self) -> bool {
        self.limits.max_concurrency matches Some(most) && self.in_flight >= most
    }

    /// Whether the key can take one more request at `now_ms`, health aside.
    pub open spec fn leasable(self, now_ms: i64) -> bool {
        self.within_windows(now_ms) && !self.saturated()
    }

    /// The key after taking one more request at `now_ms`: limited windows have
    /// counted it, and it is in flight.
    pub open spec fn leased(self, now_ms: i64) -> StateView {
        StateView {
            minute: if self.limits.per_minute is Some {
                Some(consumed(self.minute, now_ms, MINUTE_MS))
            } else {
                self.minute
            },
            hour: if self.limits.per_hour is Some {
                Some(consumed(self.hour, now_ms, HOUR_MS))
            } else {
                self.hour
            },
            in_flight: if self.in_flight < u32::MAX {
                (self.in_flight + 1) as u32
            } else {
                0
            },
            ..self
        }
    }

    /// The key after one of its requests has ended.
    pub open spec fn released(self) -> StateView {
        StateView {
            in_flight: if self.in_flight > 0 {
                (self.in_flight - 1) as u32
            } else {
                u32::MAX
            },
            ..self
        }
    }

    /// The key after it was found saturated: cooling for as long as its limits
    /// ask, if they do and it was not out of service anyway.
    pub open spec fn cooled(self, at: Instant) -> StateView {
        match (self.limits.concurrency_cooldown_ms, self.health) {
            (Some(ms), HealthView::Active) => StateView {
                health: HealthView::Cooldown { retry_after: at.after(Duration::of_millis(ms)) },
                ..self
            },
            _ => self,
        }
    }

    /// Milliseconds until all that blocks the key has cleared, where it is
    /// blocked and that time is knowable. A ban does not clear, nor does a limit
    /// of zero.
    pub open spec fn wait(self, m: Moment) -> Option<u64> {
        let windows = longer(
            wait_of(self.minute, self.limits.per_minute, m.ms(), MINUTE_MS),
            wait_of(self.hour, self.limits.per_hour, m.ms(), HOUR_MS),
        );
        if self.shut_out() {
            None
        } else {
            match self.health {
                HealthView::Banned { .. } => None,
                HealthView::Cooldown { retry_after } => longer(
                    Some(millis_left(retry_after.since(m.at))),
                    windows,
                ),
                HealthView::Active => windows,
            }
        }
    }

    /// The live quota snapshot of the key.
    pub open spec fn quota(self, now_ms: i64) -> KeyQuotaInfo {
        KeyQuotaInfo {
            minute: WindowInfo::of(self.minute, self.limits.per_minute, now_ms, MINUTE_MS),
            hour: WindowInfo::of(self.hour, self.limits.per_hour, now_ms, HOUR_MS),
            in_flight: self.in_flight,
            max_concurrency: self.limits.max_concurrency,
        }
    }
}

impl KeyState {
    /// Whether the rate windows admit a request at `now_ms`.
    pub fn within_windows(&self, now_ms: i64) -> (r: bool)
        ensures
            r == self@.within_windows(now_ms),
    {
        window_usable(self.minute, self.limits.per_minute, now_ms, MINUTE_MS) && window_usable(
            self.hour,
            self.limits.per_hour,
            now_ms,
            HOUR_MS,
        )
    }

    /// Whether a limit of zero keeps the key from ever taking a request.
    pub fn is_shut_out(&self) -> (r: bool)
        ensures
            r == self@.shut_out(),
    {
        matches!(self.limits.per_minute, Some(0)) || matches!(self.limits.per_hour, Some(0))
    }

    /// Whether the key is healthy and inside its rate windows.
    pub fn is_rate_usable(&self, m: Moment) -> (r: bool)
        ensures
            r == self@.rate_usable(m),
    {
        self.health.is_usable(m.at) && self.within_windows(m.unix_ms())
    }

    /// Whether the key has as many requests in flight as it may.
    pub fn is_saturated(&self) -> (r: bool)
        ensures
            r == self@.saturated(),
    {
        match self.limits.max_concurrency {
            Some(most) => self.in_flight >= most,
            None => false,
        }
    }

    /// Takes one more request at `now_ms`: the windows that have a limit count
    /// it, and it is in flight.
    pub fn lease(&mut self, now_ms: i64)
        ensures
            final(self)@ == old(self)@.leased(now_ms),
    {
        if self.limits.per_minute.is_some() {
            consume_window(&mut self.minute, now_ms, MINUTE_MS);
        }
        if self.limits.per_hour.is_some() {
            consume_window(&mut self.hour, now_ms, HOUR_MS);
        }
        self.in_flight = self.in_flight.wrapping_add(1);
    }

    /// Ends one of the key's requests.
    pub fn release(&mut self)
        ensures
            final(self)@ == old(self)@.released(),
    {
        self.in_flight = self.in_flight.wrapping_sub(1);
    }

    /// Puts a saturated key into its configured cooldown, making its reusable
    /// time observable.
    pub fn cool(&mut self, at: Instant)
        ensures
            final(self)@ == old(self)@.cooled(at),
    {
        if let Some(ms) = self.limits.concurrency_cooldown_ms {
            if matches!(self.health, KeyHealth::Active) {
                self.health = KeyHealth::Cooldown { retry_after: at.plus(Duration::from_millis(ms)) };
            }
        }
    }

    /// Milliseconds until all that blocks the key has cleared, if it is
    /// blocked and that time is knowable.
    pub fn wait_ms(&self, m: Moment) -> (r: Option<u64>)
        ensures
            r == self@.wait(m),
    {
        if self.is_shut_out() {
            return None;
        }
        let now_ms: i64 = m.unix_ms();
        let windows: Option<u64> = longer_wait(
            window_wait_ms(self.minute, self.limits.per_minute, now_ms, MINUTE_MS),
            window_wait_ms(self.hour, self.limits.per_hour, now_ms, HOUR_MS),
        );
        match &self.health {
            KeyHealth::Banned { .. } => None,
            KeyHealth::Cooldown { retry_after } => longer_wait(
                Some(whole_millis(retry_after.saturating_duration_since(m.at))),
                windows,
            ),
            KeyHealth::Active => windows,
        }
    }

    /// The live quota snapshot of the key (windows, in-flight, caps).
    pub fn quota_info(&self, now_ms: i64) -> (r: KeyQuotaInfo)
        ensures
            r == self@.quota(now_ms),
    {
        KeyQuotaInfo {
            minute: WindowInfo::build(self.minute, self.limits.per_minute, now_ms, MINUTE_MS),
            hour: WindowInfo::build(self.hour, self.limits.per_hour, now_ms, HOUR_MS),
            in_flight: self.in_flight,
            max_concurrency: self.limits.max_concurrency,
        }
    }
}

/// A key leased for one attempt.
///
/// Holding the lease counts as one in-flight request against the key's
/// concurrency quota; releasing it frees the slot. Keep it for the full
/// duration of the HTTP call (including streaming).
pub struct LeasedKey {
    /// Id of the leased key.
    pub id: String,
    /// Decrypted API key for this attempt.
    pub secret: SecretString,
    /// Which loading of the key was leased.
    pub slot: u64,
}

/// What a [`LeasedKey`] stands for.
pub struct LeaseView {
    /// Id of the leased key.
    pub id: Seq<char>,
    /// Decrypted API key for this attempt.
    pub secret: Seq<char>,
    /// Which loading of the key was leased.
    pub slot: u64,
}

impl View for LeasedKey {
    type V = LeaseView;

    open spec fn view(&self) -> LeaseView {
        LeaseView { id: self.id@, secret: self.secret@, slot: self.slot }
    }
}

/// A lease takes no limit past its value: a limited window counts at most its
/// limit, and no more requests are in flight than the concurrency cap admits.
pub proof fn law_lease_respects_quota(state: StateView, now_ms: i64)
    requires
        state.leasable(now_ms),
    ensures
        ({
            let next = state.leased(now_ms);
            &&& next.limits.per_minute matches Some(most) ==> next.minute->0.used <= most
            &&& next.limits.per_hour matches Some(most) ==> next.hour->0.used <= most
            &&& next.limits.max_concurrency matches Some(most) ==> next.in_flight <= most
        }),
{
}

/// Releasing undoes what leasing did to the in-flight count, and nothing else:
/// consumed quota stays consumed.
pub proof fn law_release_undoes_lease(state: StateView, now_ms: i64)
    ensures
        state.leased(now_ms).released().in_flight == state.in_flight,
        state.leased(now_ms).released() == (StateView {
            in_flight: state.in_flight,
            ..state.leased(now_ms)
        }),
{
}

/// A recovery time means that there is something to wait for: a banned key has
/// none, nor has one that a limit of zero shuts out, nor a healthy key inside
/// its windows; any other key that is not usable has one.
pub proof fn law_wait_means_blocked(state: StateView, m: Moment)
    ensures
        state.health is Banned || state.shut_out() ==> state.wait(m) is None,
        state.health is Active && state.within_windows(m.ms()) ==> state.wait(m) is None,
        state.health !is Banned && !state.shut_out() && !state.rate_usable(m) ==> state.wait(m)
            is Some,
{
}

/// Whether a key can be used is a matter of its health and its windows alone: it
/// is healthy or its cooldown has ended, and each limited window has room.
pub proof fn law_usable_key(state: StateView, m: Moment)
    ensures
        state.rate_usable(m) <==> {
            &&& state.health is Active || (state.health is Cooldown && m.at.nanos
                >= state.health->retry_after.nanos)
            &&& state.limits.per_minute is None || (state.limits.per_minute->0 > 0 && (
            state.minute is None || m.ms() >= state.minute->0.start_ms + 60_000 || m.ms() == i64::MAX
                || state.minute->0.used < state.limits.per_minute->0))
            &&& state.limits.per_hour is None || (state.limits.per_hour->0 > 0 && (state.hour is None
                || m.ms() >= state.hour->0.start_ms + 3_600_000 || m.ms() == i64::MAX
                || state.hour->0.used < state.limits.per_hour->0))
        },
        state.within_windows(m.ms()) <==> (StateView {
            health: HealthView::Active,
            ..state
        }).rate_usable(m),
{
}

/// A concurrency cap is granted in full: a key is saturated exactly where it has
/// a cap and as many requests in flight as the cap, or more.
pub proof fn law_cap_is_granted_in_full(state: StateView)
    ensures
        state.saturated() <==> (state.limits.max_concurrency is Some && state.in_flight
            >= state.limits.max_concurrency->0),
        forall|now_ms: i64| #[trigger]
            state.leasable(now_ms) <==> (state.within_windows(now_ms) && (
            state.limits.max_concurrency is None || state.in_flight
                < state.limits.max_concurrency->0)),
        state.shut_out() <==> (state.limits.per_minute is Some && state.limits.per_minute->0 == 0)
            || (state.limits.per_hour is Some && state.limits.per_hour->0 == 0),
{
}

/// A lease counts once against each limited window and once in flight, and
/// changes nothing else.
pub proof fn law_lease_counts_once(state: StateView, now_ms: i64)
    ensures
        ({
            let next = state.leased(now_ms);
            &&& next.id == state.id
            &&& next.secret == state.secret
            &&& next.censored == state.censored
            &&& next.health == state.health
            &&& next.order == state.order
            &&& next.limits == state.limits
            &&& next.slot == state.slot
            &&& state.in_flight < u32::MAX ==> next.in_flight == state.in_flight + 1
            &&& state.in_flight == u32::MAX ==> next.in_flight == 0
            &&& state.limits.per_minute is None ==> next.minute == state.minute
            &&& state.limits.per_hour is None ==> next.hour == state.hour
            &&& state.limits.per_minute is Some ==> {
                &&& next.minute is Some
                &&& (state.minute is Some && now_ms < state.minute->0.end(60_000)
                    && state.minute->0.used < u32::MAX) ==> next.minute->0.start_ms
                    == state.minute->0.start_ms && next.minute->0.used == state.minute->0.used + 1
                &&& state.minute is None || now_ms >= state.minute->0.end(60_000)
                    ==> next.minute->0.start_ms == now_ms && next.minute->0.used == 1
            }
            &&& state.limits.per_hour is Some ==> {
                &&& next.hour is Some
                &&& (state.hour is Some && now_ms < state.hour->0.end(3_600_000)
                    && state.hour->0.used < u32::MAX) ==> next.hour->0.start_ms
                    == state.hour->0.start_ms && next.hour->0.used == state.hour->0.used + 1
                &&& state.hour is None || now_ms >= state.hour->0.end(3_600_000)
                    ==> next.hour->0.start_ms == now_ms && next.hour->0.used == 1
            }
        }),
{
}

/// The key after leases at the given times.
pub open spec fn leased_all(state: StateView, times: Seq<i64>) -> StateView
    decreases times.len(),
{
    if times.len() == 0 {
        state
    } else {
        leased_all(state, times.drop_last()).leased(times.last())
    }
}

/// A minute's quota is granted in full: a key that is limited to so many
/// requests per minute, and by nothing else, takes exactly so many of the
/// requests that fall into the minute after the first.
pub proof fn law_minute_quota_is_granted_in_full(
    state: StateView,
    times: Seq<i64>,
    limit: u32,
    i: int,
)
    requires
        state.limits.per_minute == Some(limit),
        state.limits.per_hour is None,
        state.limits.max_concurrency is None,
        state.minute is None,
        0 <= i < times.len() <= u32::MAX,
        forall|j: int| 0 <= j < times.len() ==> #[trigger] times[j] < times[0] + 60_000,
        times[0] + 60_000 <= i64::MAX,
    ensures
        leased_all(state, times.take(i)).leasable(times[i]) <==> i < limit,
{
    lemma_leased_all(state, times.take(i));
    crate::quota::law_limit_many_in_a_row(times, limit, MINUTE_MS, i);
}

/// An hour's quota is granted in full, in the same way.
pub proof fn law_hour_quota_is_granted_in_full(
    state: StateView,
    times: Seq<i64>,
    limit: u32,
    i: int,
)
    requires
        state.limits.per_hour == Some(limit),
        state.limits.per_minute is None,
        state.limits.max_concurrency is None,
        state.hour is None,
        0 <= i < times.len() <= u32::MAX,
        forall|j: int| 0 <= j < times.len() ==> #[trigger] times[j] < times[0] + 3_600_000,
        times[0] + 3_600_000 <= i64::MAX,
    ensures
        leased_all(state, times.take(i)).leasable(times[i]) <==> i < limit,
{
    lemma_leased_all(state, times.take(i));
    crate::quota::law_limit_many_in_a_row(times, limit, HOUR_MS, i);
}

proof fn lemma_leased_all(state: StateView, times: Seq<i64>)
    ensures
        ({
            let after = leased_all(state, times);
            &&& after.limits == state.limits
            &&& after.health == state.health
            &&& state.limits.per_minute is Some ==> after.minute == consumed_all(
                state.minute,
                times,
                MINUTE_MS,
            )
            &&& state.limits.per_hour is Some ==> after.hour == consumed_all(
                state.hour,
                times,
                HOUR_MS,
            )
        }),
    decreases times.len(),
{
    if times.len() > 0 {
        lemma_leased_all(state, times.drop_last());
    }
}

/// The end of a request gives back its place and nothing else.
pub proof fn law_release_frees_one_place(state: StateView)
    ensures
        state.in_flight > 0 ==> state.released().in_flight == state.in_flight - 1,
        state.in_flight == 0 ==> state.released().in_flight == u32::MAX,
        state.released() == (StateView { in_flight: state.released().in_flight, ..state }),
{
}

/// A key that is found saturated rests only where its limits ask for it and it
/// was healthy, from then on and for the time they ask for.
pub proof fn law_saturated_key_rests(state: StateView, at: Instant)
    ensures
        state.limits.concurrency_cooldown_ms is None || state.health !is Active ==> state.cooled(
            at,
        ) == state,
        state.limits.concurrency_cooldown_ms is Some && state.health is Active ==> {
            let next = state.cooled(at);
            &&& next.health is Cooldown
            &&& at.nanos + state.limits.concurrency_cooldown_ms->0 * 1_000_000 <= u128::MAX
                ==> next.health->retry_after.nanos == at.nanos
                + state.limits.concurrency_cooldown_ms->0 * 1_000_000
            &&& next == (StateView { health: next.health, ..state })
        },
{
}

/// A recovery time is exact: before it is over the key is not usable, and once
/// it is, to within the millisecond that is rounded away, the key is.
pub proof fn law_wait_is_exact(state: StateView, m: Moment, later: Moment)
    requires
        state.wait(m) is Some,
        state.wait(m)->0 < u64::MAX,
        m.at.nanos <= later.at.nanos,
        m.ms() <= later.ms(),
        state.minute matches Some(w) ==> w.end(MINUTE_MS) - m.ms() <= i64::MAX,
        state.hour matches Some(w) ==> w.end(HOUR_MS) - m.ms() <= i64::MAX,
    ensures
        later.at.nanos - m.at.nanos < state.wait(m)->0 * 1_000_000 && later.ms() - m.ms()
            < state.wait(m)->0 ==> !state.rate_usable(later),
        later.at.nanos - m.at.nanos >= (state.wait(m)->0 + 1) * 1_000_000 && later.ms() - m.ms()
            >= state.wait(m)->0 ==> state.rate_usable(later),
{
}

/// What is shown of a key: its windows as they are limited, the requests in
/// flight and the cap. A limited key takes one more request exactly where
/// something remains in each limited window and under the cap.
pub proof fn law_quota_shows_what_is_left(state: StateView, now_ms: i64)
    ensures
        ({
            let shown = state.quota(now_ms);
            &&& shown.in_flight == state.in_flight
            &&& shown.max_concurrency == state.limits.max_concurrency
            &&& state.limits.per_minute is Some ==> shown.minute is Some
                && shown.minute->0.remaining is Some && shown.minute->0.limit
                == state.limits.per_minute
            &&& state.limits.per_hour is Some ==> shown.hour is Some && shown.hour->0.remaining
                is Some && shown.hour->0.limit == state.limits.per_hour
            &&& state.leasable(now_ms) <==> {
                &&& state.limits.per_minute is Some ==> shown.minute->0.remaining->0 > 0
                &&& state.limits.per_hour is Some ==> shown.hour->0.remaining->0 > 0
                &&& shown.max_concurrency is Some ==> shown.in_flight < shown.max_concurrency->0
            }
            &&& (state.minute is Some && now_ms < state.minute->0.end(60_000)) ==> shown.minute is Some
                && shown.minute->0.used == state.minute->0.used
            &&& (state.hour is Some && now_ms < state.hour->0.end(3_600_000)) ==> shown.hour is Some
                && shown.hour->0.used == state.hour->0.used
        }),
{
}

/// A key's state says what its fields hold, and so do a seed and a lease.
pub proof fn law_key_views(state: KeyState, seed: KeySeed, lease: LeasedKey)
    ensures
        state@.id == state.id@ && state@.secret == state.secret@ && state@.censored
            == state.censored@,
        state@.health == state.health@ && state@.order == state.order && state@.limits
            == state.limits && state@.minute == state.minute && state@.hour == state.hour
            && state@.in_flight == state.in_flight && state@.slot == state.slot,
        seed@.id == seed.id@ && seed@.secret == seed.secret@ && seed@.censored == seed.censored@,
        seed@.health == seed.health@ && seed@.limits == seed.limits && seed@.minute == seed.minute
            && seed@.hour == seed.hour,
        lease@.id == lease.id@ && lease@.secret == lease.secret@ && lease@.slot == lease.slot,
{
}

} // verus!
