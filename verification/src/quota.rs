//! Per-key quotas: optional minute and hour rate windows and per-key
//! concurrency limits.
//!
//! # Window semantics
//!
//! A window starts at the key's **first use** and lasts a fixed length (60 s
//! or 60 min). Usage counts up per leased request; when it reaches the limit
//! the key is unusable until `start + length`, at which point the next use
//! begins a fresh window. All timestamps are unix milliseconds, so that hour
//! windows survive persistence: a reloaded window keeps summing if it is still
//! current, and is dropped once its time has passed.

use vstd::prelude::*;

use crate::clock::{look_at_the_wall, millis_of, on_the_wall, WallReading};

verus! {

/// One minute, in milliseconds.
pub const MINUTE_MS: i64 = 60_000;

/// One hour, in milliseconds.
pub const HOUR_MS: i64 = 3_600_000;

/// Current unix time in milliseconds.
pub fn now_ms() -> (r: i64)
    ensures
        r >= 0,
        on_the_wall(r),
{
    let reading: WallReading = look_at_the_wall();
    millis_of(reading.span())
}

/// `x`, held within the range of `i64`.
pub open spec fn held(x: int) -> i64 {
    if x > i64::MAX {
        i64::MAX
    } else if x < i64::MIN {
        i64::MIN
    } else {
        x as i64
    }
}

fn held_sum(a: i64, b: i64) -> (r: i64)
    ensures
        r == held(a + b),
{
    let sum: i128 = a as i128 + b as i128;
    if sum > i64::MAX as i128 {
        i64::MAX
    } else if sum < i64::MIN as i128 {
        i64::MIN
    } else {
        sum as i64
    }
}

/// Milliseconds from `now` until `then`, zero once it has passed.
pub open spec fn millis_until(then: i64, now: i64) -> u64 {
    if then > now {
        held(then - now) as u64
    } else {
        0
    }
}

fn time_until(then: i64, now: i64) -> (r: u64)
    ensures
        r == millis_until(then, now),
{
    if then > now {
        let wait: i128 = then as i128 - now as i128;
        if wait > i64::MAX as i128 {
            i64::MAX as u64
        } else {
            wait as u64
        }
    } else {
        0
    }
}

/// Optional per-key limits. Every field is independent: a key can have any
/// combination, or none at all (unlimited).
#[derive(Debug, Clone, Copy, PartialEq, Eq, Structural)]
pub struct KeyLimits {
    /// Max requests per rolling minute window (starts at first use); zero allows
    /// none.
    pub per_minute: Option<u32>,
    /// Max requests per rolling hour window (persisted across restarts); zero
    /// allows none.
    pub per_hour: Option<u32>,
    /// Max concurrent in-flight requests on this key.
    ///
    /// Only meaningful in `RotationMode::Reactive` (proactive mode already
    /// spreads load); combining it with proactive mode is a build error.
    pub max_concurrency: Option<u32>,
    /// When a lease attempt finds this key saturated, put it into a health
    /// `Cooldown` for this many milliseconds so that its reusable time becomes
    /// observable. Without this, a saturated key becomes reusable the instant
    /// any in-flight request completes.
    pub concurrency_cooldown_ms: Option<u64>,
}

/// No limits at all.
pub open spec fn unlimited() -> KeyLimits {
    KeyLimits {
        per_minute: None,
        per_hour: None,
        max_concurrency: None,
        concurrency_cooldown_ms: None,
    }
}

impl Default for KeyLimits {
    fn default() -> (r: KeyLimits)
        ensures
            r == unlimited(),
    {
        KeyLimits::none()
    }
}

impl KeyLimits {
    /// No limits at all.
    pub fn none() -> (r: KeyLimits)
        ensures
            r == unlimited(),
    {
        KeyLimits {
            per_minute: None,
            per_hour: None,
            max_concurrency: None,
            concurrency_cooldown_ms: None,
        }
    }

    /// Sets the per-minute request limit.
    #[must_use]
    pub fn per_minute(self, limit: u32) -> (r: KeyLimits)
        ensures
            r == (KeyLimits { per_minute: Some(limit), ..self }),
    {
        KeyLimits { per_minute: Some(limit), ..self }
    }

    /// Sets the per-hour request limit.
    #[must_use]
    pub fn per_hour(self, limit: u32) -> (r: KeyLimits)
        ensures
            r == (KeyLimits { per_hour: Some(limit), ..self }),
    {
        KeyLimits { per_hour: Some(limit), ..self }
    }

    /// Sets the max concurrent in-flight requests (reactive mode only).
    #[must_use]
    pub fn max_concurrency(self, limit: u32) -> (r: KeyLimits)
        ensures
            r == (KeyLimits { max_concurrency: Some(limit), ..self }),
    {
        KeyLimits { max_concurrency: Some(limit), ..self }
    }

    /// Sets the optional saturation cooldown (see the field).
    #[must_use]
    pub fn concurrency_cooldown_ms(self, ms: u64) -> (r: KeyLimits)
        ensures
            r == (KeyLimits { concurrency_cooldown_ms: Some(ms), ..self }),
    {
        KeyLimits { concurrency_cooldown_ms: Some(ms), ..self }
    }

    /// Whether any *rate* (window) limit is set; drives quota persistence.
    pub open spec fn rate_limited(self) -> bool {
        self.per_minute is Some || self.per_hour is Some
    }

    /// Whether any *rate* (window) limit is set; drives quota persistence.
    pub fn has_rate_limits(&self) -> (r: bool)
        ensures
            r == self.rate_limited(),
    {
        self.per_minute.is_some() || self.per_hour.is_some()
    }

    /// Whether no limit of any kind is set.
    pub fn is_unlimited(&self) -> (r: bool)
        ensures
            r == (self.per_minute is None && self.per_hour is None && self.max_concurrency is None),
    {
        self.per_minute.is_none() && self.per_hour.is_none() && self.max_concurrency.is_none()
    }
}

/// A single usage window: when it started and how much was used.
#[derive(Debug, Clone, Copy, PartialEq, Eq, Structural)]
pub struct WindowState {
    /// Unix ms at which this window began (first request in the window).
    pub start_ms: i64,
    /// Requests consumed inside this window.
    pub used: u32,
}

impl WindowState {
    /// Unix ms at which this window resets.
    pub open spec fn end(self, len_ms: i64) -> i64 {
        held(self.start_ms + len_ms)
    }

    /// Whether this window's time has fully passed at `now_ms`.
    pub open spec fn over(self, now_ms: i64, len_ms: i64) -> bool {
        now_ms >= self.end(len_ms)
    }

    /// Whether this window's time has fully passed at `now_ms`.
    pub fn expired(&self, now_ms: i64, len_ms: i64) -> (r: bool)
        ensures
            r == self.over(now_ms, len_ms),
    {
        now_ms >= held_sum(self.start_ms, len_ms)
    }

    /// Unix ms at which this window resets.
    pub fn resets_at_ms(&self, len_ms: i64) -> (r: i64)
        ensures
            r == self.end(len_ms),
    {
        held_sum(self.start_ms, len_ms)
    }
}

/// Whether a window and its limit admit a request at `now_ms`. Without a limit
/// every request is admitted, and under a limit of zero none is; an expired
/// window counts as fresh.
pub open spec fn admits(
    window: Option<WindowState>,
    limit: Option<u32>,
    now_ms: i64,
    len_ms: i64,
) -> bool {
    match (window, limit) {
        (_, None) => true,
        (None, Some(l)) => l > 0,
        (Some(w), Some(l)) => l > 0 && (w.over(now_ms, len_ms) || w.used < l),
    }
}

/// The window after one more request at `now_ms`.
pub open spec fn consumed(window: Option<WindowState>, now_ms: i64, len_ms: i64) -> WindowState {
    match window {
        Some(w) if !w.over(now_ms, len_ms) => WindowState {
            start_ms: w.start_ms,
            used: if w.used < u32::MAX {
                (w.used + 1) as u32
            } else {
                w.used
            },
        },
        _ => WindowState { start_ms: now_ms, used: 1 },
    }
}

/// Milliseconds until an exhausted window frees up, where it is the blocker. A
/// limit of zero blocks for good, so that there is no such time.
pub open spec fn wait_of(
    window: Option<WindowState>,
    limit: Option<u32>,
    now_ms: i64,
    len_ms: i64,
) -> Option<u64> {
    if admits(window, limit, now_ms, len_ms) || limit == Some(0u32) {
        None
    } else {
        Some(millis_until(window->0.end(len_ms), now_ms))
    }
}

/// Is a request currently allowed under this window and limit?
///
/// A limit of `None` is unlimited, and one of zero allows nothing. An expired
/// window counts as fresh.
pub fn window_usable(
    window: Option<WindowState>,
    limit: Option<u32>,
    now_ms: i64,
    len_ms: i64,
) -> (r: bool)
    ensures
        r == admits(window, limit, now_ms, len_ms),
{
    match (window, limit) {
        (_, None) => true,
        (None, Some(l)) => l > 0,
        (Some(w), Some(l)) => l > 0 && (w.expired(now_ms, len_ms) || w.used < l),
    }
}

/// Records one request against the window, starting or resetting it as needed.
pub fn consume_window(window: &mut Option<WindowState>, now_ms: i64, len_ms: i64)
    ensures
        *final(window) == Some(consumed(*old(window), now_ms, len_ms)),
{
    let next: WindowState = match *window {
        Some(w) if !w.expired(now_ms, len_ms) => WindowState {
            start_ms: w.start_ms,
            used: w.used.saturating_add(1),
        },
        _ => WindowState { start_ms: now_ms, used: 1 },
    };
    *window = Some(next);
}

/// Milliseconds until an exhausted window frees up, if it is the blocker.
pub fn window_wait_ms(
    window: Option<WindowState>,
    limit: Option<u32>,
    now_ms: i64,
    len_ms: i64,
) -> (r: Option<u64>)
    ensures
        r == wait_of(window, limit, now_ms, len_ms),
{
    match (window, limit) {
        (Some(w), Some(l)) => {
            if l == 0 || w.expired(now_ms, len_ms) || w.used < l {
                None
            } else {
                Some(time_until(w.resets_at_ms(len_ms), now_ms))
            }
        },
        _ => None,
    }
}

// ---------------------------------------------------------------------------
// Live snapshots
// ---------------------------------------------------------------------------
/// Live snapshot of one rate window, suitable for display in a UI.
#[derive(Debug, Clone, Copy, PartialEq, Eq, Structural)]
pub struct WindowInfo {
    /// Requests used in the current window (0 if the window expired).
    pub used: u32,
    /// The configured limit, if any.
    pub limit: Option<u32>,
    /// Requests remaining in the current window, if a limit is set.
    pub remaining: Option<u32>,
    /// Unix ms at which the current window resets.
    pub resets_at_ms: i64,
    /// Milliseconds from now until the reset; track this for countdowns.
    pub resets_in_ms: u64,
}

/// The window, if it is still running at `now_ms`.
pub open spec fn running(window: Option<WindowState>, now_ms: i64, len_ms: i64) -> Option<
    WindowState,
> {
    match window {
        Some(w) if !w.over(now_ms, len_ms) => Some(w),
        _ => None,
    }
}

/// The snapshot of a window that used `used` requests and resets at
/// `resets_at_ms`.
pub open spec fn snapshot(used: u32, limit: Option<u32>, resets_at_ms: i64, now_ms: i64) -> WindowInfo {
    WindowInfo {
        used,
        limit,
        remaining: match limit {
            Some(l) => Some(
                if l > used {
                    (l - used) as u32
                } else {
                    0
                },
            ),
            None => None,
        },
        resets_at_ms,
        resets_in_ms: millis_until(resets_at_ms, now_ms),
    }
}

impl WindowInfo {
    /// What is reported of a window: nothing where there is neither current
    /// usage nor a limit, zero usage from now on where no window is running.
    pub open spec fn of(
        window: Option<WindowState>,
        limit: Option<u32>,
        now_ms: i64,
        len_ms: i64,
    ) -> Option<WindowInfo> {
        match running(window, now_ms, len_ms) {
            Some(w) => Some(snapshot(w.used, limit, w.end(len_ms), now_ms)),
            None => if limit is Some {
                Some(snapshot(0, limit, held(now_ms + len_ms), now_ms))
            } else {
                None
            },
        }
    }

    /// Builds the snapshot of a window, if there is anything to report.
    pub fn build(
        window: Option<WindowState>,
        limit: Option<u32>,
        now_ms: i64,
        len_ms: i64,
    ) -> (r: Option<WindowInfo>)
        ensures
            r == WindowInfo::of(window, limit, now_ms, len_ms),
    {
        let current: Option<WindowState> = match window {
            Some(w) if !w.expired(now_ms, len_ms) => Some(w),
            _ => None,
        };
        if current.is_none() && limit.is_none() {
            return None;
        }
        let used: u32 = match current {
            Some(w) => w.used,
            None => 0,
        };
        let resets_at_ms: i64 = match current {
            Some(w) => w.resets_at_ms(len_ms),
            None => held_sum(now_ms, len_ms),
        };
        let remaining: Option<u32> = match limit {
            Some(l) => Some(l.saturating_sub(used)),
            None => None,
        };
        Some(
            WindowInfo {
                used,
                limit,
                remaining,
                resets_at_ms,
                resets_in_ms: time_until(resets_at_ms, now_ms),
            },
        )
    }
}

/// Full live quota snapshot for one key.
#[derive(Debug, Clone, Copy, PartialEq, Eq, Structural)]
pub struct KeyQuotaInfo {
    /// Minute window state, if the key has a minute limit or recent usage.
    pub minute: Option<WindowInfo>,
    /// Hour window state, if the key has an hour limit or recent usage.
    pub hour: Option<WindowInfo>,
    /// Requests currently in flight on this key.
    pub in_flight: u32,
    /// The configured concurrency cap, if any.
    pub max_concurrency: Option<u32>,
}

// ---------------------------------------------------------------------------
// Laws of the windows
// ---------------------------------------------------------------------------
/// A window that has reached its limit admits nothing until it resets, and
/// admits requests again from then on, unless the limit allows none at all.
pub proof fn law_exhausted_until_reset(window: WindowState, limit: u32, now_ms: i64, len_ms: i64)
    requires
        window.used >= limit,
    ensures
        admits(Some(window), Some(limit), now_ms, len_ms) <==> limit > 0 && now_ms >= window.end(
            len_ms,
        ),
{
}

/// A limit of zero admits nothing, at no time and whatever was used.
pub proof fn law_zero_limit_admits_nothing(
    window: Option<WindowState>,
    now_ms: i64,
    len_ms: i64,
)
    ensures
        !admits(window, Some(0), now_ms, len_ms),
        wait_of(window, Some(0), now_ms, len_ms) is None,
{
}

/// A request that a limit admits never takes the usage of its window past the
/// limit.
pub proof fn law_usage_stays_within_limit(
    window: Option<WindowState>,
    limit: u32,
    now_ms: i64,
    len_ms: i64,
)
    requires
        admits(window, Some(limit), now_ms, len_ms),
    ensures
        consumed(window, now_ms, len_ms).used <= limit,
{
}

/// A wait is reported exactly while no request is admitted but one will be; it
/// ends at the moment from which requests are admitted again.
pub proof fn law_wait_ends_when_admitted(
    window: Option<WindowState>,
    limit: Option<u32>,
    now_ms: i64,
    len_ms: i64,
    later_ms: i64,
)
    requires
        now_ms <= later_ms,
        window matches Some(w) ==> w.end(len_ms) - now_ms <= i64::MAX,
    ensures
        wait_of(window, limit, now_ms, len_ms) is None <==> admits(window, limit, now_ms, len_ms)
            || limit == Some(0u32),
        wait_of(window, limit, now_ms, len_ms) matches Some(wait) ==> (admits(
            window,
            limit,
            later_ms,
            len_ms,
        ) <==> later_ms - now_ms >= wait),
{
}

/// The window after requests at the given times.
pub open spec fn consumed_all(window: Option<WindowState>, times: Seq<i64>, len_ms: i64) -> Option<
    WindowState,
>
    decreases times.len(),
{
    if times.len() == 0 {
        window
    } else {
        Some(
            consumed(
                consumed_all(window, times.drop_last(), len_ms),
                times.last(),
                len_ms,
            ),
        )
    }
}

/// A window starts at the first use, and counts each further request that
/// falls into it.
pub proof fn law_usage_counts_requests(times: Seq<i64>, len_ms: i64)
    requires
        0 < times.len() <= u32::MAX,
        forall|i: int| 0 <= i < times.len() ==> #[trigger] times[i] < held(times[0] + len_ms),
    ensures
        consumed_all(None, times, len_ms) == Some(
            WindowState { start_ms: times[0], used: times.len() as u32 },
        ),
    decreases times.len(),
{
    if times.len() > 1 {
        let before = times.drop_last();
        assert forall|i: int| 0 <= i < before.len() implies #[trigger] before[i] < held(
            before[0] + len_ms,
        ) by {
            assert(before[i] == times[i]);
        }
        law_usage_counts_requests(before, len_ms);
        assert(times.last() == times[times.len() - 1]);
    } else {
        assert(times.drop_last().len() == 0);
        assert(times.last() == times[0]);
        reveal_with_fuel(consumed_all, 2);
    }
}

/// A window ends its length after its start, as far as that can be told.
pub proof fn law_window_ends_after_its_length(window: WindowState, len_ms: i64)
    ensures
        i64::MIN <= window.start_ms + len_ms <= i64::MAX ==> window.end(len_ms)
            == window.start_ms + len_ms,
        window.start_ms + len_ms > i64::MAX ==> window.end(len_ms) == i64::MAX,
        window.start_ms + len_ms < i64::MIN ==> window.end(len_ms) == i64::MIN,
        forall|now_ms: i64| #[trigger]
            window.over(now_ms, len_ms) <==> (now_ms >= window.start_ms + len_ms || now_ms
                == i64::MAX),
{
}

/// A limit is granted in full, and no more: a request is admitted exactly where
/// there is no limit, or the limit is not zero and no window was started, or the
/// last one has run out, or it has seen fewer requests than the limit.
pub proof fn law_limit_is_granted_in_full(
    window: Option<WindowState>,
    limit: Option<u32>,
    now_ms: i64,
    len_ms: i64,
)
    ensures
        admits(window, limit, now_ms, len_ms) <==> (limit is None || (limit->0 > 0 && (
        window is None || now_ms >= window->0.end(len_ms) || window->0.used < limit->0))),
{
}

/// Of the requests that fall into one window, exactly as many as the limit says
/// are admitted: the first ones.
pub proof fn law_limit_many_in_a_row(times: Seq<i64>, limit: u32, len_ms: i64, i: int)
    requires
        0 <= i < times.len() <= u32::MAX,
        forall|j: int| 0 <= j < times.len() ==> #[trigger] times[j] < held(times[0] + len_ms),
    ensures
        admits(consumed_all(None, times.take(i), len_ms), Some(limit), times[i], len_ms) <==> i
            < limit,
        i > 0 ==> (consumed_all(None, times.take(i), len_ms) matches Some(w) && w.used == i
            && w.start_ms == times[0]),
{
    let before = times.take(i);
    if i > 0 {
        assert forall|j: int| 0 <= j < before.len() implies #[trigger] before[j] < held(
            before[0] + len_ms,
        ) by {
            assert(before[j] == times[j]);
        }
        law_usage_counts_requests(before, len_ms);
    }
}

/// A request counts once, in the window that is running or in a new one that
/// starts with it.
pub proof fn law_request_counts_once(window: Option<WindowState>, now_ms: i64, len_ms: i64)
    ensures
        ({
            let next = consumed(window, now_ms, len_ms);
            &&& (window is Some && now_ms < window->0.end(len_ms)) ==> {
                &&& next.start_ms == window->0.start_ms
                &&& window->0.used < u32::MAX ==> next.used == window->0.used + 1
                &&& window->0.used == u32::MAX ==> next.used == u32::MAX
            }
            &&& window is None || now_ms >= window->0.end(len_ms) ==> {
                &&& next.start_ms == now_ms
                &&& next.used == 1
            }
        }),
{
}

/// What is shown of a limited window is what it grants: something remains
/// exactly where a request is admitted, what was used and what remains make up
/// the limit, and a request takes one from the rest.
pub proof fn law_remaining_is_what_is_granted(
    window: Option<WindowState>,
    limit: u32,
    now_ms: i64,
    len_ms: i64,
)
    ensures
        ({
            let shown = WindowInfo::of(window, Some(limit), now_ms, len_ms);
            &&& shown is Some
            &&& shown->0.limit == Some(limit)
            &&& shown->0.remaining is Some
            &&& shown->0.remaining->0 > 0 <==> admits(window, Some(limit), now_ms, len_ms)
            &&& shown->0.used <= limit ==> shown->0.used + shown->0.remaining->0 == limit
            &&& shown->0.used > limit ==> shown->0.remaining->0 == 0
            &&& admits(window, Some(limit), now_ms, len_ms) && now_ms < held(now_ms + len_ms) ==> {
                let next = WindowInfo::of(
                    Some(consumed(window, now_ms, len_ms)),
                    Some(limit),
                    now_ms,
                    len_ms,
                );
                &&& next is Some
                &&& next->0.remaining == Some((shown->0.remaining->0 - 1) as u32)
                &&& next->0.used == shown->0.used + 1
            }
        }),
{
}

/// What is shown of a window without a limit: its usage while it runs, and
/// nothing otherwise.
pub proof fn law_unlimited_window_shows_its_usage(
    window: Option<WindowState>,
    now_ms: i64,
    len_ms: i64,
)
    ensures
        WindowInfo::of(window, None, now_ms, len_ms) is Some <==> (window is Some && now_ms
            < window->0.end(len_ms)),
        WindowInfo::of(window, None, now_ms, len_ms) matches Some(shown) ==> {
            &&& shown.used == window->0.used
            &&& shown.limit is None
            &&& shown.remaining is None
        },
{
}

/// The countdown that is shown ends with the window: at the end of the one that
/// runs, or a full length from now; usage is that of the running window, or
/// none.
pub proof fn law_countdown_ends_with_the_window(
    window: Option<WindowState>,
    limit: Option<u32>,
    now_ms: i64,
    len_ms: i64,
)
    ensures
        WindowInfo::of(window, limit, now_ms, len_ms) matches Some(shown) ==> {
            &&& (window is Some && now_ms < window->0.end(len_ms)) ==> {
                &&& shown.resets_at_ms == window->0.end(len_ms)
                &&& shown.used == window->0.used
            }
            &&& window is None || now_ms >= window->0.end(len_ms) ==> {
                &&& i64::MIN <= now_ms + len_ms <= i64::MAX ==> shown.resets_at_ms == now_ms
                    + len_ms
                &&& shown.used == 0
            }
            &&& 0 <= shown.resets_at_ms - now_ms <= i64::MAX ==> shown.resets_in_ms
                == shown.resets_at_ms - now_ms
            &&& shown.resets_at_ms < now_ms ==> shown.resets_in_ms == 0
        },
{
}

/// The wait that a used-up window asks for is the time until it ends, and only
/// such a window asks for one.
pub proof fn law_wait_is_the_time_to_the_end(
    window: Option<WindowState>,
    limit: Option<u32>,
    now_ms: i64,
    len_ms: i64,
)
    ensures
        wait_of(window, limit, now_ms, len_ms) is Some <==> (window is Some && limit is Some
            && limit->0 > 0 && window->0.used >= limit->0 && now_ms < window->0.end(len_ms)),
        wait_of(window, limit, now_ms, len_ms) matches Some(wait) ==> {
            &&& window->0.end(len_ms) - now_ms <= i64::MAX ==> wait == window->0.end(len_ms)
                - now_ms
            &&& window->0.end(len_ms) - now_ms > i64::MAX ==> wait == i64::MAX
        },
{
}

/// Which limits there are: a minute is sixty seconds long, an hour sixty
/// minutes; no limit at all is no limit of any kind; rate limits are those on
/// either window.
pub proof fn law_limits(limits: KeyLimits)
    ensures
        MINUTE_MS == 60 * 1000,
        HOUR_MS == 60 * MINUTE_MS,
        unlimited().per_minute is None,
        unlimited().per_hour is None,
        unlimited().max_concurrency is None,
        unlimited().concurrency_cooldown_ms is None,
        limits.rate_limited() <==> !(limits.per_minute is None && limits.per_hour is None),
{
}

} // verus!
