//! The health of a key: its states, how they are stored, and how they are
//! shown.

use vstd::prelude::*;

use crate::clock::{
    millis_of, read_from, span_millis, Clock, Duration, Instant, Moment, Reading, ORIGIN_NANOS,
};
use crate::text::{same_text, text_of};

verus! {

/// Health state machine for a single key.
#[derive(Debug, PartialEq, Eq)]
pub enum KeyHealth {
    /// Healthy and eligible for selection.
    Active,
    /// Hit a 429; sits out until `retry_after`, then recovers by itself.
    Cooldown {
        /// When the key becomes usable again.
        retry_after: Instant,
    },
    /// Hit a 401/403, failed decryption, or was manually banned.
    Banned {
        /// Why the key was banned.
        reason: String,
    },
}

/// What a [`KeyHealth`] stands for.
pub enum HealthView {
    /// Healthy and eligible for selection.
    Active,
    /// Sits out until `retry_after`.
    Cooldown {
        /// When the key becomes usable again.
        retry_after: Instant,
    },
    /// Banned until recovered.
    Banned {
        /// Why the key was banned.
        reason: Seq<char>,
    },
}

impl View for KeyHealth {
    type V = HealthView;

    open spec fn view(&self) -> HealthView {
        match *self {
            KeyHealth::Active => HealthView::Active,
            KeyHealth::Cooldown { retry_after } => HealthView::Cooldown { retry_after },
            KeyHealth::Banned { reason } => HealthView::Banned { reason: reason@ },
        }
    }
}

impl Clone for KeyHealth {
    fn clone(&self) -> (r: KeyHealth)
        ensures
            r@ == self@,
    {
        match self {
            KeyHealth::Active => KeyHealth::Active,
            KeyHealth::Cooldown { retry_after } => KeyHealth::Cooldown { retry_after: *retry_after },
            KeyHealth::Banned { reason } => KeyHealth::Banned { reason: reason.clone() },
        }
    }
}

impl HealthView {
    /// Whether a key in this state can be used at `now`; cooldowns expire by
    /// themselves.
    pub open spec fn usable(self, now: Instant) -> bool {
        match self {
            HealthView::Active => true,
            HealthView::Cooldown { retry_after } => now.nanos >= retry_after.nanos,
            HealthView::Banned { .. } => false,
        }
    }

    /// The name of the state.
    pub open spec fn label(self) -> Seq<char> {
        match self {
            HealthView::Active => "active"@,
            HealthView::Cooldown { .. } => "cooldown"@,
            HealthView::Banned { .. } => "banned"@,
        }
    }

    /// The state as it is stored at moment `m`: status, ban reason, and the
    /// unix time in milliseconds at which a cooldown ends.
    pub open spec fn columns(self, m: Moment) -> (Seq<char>, Option<Seq<char>>, Option<i64>) {
        match self {
            HealthView::Active => (self.label(), None, None),
            HealthView::Cooldown { retry_after } => (
                self.label(),
                None,
                Some(span_millis(m.unix.sum(retry_after.since(m.at)))),
            ),
            HealthView::Banned { reason } => (self.label(), Some(reason), None),
        }
    }

    /// The state that stored columns stand for at moment `m`. A cooldown that
    /// has ended, and a status of any other name, is `Active`.
    pub open spec fn from_columns(
        status: Seq<char>,
        reason: Option<Seq<char>>,
        cooldown_until_ms: Option<i64>,
        m: Moment,
    ) -> HealthView {
        if status == "banned"@ {
            HealthView::Banned {
                reason: match reason {
                    Some(text) => text,
                    None => "unknown"@,
                },
            }
        } else if status == "cooldown"@ {
            match cooldown_until_ms {
                Some(until) if until > m.unix.millis() => HealthView::Cooldown {
                    retry_after: m.at.after(
                        Duration::of_millis((until - m.unix.millis()) as u64),
                    ),
                },
                _ => HealthView::Active,
            }
        } else {
            HealthView::Active
        }
    }
}

impl KeyHealth {
    /// Is the key currently usable (cooldowns expire lazily)?
    pub fn is_usable(&self, now: Instant) -> (r: bool)
        ensures
            r == self@.usable(now),
    {
        match self {
            KeyHealth::Active => true,
            KeyHealth::Cooldown { retry_after } => now.nanos >= retry_after.nanos,
            KeyHealth::Banned { .. } => false,
        }
    }

    /// Persistable form at moment `m`: `(status, reason,
    /// cooldown_until_unix_ms)`.
    pub fn to_columns_at(&self, m: Moment) -> (r: (String, Option<String>, Option<i64>))
        ensures
            (r.0@, text_of(r.1), r.2) == self@.columns(m),
    {
        match self {
            KeyHealth::Active => ("active".to_string(), None, None),
            KeyHealth::Cooldown { retry_after } => {
                let remaining: Duration = retry_after.saturating_duration_since(m.at);
                let until: i64 = millis_of(m.unix.plus(remaining));
                ("cooldown".to_string(), None, Some(until))
            },
            KeyHealth::Banned { reason } => ("banned".to_string(), Some(reason.clone()), None),
        }
    }

    /// Persistable form now: `(status, reason, cooldown_until_unix_ms)`.
    pub fn to_columns(&self, clock: &Clock) -> (r: (String, Option<String>, Option<i64>))
        ensures
            exists|m: Moment|
                (r.0@, text_of(r.1), r.2) == #[trigger] self@.columns(m) && read_from(*clock, m)
                    && m.at.nanos >= ORIGIN_NANOS,
    {
        let reading: Reading = clock.read(Instant { nanos: ORIGIN_NANOS });
        let m: Moment = reading.moment();
        self.to_columns_at(m)
    }

    /// Inverse of [`KeyHealth::to_columns_at`]. Expired cooldowns load as
    /// `Active`.
    pub fn from_columns_at(
        status: &str,
        reason: Option<String>,
        cooldown_until_ms: Option<i64>,
        m: Moment,
    ) -> (r: KeyHealth)
        ensures
            r@ == HealthView::from_columns(status@, text_of(reason), cooldown_until_ms, m),
    {
        if same_text(status, "banned") {
            let why: String = match reason {
                Some(text) => text,
                None => "unknown".to_string(),
            };
            KeyHealth::Banned { reason: why }
        } else if same_text(status, "cooldown") {
            match cooldown_until_ms {
                Some(until) => {
                    let now: u128 = m.unix.as_millis();
                    if until > 0 && until as u128 > now {
                        let left: u64 = (until as u128 - now) as u64;
                        KeyHealth::Cooldown { retry_after: m.at.plus(Duration::from_millis(left)) }
                    } else {
                        KeyHealth::Active
                    }
                },
                None => KeyHealth::Active,
            }
        } else {
            KeyHealth::Active
        }
    }

    /// Inverse of [`KeyHealth::to_columns`]. Expired cooldowns load as
    /// `Active`.
    pub fn from_columns(
        status: &str,
        reason: Option<String>,
        cooldown_until_ms: Option<i64>,
        clock: &Clock,
    ) -> (r: KeyHealth)
        ensures
            exists|m: Moment|
                r@ == #[trigger] HealthView::from_columns(
                    status@,
                    text_of(reason),
                    cooldown_until_ms,
                    m,
                ) && read_from(*clock, m) && m.at.nanos >= ORIGIN_NANOS,
    {
        let reading: Reading = clock.read(Instant { nanos: ORIGIN_NANOS });
        let m: Moment = reading.moment();
        KeyHealth::from_columns_at(status, reason, cooldown_until_ms, m)
    }

    /// Human-readable status label for UI metadata.
    pub fn status_label(&self) -> (r: &'static str)
        ensures
            r@ == self@.label(),
    {
        match self {
            KeyHealth::Active => "active",
            KeyHealth::Cooldown { .. } => "cooldown",
            KeyHealth::Banned { .. } => "banned",
        }
    }
}

/// Health snapshot shown with a key.
#[derive(Debug, PartialEq, Eq)]
pub enum KeyStatus {
    /// Healthy and eligible for selection.
    Active,
    /// Rate-limited; waiting out a cooldown.
    Cooldown {
        /// Milliseconds until the key becomes usable again.
        remaining_ms: u64,
    },
    /// Banned until manually recovered.
    Banned {
        /// Why the key was banned.
        reason: String,
    },
}

/// What a [`KeyStatus`] stands for.
pub enum StatusView {
    /// Healthy and eligible for selection.
    Active,
    /// Waiting out a cooldown.
    Cooldown {
        /// Milliseconds until the key becomes usable again.
        remaining_ms: u64,
    },
    /// Banned until manually recovered.
    Banned {
        /// Why the key was banned.
        reason: Seq<char>,
    },
}

impl View for KeyStatus {
    type V = StatusView;

    open spec fn view(&self) -> StatusView {
        match *self {
            KeyStatus::Active => StatusView::Active,
            KeyStatus::Cooldown { remaining_ms } => StatusView::Cooldown { remaining_ms },
            KeyStatus::Banned { reason } => StatusView::Banned { reason: reason@ },
        }
    }
}

/// Whole milliseconds of a span, held at the largest `u64`.
pub open spec fn millis_left(span: Duration) -> u64 {
    if span.millis() <= u64::MAX {
        span.millis() as u64
    } else {
        u64::MAX
    }
}

/// Whole milliseconds of a span, held at the largest `u64`.
pub fn whole_millis(span: Duration) -> (r: u64)
    ensures
        r == millis_left(span),
{
    let millis: u128 = span.as_millis();
    if millis <= u64::MAX as u128 {
        millis as u64
    } else {
        u64::MAX
    }
}

impl StatusView {
    /// The status of a key of the given health at `now`.
    pub open spec fn of(health: HealthView, now: Instant) -> StatusView {
        match health {
            HealthView::Active => StatusView::Active,
            HealthView::Cooldown { retry_after } => StatusView::Cooldown {
                remaining_ms: millis_left(retry_after.since(now)),
            },
            HealthView::Banned { reason } => StatusView::Banned { reason },
        }
    }
}

impl KeyStatus {
    /// The status of a key of the given health at `now`.
    pub fn from_health(health: &KeyHealth, now: Instant) -> (r: KeyStatus)
        ensures
            r@ == StatusView::of(health@, now),
    {
        match health {
            KeyHealth::Active => KeyStatus::Active,
            KeyHealth::Cooldown { retry_after } => KeyStatus::Cooldown {
                remaining_ms: whole_millis(retry_after.saturating_duration_since(now)),
            },
            KeyHealth::Banned { reason } => KeyStatus::Banned { reason: reason.clone() },
        }
    }
}

/// Whether both clocks ran equally far from one moment to another, but for a
/// drift of at most so many nanoseconds.
pub open spec fn consistent(written: Moment, read: Moment, drift: nat) -> bool {
    let apart = (read.at.nanos - written.at.nanos) - (read.unix.nanos - written.unix.nanos);
    -drift <= apart <= drift
}

/// When a cooldown ends that was stored at `written`: not before then.
pub open spec fn stored_end(retry_after: Instant, written: Moment) -> int {
    if retry_after.nanos >= written.at.nanos {
        retry_after.nanos as int
    } else {
        written.at.nanos as int
    }
}

/// Whether a cooldown that was stored at `written` can be written down at both
/// moments.
pub open spec fn storable(health: HealthView, written: Moment, read: Moment, drift: nat) -> bool {
    health matches HealthView::Cooldown { retry_after } ==> {
        &&& written.unix.nanos + retry_after.since(written.at).nanos <= u128::MAX
        &&& written.unix.sum(retry_after.since(written.at)).millis() <= i64::MAX
        &&& stored_end(retry_after, written) + drift + 1_000_000 <= u128::MAX
        &&& read.unix.nanos + stored_end(retry_after, written) + drift + 1_000_000 <= u128::MAX
    }
}

/// Whether `loaded` is what a state stored at `written` is at `read`: `Active`
/// and `Banned` exactly; a cooldown to within a millisecond and the drift of the
/// clocks while the stored end lies ahead, to be stored with the very same end
/// again; active once that end, or by both clocks the cooldown itself, has
/// passed.
pub open spec fn kept(
    health: HealthView,
    loaded: HealthView,
    written: Moment,
    read: Moment,
    drift: nat,
) -> bool {
    match health {
        HealthView::Cooldown { retry_after } => {
            let until = health.columns(written).2;
            let end = stored_end(retry_after, written);
            &&& until is Some
            &&& if until->0 > read.unix.millis() {
                &&& loaded matches HealthView::Cooldown { retry_after: again } && -(1_000_000
                    + drift) < again.nanos - end < 1_000_000 + drift
                &&& loaded.columns(read) == health.columns(written)
            } else {
                loaded == HealthView::Active
            }
            &&& end + drift <= read.at.nanos ==> loaded == HealthView::Active
        },
        _ => loaded == health,
    }
}

/// A state that is stored at one moment and loaded at another comes back.
pub proof fn law_columns_round_trip(
    health: HealthView,
    written: Moment,
    read: Moment,
    drift: nat,
)
    requires
        consistent(written, read, drift),
        storable(health, written, read, drift),
    ensures
        ({
            let (status, reason, until) = health.columns(written);
            kept(
                health,
                HealthView::from_columns(status, reason, until, read),
                written,
                read,
                drift,
            )
        }),
{
    lemma_labels_differ();
    if let HealthView::Cooldown { retry_after } = health {
        let left = retry_after.since(written.at).nanos as int;
        let end = written.unix.nanos + left;
        let until = end / 1_000_000;
        let now = read.unix.nanos as int / 1_000_000;
        assert(written.unix.sum(retry_after.since(written.at)).millis() == until);
        assert(read.unix.millis() == now);
        assert(stored_end(retry_after, written) == written.at.nanos + left);
        if until > now {
            let span = Duration::of_millis((until - now) as u64);
            assert(span.nanos == (until - now) * 1_000_000);
            assert(read.at.nanos + span.nanos < stored_end(retry_after, written) + 1_000_000
                + drift);
            let again = read.at.after(span);
            assert(again.nanos == read.at.nanos + span.nanos);
            assert(again.since(read.at).nanos == span.nanos);
            let rest = read.unix.nanos - now * 1_000_000;
            assert(read.unix.nanos + span.nanos == until * 1_000_000 + rest);
            assert((until * 1_000_000 + rest) / 1_000_000 == until);
            assert(read.unix.sum(span).millis() == until);
        }
    }
}

/// A ban without a reason is loaded with an unknown one.
pub proof fn law_missing_ban_reason_is_unknown(until: Option<i64>, read: Moment)
    ensures
        HealthView::from_columns("banned"@, None, until, read) == (HealthView::Banned {
            reason: "unknown"@,
        }),
{
}

proof fn lemma_labels_differ()
    ensures
        "active"@ != "cooldown"@,
        "active"@ != "banned"@,
        "cooldown"@ != "banned"@,
{
    reveal_strlit("active");
    reveal_strlit("cooldown");
    reveal_strlit("banned");
    assert("active"@[0] == 'a');
    assert("cooldown"@[0] == 'c');
    assert("banned"@[0] == 'b');
}

} // verus!
