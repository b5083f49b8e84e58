//! The live pool: decrypted keys, rotation and quota state.

use vstd::prelude::*;

use dashmap::DashMap;

use super::key::{KeySeed, KeyState, LeaseView, LeasedKey, SeedView, StateView};
use super::{proactive, reactive};
use crate::clock::{on_the_wall, read_from, Clock, Instant, Moment, Reading, ORIGIN_NANOS};
use crate::config::RotationMode;
use crate::order::{is_ordering, order_ids, ordered, ranks_of, texts, Ranked};
use crate::quota::{KeyLimits, KeyQuotaInfo, WindowState};
use crate::storage::{HealthView, KeyHealth};
use crate::tables::{
    keys_in, no_keys, table_entries, table_get, table_insert, table_is_empty, table_len, table_new,
    table_remove,
};
use crate::text::{same_text, text_of};

verus! {

/// How often a lease is attempted before giving up.
pub const MAX_ROUNDS: usize = 4;

/// What a [`KeyPool`] stands for.
pub struct PoolView {
    /// The loaded keys, by id.
    pub keys: Map<Seq<char>, StateView>,
    /// How keys are rotated.
    pub mode: RotationMode,
    /// Limits of keys without limits of their own.
    pub default_limits: KeyLimits,
    /// Proactive: round-robin cursor.
    pub cursor: usize,
    /// Reactive: id of the current sticky primary.
    pub primary: Option<Seq<char>>,
    /// The order given to the next new key.
    pub next_order: usize,
    /// The slot given to the next key loaded.
    pub next_slot: u64,
}

/// How one attempt to lease a key ended.
pub enum RoundView {
    /// No key is usable now.
    Exhausted,
    /// The chosen key had no room; another attempt may find one.
    Full,
    /// A key was leased.
    Leased(LeaseView),
}

/// How one attempt to lease a key ended.
pub enum Round {
    /// No key is usable now.
    Exhausted,
    /// The chosen key had no room; another attempt may find one.
    Full,
    /// A key was leased.
    Leased(LeasedKey),
}

impl View for Round {
    type V = RoundView;

    open spec fn view(&self) -> RoundView {
        match *self {
            Round::Exhausted => RoundView::Exhausted,
            Round::Full => RoundView::Full,
            Round::Leased(lease) => RoundView::Leased(lease@),
        }
    }
}

/// What an optional lease stands for.
pub open spec fn lease_view(lease: Option<LeasedKey>) -> Option<LeaseView> {
    match lease {
        Some(held) => Some(held@),
        None => None,
    }
}

/// Whether `wait` is the soonest known recovery among the keys: the least of
/// the waits that are knowable, `None` where there is none.
pub open spec fn is_soonest(
    keys: Map<Seq<char>, StateView>,
    m: Moment,
    wait: Option<u64>,
) -> bool {
    match wait {
        Some(least) => {
            &&& exists|id: Seq<char>| #[trigger] keys.contains_key(id) && keys[id].wait(m) == wait
            &&& forall|id: Seq<char>| #[trigger]
                keys.contains_key(id) ==> (keys[id].wait(m) matches Some(other) ==> least <= other)
        },
        None => forall|id: Seq<char>| #[trigger]
            keys.contains_key(id) ==> keys[id].wait(m) is None,
    }
}

/// Whether the moments were read from the clock one after the other: the first
/// not before `since`, each not before the one ahead of it, the last at `until`.
pub open spec fn read_in_turn(
    clock: Clock,
    since: Instant,
    moments: Seq<Moment>,
    until: Instant,
) -> bool {
    &&& forall|i: int| 0 <= i < moments.len() ==> read_from(clock, #[trigger] moments[i])
    &&& forall|i: int|
        0 <= i < moments.len() ==> since.nanos <= (#[trigger] moments[i]).at.nanos <= until.nanos
    &&& forall|i: int, j: int|
        0 <= i <= j < moments.len() ==> (#[trigger] moments[i]).at.nanos <= (
        #[trigger] moments[j]).at.nanos
    &&& moments.len() > 0 ==> moments.last().at == until
    &&& since.nanos <= until.nanos
}

/// One moment for every attempt.
pub open spec fn repeated(m: Moment) -> Seq<Moment> {
    Seq::new(MAX_ROUNDS as nat, |i: int| m)
}

impl PoolView {
    /// The pool that holds nothing yet.
    pub open spec fn empty(mode: RotationMode, default_limits: KeyLimits) -> PoolView {
        PoolView {
            keys: Map::empty(),
            mode,
            default_limits,
            cursor: 0,
            primary: None,
            next_order: 0,
            next_slot: 0,
        }
    }

    /// Finitely many keys are loaded, every key is found under its own id, and
    /// the primary is a loaded key.
    pub open spec fn wf(self) -> bool {
        &&& self.keys.dom().finite()
        &&& forall|id: Seq<char>| #[trigger] self.keys.contains_key(id) ==> self.keys[id].id == id
        &&& self.primary matches Some(current) ==> self.keys.contains_key(current)
    }

    /// The pool with a key in the given state.
    pub open spec fn with_state(self, id: Seq<char>, state: StateView) -> PoolView {
        PoolView { keys: self.keys.insert(id, state), ..self }
    }

    /// The state in which a seed is loaded: as fresh as the seed says, without
    /// requests in flight, in its old place where the id is known.
    pub open spec fn loaded(self, seed: SeedView) -> StateView {
        StateView {
            id: seed.id,
            secret: seed.secret,
            censored: seed.censored,
            health: seed.health,
            order: if self.keys.contains_key(seed.id) {
                self.keys[seed.id].order
            } else {
                self.next_order
            },
            limits: match seed.limits {
                Some(limits) => limits,
                None => self.default_limits,
            },
            minute: seed.minute,
            hour: seed.hour,
            in_flight: 0,
            slot: self.next_slot,
        }
    }

    /// The pool after loading a seed.
    pub open spec fn upserted(self, seed: SeedView) -> PoolView {
        PoolView {
            keys: self.keys.insert(seed.id, self.loaded(seed)),
            next_order: if self.keys.contains_key(seed.id) {
                self.next_order
            } else {
                proactive::advanced(self.next_order)
            },
            next_slot: if self.next_slot < u64::MAX {
                (self.next_slot + 1) as u64
            } else {
                0
            },
            ..self
        }
    }

    /// The pool without a key.
    pub open spec fn removed(self, id: Seq<char>) -> PoolView {
        PoolView {
            keys: self.keys.remove(id),
            primary: if self.primary == Some(id) {
                None
            } else {
                self.primary
            },
            ..self
        }
    }

    /// The pool with a key's health replaced, if the key is loaded.
    pub open spec fn with_health(self, id: Seq<char>, health: HealthView) -> PoolView {
        if self.keys.contains_key(id) {
            self.with_state(id, StateView { health, ..self.keys[id] })
        } else {
            self
        }
    }

    /// The pool with a key's limits replaced, if the key is loaded.
    pub open spec fn with_limits(self, id: Seq<char>, limits: KeyLimits) -> PoolView {
        if self.keys.contains_key(id) {
            self.with_state(id, StateView { limits, ..self.keys[id] })
        } else {
            self
        }
    }

    /// Whether any key, or the default, carries a concurrency cap.
    pub open spec fn capped(self) -> bool {
        self.default_limits.max_concurrency is Some || exists|id: Seq<char>| #[trigger]
            self.keys.contains_key(id) && self.keys[id].limits.max_concurrency is Some
    }

    /// The keys that are healthy and inside their rate windows, each with its
    /// insertion order.
    pub open spec fn usable_ranks(self, m: Moment) -> Map<Seq<char>, int> {
        Map::new(
            |id: Seq<char>| self.keys.contains_key(id) && self.keys[id].rate_usable(m),
            |id: Seq<char>| self.keys[id].order as int,
        )
    }

    /// The ids of those keys, in stable insertion order.
    pub open spec fn usable_ids(self, m: Moment) -> Seq<Seq<char>> {
        ordered(self.usable_ranks(m))
    }

    /// The usable keys that have as many requests in flight as they may.
    pub open spec fn full_ids(self, m: Moment) -> Set<Seq<char>> {
        Set::new(
            |id: Seq<char>|
                self.keys.contains_key(id) && self.keys[id].rate_usable(m)
                    && self.keys[id].saturated(),
        )
    }

    /// The pool after every one of `ids` was found saturated.
    pub open spec fn all_cooled(self, ids: Seq<Seq<char>>, at: Instant) -> PoolView {
        PoolView {
            keys: Map::new(
                |id: Seq<char>| self.keys.contains_key(id),
                |id: Seq<char>|
                    if ids.contains(id) {
                        self.keys[id].cooled(at)
                    } else {
                        self.keys[id]
                    },
            ),
            ..self
        }
    }

    /// An attempt to lease one key at `now_ms`.
    pub open spec fn tried(self, id: Seq<char>, now_ms: i64) -> (PoolView, RoundView) {
        if self.keys.contains_key(id) && self.keys[id].leasable(now_ms) {
            let state = self.keys[id];
            (
                self.with_state(id, state.leased(now_ms)),
                RoundView::Leased(
                    LeaseView { id: state.id, secret: state.secret, slot: state.slot },
                ),
            )
        } else {
            (self, RoundView::Full)
        }
    }

    /// One attempt to lease a key: the mode picks it among the usable ones. In
    /// reactive mode with every usable key saturated, all of them are cooled.
    pub open spec fn round(self, m: Moment) -> (PoolView, RoundView) {
        let ids = self.usable_ids(m);
        if ids.len() == 0 {
            (self, RoundView::Exhausted)
        } else {
            match self.mode {
                RotationMode::Proactive => {
                    let id = ids[proactive::turn(self.cursor as int, ids.len() as int)];
                    let moved = PoolView { cursor: proactive::advanced(self.cursor), ..self };
                    moved.tried(id, m.ms())
                },
                RotationMode::Reactive => {
                    let full = self.full_ids(m);
                    let moved = PoolView {
                        primary: reactive::promoted(self.primary, ids, full),
                        ..self
                    };
                    match reactive::chosen(self.primary, ids, full) {
                        Some(id) => moved.tried(id, m.ms()),
                        None => (self.all_cooled(ids, m.at), RoundView::Exhausted),
                    }
                },
            }
        }
    }

    /// Attempts at the given moments, until one ends otherwise than with a key
    /// that had no room.
    pub open spec fn attempts(self, moments: Seq<Moment>) -> (PoolView, Option<LeaseView>)
        decreases moments.len(),
    {
        if moments.len() == 0 {
            (self, None)
        } else {
            let (next, outcome) = self.round(moments[0]);
            match outcome {
                RoundView::Exhausted => (next, None),
                RoundView::Leased(lease) => (next, Some(lease)),
                RoundView::Full => next.attempts(moments.drop_first()),
            }
        }
    }

    /// The pool after a lease has ended. A key that was removed or loaded anew
    /// meanwhile is left alone.
    pub open spec fn released(self, lease: LeaseView) -> PoolView {
        if self.keys.contains_key(lease.id) && self.keys[lease.id].slot == lease.slot {
            self.with_state(lease.id, self.keys[lease.id].released())
        } else {
            self
        }
    }
}

/// The live pool: decrypted keys together with rotation and quota state.
pub struct KeyPool {
    keys: DashMap<String, KeyState>,
    mode: RotationMode,
    default_limits: KeyLimits,
    cursor: usize,
    primary: Option<String>,
    next_order: usize,
    next_slot: u64,
    clock: Clock,
    latest: Instant,
}

impl View for KeyPool {
    type V = PoolView;

    closed spec fn view(&self) -> PoolView {
        PoolView {
            keys: keys_in(self.keys),
            mode: self.mode,
            default_limits: self.default_limits,
            cursor: self.cursor,
            primary: text_of(self.primary),
            next_order: self.next_order,
            next_slot: self.next_slot,
        }
    }
}

impl KeyPool {
    /// The clock that the pool reads.
    pub closed spec fn timepiece(&self) -> Clock {
        self.clock
    }

    /// The latest reading of the clock that was taken into account.
    pub closed spec fn latest(&self) -> Instant {
        self.latest
    }

    /// A look at the pool's clock, not before any that was taken into account.
    pub fn peek(&self) -> (r: Reading)
        ensures
            r.source() == self.timepiece(),
            r.shown().at.nanos >= self.latest().nanos,
            r.shown().at.nanos >= ORIGIN_NANOS,
            read_from(self.timepiece(), r.shown()),
    {
        self.clock.read(self.latest)
    }

    /// Takes a look at the clock into account: no later one is before it.
    pub fn note(&mut self, reading: &Reading)
        requires
            reading.source() == old(self).timepiece(),
            reading.shown().at.nanos >= old(self).latest().nanos,
        ensures
            final(self)@ == old(self)@,
            final(self).timepiece() == old(self).timepiece(),
            final(self).latest() == reading.shown().at,
    {
        self.latest = reading.moment().at;
    }

    /// Creates an empty pool for the given rotation mode and default limits.
    pub fn new(mode: RotationMode, default_limits: KeyLimits) -> (r: KeyPool)
        ensures
            r@ == PoolView::empty(mode, default_limits),
            r@.wf(),
            r.latest().nanos == ORIGIN_NANOS,
    {
        KeyPool::with_clock(mode, default_limits, Clock::new())
    }

    /// Creates an empty pool that reads the given clock.
    pub fn with_clock(mode: RotationMode, default_limits: KeyLimits, clock: Clock) -> (r: KeyPool)
        ensures
            r@ == PoolView::empty(mode, default_limits),
            r@.wf(),
            r.timepiece() == clock,
            r.latest().nanos == ORIGIN_NANOS,
    {
        KeyPool {
            keys: table_new(),
            mode,
            default_limits,
            cursor: 0,
            primary: None,
            next_order: 0,
            next_slot: 0,
            clock,
            latest: Instant { nanos: ORIGIN_NANOS },
        }
    }

    /// The clock by which cooldowns run.
    pub fn clock(&self) -> (r: Clock)
        ensures
            r == self.timepiece(),
    {
        self.clock
    }

    /// The rotation mode this pool was built with.
    pub fn mode(&self) -> (r: RotationMode)
        ensures
            r == self@.mode,
    {
        self.mode
    }

    /// The default limits applied to keys without per-key limits.
    pub fn default_limits(&self) -> (r: KeyLimits)
        ensures
            r == self@.default_limits,
    {
        self.default_limits
    }

    /// Insert or replace a key in the live pool.
    ///
    /// Limits of `None` apply the pool default; persisted windows (from the
    /// vault) carry hour-quota usage across restarts.
    pub fn upsert(&mut self, seed: KeySeed)
        requires
            old(self)@.wf(),
        ensures
            final(self)@ == old(self)@.upserted(seed@),
            final(self)@.wf(),
            final(self).timepiece() == old(self).timepiece(),
            final(self).latest() == old(self).latest(),
    {
        let order: usize = match table_get(&self.keys, seed.id.as_str()) {
            Some(existing) => existing.order,
            None => {
                let next: usize = self.next_order;
                self.next_order = self.next_order.wrapping_add(1);
                next
            },
        };
        let slot: u64 = self.next_slot;
        self.next_slot = self.next_slot.wrapping_add(1);
        let limits: KeyLimits = match seed.limits {
            Some(limits) => limits,
            None => self.default_limits,
        };
        let id: String = seed.id.clone();
        table_insert(
            &mut self.keys,
            id,
            KeyState {
                id: seed.id,
                secret: seed.secret,
                censored: seed.censored,
                health: seed.health,
                order,
                limits,
                minute: seed.minute,
                hour: seed.hour,
                in_flight: 0,
                slot,
            },
        );
    }

    /// Removes a key from the live pool.
    pub fn remove(&mut self, id: &str)
        requires
            old(self)@.wf(),
        ensures
            final(self)@ == old(self)@.removed(id@),
            final(self)@.wf(),
            final(self).timepiece() == old(self).timepiece(),
            final(self).latest() == old(self).latest(),
    {
        table_remove(&mut self.keys, id);
        let was_primary: bool = match &self.primary {
            Some(current) => same_text(current.as_str(), id),
            None => false,
        };
        if was_primary {
            self.primary = None;
        }
    }

    /// Number of keys currently loaded (any health).
    pub fn len(&self) -> (r: usize)
        ensures
            r == self@.keys.dom().len(),
    {
        table_len(&self.keys)
    }

    /// Whether the pool holds no keys at all.
    pub fn is_empty(&self) -> (r: bool)
        ensures
            r == (self@.keys == no_keys()),
    {
        table_is_empty(&self.keys)
    }

    /// Live health of a key, if it is loaded.
    pub fn health_of(&self, id: &str) -> (r: Option<KeyHealth>)
        ensures
            r is Some <==> self@.keys.contains_key(id@),
            r matches Some(health) ==> health@ == self@.keys[id@].health,
    {
        match table_get(&self.keys, id) {
            Some(state) => Some(state.health),
            None => None,
        }
    }

    /// Update a key's live health. Returns `Some(())` when the key exists.
    pub fn set_health(&mut self, id: &str, health: KeyHealth) -> (r: Option<()>)
        ensures
            r is Some <==> old(self)@.keys.contains_key(id@),
            final(self)@ == old(self)@.with_health(id@, health@),
            old(self)@.wf() ==> final(self)@.wf(),
            final(self).timepiece() == old(self).timepiece(),
            final(self).latest() == old(self).latest(),
    {
        match table_get(&self.keys, id) {
            Some(mut state) => {
                state.health = health;
                table_insert(&mut self.keys, id.to_string(), state);
                Some(())
            },
            None => None,
        }
    }

    /// Replaces a key's limits. Returns `Some(())` when the key exists.
    pub fn set_limits(&mut self, id: &str, limits: KeyLimits) -> (r: Option<()>)
        ensures
            r is Some <==> old(self)@.keys.contains_key(id@),
            final(self)@ == old(self)@.with_limits(id@, limits),
            old(self)@.wf() ==> final(self)@.wf(),
            final(self).timepiece() == old(self).timepiece(),
            final(self).latest() == old(self).latest(),
    {
        match table_get(&self.keys, id) {
            Some(mut state) => {
                state.limits = limits;
                table_insert(&mut self.keys, id.to_string(), state);
                Some(())
            },
            None => None,
        }
    }

    /// A key's effective limits, if it is loaded.
    pub fn limits_of(&self, id: &str) -> (r: Option<KeyLimits>)
        ensures
            r == (if self@.keys.contains_key(id@) {
                Some(self@.keys[id@].limits)
            } else {
                None
            }),
    {
        match table_get(&self.keys, id) {
            Some(state) => Some(state.limits),
            None => None,
        }
    }

    /// Whether any loaded key carries a concurrency cap (used to reject
    /// proactive + concurrency configurations).
    pub fn any_concurrency_limit(&self) -> (r: bool)
        ensures
            r == self@.capped(),
    {
        if self.default_limits.max_concurrency.is_some() {
            return true;
        }
        let entries: Vec<(String, KeyState)> = table_entries(&self.keys);
        let mut i: usize = 0;
        while i < entries.len()
            invariant
                i <= entries.len(),
                forall|k: int|
                    0 <= k < i ==> (#[trigger] entries[k]).1.limits.max_concurrency is None,
                forall|k: int|
                    0 <= k < entries.len() ==> self@.keys.contains_key((#[trigger] entries[k]).0@)
                        && entries[k].1@ == self@.keys[entries[k].0@],
            decreases entries.len() - i,
        {
            if entries[i].1.limits.max_concurrency.is_some() {
                assert(self@.keys.contains_key(entries[i as int].0@));
                return true;
            }
            i = i + 1;
        }
        assert forall|id: Seq<char>| #[trigger] self@.keys.contains_key(id) implies self@.keys[id]
            .limits.max_concurrency is None by {
            let k = choose|k: int| 0 <= k < entries.len() && (#[trigger] entries[k]).0@ == id;
            assert(entries[k].1@ == self@.keys[id]);
        }
        false
    }

    /// Quota snapshot of one key at `now_ms`.
    pub fn quota_of_at(&self, id: &str, now_ms: i64) -> (r: Option<KeyQuotaInfo>)
        ensures
            r == (if self@.keys.contains_key(id@) {
                Some(self@.keys[id@].quota(now_ms))
            } else {
                None
            }),
    {
        match table_get(&self.keys, id) {
            Some(state) => Some(state.quota_info(now_ms)),
            None => None,
        }
    }

    /// Live quota snapshot for one key (windows, in-flight, caps).
    pub fn quota_of(&self, id: &str) -> (r: Option<KeyQuotaInfo>)
        ensures
            r is Some <==> self@.keys.contains_key(id@),
            r matches Some(info) ==> exists|now_ms: i64|
                on_the_wall(now_ms) && info == #[trigger] self@.keys[id@].quota(now_ms),
    {
        let now_ms: i64 = crate::quota::now_ms();
        self.quota_of_at(id, now_ms)
    }

    /// Raw window state and limits for persistence after a lease.
    pub fn windows_of(&self, id: &str) -> (r: Option<
        (Option<WindowState>, Option<WindowState>, KeyLimits),
    >)
        ensures
            r == (if self@.keys.contains_key(id@) {
                let state = self@.keys[id@];
                Some((state.minute, state.hour, state.limits))
            } else {
                None
            }),
    {
        match table_get(&self.keys, id) {
            Some(state) => Some((state.minute, state.hour, state.limits)),
            None => None,
        }
    }

    /// Ids of keys that are health-usable AND inside their rate windows, in
    /// stable insertion order.
    pub fn rate_usable_ids(&self, m: Moment) -> (r: Vec<String>)
        ensures
            texts(r@) == self@.usable_ids(m),
            is_ordering(self@.usable_ranks(m), texts(r@)),
    {
        let ghost keys = self@.keys;
        let entries: Vec<(String, KeyState)> = table_entries(&self.keys);
        let mut items: Vec<Ranked> = Vec::new();
        let ghost mut from: Seq<int> = Seq::empty();
        let mut k: usize = 0;
        while k < entries.len()
            invariant
                k <= entries.len(),
                keys == self@.keys,
                items.len() == from.len(),
                forall|i: int|
                    0 <= i < from.len() ==> {
                        &&& 0 <= #[trigger] from[i] < k
                        &&& items[i].id@ == entries[from[i]].0@
                        &&& items[i].rank == entries[from[i]].1.order
                        &&& entries[from[i]].1@.rate_usable(m)
                    },
                forall|i: int, j: int|
                    0 <= i < j < from.len() ==> #[trigger] from[i] < #[trigger] from[j],
                forall|n: int|
                    0 <= n < k && (#[trigger] entries[n]).1@.rate_usable(m) ==> from.contains(n),
            decreases entries.len() - k,
        {
            let ghost before = from;
            if entries[k].1.is_rate_usable(m) {
                items.push(Ranked { id: entries[k].0.clone(), rank: entries[k].1.order as i128 });
                proof {
                    from = from.push(k as int);
                    assert(from[before.len() as int] == k);
                }
            }
            proof {
                assert forall|n: int|
                    0 <= n < k + 1 && (#[trigger] entries[n]).1@.rate_usable(
                        m,
                    ) implies from.contains(n) by {
                    if n < k {
                        assert(before.contains(n));
                        let i = choose|i: int| 0 <= i < before.len() && before[i] == n;
                        assert(from[i] == n);
                    }
                }
            }
            k = k + 1;
        }
        proof {
            assert forall|i: int, j: int| 0 <= i < j < items.len() implies #[trigger] items[i].id@
                != #[trigger] items[j].id@ by {
                assert(from[i] < from[j]);
                assert(entries[from[i]].0@ != entries[from[j]].0@);
            }
            let ranks = ranks_of(items@);
            let wanted = self@.usable_ranks(m);
            crate::order::lemma_ranks_of(items@);
            assert forall|id: Seq<char>| #[trigger]
                ranks.contains_key(id) == wanted.contains_key(id) by {
                if wanted.contains_key(id) {
                    let n = choose|n: int| 0 <= n < entries.len() && (#[trigger] entries[n]).0@ == id;
                    assert(entries[n].1@.rate_usable(m));
                    let i = choose|i: int| 0 <= i < from.len() && from[i] == n;
                    assert(items[i].id@ == id);
                }
                if ranks.contains_key(id) {
                    let i = choose|i: int| 0 <= i < items.len() && (#[trigger] items[i]).id@ == id;
                    assert(keys.contains_key(entries[from[i]].0@));
                }
            }
            assert forall|id: Seq<char>| #[trigger] ranks.contains_key(id) implies ranks[id]
                == wanted[id] by {
                crate::order::lemma_rank_of(items@, id);
                let i = choose|i: int|
                    0 <= i < items.len() && (#[trigger] items[i]).id@ == id && items[i].rank
                        == ranks[id];
                assert(entries[from[i]].1@ == keys[id]);
                assert(wanted.contains_key(id));
            }
            assert(ranks =~= wanted);
        }
        order_ids(&items)
    }

    /// Whether a loaded key has as many requests in flight as it may.
    pub fn is_saturated(&self, id: &str) -> (r: bool)
        ensures
            r == (self@.keys.contains_key(id@) && self@.keys[id@].saturated()),
    {
        match table_get(&self.keys, id) {
            Some(state) => state.is_saturated(),
            None => false,
        }
    }

    /// Marks a concurrency-saturated key as cooling for its configured
    /// `concurrency_cooldown_ms`, making its reusable time observable.
    pub fn apply_saturation_cooldown(&mut self, id: &str, at: Instant)
        ensures
            final(self)@ == (if old(self)@.keys.contains_key(id@) {
                old(self)@.with_state(id@, old(self)@.keys[id@].cooled(at))
            } else {
                old(self)@
            }),
            old(self)@.wf() ==> final(self)@.wf(),
            final(self).timepiece() == old(self).timepiece(),
            final(self).latest() == old(self).latest(),
    {
        if let Some(mut state) = table_get(&self.keys, id) {
            state.cool(at);
            table_insert(&mut self.keys, id.to_string(), state);
        }
    }

    /// Attempts to lease `id` at `now_ms`: checks the quota gates, consumes
    /// windows, and counts the request as in flight.
    pub fn try_lease(&mut self, id: &str, now_ms: i64) -> (r: Option<LeasedKey>)
        ensures
            ({
                let (next, outcome) = old(self)@.tried(id@, now_ms);
                &&& final(self)@ == next
                &&& outcome == match lease_view(r) {
                    Some(lease) => RoundView::Leased(lease),
                    None => RoundView::Full,
                }
            }),
            old(self)@.wf() ==> final(self)@.wf(),
            final(self).timepiece() == old(self).timepiece(),
            final(self).latest() == old(self).latest(),
    {
        match table_get(&self.keys, id) {
            Some(mut state) => {
                if !state.within_windows(now_ms) || state.is_saturated() {
                    return None;
                }
                state.lease(now_ms);
                let lease: LeasedKey = LeasedKey {
                    id: state.id.clone(),
                    secret: state.secret.clone(),
                    slot: state.slot,
                };
                table_insert(&mut self.keys, id.to_string(), state);
                Some(lease)
            },
            None => None,
        }
    }

    /// Puts every one of `ids` into its saturation cooldown.
    fn cool_all(&mut self, ids: &Vec<String>, at: Instant)
        requires
            old(self)@.wf(),
            forall|i: int, j: int|
                0 <= i < j < ids.len() ==> #[trigger] ids[i]@ != #[trigger] ids[j]@,
        ensures
            final(self)@ == old(self)@.all_cooled(texts(ids@), at),
            final(self)@.wf(),
            final(self).timepiece() == old(self).timepiece(),
            final(self).latest() == old(self).latest(),
    {
        let ghost start = self@;
        let ghost names = texts(ids@);
        let mut i: usize = 0;
        assert(names.take(0) =~= Seq::<Seq<char>>::empty());
        assert(start.all_cooled(names.take(0), at).keys =~= start.keys);
        while i < ids.len()
            invariant
                i <= ids.len(),
                names == texts(ids@),
                self@ == start.all_cooled(names.take(i as int), at),
                self@.wf(),
                self.timepiece() == old(self).timepiece(),
                self.latest() == old(self).latest(),
                forall|i: int, j: int|
                    0 <= i < j < ids.len() ==> #[trigger] ids[i]@ != #[trigger] ids[j]@,
            decreases ids.len() - i,
        {
            let ghost before = self@;
            let ghost id = ids[i as int]@;
            self.apply_saturation_cooldown(ids[i].as_str(), at);
            proof {
                let done = names.take(i as int);
                let more = names.take(i + 1);
                assert(!done.contains(id)) by {
                    if done.contains(id) {
                        let k = choose|k: int| 0 <= k < done.len() && done[k] == id;
                        assert(ids[k]@ != ids[i as int]@);
                    }
                }
                assert forall|other: Seq<char>| #[trigger]
                    more.contains(other) == (done.contains(other) || other == id) by {
                    if more.contains(other) {
                        let k = choose|k: int| 0 <= k < more.len() && more[k] == other;
                        if k < i {
                            assert(done[k] == other);
                        }
                    }
                    if done.contains(other) {
                        let k = choose|k: int| 0 <= k < done.len() && done[k] == other;
                        assert(more[k] == other);
                    }
                    assert(more[i as int] == id);
                }
                assert(self@.keys =~= start.all_cooled(more, at).keys);
            }
            i = i + 1;
        }
        assert(names.take(ids.len() as int) =~= names);
    }

    /// One attempt to lease a key at the given moment. Rate windows are
    /// consumed and the request counts as in flight until the lease is
    /// released.
    pub fn next_key_at(&mut self, m: Moment) -> (r: Round)
        requires
            old(self)@.wf(),
        ensures
            (final(self)@, r@) == old(self)@.round(m),
            final(self)@.wf(),
            final(self).timepiece() == old(self).timepiece(),
            final(self).latest() == old(self).latest(),
    {
        let ghost start = self@;
        let usable: Vec<String> = self.rate_usable_ids(m);
        let ghost ids = texts(usable@);
        proof {
            assert forall|i: int, j: int| 0 <= i < j < usable.len() implies #[trigger] usable[i]@
                != #[trigger] usable[j]@ by {
                assert(crate::order::comes_before(start.usable_ranks(m), ids[i], ids[j]));
                crate::text::law_text_order_is_total(ids[i], ids[i], ids[i]);
            }
            assert forall|i: int| 0 <= i < ids.len() implies start.keys.contains_key(
                #[trigger] ids[i],
            ) && start.keys[ids[i]].rate_usable(m) by {
                assert(start.usable_ranks(m).contains_key(ids[i]));
            }
        }
        if usable.len() == 0 {
            return Round::Exhausted;
        }
        let chosen: String = match self.mode {
            RotationMode::Proactive => {
                let id: String = proactive::pick(&mut self.cursor, &usable);
                id
            },
            RotationMode::Reactive => {
                let mut saturated: Vec<bool> = Vec::new();
                let mut i: usize = 0;
                while i < usable.len()
                    invariant
                        i <= usable.len(),
                        saturated.len() == i,
                        self@ == start,
                        self.timepiece() == old(self).timepiece(),
                        self.latest() == old(self).latest(),
                        ids == texts(usable@),
                        forall|k: int|
                            0 <= k < ids.len() ==> start.keys.contains_key(#[trigger] ids[k]),
                        forall|k: int|
                            0 <= k < i ==> #[trigger] saturated[k] == start.keys[ids[k]].saturated(),
                    decreases usable.len() - i,
                {
                    assert(start.keys.contains_key(ids[i as int]));
                    let full: bool = self.is_saturated(usable[i].as_str());
                    saturated.push(full);
                    i = i + 1;
                }
                proof {
                    let full = start.full_ids(m);
                    let marked = reactive::flagged(ids, saturated@);
                    assert forall|id: Seq<char>| #[trigger] marked.contains(id) == full.contains(
                        id,
                    ) by {
                        if marked.contains(id) {
                            let k = choose|k: int|
                                0 <= k < ids.len() && #[trigger] ids[k] == id && saturated[k];
                            assert(start.keys.contains_key(ids[k]));
                        }
                        if full.contains(id) {
                            assert(start.usable_ranks(m).contains_key(id));
                            let k = choose|k: int| 0 <= k < ids.len() && ids[k] == id;
                            assert(ids[k] == id && saturated[k]);
                        }
                    }
                    assert(marked =~= full);
                    reactive::law_choice_has_capacity(start.primary, ids, full);
                }
                let picked: Option<String> = reactive::pick(&mut self.primary, &usable, &saturated);
                match picked {
                    Some(id) => id,
                    None => {
                        self.cool_all(&usable, m.at);
                        return Round::Exhausted;
                    },
                }
            },
        };
        let ghost moved = self@;
        proof {
            if start.mode is Reactive {
                let full = start.full_ids(m);
                if reactive::promoted(start.primary, ids, full) is Some {
                    reactive::law_choice_has_capacity(None, ids, full);
                }
            }
            assert(moved.wf());
        }
        let now_ms: i64 = m.unix_ms();
        match self.try_lease(chosen.as_str(), now_ms) {
            Some(lease) => Round::Leased(lease),
            None => Round::Full,
        }
    }

    /// Picks the next key according to the configured rotation mode and every
    /// quota gate, and leases it: rate windows are consumed and the in-flight
    /// counter incremented (released by [`KeyPool::release`]). Each attempt
    /// reads the clocks anew.
    ///
    /// Returns `None` when no key is currently usable; see
    /// [`KeyPool::earliest_recovery_ms`] to distinguish "wait" from "dead".
    pub fn next_key(&mut self) -> (r: Option<LeasedKey>)
        requires
            old(self)@.wf(),
        ensures
            exists|moments: Seq<Moment>|
                moments.len() == MAX_ROUNDS && (final(self)@, lease_view(r))
                    == #[trigger] old(self)@.attempts(moments) && read_in_turn(
                    old(self).timepiece(),
                    old(self).latest(),
                    moments,
                    final(self).latest(),
                ),
            final(self)@.wf(),
            final(self).timepiece() == old(self).timepiece(),
    {
        let ghost start = self@;
        let ghost mut read: Seq<Moment> = Seq::empty();
        let ghost clock = self.timepiece();
        let ghost first = self.latest();
        let mut rounds: usize = 0;
        proof {
            assert forall|rest: Seq<Moment>| #[trigger] start.attempts(read + rest)
                == self@.attempts(rest) by {
                assert(read + rest =~= rest);
            }
        }
        while rounds < MAX_ROUNDS
            invariant
                rounds <= MAX_ROUNDS,
                read.len() == rounds,
                self@.wf(),
                self.timepiece() == old(self).timepiece(),
                read_in_turn(old(self).timepiece(), old(self).latest(), read, self.latest()),
                forall|rest: Seq<Moment>| #[trigger]
                    start.attempts(read + rest) == self@.attempts(rest),
                start == old(self)@,
                clock == old(self).timepiece(),
                first == old(self).latest(),
            decreases MAX_ROUNDS - rounds,
        {
            let ghost before = self@;
            let reading: Reading = self.peek();
            let m: Moment = reading.moment();
            self.note(&reading);
            let outcome: Round = self.next_key_at(m);
            proof {
                let rest = Seq::new((MAX_ROUNDS - rounds - 1) as nat, |i: int| m);
                let all = seq![m] + rest;
                assert(all.drop_first() =~= rest);
                assert(start.attempts(read + all) == before.attempts(all));
                assert((read + all).len() == MAX_ROUNDS);
                assert(read_in_turn(clock, first, read + all, m.at));
                assert forall|later: Seq<Moment>| outcome is Full implies #[trigger] start.attempts(
                    read.push(m) + later,
                ) == self@.attempts(later) by {
                    assert(read.push(m) + later =~= read + (seq![m] + later));
                    assert(start.attempts(read + (seq![m] + later)) == before.attempts(
                        seq![m] + later,
                    ));
                    assert((seq![m] + later).drop_first() =~= later);
                }
                read = read.push(m);
            }
            match outcome {
                Round::Leased(lease) => {
                    return Some(lease);
                },
                Round::Exhausted => {
                    return None;
                },
                Round::Full => {},
            }
            rounds = rounds + 1;
        }
        proof {
            assert(read + Seq::<Moment>::empty() =~= read);
            assert(start.attempts(read + Seq::<Moment>::empty()) == self@.attempts(
                Seq::<Moment>::empty(),
            ));
        }
        None
    }

    /// Like [`KeyPool::next_key`], with every attempt made at the given moment.
    pub fn lease_at(&mut self, m: Moment) -> (r: Option<LeasedKey>)
        requires
            old(self)@.wf(),
        ensures
            (final(self)@, lease_view(r)) == old(self)@.attempts(repeated(m)),
            final(self)@.wf(),
            final(self).timepiece() == old(self).timepiece(),
            final(self).latest() == old(self).latest(),
    {
        let ghost start = self@;
        let mut rounds: usize = 0;
        while rounds < MAX_ROUNDS
            invariant
                rounds <= MAX_ROUNDS,
                self@.wf(),
                self.timepiece() == old(self).timepiece(),
                self.latest() == old(self).latest(),
                start == old(self)@,
                start.attempts(repeated(m)) == self@.attempts(
                    Seq::new((MAX_ROUNDS - rounds) as nat, |i: int| m),
                ),
            decreases MAX_ROUNDS - rounds,
        {
            let ghost left = Seq::new((MAX_ROUNDS - rounds) as nat, |i: int| m);
            assert(left.drop_first() =~= Seq::new((MAX_ROUNDS - rounds - 1) as nat, |i: int| m));
            match self.next_key_at(m) {
                Round::Leased(lease) => {
                    return Some(lease);
                },
                Round::Exhausted => {
                    return None;
                },
                Round::Full => {},
            }
            rounds = rounds + 1;
        }
        None
    }

    /// Ends a lease: one request less is in flight on the key, unless the key
    /// was removed or loaded anew meanwhile.
    pub fn release(&mut self, lease: LeasedKey)
        ensures
            final(self)@ == old(self)@.released(lease@),
            old(self)@.wf() ==> final(self)@.wf(),
            final(self).timepiece() == old(self).timepiece(),
            final(self).latest() == old(self).latest(),
    {
        if let Some(mut state) = table_get(&self.keys, lease.id.as_str()) {
            if state.slot == lease.slot {
                state.release();
                table_insert(&mut self.keys, lease.id, state);
            }
        }
    }

    /// Milliseconds from `m` until the soonest key becomes usable again, if
    /// that time is knowable.
    pub fn earliest_recovery_ms_at(&self, m: Moment) -> (r: Option<u64>)
        ensures
            is_soonest(self@.keys, m, r),
    {
        let ghost keys = self@.keys;
        let entries: Vec<(String, KeyState)> = table_entries(&self.keys);
        let mut least: Option<u64> = None;
        let mut i: usize = 0;
        while i < entries.len()
            invariant
                i <= entries.len(),
                keys == self@.keys,
                forall|k: int|
                    0 <= k < entries.len() ==> keys.contains_key((#[trigger] entries[k]).0@)
                        && entries[k].1@ == keys[entries[k].0@],
                least matches Some(w) ==> (exists|id: Seq<char>| #[trigger]
                    keys.contains_key(id) && keys[id].wait(m) == Some(w)),
                forall|k: int|
                    0 <= k < i ==> ((#[trigger] entries[k]).1@.wait(m) matches Some(w)
                        ==> least matches Some(found) && found <= w),
            decreases entries.len() - i,
        {
            let wait: Option<u64> = entries[i].1.wait_ms(m);
            assert(keys.contains_key(entries[i as int].0@));
            let sooner: bool = match (wait, least) {
                (Some(w), Some(found)) => w < found,
                (Some(_), None) => true,
                (None, _) => false,
            };
            if sooner {
                least = wait;
            }
            i = i + 1;
        }
        assert forall|id: Seq<char>| #[trigger] keys.contains_key(id) implies (keys[id].wait(
            m,
        ) matches Some(w) ==> least matches Some(found) && found <= w) by {
            let k = choose|k: int| 0 <= k < entries.len() && (#[trigger] entries[k]).0@ == id;
            assert(entries[k].1@ == keys[id]);
        }
        least
    }

    /// Milliseconds until the soonest key becomes usable again, if that time
    /// is knowable (health cooldowns and exhausted rate windows; concurrency
    /// saturation has no deterministic end unless a cooldown was configured).
    ///
    /// `None` means either a key is usable right now, or every blocked key is
    /// blocked indefinitely (banned / a limit of zero / saturated without
    /// cooldown).
    pub fn earliest_recovery_ms(&self) -> (r: Option<u64>)
        ensures
            exists|m: Moment|
                #[trigger] is_soonest(self@.keys, m, r) && read_from(self.timepiece(), m)
                    && m.at.nanos >= self.latest().nanos,
    {
        let m: Moment = self.peek().moment();
        self.earliest_recovery_ms_at(m)
    }
}

} // verus!
