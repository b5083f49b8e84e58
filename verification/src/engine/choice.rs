//! Which key serves, and what an operation on the pool changes.

use vstd::prelude::*;

use super::key::{
    law_minute_quota_is_granted_in_full, leased_all, LeaseView, SeedView, StateView,
};
use super::laws::{
    after_rounds, fit, law_attempts_change_one_key, law_no_usable_key_no_lease,
    law_only_fit_keys_are_leased, law_proactive_takes_a_usable_key, law_reactive_finds_a_fit_key,
    lemma_round, lemma_usable,
};
use super::pool::{is_soonest, read_in_turn, repeated, PoolView, RoundView};
use super::reactive;
use crate::clock::{read_from, Clock, Instant, Moment};
use crate::config::RotationMode;
use crate::order::comes_before;
use crate::quota::KeyLimits;
use crate::storage::HealthView;

verus! {

/// Whether no key is limited.
pub open spec fn free_of_limits(pool: PoolView) -> bool {
    forall|id: Seq<char>| #[trigger]
        pool.keys.contains_key(id) ==> {
            &&& pool.keys[id].limits.per_minute is None
            &&& pool.keys[id].limits.per_hour is None
            &&& pool.keys[id].limits.max_concurrency is None
        }
}

/// Whether a key of this health serves at `at`: it is healthy, or its cooldown
/// has ended.
pub open spec fn in_service(health: HealthView, at: Instant) -> bool {
    health is Active || (health is Cooldown && health->retry_after.nanos <= at.nanos)
}

/// In a pool of keys without limits a key is leased whenever one is healthy or
/// has ended its cooldown, and it is such a key; its lease carries its own id
/// and secret, and no other key changes. Otherwise nothing changes.
pub proof fn law_unlimited_pool_serves(pool: PoolView, m: Moment)
    requires
        pool.wf(),
        free_of_limits(pool),
    ensures
        ({
            let (next, lease) = pool.attempts(repeated(m));
            &&& lease is Some <==> exists|id: Seq<char>| #[trigger]
                pool.keys.contains_key(id) && in_service(pool.keys[id].health, m.at)
            &&& lease is None ==> next == pool
            &&& lease is Some ==> {
                let id = lease->0.id;
                &&& pool.keys.contains_key(id)
                &&& in_service(pool.keys[id].health, m.at)
                &&& lease->0.secret == pool.keys[id].secret
                &&& lease->0.slot == pool.keys[id].slot
                &&& next.keys == pool.keys.insert(id, pool.keys[id].leased(m.ms()))
                &&& next.wf()
                &&& next.mode == pool.mode
            }
        }),
{
    let moments = repeated(m);
    assert(moments[0] == m);
    law_only_fit_keys_are_leased(pool, m);
    law_attempts_change_one_key(pool, moments);
    if pool.mode is Reactive {
        law_reactive_finds_a_fit_key(pool, m);
    } else {
        law_proactive_takes_a_usable_key(pool, m);
    }
    if exists|id: Seq<char>| #[trigger]
        pool.keys.contains_key(id) && in_service(pool.keys[id].health, m.at) {
        let id = choose|id: Seq<char>| #[trigger]
            pool.keys.contains_key(id) && in_service(pool.keys[id].health, m.at);
        assert(pool.keys[id].rate_usable(m));
        assert(fit(pool, id, m));
    } else {
        assert forall|id: Seq<char>| !(#[trigger] pool.keys.contains_key(id)
            && pool.keys[id].rate_usable(moments[0])) by {
            if pool.keys.contains_key(id) && pool.keys[id].rate_usable(m) {
                assert(in_service(pool.keys[id].health, m.at));
            }
        }
        law_no_usable_key_no_lease(pool, moments);
    }
}

/// In reactive mode the primary serves while it is fit; otherwise the fit key
/// that was added first does, and it becomes the primary unless the old one is
/// only out of room.
pub proof fn law_reactive_takes_the_earliest_key(pool: PoolView, m: Moment)
    requires
        pool.wf(),
        pool.mode is Reactive,
    ensures
        pool.round(m).1 matches RoundView::Leased(lease) ==> {
            &&& pool.primary is Some && fit(pool, pool.primary->0, m) ==> Some(lease.id)
                == pool.primary
            &&& !(pool.primary is Some && fit(pool, pool.primary->0, m)) ==> forall|
                id: Seq<char>,
            | #[trigger]
                fit(pool, id, m) ==> pool.keys[lease.id].order <= pool.keys[id].order
            &&& pool.round(m).0.primary == (if pool.primary is Some
                && pool.keys[pool.primary->0].rate_usable(m) {
                pool.primary
            } else {
                Some(lease.id)
            })
        },
        pool.round(m).1 !is Leased ==> pool.round(m).0.primary == pool.primary,
        pool.round(m).0.cursor == pool.cursor,
{
    lemma_usable(pool, m);
    law_only_fit_keys_are_leased(pool, m);
    let ids = pool.usable_ids(m);
    let full = pool.full_ids(m);
    let ranks = pool.usable_ranks(m);
    reactive::law_choice_has_capacity(pool.primary, ids, full);
    reactive::law_choice_has_capacity(None, ids, full);
    reactive::law_first_free_is_first(ids, full);
    if pool.primary is Some && ids.len() > 0 {
        assert(ids.contains(pool.primary->0) <==> pool.keys[pool.primary->0].rate_usable(m));
    }
    if let RoundView::Leased(lease) = pool.round(m).1 {
        if !(pool.primary is Some && fit(pool, pool.primary->0, m)) {
            assert(reactive::first_free(ids, full) == Some(lease.id));
            let k = choose|k: int|
                0 <= k < ids.len() && #[trigger] ids[k] == lease.id && forall|j: int|
                    0 <= j < k ==> full.contains(#[trigger] ids[j]);
            assert forall|id: Seq<char>| #[trigger] fit(pool, id, m) implies pool.keys[lease.id].order
                <= pool.keys[id].order by {
                assert(ids.contains(id));
                let j = choose|j: int| 0 <= j < ids.len() && ids[j] == id;
                assert(ranks.contains_key(ids[j]) && ranks.contains_key(ids[k]));
                if j < k {
                    assert(full.contains(ids[j]));
                } else if j > k {
                    assert(comes_before(ranks, ids[k], ids[j]));
                    crate::text::law_text_order_is_total(ids[k], ids[k], ids[k]);
                }
            }
        }
    }
}

/// In proactive mode the usable keys take turns in the order in which they were
/// added: with `n` of them, the attempt at cursor `c` takes the key that
/// `c mod n` others precede, and moves the cursor on by one.
pub proof fn law_proactive_takes_turns_in_order(pool: PoolView, m: Moment)
    requires
        pool.wf(),
        pool.mode is Proactive,
        exists|id: Seq<char>| #[trigger]
            pool.keys.contains_key(id) && pool.keys[id].rate_usable(m),
    ensures
        ({
            let ids = pool.usable_ids(m);
            &&& ids.len() > 0
            &&& pool.cursor < usize::MAX ==> pool.round(m).0.cursor == pool.cursor + 1
            &&& pool.round(m).0.primary == pool.primary
            &&& pool.round(m).1 matches RoundView::Leased(lease) ==> lease.id == ids[pool.cursor
                as int % ids.len() as int] && pool.keys[lease.id].rate_usable(m)
        }),
{
    lemma_usable(pool, m);
    law_only_fit_keys_are_leased(pool, m);
    let ids = pool.usable_ids(m);
    let id = choose|id: Seq<char>| #[trigger]
        pool.keys.contains_key(id) && pool.keys[id].rate_usable(m);
    assert(ids.contains(id));
}

/// When every usable key is at its cap, reactive mode leases none; those keys
/// rest as their limits ask, and the others stay as they are.
pub proof fn law_full_pool_rests(pool: PoolView, m: Moment)
    requires
        pool.wf(),
        pool.mode is Reactive,
        forall|id: Seq<char>| #[trigger]
            pool.keys.contains_key(id) && pool.keys[id].rate_usable(m)
                ==> pool.keys[id].saturated(),
    ensures
        pool.attempts(repeated(m)).1 is None,
        pool.attempts(repeated(m)).0.keys.dom() == pool.keys.dom(),
        forall|id: Seq<char>| #[trigger]
            pool.keys.contains_key(id) ==> pool.attempts(repeated(m)).0.keys[id] == (
            if pool.keys[id].rate_usable(m) {
                pool.keys[id].cooled(m.at)
            } else {
                pool.keys[id]
            }),
{
    lemma_usable(pool, m);
    assert(repeated(m)[0] == m);
    law_reactive_finds_a_fit_key(pool, m);
    let ids = pool.usable_ids(m);
    let next = pool.attempts(repeated(m)).0;
    if exists|id: Seq<char>| #[trigger] fit(pool, id, m) {
        let id = choose|id: Seq<char>| #[trigger] fit(pool, id, m);
        assert(pool.keys.contains_key(id) && pool.keys[id].rate_usable(m));
    }
    assert forall|id: Seq<char>| #[trigger] pool.keys.contains_key(id) implies next.keys[id] == (
    if pool.keys[id].rate_usable(m) {
        pool.keys[id].cooled(m.at)
    } else {
        pool.keys[id]
    }) by {
        assert(ids.contains(id) <==> pool.keys[id].rate_usable(m));
    }
    assert(next.keys.dom() =~= pool.keys.dom());
}

/// A lease is tried for a few times at most, all at the same moment.
pub proof fn law_few_attempts(m: Moment)
    ensures
        repeated(m).len() == 4,
        forall|i: int| 0 <= i < 4 ==> #[trigger] repeated(m)[i] == m,
{
}

/// New health reaches the key that is meant, and nothing else about it or any
/// other key.
pub proof fn law_health_reaches_one_key(pool: PoolView, id: Seq<char>, health: HealthView)
    ensures
        ({
            let next = pool.with_health(id, health);
            &&& next == (PoolView { keys: next.keys, ..pool })
            &&& !pool.keys.contains_key(id) ==> next.keys == pool.keys
            &&& pool.keys.contains_key(id) ==> {
                &&& next.keys.dom() =~= pool.keys.dom()
                &&& next.keys[id].health == health
                &&& next.keys[id] == (StateView { health, ..pool.keys[id] })
                &&& forall|other: Seq<char>| other != id ==> #[trigger] next.keys[other]
                    == pool.keys[other]
            }
        }),
{
}

/// New limits reach the key that is meant; its windows keep their usage, and
/// every other key stays as it is.
pub proof fn law_limits_reach_one_key(pool: PoolView, id: Seq<char>, limits: KeyLimits)
    ensures
        ({
            let next = pool.with_limits(id, limits);
            &&& next == (PoolView { keys: next.keys, ..pool })
            &&& !pool.keys.contains_key(id) ==> next.keys == pool.keys
            &&& pool.keys.contains_key(id) ==> {
                &&& next.keys.dom() =~= pool.keys.dom()
                &&& next.keys[id].limits == limits
                &&& next.keys[id].minute == pool.keys[id].minute
                &&& next.keys[id].hour == pool.keys[id].hour
                &&& next.keys[id] == (StateView { limits, ..pool.keys[id] })
                &&& forall|other: Seq<char>| other != id ==> #[trigger] next.keys[other]
                    == pool.keys[other]
            }
        }),
{
}

/// Loading puts a key in as it was given, with nothing in flight and the pool's
/// limits where it has none of its own; the other keys, the mode, the cursor and
/// the primary stay. Leases of an earlier loading are told apart by the slot.
pub proof fn law_loading_puts_the_key_in(pool: PoolView, seed: SeedView)
    ensures
        ({
            let next = pool.upserted(seed);
            &&& next.keys.dom() =~= pool.keys.dom().insert(seed.id)
            &&& next.keys[seed.id].id == seed.id
            &&& next.keys[seed.id].secret == seed.secret
            &&& next.keys[seed.id].censored == seed.censored
            &&& next.keys[seed.id].health == seed.health
            &&& next.keys[seed.id].minute == seed.minute
            &&& next.keys[seed.id].hour == seed.hour
            &&& next.keys[seed.id].in_flight == 0
            &&& seed.limits is Some ==> next.keys[seed.id].limits == seed.limits->0
            &&& seed.limits is None ==> next.keys[seed.id].limits == pool.default_limits
            &&& next.keys[seed.id].slot == pool.next_slot
            &&& pool.next_slot < u64::MAX ==> next.next_slot == pool.next_slot + 1
            &&& pool.next_slot == u64::MAX ==> next.next_slot == 0
            &&& forall|other: Seq<char>| other != seed.id ==> #[trigger] next.keys[other]
                == pool.keys[other]
            &&& next.mode == pool.mode
            &&& next.default_limits == pool.default_limits
            &&& next.cursor == pool.cursor
            &&& next.primary == pool.primary
            &&& pool.keys.contains_key(seed.id) ==> next.next_order == pool.next_order
                && next.keys[seed.id].order == pool.keys[seed.id].order
            &&& !pool.keys.contains_key(seed.id) && pool.next_order < usize::MAX
                ==> next.next_order == pool.next_order + 1 && next.keys[seed.id].order
                == pool.next_order
        }),
{
}

/// Removing takes the key out, and its role as the primary; the others stay as
/// they are.
pub proof fn law_removing_takes_the_key_out(pool: PoolView, id: Seq<char>)
    ensures
        ({
            let next = pool.removed(id);
            &&& !next.keys.contains_key(id)
            &&& next.primary != Some(id)
            &&& pool.primary != Some(id) ==> next.primary == pool.primary
            &&& forall|other: Seq<char>|
                other != id ==> (#[trigger] next.keys.contains_key(other)
                    <==> pool.keys.contains_key(other))
            &&& forall|other: Seq<char>|
                other != id && pool.keys.contains_key(other) ==> #[trigger] next.keys[other]
                    == pool.keys[other]
            &&& next.mode == pool.mode
            &&& next.default_limits == pool.default_limits
            &&& next.cursor == pool.cursor
            &&& next.next_order == pool.next_order
            &&& next.next_slot == pool.next_slot
        }),
{
}

/// The end of a lease gives the key it was of one place back, and changes
/// nothing else; a lease of an earlier loading, or of a key that is gone, gives
/// nothing back.
pub proof fn law_release_reaches_one_key(pool: PoolView, lease: LeaseView)
    ensures
        ({
            let next = pool.released(lease);
            &&& next == (PoolView { keys: next.keys, ..pool })
            &&& pool.keys.contains_key(lease.id) && pool.keys[lease.id].slot == lease.slot
                && pool.keys[lease.id].in_flight > 0 ==> next.keys =~= pool.keys.insert(
                lease.id,
                StateView {
                    in_flight: (pool.keys[lease.id].in_flight - 1) as u32,
                    ..pool.keys[lease.id]
                },
            )
            &&& !(pool.keys.contains_key(lease.id) && pool.keys[lease.id].slot == lease.slot)
                ==> next.keys == pool.keys
        }),
{
}

/// A pool is capped exactly where the default limits or those of a loaded key
/// carry a concurrency cap; an empty pool holds nothing, and its first key is to
/// be served first.
pub proof fn law_empty_and_capped(
    pool: PoolView,
    mode: RotationMode,
    limits: KeyLimits,
)
    ensures
        !pool.capped() <==> (pool.default_limits.max_concurrency is None && forall|
            id: Seq<char>,
        | #[trigger]
            pool.keys.contains_key(id) ==> pool.keys[id].limits.max_concurrency is None),
        ({
            let start = PoolView::empty(mode, limits);
            &&& start.wf()
            &&& start.mode == mode
            &&& start.default_limits == limits
            &&& start.cursor == 0
            &&& start.primary is None
            &&& start.next_order == 0
            &&& start.next_slot == 0
            &&& forall|id: Seq<char>| !#[trigger] start.keys.contains_key(id)
        }),
{
}

/// Attempts are made one after the other: the first that leases a key or finds
/// none usable decides, and one that finds the chosen key full is followed by the
/// next.
pub proof fn law_attempts_go_on(pool: PoolView, m: Moment, rest: Seq<Moment>)
    ensures
        pool.attempts(Seq::empty()) == (pool, None::<LeaseView>),
        ({
            let (next, outcome) = pool.round(m);
            let all = pool.attempts(seq![m] + rest);
            &&& outcome matches RoundView::Leased(lease) ==> all == (next, Some(lease))
            &&& outcome is Exhausted ==> all == (next, None::<LeaseView>)
            &&& outcome is Full ==> all == next.attempts(rest)
        }),
{
    assert((seq![m] + rest).drop_first() =~= rest);
}

/// Moments that were read in turn are looks at the one clock, none before the
/// one ahead of it or before the first allowed.
pub proof fn law_moments_run_forward(
    clock: Clock,
    since: Instant,
    moments: Seq<Moment>,
    until: Instant,
    i: int,
    j: int,
)
    requires
        read_in_turn(clock, since, moments, until),
        0 <= i <= j < moments.len(),
    ensures
        read_from(clock, moments[i]),
        since.nanos <= moments[i].at.nanos <= moments[j].at.nanos <= until.nanos,
        moments[moments.len() - 1].at == until,
{
    assert(moments[moments.len() - 1] == moments.last());
}

/// A soonest recovery is that of one of the keys, and no key recovers sooner;
/// where there is none, no key's recovery can be told.
pub proof fn law_soonest_recovery(pool: PoolView, m: Moment, wait: Option<u64>, id: Seq<char>)
    requires
        is_soonest(pool.keys, m, wait),
        pool.keys.contains_key(id),
    ensures
        wait is None ==> pool.keys[id].wait(m) is None,
        wait is Some && pool.keys[id].wait(m) is Some ==> wait->0 <= pool.keys[id].wait(m)->0,
        wait is Some ==> exists|some: Seq<char>| #[trigger]
            pool.keys.contains_key(some) && pool.keys[some].wait(m) == wait,
{
}

/// The unix times of moments, in milliseconds.
pub open spec fn times_of(moments: Seq<Moment>) -> Seq<i64> {
    moments.map_values(|m: Moment| m.ms())
}

/// Whether a pool holds one key alone, which is healthy and limited by nothing but
/// `limit` requests per minute, none of which was used yet.
pub open spec fn one_limited_key(pool: PoolView, id: Seq<char>, limit: u32) -> bool {
    &&& pool.wf()
    &&& pool.keys.contains_key(id)
    &&& forall|other: Seq<char>| #[trigger] pool.keys.contains_key(other) ==> other == id
    &&& pool.keys[id].health is Active
    &&& pool.keys[id].limits.per_minute == Some(limit)
    &&& pool.keys[id].limits.per_hour is None
    &&& pool.keys[id].limits.max_concurrency is None
    &&& pool.keys[id].minute is None
}

proof fn lemma_leases_in_a_row(
    pool: PoolView,
    id: Seq<char>,
    limit: u32,
    moments: Seq<Moment>,
    i: int,
)
    requires
        one_limited_key(pool, id, limit),
        0 <= i <= limit,
        i < moments.len() <= u32::MAX,
        forall|j: int|
            0 <= j < moments.len() ==> (#[trigger] moments[j]).ms() < moments[0].ms() + 60_000,
        moments[0].ms() + 60_000 <= i64::MAX,
    ensures
        ({
            let now = after_rounds(pool, moments.take(i));
            let state = leased_all(pool.keys[id], times_of(moments).take(i));
            &&& now.wf()
            &&& now.mode == pool.mode
            &&& now.keys =~= pool.keys.insert(id, state)
            &&& state.health is Active
            &&& state.limits == pool.keys[id].limits
            &&& state.leasable(moments[i].ms()) <==> i < limit
            &&& state.id == id
        }),
    decreases i,
{
    let times = times_of(moments);
    assert(times.len() == moments.len());
    assert forall|j: int| 0 <= j < times.len() implies #[trigger] times[j] < times[0] + 60_000 by {
        assert(times[j] == moments[j].ms());
    }
    law_minute_quota_is_granted_in_full(pool.keys[id], times, limit, i);
    if i == 0 {
        assert(moments.take(0) =~= Seq::<Moment>::empty());
        assert(times.take(0) =~= Seq::<i64>::empty());
    } else {
        lemma_leases_in_a_row(pool, id, limit, moments, i - 1);
        let before = after_rounds(pool, moments.take(i - 1));
        let m = moments[i - 1];
        assert(moments.take(i).drop_last() =~= moments.take(i - 1));
        assert(moments.take(i).last() == m);
        assert(times.take(i).drop_last() =~= times.take(i - 1));
        assert(times.take(i).last() == m.ms());
        lemma_one_key_round(before, id, m);
    }
}

/// One attempt on a pool of one healthy key without a cap.
proof fn lemma_one_key_round(pool: PoolView, id: Seq<char>, m: Moment)
    requires
        pool.wf(),
        pool.keys.contains_key(id),
        forall|other: Seq<char>| #[trigger] pool.keys.contains_key(other) ==> other == id,
        pool.keys[id].health is Active,
        pool.keys[id].limits.max_concurrency is None,
    ensures
        pool.keys[id].leasable(m.ms()) ==> {
            &&& pool.round(m).1 is Leased
            &&& pool.round(m).0.keys =~= pool.keys.insert(id, pool.keys[id].leased(m.ms()))
            &&& pool.round(m).0.wf()
            &&& pool.round(m).0.mode == pool.mode
        },
        !pool.keys[id].leasable(m.ms()) ==> pool.round(m).1 is Exhausted,
{
    law_only_fit_keys_are_leased(pool, m);
    lemma_round(pool, m);
    if pool.mode is Reactive {
        law_reactive_finds_a_fit_key(pool, m);
    } else {
        law_proactive_takes_a_usable_key(pool, m);
    }
    if pool.keys[id].leasable(m.ms()) {
        assert(pool.keys[id].rate_usable(m));
        assert(fit(pool, id, m));
    }
}

/// A quota is leased in full: of the attempts in a row that fall into one minute,
/// a pool of one key that is limited to so many requests per minute leases the
/// key for exactly so many, in either mode, and is exhausted by the next.
pub proof fn law_quota_is_leased_in_full(
    pool: PoolView,
    id: Seq<char>,
    limit: u32,
    moments: Seq<Moment>,
    i: int,
)
    requires
        one_limited_key(pool, id, limit),
        0 <= i <= limit,
        i < moments.len() <= u32::MAX,
        forall|j: int|
            0 <= j < moments.len() ==> (#[trigger] moments[j]).ms() < moments[0].ms() + 60_000,
        moments[0].ms() + 60_000 <= i64::MAX,
    ensures
        ({
            let outcome = after_rounds(pool, moments.take(i)).round(moments[i]).1;
            &&& i < limit ==> outcome is Leased
            &&& i == limit ==> outcome is Exhausted
        }),
{
    lemma_leases_in_a_row(pool, id, limit, moments, i);
    lemma_one_key_round(after_rounds(pool, moments.take(i)), id, moments[i]);
}

} // verus!
