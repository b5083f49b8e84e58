//! What holds of the pool whatever is done with it.

use vstd::multiset::Multiset;
use vstd::prelude::*;

use super::key::{LeaseView, SeedView, StateView};
use super::pool::{is_soonest, repeated, PoolView, RoundView};
use super::{proactive, reactive};
use crate::clock::{Instant, Moment};
use crate::config::RotationMode;
use crate::order::{is_ordering, law_order_exists};
use crate::quota::{admits, WindowState, HOUR_MS, MINUTE_MS};
use crate::storage::HealthView;

verus! {

/// Whether a key can serve a request at `m`: healthy, inside its rate windows
/// and with room for one more request.
pub open spec fn fit(pool: PoolView, id: Seq<char>, m: Moment) -> bool {
    pool.keys.contains_key(id) && pool.keys[id].rate_usable(m) && !pool.keys[id].saturated()
}

/// The usable ids are the usable keys in order.
pub proof fn lemma_usable(pool: PoolView, m: Moment)
    requires
        pool.wf(),
    ensures
        is_ordering(pool.usable_ranks(m), pool.usable_ids(m)),
        forall|id: Seq<char>| #[trigger]
            pool.usable_ids(m).contains(id) <==> (pool.keys.contains_key(id)
                && pool.keys[id].rate_usable(m)),
{
    let ranks = pool.usable_ranks(m);
    assert(ranks.dom().subset_of(pool.keys.dom()));
    vstd::set_lib::lemma_len_subset(ranks.dom(), pool.keys.dom());
    law_order_exists(ranks);
    let ids = pool.usable_ids(m);
    assert forall|id: Seq<char>| #[trigger] ids.contains(id) <==> (pool.keys.contains_key(id)
        && pool.keys[id].rate_usable(m)) by {
        if ids.contains(id) {
            let i = choose|i: int| 0 <= i < ids.len() && ids[i] == id;
            assert(ranks.contains_key(ids[i]));
        }
        if pool.keys.contains_key(id) && pool.keys[id].rate_usable(m) {
            assert(ranks.contains_key(id));
        }
    }
}

/// Every usable id is listed once, and usable ids come in insertion order.
pub proof fn law_usable_ids_come_in_insertion_order(pool: PoolView, m: Moment, i: int, j: int)
    requires
        pool.wf(),
        0 <= i < j < pool.usable_ids(m).len(),
    ensures
        ({
            let ids = pool.usable_ids(m);
            &&& ids[i] != ids[j]
            &&& pool.keys[ids[i]].order <= pool.keys[ids[j]].order
            &&& forall|id: Seq<char>| #[trigger]
                ids.contains(id) <==> (pool.keys.contains_key(id)
                    && pool.keys[id].rate_usable(m))
        }),
{
    lemma_usable(pool, m);
    let ids = pool.usable_ids(m);
    let ranks = pool.usable_ranks(m);
    assert(crate::order::comes_before(ranks, ids[i], ids[j]));
    crate::text::law_text_order_is_total(ids[i], ids[i], ids[i]);
    assert(ranks.contains_key(ids[i]) && ranks.contains_key(ids[j]));
}

/// Only a key that is fit is leased, with its own secret; the lease counts
/// against that key, and every other key stays as it was. A banned key, a
/// cooling one and one out of quota are never leased.
pub proof fn law_only_fit_keys_are_leased(pool: PoolView, m: Moment)
    requires
        pool.wf(),
    ensures
        pool.round(m).1 matches RoundView::Leased(lease) ==> {
            let next = pool.round(m).0;
            &&& fit(pool, lease.id, m)
            &&& pool.keys[lease.id].health !is Banned
            &&& lease.secret == pool.keys[lease.id].secret
            &&& lease.slot == pool.keys[lease.id].slot
            &&& next.keys == pool.keys.insert(lease.id, pool.keys[lease.id].leased(m.ms()))
        },
{
    lemma_usable(pool, m);
    let ids = pool.usable_ids(m);
    if ids.len() > 0 {
        match pool.mode {
            RotationMode::Proactive => {
                let id = ids[proactive::turn(pool.cursor as int, ids.len() as int)];
                assert(ids.contains(id));
            },
            RotationMode::Reactive => {
                reactive::law_choice_has_capacity(pool.primary, ids, pool.full_ids(m));
            },
        }
    }
}

/// The same holds of several attempts in a row: a key that is leased was fit at
/// one of the moments.
pub proof fn law_attempts_lease_fit_keys(pool: PoolView, moments: Seq<Moment>)
    requires
        pool.wf(),
    ensures
        pool.attempts(moments).1 matches Some(lease) ==> {
            &&& exists|i: int| 0 <= i < moments.len() && fit(pool, lease.id, #[trigger] moments[i])
            &&& lease.secret == pool.keys[lease.id].secret
            &&& pool.keys[lease.id].health !is Banned
        },
    decreases moments.len(),
{
    if moments.len() > 0 {
        law_only_fit_keys_are_leased(pool, moments[0]);
        let (next, outcome) = pool.round(moments[0]);
        match outcome {
            RoundView::Full => {
                if pool.mode is Reactive {
                    law_reactive_finds_a_fit_key(pool, moments[0]);
                }
                let rest = moments.drop_first();
                law_attempts_lease_fit_keys(next, rest);
                if let Some(lease) = next.attempts(rest).1 {
                    let i = choose|i: int|
                        0 <= i < rest.len() && fit(next, lease.id, #[trigger] rest[i]);
                    assert(fit(pool, lease.id, moments[i + 1]));
                }
            },
            RoundView::Leased(lease) => {
                assert(fit(pool, lease.id, moments[0]));
            },
            RoundView::Exhausted => {},
        }
    }
}

/// Where no key is usable nothing is leased, and the pool stays as it is.
pub proof fn law_no_usable_key_no_lease(pool: PoolView, moments: Seq<Moment>)
    requires
        pool.wf(),
        moments.len() > 0,
        forall|id: Seq<char>|
            !(#[trigger] pool.keys.contains_key(id) && pool.keys[id].rate_usable(moments[0])),
    ensures
        pool.attempts(moments) == (pool, None::<LeaseView>),
{
    lemma_usable(pool, moments[0]);
    let ids = pool.usable_ids(moments[0]);
    if ids.len() > 0 {
        assert(ids.contains(ids[0]));
    }
}

/// In reactive mode one attempt decides: a key is leased whenever one is fit,
/// and otherwise the pool is exhausted.
pub proof fn law_reactive_finds_a_fit_key(pool: PoolView, m: Moment)
    requires
        pool.wf(),
        pool.mode is Reactive,
    ensures
        pool.round(m).1 !is Full,
        (exists|id: Seq<char>| #[trigger] fit(pool, id, m)) <==> pool.round(m).1 is Leased,
{
    lemma_usable(pool, m);
    law_only_fit_keys_are_leased(pool, m);
    let ids = pool.usable_ids(m);
    let full = pool.full_ids(m);
    reactive::law_choice_has_capacity(pool.primary, ids, full);
    if exists|id: Seq<char>| #[trigger] fit(pool, id, m) {
        let id = choose|id: Seq<char>| #[trigger] fit(pool, id, m);
        assert(ids.contains(id));
        let i = choose|i: int| 0 <= i < ids.len() && ids[i] == id;
        assert(!full.contains(ids[i]));
    }
    if ids.len() > 0 {
        match reactive::chosen(pool.primary, ids, full) {
            Some(id) => {
                assert(ids.contains(id));
            },
            None => {},
        }
    }
    if let RoundView::Leased(lease) = pool.round(m).1 {
        assert(fit(pool, lease.id, m));
    }
}

/// In proactive mode an attempt fails only for want of a usable key, or on a
/// saturated one.
pub proof fn law_proactive_takes_a_usable_key(pool: PoolView, m: Moment)
    requires
        pool.wf(),
        pool.mode is Proactive,
    ensures
        pool.round(m).1 is Exhausted <==> forall|id: Seq<char>|
            !(#[trigger] pool.keys.contains_key(id) && pool.keys[id].rate_usable(m)),
        pool.round(m).1 is Full ==> exists|id: Seq<char>| #[trigger]
            pool.keys.contains_key(id) && pool.keys[id].saturated(),
{
    lemma_usable(pool, m);
    let ids = pool.usable_ids(m);
    if ids.len() > 0 {
        let id = ids[proactive::turn(pool.cursor as int, ids.len() as int)];
        assert(ids.contains(id));
        assert(pool.keys.contains_key(id) && pool.keys[id].rate_usable(m));
    } else {
        assert forall|id: Seq<char>| !(#[trigger] pool.keys.contains_key(id)
            && pool.keys[id].rate_usable(m)) by {
            assert(!ids.contains(id));
        }
    }
}

/// Sticky: while the primary is fit it serves every request and stays primary.
pub proof fn law_reactive_sticks_to_the_primary(pool: PoolView, m: Moment)
    requires
        pool.wf(),
        pool.mode is Reactive,
        pool.primary is Some,
        fit(pool, pool.primary->0, m),
    ensures
        pool.round(m).1 matches RoundView::Leased(lease) && lease.id == pool.primary->0,
        pool.round(m).0.primary == pool.primary,
{
    lemma_usable(pool, m);
    let ids = pool.usable_ids(m);
    assert(ids.contains(pool.primary->0));
    reactive::law_primary_is_sticky(pool.primary->0, ids, pool.full_ids(m));
}

/// A primary that is usable but saturated keeps its role, whoever serves the
/// request in its place.
pub proof fn law_overflow_spills(pool: PoolView, m: Moment)
    requires
        pool.wf(),
        pool.mode is Reactive,
        pool.primary is Some,
        pool.keys[pool.primary->0].rate_usable(m),
        pool.keys[pool.primary->0].saturated(),
    ensures
        pool.round(m).0.primary == pool.primary,
        pool.round(m).1 matches RoundView::Leased(lease) ==> lease.id != pool.primary->0,
{
    lemma_usable(pool, m);
    law_only_fit_keys_are_leased(pool, m);
    let ids = pool.usable_ids(m);
    assert(ids.contains(pool.primary->0));
    reactive::law_saturated_primary_keeps_its_role(pool.primary->0, ids, pool.full_ids(m));
}

/// Failover: when the primary has become unusable, the key that serves next is
/// the new primary.
pub proof fn law_failover(pool: PoolView, m: Moment)
    requires
        pool.wf(),
        pool.mode is Reactive,
        pool.primary matches Some(current) ==> !pool.keys[current].rate_usable(m),
    ensures
        pool.round(m).1 matches RoundView::Leased(lease) ==> pool.round(m).0.primary == Some(
            lease.id,
        ),
{
    lemma_usable(pool, m);
    let ids = pool.usable_ids(m);
    reactive::law_choice_has_capacity(pool.primary, ids, pool.full_ids(m));
}

/// Releasing a lease gives back what the lease took of the concurrency quota,
/// and nothing of the rate quota.
pub proof fn law_release_frees_the_slot(pool: PoolView, m: Moment)
    requires
        pool.wf(),
    ensures
        pool.round(m).1 matches RoundView::Leased(lease) ==> {
            let after = pool.round(m).0.released(lease);
            &&& after.keys[lease.id] == (StateView {
                in_flight: pool.keys[lease.id].in_flight,
                ..pool.keys[lease.id].leased(m.ms())
            })
            &&& after.keys.dom() == pool.keys.dom()
        },
{
    law_only_fit_keys_are_leased(pool, m);
    if let RoundView::Leased(lease) = pool.round(m).1 {
        assert(pool.round(m).0.released(lease).keys.dom() =~= pool.keys.dom());
    }
}

/// A lease of a key that was loaded anew or removed meanwhile does not count
/// against what is there now.
pub proof fn law_stale_lease_changes_nothing(
    pool: PoolView,
    seed: SeedView,
    lease: LeaseView,
)
    requires
        lease.id == seed.id,
        lease.slot != pool.next_slot,
    ensures
        pool.upserted(seed).released(lease) == pool.upserted(seed),
        pool.removed(lease.id).released(lease) == pool.removed(lease.id),
{
}

/// Loading a known id again keeps its place in the order; a new id comes after
/// all the ones given so far, as long as the counter has not started over.
pub proof fn law_reload_keeps_the_place(pool: PoolView, seed: SeedView)
    ensures
        pool.keys.contains_key(seed.id) ==> pool.upserted(seed).keys[seed.id].order
            == pool.keys[seed.id].order,
        !pool.keys.contains_key(seed.id) && pool.next_order < usize::MAX ==> {
            &&& pool.upserted(seed).keys[seed.id].order == pool.next_order
            &&& pool.upserted(seed).next_order == pool.next_order + 1
        },
        forall|id: Seq<char>|
            id != seed.id && pool.keys.contains_key(id) ==> #[trigger] pool.upserted(
                seed,
            ).keys[id] == pool.keys[id],
{
}

/// A pool in proactive mode whose keys are all healthy and without limits.
pub open spec fn unrestricted(pool: PoolView) -> bool {
    &&& pool.mode is Proactive
    &&& forall|id: Seq<char>| #[trigger]
        pool.keys.contains_key(id) ==> {
            &&& pool.keys[id].health is Active
            &&& pool.keys[id].limits.per_minute is None
            &&& pool.keys[id].limits.per_hour is None
            &&& pool.keys[id].limits.max_concurrency is None
        }
}

/// The pool after one attempt at each of the given moments.
pub open spec fn after_rounds(pool: PoolView, moments: Seq<Moment>) -> PoolView
    decreases moments.len(),
{
    if moments.len() == 0 {
        pool
    } else {
        after_rounds(pool, moments.drop_last()).round(moments.last()).0
    }
}

proof fn lemma_unrestricted_round(pool: PoolView, m: Moment, other: Moment)
    requires
        pool.wf(),
        unrestricted(pool),
        pool.usable_ids(m).len() > 0,
    ensures
        ({
            let ids = pool.usable_ids(m);
            let (next, outcome) = pool.round(m);
            &&& outcome matches RoundView::Leased(lease) && lease.id == ids[proactive::turn(
                pool.cursor as int,
                ids.len() as int,
            )]
            &&& next.cursor == proactive::advanced(pool.cursor)
            &&& next.wf()
            &&& unrestricted(next)
            &&& next.usable_ids(other) == ids
        }),
{
    lemma_usable(pool, m);
    let ids = pool.usable_ids(m);
    let (next, outcome) = pool.round(m);
    let id = ids[proactive::turn(pool.cursor as int, ids.len() as int)];
    assert(ids.contains(id));
    assert(pool.keys[id].leasable(m.ms()));
    assert(next.usable_ranks(other) =~= pool.usable_ranks(m));
}

proof fn lemma_same_ids(pool: PoolView, m: Moment, other: Moment)
    requires
        unrestricted(pool),
    ensures
        pool.usable_ids(m) == pool.usable_ids(other),
{
    assert(pool.usable_ranks(m) =~= pool.usable_ranks(other));
}

proof fn lemma_after_rounds(pool: PoolView, moments: Seq<Moment>, m: Moment)
    requires
        pool.wf(),
        unrestricted(pool),
        pool.usable_ids(m).len() > 0,
        pool.cursor + moments.len() <= usize::MAX,
    ensures
        after_rounds(pool, moments).wf(),
        unrestricted(after_rounds(pool, moments)),
        after_rounds(pool, moments).cursor == pool.cursor + moments.len(),
        after_rounds(pool, moments).usable_ids(m) == pool.usable_ids(m),
    decreases moments.len(),
{
    if moments.len() > 0 {
        lemma_after_rounds(pool, moments.drop_last(), m);
        let before = after_rounds(pool, moments.drop_last());
        lemma_same_ids(before, m, moments.last());
        lemma_unrestricted_round(before, moments.last(), m);
    }
}

/// Round-robin: over a pool of healthy, unlimited keys, the attempt after
/// `moments.len()` others leases the key whose turn it is, so that as many
/// attempts in a row as there are keys serve each key exactly once.
pub proof fn law_round_robin(pool: PoolView, moments: Seq<Moment>, m: Moment)
    requires
        pool.wf(),
        unrestricted(pool),
        pool.usable_ids(m).len() > 0,
        pool.cursor + moments.len() < usize::MAX,
    ensures
        ({
            let ids = pool.usable_ids(m);
            let index = proactive::turn(pool.cursor + moments.len(), ids.len() as int);
            &&& after_rounds(pool, moments).round(m).1 matches RoundView::Leased(lease)
                && lease.id == ids[index]
        }),
        forall|id: Seq<char>| #[trigger]
            pool.keys.contains_key(id) <==> pool.usable_ids(m).contains(id),
{
    lemma_usable(pool, m);
    lemma_after_rounds(pool, moments, m);
    lemma_unrestricted_round(after_rounds(pool, moments), m, m);
}

/// The pool knows when it recovers: there is a recovery time as soon as one
/// blocked key is neither banned nor shut out by a limit of zero, and none where
/// every key is.
pub proof fn law_recovery_is_known(pool: PoolView, m: Moment, wait: Option<u64>)
    requires
        is_soonest(pool.keys, m, wait),
    ensures
        (exists|id: Seq<char>| #[trigger]
            pool.keys.contains_key(id) && pool.keys[id].health !is Banned
                && !pool.keys[id].shut_out() && !pool.keys[id].rate_usable(m)) ==> wait is Some,
        (forall|id: Seq<char>| #[trigger]
            pool.keys.contains_key(id) ==> pool.keys[id].health is Banned
                || pool.keys[id].shut_out()) ==> wait is None,
{
}

/// There is one soonest recovery time.
pub proof fn law_soonest_is_unique(
    pool: PoolView,
    m: Moment,
    one: Option<u64>,
    other: Option<u64>,
)
    requires
        is_soonest(pool.keys, m, one),
        is_soonest(pool.keys, m, other),
    ensures
        one == other,
{
}

/// A key that waits as long as it is told to is usable again, to within the
/// millisecond that a cooldown's remainder is rounded by, and not later.
pub proof fn law_waiting_helps(state: StateView, m: Moment, later: Moment)
    requires
        state.wait(m) is Some,
        later.ms() >= m.ms() + state.wait(m)->0,
        later.at.nanos >= m.at.nanos + (state.wait(m)->0 + 1) * 1_000_000,
    ensures
        state.rate_usable(later),
{
    lemma_window_waits(state.minute, state.limits.per_minute, m, later, MINUTE_MS, state.wait(m)->0);
    lemma_window_waits(state.hour, state.limits.per_hour, m, later, HOUR_MS, state.wait(m)->0);
}

proof fn lemma_window_waits(
    window: Option<WindowState>,
    limit: Option<u32>,
    m: Moment,
    later: Moment,
    len_ms: i64,
    wait: u64,
)
    requires
        limit != Some(0u32),
        crate::quota::wait_of(window, limit, m.ms(), len_ms) matches Some(w) ==> w <= wait,
        later.ms() >= m.ms() + wait,
    ensures
        admits(window, limit, later.ms(), len_ms),
{
}

/// A cooling key rests: attempts at moments before its cooldown ends do not
/// lease it.
pub proof fn law_cooling_key_is_not_leased(
    pool: PoolView,
    moments: Seq<Moment>,
    id: Seq<char>,
    until: Instant,
)
    requires
        pool.wf(),
        pool.keys.contains_key(id),
        pool.keys[id].health == (HealthView::Cooldown { retry_after: until }),
        forall|i: int| 0 <= i < moments.len() ==> (#[trigger] moments[i]).at.nanos < until.nanos,
    ensures
        pool.attempts(moments).1 matches Some(lease) ==> lease.id != id,
{
    law_attempts_lease_fit_keys(pool, moments);
    if let Some(lease) = pool.attempts(moments).1 {
        let i = choose|i: int| 0 <= i < moments.len() && fit(pool, lease.id, #[trigger] moments[i]);
        assert(moments[i].at.nanos < until.nanos);
    }
}

/// What is held of a key for one of its requests.
pub open spec fn ticket(pool: PoolView, id: Seq<char>) -> LeaseView {
    LeaseView { id: pool.keys[id].id, secret: pool.keys[id].secret, slot: pool.keys[id].slot }
}

/// The pools differ in nothing but the health of keys, the cursor and the
/// primary.
pub open spec fn alike(pool: PoolView, next: PoolView) -> bool {
    &&& next.keys.dom() == pool.keys.dom()
    &&& forall|id: Seq<char>| #[trigger]
        pool.keys.contains_key(id) ==> next.keys[id] == (StateView {
            health: next.keys[id].health,
            ..pool.keys[id]
        }) && (pool.keys[id].health is Active || next.keys[id].health == pool.keys[id].health)
    &&& next.mode == pool.mode
    &&& next.default_limits == pool.default_limits
    &&& next.next_order == pool.next_order
    &&& next.next_slot == pool.next_slot
}

/// What one attempt does to a pool.
pub proof fn lemma_round(pool: PoolView, m: Moment)
    requires
        pool.wf(),
    ensures
        pool.round(m).0.wf(),
        pool.round(m).1 is Full ==> pool.round(m).0.keys == pool.keys,
        pool.round(m).1 !is Leased ==> alike(pool, pool.round(m).0),
        pool.round(m).1 matches RoundView::Leased(lease) ==> {
            let next = pool.round(m).0;
            &&& pool.keys.contains_key(lease.id)
            &&& pool.keys[lease.id].leasable(m.ms())
            &&& lease == ticket(pool, lease.id)
            &&& next.keys == pool.keys.insert(lease.id, pool.keys[lease.id].leased(m.ms()))
            &&& next.mode == pool.mode
            &&& next.default_limits == pool.default_limits
            &&& next.next_order == pool.next_order
            &&& next.next_slot == pool.next_slot
        },
{
    lemma_usable(pool, m);
    law_only_fit_keys_are_leased(pool, m);
    let ids = pool.usable_ids(m);
    let next = pool.round(m).0;
    if ids.len() > 0 {
        match pool.mode {
            RotationMode::Proactive => {},
            RotationMode::Reactive => {
                reactive::law_choice_has_capacity(pool.primary, ids, pool.full_ids(m));
                reactive::law_choice_has_capacity(None, ids, pool.full_ids(m));
                if reactive::chosen(pool.primary, ids, pool.full_ids(m)) is None {
                    assert(next.keys.dom() =~= pool.keys.dom());
                }
            },
        }
    }
}

/// What attempts do to a pool: where nothing is leased, nothing but the health
/// of keys changes; where a key is leased, it had room, and it alone changes.
pub proof fn law_attempts_change_one_key(pool: PoolView, moments: Seq<Moment>)
    requires
        pool.wf(),
    ensures
        pool.attempts(moments).0.wf(),
        pool.attempts(moments).0.next_order == pool.next_order,
        pool.attempts(moments).0.mode == pool.mode,
        pool.attempts(moments).1 is None ==> alike(pool, pool.attempts(moments).0),
        pool.attempts(moments).1 matches Some(lease) ==> {
            &&& pool.keys.contains_key(lease.id)
            &&& lease == ticket(pool, lease.id)
            &&& exists|i: int|
                0 <= i < moments.len() && pool.keys[lease.id].leasable((#[trigger] moments[i]).ms())
                    && pool.attempts(moments).0.keys == pool.keys.insert(
                    lease.id,
                    pool.keys[lease.id].leased(moments[i].ms()),
                )
        },
    decreases moments.len(),
{
    if moments.len() > 0 {
        lemma_round(pool, moments[0]);
        let (next, outcome) = pool.round(moments[0]);
        match outcome {
            RoundView::Full => {
                let rest = moments.drop_first();
                law_attempts_change_one_key(next, rest);
                if let Some(lease) = next.attempts(rest).1 {
                    let i = choose|i: int|
                        0 <= i < rest.len() && next.keys[lease.id].leasable(
                            (#[trigger] rest[i]).ms(),
                        ) && next.attempts(rest).0.keys == next.keys.insert(
                            lease.id,
                            next.keys[lease.id].leased(rest[i].ms()),
                        );
                    assert(moments[i + 1] == rest[i]);
                }
            },
            RoundView::Leased(lease) => {
                assert(pool.keys[lease.id].leasable(moments[0].ms()));
            },
            RoundView::Exhausted => {},
        }
    }
}

/// What happens to a pool between loading and removing keys.
pub enum PoolOp {
    /// A lease is asked for, with attempts at these moments.
    Lease(Seq<Moment>),
    /// A lease ends.
    Release(LeaseView),
}

/// The pool, and the leases that are held of it, after one more operation. Only
/// a lease that is held can end.
pub open spec fn performed(pool: PoolView, live: Multiset<LeaseView>, op: PoolOp) -> (
    PoolView,
    Multiset<LeaseView>,
) {
    match op {
        PoolOp::Lease(moments) => {
            let (next, lease) = pool.attempts(moments);
            match lease {
                Some(taken) => (next, live.insert(taken)),
                None => (next, live),
            }
        },
        PoolOp::Release(lease) => if live.count(lease) > 0 {
            (pool.released(lease), live.remove(lease))
        } else {
            (pool, live)
        },
    }
}

/// The pool, and the leases that are held of it, after a run of operations.
pub open spec fn after_run(pool: PoolView, ops: Seq<PoolOp>) -> (PoolView, Multiset<LeaseView>)
    decreases ops.len(),
{
    if ops.len() == 0 {
        (pool, Multiset::empty())
    } else {
        let (before, live) = after_run(pool, ops.drop_last());
        performed(before, live, ops.last())
    }
}

/// Whether a window is within its limit; a window without a limit counts
/// nothing.
pub open spec fn window_kept(window: Option<WindowState>, limit: Option<u32>) -> bool {
    match (window, limit) {
        (Some(w), Some(most)) => w.used <= most,
        (Some(_), None) => false,
        (None, _) => true,
    }
}

/// Whether every key keeps its limits, and has as many requests in flight as
/// leases of it are held.
pub open spec fn limits_kept(pool: PoolView, live: Multiset<LeaseView>) -> bool {
    &&& forall|id: Seq<char>| #[trigger]
        pool.keys.contains_key(id) ==> {
            let state = pool.keys[id];
            &&& state.in_flight == live.count(ticket(pool, id))
            &&& state.limits.max_concurrency matches Some(most) ==> state.in_flight <= most
            &&& window_kept(state.minute, state.limits.per_minute)
            &&& window_kept(state.hour, state.limits.per_hour)
        }
    &&& forall|lease: LeaseView| #[trigger]
        live.count(lease) > 0 ==> pool.keys.contains_key(lease.id) && lease == ticket(
            pool,
            lease.id,
        )
}

/// Whether a pool is about to be used for the first time.
pub open spec fn unused(pool: PoolView) -> bool {
    forall|id: Seq<char>| #[trigger]
        pool.keys.contains_key(id) ==> {
            &&& pool.keys[id].in_flight == 0
            &&& pool.keys[id].minute is None
            &&& pool.keys[id].hour is None
        }
}

/// Whether no counter of requests in flight is at its end in any state of a run
/// before the last. A key with a concurrency cap never gets there.
pub open spec fn countable(pool: PoolView, ops: Seq<PoolOp>) -> bool {
    forall|k: int, id: Seq<char>|
        #![trigger after_run(pool, ops.take(k)).0.keys[id]]
        0 <= k < ops.len() && pool.keys.contains_key(id)
            && pool.keys[id].limits.max_concurrency is None ==> after_run(
            pool,
            ops.take(k),
        ).0.keys[id].in_flight < u32::MAX
}

/// Limits hold throughout: in every state that leases and releases lead to, no
/// window has granted more requests than its limit, no key has more requests in
/// flight than its cap, and as many are in flight as leases are held. (Of a key
/// without a cap, no more requests than can be counted are in flight at once.)
pub proof fn law_limits_hold_throughout(pool: PoolView, ops: Seq<PoolOp>)
    requires
        pool.wf(),
        unused(pool),
        countable(pool, ops),
    ensures
        after_run(pool, ops).0.wf(),
        after_run(pool, ops).0.keys.dom() == pool.keys.dom(),
        forall|id: Seq<char>| #[trigger]
            pool.keys.contains_key(id) ==> after_run(pool, ops).0.keys[id].limits
                == pool.keys[id].limits,
        limits_kept(after_run(pool, ops).0, after_run(pool, ops).1),
    decreases ops.len(),
{
    if ops.len() > 0 {
        let rest = ops.drop_last();
        assert(countable(pool, rest)) by {
            assert forall|k: int, id: Seq<char>|
                #![trigger after_run(pool, rest.take(k)).0.keys[id]]
                0 <= k < rest.len() && pool.keys.contains_key(id)
                    && pool.keys[id].limits.max_concurrency is None implies after_run(
                pool,
                rest.take(k),
            ).0.keys[id].in_flight < u32::MAX by {
                assert(rest.take(k) =~= ops.take(k));
                assert(after_run(pool, ops.take(k)).0.keys[id].in_flight < u32::MAX);
            }
        }
        law_limits_hold_throughout(pool, rest);
        let (before, live) = after_run(pool, rest);
        let (now, held) = after_run(pool, ops);
        match ops.last() {
            PoolOp::Lease(moments) => {
                law_attempts_change_one_key(before, moments);
                if let Some(lease) = before.attempts(moments).1 {
                    let i = choose|i: int|
                        0 <= i < moments.len() && before.keys[lease.id].leasable(
                            (#[trigger] moments[i]).ms(),
                        ) && now.keys == before.keys.insert(
                            lease.id,
                            before.keys[lease.id].leased(moments[i].ms()),
                        );
                    assert(pool.keys.contains_key(lease.id));
                    if pool.keys[lease.id].limits.max_concurrency is None {
                        assert(ops.take(ops.len() - 1) =~= rest);
                        assert(after_run(pool, ops.take(ops.len() - 1)).0.keys[lease.id].in_flight
                            < u32::MAX);
                    }
                    lemma_leased_within(before, now, live, lease, moments[i].ms());
                    assert(now.keys.dom() =~= pool.keys.dom());
                } else {
                    assert(forall|id: Seq<char>| #[trigger]
                        before.keys.contains_key(id) ==> ticket(now, id) == ticket(before, id));
                }
            },
            PoolOp::Release(lease) => {
                if live.count(lease) > 0 {
                    assert(before.keys.contains_key(lease.id));
                    lemma_released_within(before, now, live, lease);
                    assert(now.keys.dom() =~= pool.keys.dom());
                }
            },
        }
    }
}

proof fn lemma_leased_within(
    before: PoolView,
    now: PoolView,
    live: Multiset<LeaseView>,
    lease: LeaseView,
    now_ms: i64,
)
    requires
        before.wf(),
        limits_kept(before, live),
        before.keys.contains_key(lease.id),
        before.keys[lease.id].in_flight < u32::MAX,
        before.keys[lease.id].leasable(now_ms),
        lease == ticket(before, lease.id),
        now.keys == before.keys.insert(lease.id, before.keys[lease.id].leased(now_ms)),
    ensures
        limits_kept(now, live.insert(lease)),
{
    let held = live.insert(lease);
    assert forall|id: Seq<char>| #[trigger] now.keys.contains_key(id) implies {
        let state = now.keys[id];
        &&& state.in_flight == held.count(ticket(now, id))
        &&& state.limits.max_concurrency matches Some(most) ==> state.in_flight <= most
        &&& window_kept(state.minute, state.limits.per_minute)
        &&& window_kept(state.hour, state.limits.per_hour)
    } by {
        assert(before.keys.contains_key(id));
        assert(ticket(now, id) == ticket(before, id));
        if id != lease.id {
            assert(ticket(now, id) != lease);
        }
    }
    assert forall|other: LeaseView| #[trigger] held.count(other) > 0 implies now.keys.contains_key(
        other.id,
    ) && other == ticket(now, other.id) by {
        if other != lease {
            assert(live.count(other) > 0);
        }
        assert(ticket(now, other.id) == ticket(before, other.id));
    }
}

proof fn lemma_released_within(
    before: PoolView,
    now: PoolView,
    live: Multiset<LeaseView>,
    lease: LeaseView,
)
    requires
        before.wf(),
        limits_kept(before, live),
        live.count(lease) > 0,
        now == before.released(lease),
    ensures
        limits_kept(now, live.remove(lease)),
        now.keys == before.keys.insert(lease.id, before.keys[lease.id].released()),
        before.keys[lease.id].in_flight > 0,
        now.wf(),
{
    let held = live.remove(lease);
    assert(before.keys.contains_key(lease.id));
    assert forall|id: Seq<char>| #[trigger] now.keys.contains_key(id) implies {
        let state = now.keys[id];
        &&& state.in_flight == held.count(ticket(now, id))
        &&& state.limits.max_concurrency matches Some(most) ==> state.in_flight <= most
        &&& window_kept(state.minute, state.limits.per_minute)
        &&& window_kept(state.hour, state.limits.per_hour)
    } by {
        assert(before.keys.contains_key(id));
        assert(ticket(now, id) == ticket(before, id));
        if id != lease.id {
            assert(ticket(now, id) != lease);
        }
    }
    assert forall|other: LeaseView| #[trigger] held.count(other) > 0 implies now.keys.contains_key(
        other.id,
    ) && other == ticket(now, other.id) by {
        assert(live.count(other) > 0);
        assert(ticket(now, other.id) == ticket(before, other.id));
    }
}

/// Whether every key came before the next new one.
pub open spec fn in_sequence(pool: PoolView) -> bool {
    forall|id: Seq<char>| #[trigger]
        pool.keys.contains_key(id) ==> pool.keys[id].order < pool.next_order
}

/// A new key comes last: every key there is was given its place before, and
/// nothing that is done to a pool changes that, as long as the counter of new
/// keys has not reached its end.
pub proof fn law_new_key_comes_last(
    pool: PoolView,
    seed: SeedView,
    id: Seq<char>,
    health: HealthView,
    limits: crate::quota::KeyLimits,
    lease: LeaseView,
    moments: Seq<Moment>,
)
    requires
        pool.wf(),
        in_sequence(pool),
        pool.next_order < usize::MAX,
    ensures
        !pool.keys.contains_key(seed.id) ==> forall|other: Seq<char>| #[trigger]
            pool.keys.contains_key(other) ==> pool.keys[other].order < pool.upserted(
                seed,
            ).keys[seed.id].order,
        in_sequence(pool.upserted(seed)),
        in_sequence(pool.removed(id)),
        in_sequence(pool.with_health(id, health)),
        in_sequence(pool.with_limits(id, limits)),
        in_sequence(pool.released(lease)),
        in_sequence(pool.attempts(moments).0),
{
    law_attempts_change_one_key(pool, moments);
    let next = pool.attempts(moments).0;
    assert forall|other: Seq<char>| #[trigger] next.keys.contains_key(other) implies (
    next.keys[other].order < next.next_order) by {
        assert(pool.keys.contains_key(other));
    }
}

/// The empty pool is in sequence.
pub proof fn law_empty_pool_is_in_sequence(
    mode: RotationMode,
    default_limits: crate::quota::KeyLimits,
)
    ensures
        in_sequence(PoolView::empty(mode, default_limits)),
{
}

/// Whether every key is without limits, and either healthy or cooling beyond
/// `at`.
pub open spec fn calm(pool: PoolView, at: Instant) -> bool {
    forall|id: Seq<char>| #[trigger]
        pool.keys.contains_key(id) ==> {
            &&& pool.keys[id].limits.per_minute is None
            &&& pool.keys[id].limits.per_hour is None
            &&& pool.keys[id].limits.max_concurrency is None
            &&& pool.keys[id].health is Active || (
            pool.keys[id].health matches HealthView::Cooldown { retry_after } && at.nanos
                < retry_after.nanos)
        }
}

/// A pool of keys without limits leases a healthy one as long as there is one,
/// and stays as it is otherwise.
pub proof fn law_calm_pool_leases_a_healthy_key(pool: PoolView, m: Moment)
    requires
        pool.wf(),
        calm(pool, m.at),
    ensures
        ({
            let (next, lease) = pool.attempts(repeated(m));
            &&& (exists|id: Seq<char>| #[trigger]
                pool.keys.contains_key(id) && pool.keys[id].health is Active) <==> lease is Some
            &&& lease is None ==> next == pool
            &&& lease matches Some(taken) ==> {
                &&& pool.keys.contains_key(taken.id)
                &&& pool.keys[taken.id].health is Active
                &&& taken == ticket(pool, taken.id)
                &&& next.keys == pool.keys.insert(
                    taken.id,
                    pool.keys[taken.id].leased(m.ms()),
                )
                &&& next.wf()
                &&& next.mode == pool.mode
            }
        }),
{
    let moments = repeated(m);
    assert(moments[0] == m);
    lemma_round(pool, m);
    law_only_fit_keys_are_leased(pool, m);
    if pool.mode is Reactive {
        law_reactive_finds_a_fit_key(pool, m);
    } else {
        law_proactive_takes_a_usable_key(pool, m);
    }
    if exists|id: Seq<char>| #[trigger]
        pool.keys.contains_key(id) && pool.keys[id].health is Active {
        let id = choose|id: Seq<char>| #[trigger]
            pool.keys.contains_key(id) && pool.keys[id].health is Active;
        assert(pool.keys[id].rate_usable(m));
        assert(fit(pool, id, m));
    } else {
        assert forall|id: Seq<char>| !(#[trigger] pool.keys.contains_key(id)
            && pool.keys[id].rate_usable(moments[0])) by {}
        law_no_usable_key_no_lease(pool, moments);
    }
}

} // verus!
