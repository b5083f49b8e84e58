//! What holds of the retry policy whatever the servers answer.

use vstd::prelude::*;

use super::dispatcher::{
    advanced, backed_off, begun, cooling, decided, is_jitter, lease_of, rotated, Classified, Event,
    Execution, Step, JITTER_MS,
};
use crate::clock::{Duration, Instant, Moment};
use crate::config::PoolConfig;
use crate::engine::laws::{
    calm, law_attempts_change_one_key, law_attempts_lease_fit_keys,
    law_calm_pool_leases_a_healthy_key, law_cooling_key_is_not_leased, law_no_usable_key_no_lease,
    law_recovery_is_known,
};
use crate::engine::pool::{is_soonest, repeated};
use crate::engine::{PoolView, StateView};
use crate::error::{AiError, VaultError};
use crate::storage::health::millis_left;
use crate::storage::manager::KeyManager;
use crate::storage::store::{KeyStore, StoreEvent};
use crate::storage::HealthView;

verus! {

/// How many more times a request may be sent at most.
pub open spec fn sends_left(config: PoolConfig, execution: Execution) -> int {
    execution.rotations_left * (config.max_server_error_retries + 1)
        + config.max_server_error_retries - execution.server_retries
}

/// A request ends: each response either ends it or uses up one of finitely many
/// sends. No key is retried more often than configured, and no more keys are
/// tried than one pass over the pool.
pub proof fn law_sends_are_bounded<S: KeyStore>(
    config: PoolConfig,
    before: KeyManager<S>,
    after: KeyManager<S>,
    from: Execution,
    to: Execution,
    class: Classified,
    m: Moment,
    extra: Duration,
    step: Step,
)
    requires
        from.lease is Some,
        from.server_retries <= config.max_server_error_retries,
        decided(config, before, after, from, to, class, m, extra, step),
    ensures
        to.lease is Some ==> {
            &&& sends_left(config, to) < sends_left(config, from)
            &&& to.server_retries <= config.max_server_error_retries
        },
        to.lease is Some <==> step is Send || step is Wait,
        sends_left(config, from) >= 0,
{
    let most = config.max_server_error_retries + 1;
    assert(from.rotations_left * most >= 0) by (nonlinear_arith)
        requires
            from.rotations_left >= 0,
            most > 0,
    ;
    assert((from.rotations_left - 1) * most == from.rotations_left * most - most)
        by (nonlinear_arith);
}

/// The pool from which the next key is taken after the health of a leased key
/// was reported.
pub open spec fn left_behind(pool: PoolView, from: Execution, health: HealthView) -> PoolView {
    pool.with_health(lease_of(from).id, health).released(lease_of(from))
}

/// A refused key is not tried again: after a ban the request goes on with
/// another key, or not at all.
pub proof fn law_banned_key_is_not_tried_again<S: KeyStore>(
    config: PoolConfig,
    before: KeyManager<S>,
    after: KeyManager<S>,
    from: Execution,
    to: Execution,
    reason: String,
    m: Moment,
    extra: Duration,
    step: Step,
)
    requires
        before.pool@.wf(),
        from.lease is Some,
        decided(config, before, after, from, to, Classified::RotateBan(reason), m, extra, step),
    ensures
        to.lease is Some ==> lease_of(to).id != lease_of(from).id,
        before.pool@.keys.contains_key(lease_of(from).id) ==> {
            &&& after.pool@.keys.contains_key(lease_of(from).id)
            &&& after.pool@.keys[lease_of(from).id].health == (HealthView::Banned {
                reason: reason@,
            })
        },
{
    let pool = left_behind(before.pool@, from, HealthView::Banned { reason: reason@ });
    assert(pool.wf());
    law_attempts_lease_fit_keys(pool, repeated(m));
    law_attempts_change_one_key(pool, repeated(m));
}

/// A rate-limited key rests for the time that was asked for, and another key
/// takes its turn: the key cools from the moment of the response on, and unless
/// that is over at once, the request goes on with another key, or not at all.
pub proof fn law_rate_limited_key_rests<S: KeyStore>(
    config: PoolConfig,
    before: KeyManager<S>,
    after: KeyManager<S>,
    from: Execution,
    to: Execution,
    wait: Duration,
    m: Moment,
    extra: Duration,
    step: Step,
)
    requires
        before.pool@.wf(),
        from.lease is Some,
        before.pool@.keys.contains_key(lease_of(from).id),
        wait.nanos + extra.nanos > 0,
        m.at.nanos + wait.nanos + extra.nanos <= u128::MAX,
        decided(config, before, after, from, to, Classified::RotateCooldown(wait), m, extra, step),
    ensures
        to.lease is Some ==> lease_of(to).id != lease_of(from).id,
        ({
            let id = lease_of(from).id;
            let until = Instant { nanos: (m.at.nanos + wait.nanos + extra.nanos) as u128 };
            &&& after.pool@.keys.contains_key(id)
            &&& after.pool@.keys[id].health == (HealthView::Cooldown { retry_after: until })
            &&& after.history().len() > before.history().len()
            &&& after.history()[before.history().len() as int] matches StoreEvent::UpdateHealth {
                id: told,
                health,
                ..
            } && told == id && health == (HealthView::Cooldown { retry_after: until })
        }),
{
    let id = lease_of(from).id;
    let health = cooling(m.at, wait, extra);
    let until = Instant { nanos: (m.at.nanos + wait.nanos + extra.nanos) as u128 };
    assert(m.at.after(wait).after(extra) == until);
    let pool = left_behind(before.pool@, from, health);
    assert(pool.wf());
    assert(pool.keys.contains_key(id) && pool.keys[id].health == health);
    law_cooling_key_is_not_leased(pool, repeated(m), id, m.at.after(wait).after(extra));
    law_attempts_change_one_key(pool, repeated(m));
    let reply = choose|reply: Result<(), VaultError>| #[trigger]
        rotated(
            pool,
            before.history().push(StoreEvent::UpdateHealth { id, health, reply }),
            after.pool@,
            after.history(),
            from.rotations_left,
            to,
            m,
            step,
        );
    let told = before.history().push(StoreEvent::UpdateHealth { id, health, reply });
    assert(told[before.history().len() as int] == (StoreEvent::UpdateHealth { id, health, reply }));
    if after.history() != told {
        assert(after.history().drop_last() == told);
        assert(after.history()[before.history().len() as int]
            == after.history().drop_last()[before.history().len() as int]);
    }
}

/// After a rate limit the request goes on as long as another key can serve it:
/// in a pool of keys without limits, another healthy key takes over, and no
/// other key's health changes.
pub proof fn law_rate_limit_turns_to_another_key<S: KeyStore>(
    config: PoolConfig,
    before: KeyManager<S>,
    after: KeyManager<S>,
    from: Execution,
    to: Execution,
    wait: Duration,
    m: Moment,
    extra: Duration,
    step: Step,
    other: Seq<char>,
)
    requires
        before.pool@.wf(),
        calm(before.pool@, m.at),
        from.lease is Some,
        from.rotations_left > 0,
        before.pool@.keys.contains_key(lease_of(from).id),
        before.pool@.keys.contains_key(other),
        other != lease_of(from).id,
        before.pool@.keys[other].health is Active,
        wait.nanos + extra.nanos > 0,
        m.at.nanos + wait.nanos + extra.nanos <= u128::MAX,
        decided(config, before, after, from, to, Classified::RotateCooldown(wait), m, extra, step),
    ensures
        step is Send,
        to.lease is Some,
        lease_of(to).id != lease_of(from).id,
        before.pool@.keys[lease_of(to).id].health is Active,
        forall|id: Seq<char>|
            before.pool@.keys.contains_key(id) && id != lease_of(from).id
                ==> #[trigger] after.pool@.keys[id].health == before.pool@.keys[id].health,
{
    let pool = left_behind(before.pool@, from, cooling(m.at, wait, extra));
    assert(pool.wf());
    assert(pool.keys.contains_key(other) && pool.keys[other].health is Active);
    law_calm_pool_leases_a_healthy_key(pool, m);
}

/// A pool without a key, or with nothing but banned ones, is told apart from
/// one that only has to wait: the request fails at once, without a recovery
/// time.
pub proof fn law_dead_pool_has_no_recovery<S: KeyStore>(
    before: KeyManager<S>,
    after: KeyManager<S>,
    to: Execution,
    m: Moment,
    step: Step,
)
    requires
        before.pool@.wf(),
        forall|id: Seq<char>| #[trigger]
            before.pool@.keys.contains_key(id) ==> before.pool@.keys[id].health is Banned,
        begun(before, after, to, m, step),
    ensures
        step matches Step::Failed(AiError::AllKeysExhausted { retry_in_ms }) && retry_in_ms is None,
        to.lease is None,
        after.pool@ == before.pool@,
        after.history() == before.history(),
{
    assert(repeated(m)[0] == m);
    law_no_usable_key_no_lease(before.pool@, repeated(m));
    if let Step::Failed(AiError::AllKeysExhausted { retry_in_ms }) = step {
        law_recovery_is_known(before.pool@, m, retry_in_ms);
    }
}

/// Client errors and timeouts burn no key: every key keeps its health, its
/// limits and its windows, and the store is told nothing.
pub proof fn law_failing_fast_spares_the_keys<S: KeyStore>(
    config: PoolConfig,
    before: KeyManager<S>,
    after: KeyManager<S>,
    from: Execution,
    to: Execution,
    event: Event,
    m: Moment,
    extra: Duration,
    step: Step,
    id: Seq<char>,
)
    requires
        from.lease is Some,
        advanced(config, before, after, from, to, event, m, extra, step),
        event is TimedOut || event is Disconnected || (event matches Event::Response { status, .. }
            && (status == 400 || status == 404 || status == 422)),
    ensures
        step is Failed,
        after.history() == before.history(),
        after.pool@.keys.contains_key(id) == before.pool@.keys.contains_key(id),
        before.pool@.keys.contains_key(id) ==> {
            let (old_state, new_state) = (before.pool@.keys[id], after.pool@.keys[id]);
            &&& new_state.health == old_state.health
            &&& new_state.limits == old_state.limits
            &&& new_state.minute == old_state.minute
            &&& new_state.hour == old_state.hour
            &&& id != lease_of(from).id ==> new_state == old_state
        },
{
}

/// Server errors stay with the key: nothing about the pool changes while the
/// same key is retried, and each delay is the base delay doubled once per retry,
/// and the jitter.
pub proof fn law_server_errors_retry_the_same_key<S: KeyStore>(
    config: PoolConfig,
    before: KeyManager<S>,
    after: KeyManager<S>,
    from: Execution,
    to: Execution,
    status: u16,
    body: String,
    m: Moment,
    extra: Duration,
    step: Step,
)
    requires
        from.lease is Some,
        from.server_retries < config.max_server_error_retries,
        decided(
            config,
            before,
            after,
            from,
            to,
            Classified::RetrySameKey { status, body },
            m,
            extra,
            step,
        ),
    ensures
        after == before,
        to.lease == from.lease,
        step matches Step::Wait(span) && span == backed_off(
            config.backoff_base,
            from.server_retries,
        ).sum(extra),
{
}

// ---------------------------------------------------------------------------
// A request that is rate limited throughout
// ---------------------------------------------------------------------------
/// A request all of whose attempts are answered with a rate limit of `wait`:
/// `managers`, `executions` and `steps` are what each step led to, and `ticks`
/// the moment and the jitter of each. Every step but the last went on to another
/// attempt.
pub open spec fn limited_throughout<S: KeyStore>(
    config: PoolConfig,
    wait: Duration,
    before: KeyManager<S>,
    managers: Seq<KeyManager<S>>,
    executions: Seq<Execution>,
    steps: Seq<Step>,
    ticks: Seq<(Moment, Duration)>,
) -> bool {
    &&& managers.len() > 0
    &&& executions.len() == managers.len()
    &&& steps.len() == managers.len()
    &&& ticks.len() == managers.len()
    &&& begun(before, managers[0], executions[0], ticks[0].0, steps[0])
    &&& forall|i: int|
        0 < i < managers.len() ==> {
            &&& executions[i - 1].lease is Some
            &&& decided(
                config,
                managers[i - 1],
                #[trigger] managers[i],
                executions[i - 1],
                executions[i],
                Classified::RotateCooldown(wait),
                ticks[i].0,
                ticks[i].1,
                steps[i],
            )
        }
}

/// The end of the cooldown that starts with a tick.
pub open spec fn rest_end(wait: Duration, tick: (Moment, Duration)) -> Instant {
    tick.0.at.after(wait).after(tick.1)
}

/// Whether the clock runs forward, and so that the whole request falls into the
/// cooldown of each of its keys; the jitter is what it may be.
pub open spec fn swift(wait: Duration, ticks: Seq<(Moment, Duration)>) -> bool {
    &&& forall|i: int, j: int|
        0 <= i <= j < ticks.len() ==> {
            &&& (#[trigger] ticks[i]).0.at.nanos <= (#[trigger] ticks[j]).0.at.nanos
            &&& ticks[j].0.at.nanos < ticks[i].0.at.nanos + wait.nanos + ticks[i].1.nanos
        }
    &&& forall|i: int|
        0 <= i < ticks.len() ==> is_jitter((#[trigger] ticks[i]).1) && ticks[i].0.at.nanos
            + wait.nanos + ticks[i].1.nanos <= u128::MAX
}

/// Whether every key is healthy and without limits.
pub open spec fn carefree(pool: PoolView) -> bool {
    forall|id: Seq<char>| #[trigger]
        pool.keys.contains_key(id) ==> {
            &&& pool.keys[id].limits.per_minute is None
            &&& pool.keys[id].limits.per_hour is None
            &&& pool.keys[id].limits.max_concurrency is None
            &&& pool.keys[id].health is Active
        }
}

/// The ids that were tried up to a step.
pub open spec fn tried(executions: Seq<Execution>, n: int) -> Seq<Seq<char>> {
    Seq::new(n as nat, |i: int| lease_of(executions[i]).id)
}

/// Where a rate-limited request stands after step `i`: the keys that were tried
/// before rest, the others are healthy, and no key was tried twice.
spec fn on_course(
    start: PoolView,
    pool: PoolView,
    wait: Duration,
    executions: Seq<Execution>,
    ticks: Seq<(Moment, Duration)>,
    i: int,
) -> bool {
    let done = tried(executions, i);
    &&& pool.wf()
    &&& pool.keys.dom() == start.keys.dom()
    &&& done.no_duplicates()
    &&& forall|j: int| 0 <= j < i ==> start.keys.contains_key(#[trigger] done[j])
    &&& forall|id: Seq<char>| #[trigger]
        pool.keys.contains_key(id) ==> {
            &&& pool.keys[id].limits.per_minute is None
            &&& pool.keys[id].limits.per_hour is None
            &&& pool.keys[id].limits.max_concurrency is None
            &&& !done.contains(id) ==> pool.keys[id].health is Active
        }
    &&& forall|j: int|
        0 <= j < i ==> pool.keys[#[trigger] done[j]].health == (HealthView::Cooldown {
            retry_after: rest_end(wait, ticks[j + 1]),
        })
}

proof fn lemma_course<S: KeyStore>(
    config: PoolConfig,
    wait: Duration,
    before: KeyManager<S>,
    managers: Seq<KeyManager<S>>,
    executions: Seq<Execution>,
    steps: Seq<Step>,
    ticks: Seq<(Moment, Duration)>,
    i: int,
)
    requires
        before.pool@.wf(),
        carefree(before.pool@),
        before.pool@.keys.dom().len() <= usize::MAX,
        limited_throughout(config, wait, before, managers, executions, steps, ticks),
        swift(wait, ticks),
        0 <= i < managers.len(),
    ensures
        on_course(before.pool@, managers[i].pool@, wait, executions, ticks, i),
        executions[i].lease is Some ==> {
            &&& before.pool@.keys.contains_key(lease_of(executions[i]).id)
            &&& !tried(executions, i).contains(lease_of(executions[i]).id)
            &&& executions[i].rotations_left == before.pool@.keys.dom().len() - i - 1
            &&& steps[i] is Send
        },
        executions[i].lease is None ==> {
            &&& i == before.pool@.keys.dom().len()
            &&& steps[i] matches Step::Failed(AiError::AllKeysExhausted { retry_in_ms })
                && is_soonest(managers[i].pool@.keys, ticks[i].0, retry_in_ms)
        },
    decreases i,
{
    let start = before.pool@;
    if i == 0 {
        let m = ticks[0].0;
        assert(start.wf() && calm(start, m.at));
        assert(tried(executions, 0) =~= Seq::<Seq<char>>::empty());
        lemma_pick(start, start, wait, executions, ticks, 0, m);
        law_calm_pool_leases_a_healthy_key(start, m);
        if executions[0].lease is None {
            lemma_all_tried(start, start, wait, executions, ticks, 0);
        }
    } else {
        lemma_course(config, wait, before, managers, executions, steps, ticks, i - 1);
        assert(managers[i] == managers[i]);
        let from = executions[i - 1];
        let m = ticks[i].0;
        let id = lease_of(from).id;
        let health = cooling(m.at, wait, ticks[i].1);
        let was = managers[i - 1].pool@;
        let pool = left_behind(was, from, health);
        let done = tried(executions, i);
        let earlier = tried(executions, i - 1);
        assert(done =~= earlier.push(id));
        assert forall|a: int, b: int| 0 <= a < b < done.len() implies done[a] != done[b] by {
            if b == i - 1 {
                assert(earlier[a] == done[a]);
                assert(earlier.contains(done[a]));
            } else {
                assert(earlier[a] != earlier[b]);
            }
        }
        assert(on_course(start, pool, wait, executions, ticks, i)) by {
            assert(pool.keys.dom() =~= start.keys.dom());
            assert forall|j: int| 0 <= j < i implies start.keys.contains_key(#[trigger] done[j]) by {
                if j < i - 1 {
                    assert(earlier[j] == done[j]);
                }
            }
            assert forall|j: int| 0 <= j < i implies pool.keys[#[trigger] done[j]].health == (
            HealthView::Cooldown { retry_after: rest_end(wait, ticks[j + 1]) }) by {
                if j < i - 1 {
                    assert(earlier[j] == done[j]);
                    assert(earlier.contains(done[j]));
                }
            }
            assert forall|k: Seq<char>| #[trigger] pool.keys.contains_key(k) implies {
                &&& pool.keys[k].limits.per_minute is None
                &&& pool.keys[k].limits.per_hour is None
                &&& pool.keys[k].limits.max_concurrency is None
                &&& !done.contains(k) ==> pool.keys[k].health is Active
            } by {
                assert(was.keys.contains_key(k));
                if !done.contains(k) {
                    assert(done[i - 1] == id);
                    if earlier.contains(k) {
                        let j = choose|j: int| 0 <= j < earlier.len() && earlier[j] == k;
                        assert(done[j] == k);
                    }
                }
            }
        }
        lemma_pick(start, pool, wait, executions, ticks, i, m);
        if from.rotations_left == 0 {
            lemma_counted(start, done);
        } else {
            law_calm_pool_leases_a_healthy_key(pool, m);
            if executions[i].lease is None {
                lemma_all_tried(start, pool, wait, executions, ticks, i);
            }
        }
    }
}

/// Taking the next key keeps a rate-limited request on course, and takes one
/// that was not tried.
proof fn lemma_pick(
    start: PoolView,
    pool: PoolView,
    wait: Duration,
    executions: Seq<Execution>,
    ticks: Seq<(Moment, Duration)>,
    i: int,
    m: Moment,
)
    requires
        on_course(start, pool, wait, executions, ticks, i),
        swift(wait, ticks),
        0 <= i < ticks.len(),
        m == ticks[i].0,
    ensures
        calm(pool, m.at),
        pool.attempts(repeated(m)).1 matches Some(taken) ==> {
            &&& start.keys.contains_key(taken.id)
            &&& !tried(executions, i).contains(taken.id)
            &&& on_course(start, pool.attempts(repeated(m)).0, wait, executions, ticks, i)
        },
{
    let done = tried(executions, i);
    assert forall|id: Seq<char>| #[trigger] pool.keys.contains_key(id) implies {
        &&& pool.keys[id].limits.per_minute is None
        &&& pool.keys[id].limits.per_hour is None
        &&& pool.keys[id].limits.max_concurrency is None
        &&& pool.keys[id].health is Active || (
        pool.keys[id].health matches HealthView::Cooldown { retry_after } && m.at.nanos
            < retry_after.nanos)
    } by {
        if done.contains(id) {
            let j = choose|j: int| 0 <= j < done.len() && done[j] == id;
            assert(pool.keys[done[j]].health == (HealthView::Cooldown {
                retry_after: rest_end(wait, ticks[j + 1]),
            }));
            assert(ticks[j + 1].0.at.nanos <= ticks[i].0.at.nanos);
        }
    }
    law_calm_pool_leases_a_healthy_key(pool, m);
    if let Some(taken) = pool.attempts(repeated(m)).1 {
        let next = pool.attempts(repeated(m)).0;
        assert(next.keys.dom() =~= start.keys.dom());
        if done.contains(taken.id) {
            let j = choose|j: int| 0 <= j < done.len() && done[j] == taken.id;
            assert(pool.keys[done[j]].health is Cooldown);
        }
        assert forall|j: int| 0 <= j < i implies next.keys[#[trigger] done[j]].health == (
        HealthView::Cooldown { retry_after: rest_end(wait, ticks[j + 1]) }) by {
            assert(done.contains(done[j]));
        }
        assert forall|id: Seq<char>| #[trigger] next.keys.contains_key(id) implies {
            &&& next.keys[id].limits.per_minute is None
            &&& next.keys[id].limits.per_hour is None
            &&& next.keys[id].limits.max_concurrency is None
            &&& !done.contains(id) ==> next.keys[id].health is Active
        } by {
            assert(pool.keys.contains_key(id));
        }
    }
}

/// Distinct keys are no more than there are.
pub proof fn lemma_counted(start: PoolView, done: Seq<Seq<char>>)
    requires
        start.wf(),
        done.no_duplicates(),
        forall|j: int| 0 <= j < done.len() ==> start.keys.contains_key(#[trigger] done[j]),
    ensures
        done.len() <= start.keys.dom().len(),
        (forall|id: Seq<char>| #[trigger] start.keys.contains_key(id) ==> done.contains(id))
            ==> done.len() == start.keys.dom().len(),
{
    done.unique_seq_to_set();
    assert(done.to_set().subset_of(start.keys.dom())) by {
        assert forall|id: Seq<char>| done.to_set().contains(id) implies start.keys.dom().contains(
            id,
        ) by {
            let j = choose|j: int| 0 <= j < done.len() && done[j] == id;
            assert(start.keys.contains_key(done[j]));
        }
    }
    vstd::set_lib::lemma_len_subset(done.to_set(), start.keys.dom());
    if forall|id: Seq<char>| #[trigger] start.keys.contains_key(id) ==> done.contains(id) {
        assert forall|id: Seq<char>| start.keys.dom().contains(id) implies done.to_set().contains(
            id,
        ) by {
            assert(start.keys.contains_key(id));
        }
        assert(done.to_set() =~= start.keys.dom());
    }
}

/// Where no key is healthy any more, every key was tried.
proof fn lemma_all_tried(
    start: PoolView,
    pool: PoolView,
    wait: Duration,
    executions: Seq<Execution>,
    ticks: Seq<(Moment, Duration)>,
    i: int,
)
    requires
        start.wf(),
        0 <= i,
        on_course(start, pool, wait, executions, ticks, i),
        forall|id: Seq<char>|
            !(#[trigger] pool.keys.contains_key(id) && pool.keys[id].health is Active),
    ensures
        i == start.keys.dom().len(),
{
    let done = tried(executions, i);
    assert forall|id: Seq<char>| #[trigger] start.keys.contains_key(id) implies done.contains(id) by {
        assert(pool.keys.contains_key(id));
    }
    lemma_counted(start, done);
}

/// Where every attempt is rate limited, each key is tried once and none twice,
/// and then the request fails with a recovery time that is at most the cooldown
/// and its jitter away; without a key it fails at once and without such a time.
/// This holds of a pool of healthy keys without limits, for a request that is
/// over before the first of its keys has cooled.
pub proof fn law_each_key_is_tried_once<S: KeyStore>(
    config: PoolConfig,
    wait: Duration,
    before: KeyManager<S>,
    managers: Seq<KeyManager<S>>,
    executions: Seq<Execution>,
    steps: Seq<Step>,
    ticks: Seq<(Moment, Duration)>,
)
    requires
        before.pool@.wf(),
        carefree(before.pool@),
        before.pool@.keys.dom().len() <= usize::MAX,
        limited_throughout(config, wait, before, managers, executions, steps, ticks),
        swift(wait, ticks),
    ensures
        ({
            let n = before.pool@.keys.dom().len();
            let last = managers.len() - 1;
            &&& last <= n
            &&& tried(executions, last).no_duplicates()
            &&& executions[last].lease is None <==> last == n
            &&& executions[last].lease is Some ==> !tried(executions, last).contains(
                lease_of(executions[last]).id,
            )
            &&& executions[last].lease is None ==> (
            steps[last] matches Step::Failed(AiError::AllKeysExhausted { retry_in_ms }) && if n
                == 0 {
                retry_in_ms is None
            } else {
                retry_in_ms matches Some(ms) && ms * 1_000_000 <= wait.nanos + 500_000_000
            })
        }),
{
    let start = before.pool@;
    let last = managers.len() - 1;
    lemma_course(config, wait, before, managers, executions, steps, ticks, last);
    let done = tried(executions, last);
    lemma_counted(start, done);
    let pool = managers[last].pool@;
    if executions[last].lease is Some {
        let more = done.push(lease_of(executions[last]).id);
        assert(more =~= tried(executions, last + 1));
        assert forall|a: int, b: int| 0 <= a < b < more.len() implies more[a] != more[b] by {
            if b == last {
                assert(done.contains(done[a]));
            } else {
                assert(done[a] != done[b]);
            }
        }
        assert forall|j: int| 0 <= j < more.len() implies start.keys.contains_key(
            #[trigger] more[j],
        ) by {
            if j < last {
                assert(done[j] == more[j]);
            }
        }
        lemma_counted(start, more);
    } else if let Step::Failed(AiError::AllKeysExhausted { retry_in_ms }) = steps[last] {
        let m = ticks[last].0;
        if last > 0 {
            let id = done[0];
            assert(start.keys.contains_key(id));
            assert(pool.keys.contains_key(id));
            lemma_wait_bound(pool.keys[id], wait, ticks[1], m);
            assert(ticks[1].0.at.nanos <= ticks[last].0.at.nanos);
            assert(is_jitter(ticks[1].1));
        } else {
            assert forall|id: Seq<char>| !#[trigger] pool.keys.contains_key(id) by {
                if pool.keys.contains_key(id) {
                    assert(start.keys.dom().contains(id));
                    vstd::set_lib::lemma_set_empty_equivalency_len(start.keys.dom());
                }
            }
        }
    }
}

proof fn lemma_wait_bound(
    state: StateView,
    wait: Duration,
    tick: (Moment, Duration),
    m: Moment,
)
    requires
        state.limits.per_minute is None,
        state.limits.per_hour is None,
        state.health == (HealthView::Cooldown { retry_after: rest_end(wait, tick) }),
        is_jitter(tick.1),
        tick.0.at.nanos <= m.at.nanos,
        tick.0.at.nanos + wait.nanos + tick.1.nanos <= u128::MAX,
    ensures
        state.wait(m) == Some(millis_left(rest_end(wait, tick).since(m.at))),
        millis_left(rest_end(wait, tick).since(m.at)) * 1_000_000 <= wait.nanos + 500_000_000,
{
    let ms = choose|ms: u64| ms < JITTER_MS && tick.1
        == #[trigger] Duration::of_millis(ms);
    assert(tick.1.nanos == ms * 1_000_000);
    let left = rest_end(wait, tick).since(m.at);
    assert(left.nanos <= wait.nanos + tick.1.nanos);
    assert((left.nanos / 1_000_000) * 1_000_000 <= left.nanos);
}

} // verus!
