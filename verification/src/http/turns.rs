//! What a request goes through: from key to key, and from try to try.

use vstd::arithmetic::power2::{lemma_pow2_pos, lemma_pow2_unfold, pow2};
use vstd::prelude::*;

use super::dispatcher::{
    advanced, backed_off, begun, by_the_table, clock_kept, consulted, cooling, decided, drawn_jitter, is_jitter,
    lease_of, looked, quota_reported, rotated, rotating, unreadable, Classified, Event, Execution,
    Step, JITTER_MS,
};
use super::retry_after::asked_cooldown;
use super::laws::{carefree, law_banned_key_is_not_tried_again, left_behind, lemma_counted, tried};
use crate::clock::{read_from, Duration, Instant, Moment, Reading, ORIGIN_NANOS};
use crate::config::PoolConfig;
use crate::engine::choice::{free_of_limits, in_service, law_unlimited_pool_serves};
use crate::engine::laws::{law_attempts_change_one_key, law_recovery_is_known};
use crate::engine::pool::{is_soonest, lease_view, repeated};
use crate::crypto::primitives::lossy_text;
use crate::crypto::random::DrawnNumber;
use crate::engine::{KeyPool, LeasedKey, PoolView};
use crate::error::{AiError, VaultError};
use crate::storage::manager::KeyManager;
use crate::storage::store::{KeyStore, StoreEvent};
use crate::storage::HealthView;
use crate::text::{decimal_text, shortened, text_of};

verus! {

/// Starting a request takes a key whenever one can serve: in a pool of keys
/// without limits, one that is healthy or has ended its cooldown is taken, and
/// as many more may be tried as there are other keys. Where there is none the
/// request fails at once, and no key changes.
pub proof fn law_request_starts_with_a_key<S: KeyStore>(
    before: KeyManager<S>,
    after: KeyManager<S>,
    to: Execution,
    m: Moment,
    step: Step,
)
    requires
        before.pool@.wf(),
        free_of_limits(before.pool@),
        before.pool@.keys.dom().len() <= usize::MAX,
        begun(before, after, to, m, step),
    ensures
        to.lease is Some <==> exists|id: Seq<char>| #[trigger]
            before.pool@.keys.contains_key(id) && in_service(before.pool@.keys[id].health, m.at),
        to.lease is Some ==> {
            &&& step is Send
            &&& before.pool@.keys.contains_key(lease_of(to).id)
            &&& in_service(before.pool@.keys[lease_of(to).id].health, m.at)
            &&& lease_of(to).secret == before.pool@.keys[lease_of(to).id].secret
            &&& to.rotations_left == before.pool@.keys.dom().len() - 1
            &&& to.server_retries == 0
        },
        to.lease is None ==> {
            &&& step matches Step::Failed(e) && e is AllKeysExhausted
            &&& after.pool@ == before.pool@
            &&& after.history() == before.history()
        },
{
    let pool = before.pool@;
    law_unlimited_pool_serves(pool, m);
    if to.lease is Some {
        assert(pool.keys.dom().contains(lease_of(to).id));
        vstd::set_lib::lemma_set_empty_equivalency_len(pool.keys.dom());
    }
}

/// A key whose cooldown had ended by a look at the pool's clock that was taken
/// into account counts as usable at every later look, and serves the requests
/// that start then.
pub proof fn law_ended_cooldown_counts<S: KeyStore>(
    before: KeyManager<S>,
    after: KeyManager<S>,
    to: Execution,
    m: Moment,
    step: Step,
    id: Seq<char>,
)
    requires
        before.pool@.wf(),
        free_of_limits(before.pool@),
        before.pool@.keys.dom().len() <= usize::MAX,
        consulted(before.pool, m),
        begun(before, after, to, m, step),
        before.pool@.keys.contains_key(id),
        before.pool@.keys[id].health matches HealthView::Cooldown { retry_after }
            && retry_after.nanos <= before.pool.latest().nanos,
    ensures
        before.pool@.keys[id].health.usable(m.at),
        before.pool@.keys[id].rate_usable(m),
        to.lease is Some,
        step is Send,
{
    assert(in_service(before.pool@.keys[id].health, m.at));
    law_request_starts_with_a_key(before, after, to, m, step);
}

/// A look at the clock is never before one that was taken into account, nor
/// before the clock started.
pub proof fn law_clock_runs_forward(pool: KeyPool, m: Moment)
    requires
        consulted(pool, m),
    ensures
        m.at.nanos >= pool.latest().nanos,
        m.at.nanos >= ORIGIN_NANOS,
        exists|reading: Reading| #[trigger]
            reading.source() == pool.timepiece() && reading.shown() == m,
{
}

/// A look that was taken into account is a lower bound for every later one: two
/// looks at a pool's clock, one after the other, never go back.
pub proof fn law_later_looks_are_not_earlier(
    first: KeyPool,
    second: KeyPool,
    third: KeyPool,
    m: Moment,
    later: Moment,
    noted: bool,
)
    requires
        looked(first, second, m, true),
        looked(second, third, later, noted),
    ensures
        m.at.nanos <= later.at.nanos,
        third.timepiece() == first.timepiece(),
        third.latest().nanos >= m.at.nanos,
        read_from(first.timepiece(), later),
{
}

/// Whether every key is without limits and either healthy, or banned, or cooling
/// beyond `at`.
pub open spec fn settled(pool: PoolView, at: Instant) -> bool {
    &&& free_of_limits(pool)
    &&& forall|id: Seq<char>| #[trigger]
        pool.keys.contains_key(id) ==> (pool.keys[id].health is Active
            || pool.keys[id].health is Banned || (pool.keys[id].health is Cooldown && at.nanos
            < pool.keys[id].health->retry_after.nanos))
}

/// After a refused key the request goes on as long as another key can serve it:
/// with tries left and another healthy key, the next try is with a healthy key
/// other than the refused one, and exactly one try is used up. No other key's
/// health changes.
pub proof fn law_refusal_turns_to_another_key<S: KeyStore>(
    config: PoolConfig,
    before: KeyManager<S>,
    after: KeyManager<S>,
    from: Execution,
    to: Execution,
    reason: String,
    m: Moment,
    extra: Duration,
    step: Step,
    other: Seq<char>,
)
    requires
        before.pool@.wf(),
        settled(before.pool@, m.at),
        from.lease is Some,
        from.rotations_left > 0,
        before.pool@.keys.contains_key(other),
        other != lease_of(from).id,
        before.pool@.keys[other].health is Active,
        decided(config, before, after, from, to, Classified::RotateBan(reason), m, extra, step),
    ensures
        step is Send,
        to.lease is Some,
        lease_of(to).id != lease_of(from).id,
        before.pool@.keys.contains_key(lease_of(to).id),
        before.pool@.keys[lease_of(to).id].health is Active,
        lease_of(to).secret == before.pool@.keys[lease_of(to).id].secret,
        to.rotations_left == from.rotations_left - 1,
        to.server_retries == 0,
        before.pool@.keys.contains_key(lease_of(from).id)
            ==> after.pool@.keys[lease_of(from).id].health == (HealthView::Banned {
            reason: reason@,
        }),
        forall|id: Seq<char>|
            before.pool@.keys.contains_key(id) && id != lease_of(from).id
                ==> #[trigger] after.pool@.keys[id].health == before.pool@.keys[id].health,
{
    let pool = left_behind(before.pool@, from, HealthView::Banned { reason: reason@ });
    assert(pool.wf());
    assert(free_of_limits(pool));
    assert(pool.keys.contains_key(other) && in_service(pool.keys[other].health, m.at));
    law_unlimited_pool_serves(pool, m);
    law_banned_key_is_not_tried_again(
        config,
        before,
        after,
        from,
        to,
        reason,
        m,
        extra,
        step,
    );
    assert(pool.keys.contains_key(lease_of(to).id));
    assert(before.pool@.keys.contains_key(lease_of(to).id));
}

/// After a rate-limited key, in the same way: one try is used up, and the next
/// is with another healthy key.
pub proof fn law_rate_limit_uses_up_one_try<S: KeyStore>(
    config: PoolConfig,
    before: KeyManager<S>,
    after: KeyManager<S>,
    from: Execution,
    to: Execution,
    wait: Duration,
    m: Moment,
    extra: Duration,
    step: Step,
    other: Seq<char>,
)
    requires
        before.pool@.wf(),
        settled(before.pool@, m.at),
        from.lease is Some,
        from.rotations_left > 0,
        before.pool@.keys.contains_key(other),
        other != lease_of(from).id,
        before.pool@.keys[other].health is Active,
        wait.nanos + extra.nanos > 0,
        m.at.nanos + wait.nanos + extra.nanos <= u128::MAX,
        decided(config, before, after, from, to, Classified::RotateCooldown(wait), m, extra, step),
    ensures
        step is Send,
        to.lease is Some,
        lease_of(to).id != lease_of(from).id,
        before.pool@.keys.contains_key(lease_of(to).id),
        before.pool@.keys[lease_of(to).id].health is Active,
        to.rotations_left == from.rotations_left - 1,
        to.server_retries == 0,
        before.pool@.keys.contains_key(lease_of(from).id)
            ==> after.pool@.keys[lease_of(from).id].health == (HealthView::Cooldown {
            retry_after: Instant { nanos: (m.at.nanos + wait.nanos + extra.nanos) as u128 },
        }),
{
    let health = cooling(m.at, wait, extra);
    let pool = left_behind(before.pool@, from, health);
    assert(health == HealthView::Cooldown {
        retry_after: Instant { nanos: (m.at.nanos + wait.nanos + extra.nanos) as u128 },
    });
    assert(pool.wf());
    assert(free_of_limits(pool));
    assert(pool.keys.contains_key(other) && in_service(pool.keys[other].health, m.at));
    law_unlimited_pool_serves(pool, m);
    let taken = lease_of(to).id;
    assert(pool.keys.contains_key(taken));
    assert(before.pool@.keys.contains_key(taken));
    assert(pool.keys.contains_key(lease_of(from).id)
        ==> pool.keys[lease_of(from).id].health == health);
}

/// With no try left the request fails when the key in use is refused or rate
/// limited, and no key is leased for it.
pub proof fn law_last_try_ends_the_request<S: KeyStore>(
    config: PoolConfig,
    before: KeyManager<S>,
    after: KeyManager<S>,
    from: Execution,
    to: Execution,
    class: Classified,
    m: Moment,
    extra: Duration,
    step: Step,
)
    requires
        from.lease is Some,
        from.rotations_left == 0,
        class is RotateBan || class is RotateCooldown,
        decided(config, before, after, from, to, class, m, extra, step),
    ensures
        step matches Step::Failed(e) && e is AllKeysExhausted,
        to.lease is None,
{
}

/// A response that succeeds ends the request with the lease in use, and nothing
/// else changes.
pub proof fn law_success_hands_over_the_lease<S: KeyStore>(
    config: PoolConfig,
    before: KeyManager<S>,
    after: KeyManager<S>,
    from: Execution,
    to: Execution,
    event: Event,
    m: Moment,
    extra: Duration,
    step: Step,
)
    requires
        from.lease is Some,
        event matches Event::Response { status, .. } && 200 <= status <= 299,
        advanced(config, before, after, from, to, event, m, extra, step),
    ensures
        step matches Step::Done(lease) && lease == from.lease->0,
        to.lease is None,
        after == before,
{
}

/// A request that fails for its own sake says why: a timeout as such, a lost
/// connection with what was said of it, a client error with its status and body.
pub proof fn law_failures_say_why<S: KeyStore>(
    config: PoolConfig,
    before: KeyManager<S>,
    after: KeyManager<S>,
    from: Execution,
    to: Execution,
    event: Event,
    m: Moment,
    extra: Duration,
    step: Step,
)
    requires
        from.lease is Some,
        advanced(config, before, after, from, to, event, m, extra, step),
    ensures
        event is TimedOut ==> (step matches Step::Failed(e) && e is Timeout),
        event matches Event::Disconnected(why) ==> (step matches Step::Failed(AiError::Network(told))
            && told@ == why@),
        event matches Event::Response { status, body, .. } ==> {
            &&& status == 400 || status == 404 || status == 422 ==> (
            step matches Step::Failed(AiError::BadRequest { status: s, body: b }) && s == status
                && b@ == body@)
            &&& step is Failed ==> to.lease is None
        },
        event is TimedOut || event is Disconnected ==> to.lease is None,
        event is Waited ==> step is Send && to == from && after == before,
{
}

// ---------------------------------------------------------------------------
// A request that is turned away throughout
// ---------------------------------------------------------------------------
/// A request all of whose attempts are refused or rate limited, as `classes`
/// say: `managers`, `executions` and `steps` are what each step led to, and
/// `ticks` the moment and the jitter of each. Every step but the last went on to
/// another attempt.
pub open spec fn turned_away<S: KeyStore>(
    config: PoolConfig,
    classes: Seq<Classified>,
    before: KeyManager<S>,
    managers: Seq<KeyManager<S>>,
    executions: Seq<Execution>,
    steps: Seq<Step>,
    ticks: Seq<(Moment, Duration)>,
) -> bool {
    &&& managers.len() > 0
    &&& executions.len() == managers.len()
    &&& steps.len() == managers.len()
    &&& ticks.len() == managers.len()
    &&& classes.len() == managers.len()
    &&& begun(before, managers[0], executions[0], ticks[0].0, steps[0])
    &&& forall|i: int|
        0 < i < managers.len() ==> {
            &&& executions[i - 1].lease is Some
            &&& classes[i] is RotateBan || classes[i] is RotateCooldown
            &&& decided(
                config,
                managers[i - 1],
                #[trigger] managers[i],
                executions[i - 1],
                executions[i],
                classes[i],
                ticks[i].0,
                ticks[i].1,
                steps[i],
            )
        }
}

/// Whether the request is over before the first of its rate-limited keys has
/// cooled. Refused keys do not come back at all.
pub open spec fn brisk(classes: Seq<Classified>, ticks: Seq<(Moment, Duration)>) -> bool {
    forall|i: int, j: int|
        #![trigger classes[i], ticks[j]]
        0 < i <= j < ticks.len() ==> (classes[i] matches Classified::RotateCooldown(wait) ==> {
            &&& ticks[j].0.at.nanos < ticks[i].0.at.nanos + wait.nanos + ticks[i].1.nanos
            &&& ticks[i].0.at.nanos + wait.nanos + ticks[i].1.nanos <= u128::MAX
        })
}

/// The health that a step gave the key it turned away from.
pub open spec fn verdict(class: Classified, tick: (Moment, Duration)) -> HealthView {
    match class {
        Classified::RotateCooldown(wait) => cooling(tick.0.at, wait, tick.1),
        Classified::RotateBan(reason) => HealthView::Banned { reason: reason@ },
        _ => HealthView::Active,
    }
}

/// Where such a request stands after step `i`.
spec fn passing(
    start: PoolView,
    pool: PoolView,
    classes: Seq<Classified>,
    executions: Seq<Execution>,
    ticks: Seq<(Moment, Duration)>,
    i: int,
) -> bool {
    let done = tried(executions, i);
    &&& pool.wf()
    &&& pool.keys.dom() == start.keys.dom()
    &&& done.no_duplicates()
    &&& forall|j: int| 0 <= j < i ==> start.keys.contains_key(#[trigger] done[j])
    &&& free_of_limits(pool)
    &&& forall|id: Seq<char>| #[trigger]
        pool.keys.contains_key(id) && !done.contains(id) ==> pool.keys[id].health is Active
    &&& forall|j: int|
        0 <= j < i ==> pool.keys[#[trigger] done[j]].health == verdict(classes[j + 1], ticks[j + 1])
}

proof fn lemma_away(
    classes: Seq<Classified>,
    ticks: Seq<(Moment, Duration)>,
    j: int,
    m: Moment,
    i: int,
)
    requires
        brisk(classes, ticks),
        classes.len() == ticks.len(),
        0 < j <= i < ticks.len(),
        classes[j] is RotateBan || classes[j] is RotateCooldown,
        m == ticks[i].0,
    ensures
        !in_service(verdict(classes[j], ticks[j]), m.at),
{
    if let Classified::RotateCooldown(wait) = classes[j] {
        assert(ticks[i].0.at.nanos < ticks[j].0.at.nanos + wait.nanos + ticks[j].1.nanos);
    }
}

/// Taking the next key takes one that was not tried, where there is one.
proof fn lemma_next<S: KeyStore>(
    config: PoolConfig,
    before: KeyManager<S>,
    managers: Seq<KeyManager<S>>,
    steps: Seq<Step>,
    start: PoolView,
    pool: PoolView,
    classes: Seq<Classified>,
    executions: Seq<Execution>,
    ticks: Seq<(Moment, Duration)>,
    i: int,
    m: Moment,
)
    requires
        start.wf(),
        turned_away(config, classes, before, managers, executions, steps, ticks),
        passing(start, pool, classes, executions, ticks, i),
        brisk(classes, ticks),
        0 <= i < ticks.len(),
        m == ticks[i].0,
    ensures
        pool.attempts(repeated(m)).1 matches Some(taken) ==> {
            &&& start.keys.contains_key(taken.id)
            &&& !tried(executions, i).contains(taken.id)
            &&& passing(start, pool.attempts(repeated(m)).0, classes, executions, ticks, i)
        },
        pool.attempts(repeated(m)).1 is None ==> {
            &&& i == start.keys.dom().len()
            &&& pool.attempts(repeated(m)).0 == pool
        },
{
    let done = tried(executions, i);
    law_unlimited_pool_serves(pool, m);
    assert forall|j: int| 0 <= j < i implies !in_service(
        pool.keys[#[trigger] done[j]].health,
        m.at,
    ) by {
        assert(decided(
            config,
            managers[j],
            managers[j + 1],
            executions[j],
            executions[j + 1],
            classes[j + 1],
            ticks[j + 1].0,
            ticks[j + 1].1,
            steps[j + 1],
        ));
        lemma_away(classes, ticks, j + 1, m, i);
    }
    if let Some(taken) = pool.attempts(repeated(m)).1 {
        let next = pool.attempts(repeated(m)).0;
        assert(next.keys.dom() =~= start.keys.dom());
        assert(start.keys.dom().contains(taken.id));
        if done.contains(taken.id) {
            let j = choose|j: int| 0 <= j < done.len() && done[j] == taken.id;
            assert(!in_service(pool.keys[done[j]].health, m.at));
        }
        assert forall|j: int| 0 <= j < i implies next.keys[#[trigger] done[j]].health == verdict(
            classes[j + 1],
            ticks[j + 1],
        ) by {
            assert(done.contains(done[j]));
        }
        assert forall|id: Seq<char>| #[trigger]
            next.keys.contains_key(id) && !done.contains(id) implies next.keys[id].health is Active by {
            assert(pool.keys.contains_key(id));
        }
        assert(free_of_limits(next)) by {
            assert forall|id: Seq<char>| #[trigger] next.keys.contains_key(id) implies {
                &&& next.keys[id].limits.per_minute is None
                &&& next.keys[id].limits.per_hour is None
                &&& next.keys[id].limits.max_concurrency is None
            } by {
                assert(pool.keys.contains_key(id));
            }
        }
    } else {
        assert forall|id: Seq<char>| #[trigger] start.keys.contains_key(id) implies done.contains(
            id,
        ) by {
            assert(pool.keys.dom().contains(id));
            assert(pool.keys.contains_key(id));
            if !done.contains(id) {
                assert(in_service(pool.keys[id].health, m.at));
            }
        }
        lemma_counted(start, done);
    }
}

proof fn lemma_turned_away<S: KeyStore>(
    config: PoolConfig,
    classes: Seq<Classified>,
    before: KeyManager<S>,
    managers: Seq<KeyManager<S>>,
    executions: Seq<Execution>,
    steps: Seq<Step>,
    ticks: Seq<(Moment, Duration)>,
    i: int,
)
    requires
        before.pool@.wf(),
        carefree(before.pool@),
        before.pool@.keys.dom().len() <= usize::MAX,
        turned_away(config, classes, before, managers, executions, steps, ticks),
        brisk(classes, ticks),
        0 <= i < managers.len(),
    ensures
        passing(before.pool@, managers[i].pool@, classes, executions, ticks, i),
        executions[i].lease is Some ==> {
            &&& before.pool@.keys.contains_key(lease_of(executions[i]).id)
            &&& !tried(executions, i).contains(lease_of(executions[i]).id)
            &&& executions[i].rotations_left == before.pool@.keys.dom().len() - i - 1
            &&& steps[i] is Send
        },
        executions[i].lease is None ==> {
            &&& i == before.pool@.keys.dom().len()
            &&& steps[i] matches Step::Failed(AiError::AllKeysExhausted { retry_in_ms })
                && is_soonest(managers[i].pool@.keys, ticks[i].0, retry_in_ms)
        },
    decreases i,
{
    let start = before.pool@;
    if i == 0 {
        let m = ticks[0].0;
        assert(tried(executions, 0) =~= Seq::<Seq<char>>::empty());
        assert(passing(start, start, classes, executions, ticks, 0));
        lemma_next(
            config, before, managers, steps, start, start, classes, executions, ticks, 0, m,
        );
        if executions[0].lease is Some {
            assert(start.keys.dom().contains(lease_of(executions[0]).id));
            vstd::set_lib::lemma_set_empty_equivalency_len(start.keys.dom());
        }
    } else {
        lemma_turned_away(config, classes, before, managers, executions, steps, ticks, i - 1);
        assert(managers[i] == managers[i]);
        let from = executions[i - 1];
        let m = ticks[i].0;
        let id = lease_of(from).id;
        let health = verdict(classes[i], ticks[i]);
        let was = managers[i - 1].pool@;
        let pool = left_behind(was, from, health);
        let done = tried(executions, i);
        let earlier = tried(executions, i - 1);
        assert(done =~= earlier.push(id));
        assert(was.keys.dom().contains(id));
        assert forall|a: int, b: int| 0 <= a < b < done.len() implies done[a] != done[b] by {
            if b == i - 1 {
                assert(earlier[a] == done[a]);
                assert(earlier.contains(done[a]));
            } else {
                assert(earlier[a] != earlier[b]);
            }
        }
        assert(passing(start, pool, classes, executions, ticks, i)) by {
            assert(pool.keys.dom() =~= start.keys.dom());
            assert forall|j: int| 0 <= j < i implies start.keys.contains_key(#[trigger] done[j]) by {
                if j < i - 1 {
                    assert(earlier[j] == done[j]);
                }
            }
            assert forall|j: int| 0 <= j < i implies pool.keys[#[trigger] done[j]].health == verdict(
                classes[j + 1],
                ticks[j + 1],
            ) by {
                if j < i - 1 {
                    assert(earlier[j] == done[j]);
                    assert(earlier.contains(done[j]));
                }
            }
            assert(free_of_limits(pool)) by {
                assert forall|k: Seq<char>| #[trigger] pool.keys.contains_key(k) implies {
                    &&& pool.keys[k].limits.per_minute is None
                    &&& pool.keys[k].limits.per_hour is None
                    &&& pool.keys[k].limits.max_concurrency is None
                } by {
                    assert(was.keys.contains_key(k));
                }
            }
            assert forall|k: Seq<char>| #[trigger]
                pool.keys.contains_key(k) && !done.contains(k) implies pool.keys[k].health is Active by {
                assert(was.keys.contains_key(k));
                assert(done[i - 1] == id);
                if earlier.contains(k) {
                    let j = choose|j: int| 0 <= j < earlier.len() && earlier[j] == k;
                    assert(done[j] == k);
                }
            }
        }
        lemma_next(
            config, before, managers, steps, start, pool, classes, executions, ticks, i, m,
        );
        if from.rotations_left == 0 {
            lemma_counted(start, done);
        }
    }
}

/// A request that is turned away throughout, refused or rate limited as it comes,
/// tries each key of a pool of healthy keys without limits once and none twice,
/// and only then fails: after as many attempts as there are keys, every key was
/// tried. Where every attempt was refused, the failure names no recovery time.
pub proof fn law_every_key_is_tried_once<S: KeyStore>(
    config: PoolConfig,
    classes: Seq<Classified>,
    before: KeyManager<S>,
    managers: Seq<KeyManager<S>>,
    executions: Seq<Execution>,
    steps: Seq<Step>,
    ticks: Seq<(Moment, Duration)>,
)
    requires
        before.pool@.wf(),
        carefree(before.pool@),
        before.pool@.keys.dom().len() <= usize::MAX,
        turned_away(config, classes, before, managers, executions, steps, ticks),
        brisk(classes, ticks),
    ensures
        ({
            let n = before.pool@.keys.dom().len();
            let last = managers.len() - 1;
            &&& last <= n
            &&& tried(executions, last).no_duplicates()
            &&& executions[last].lease is None <==> last == n
            &&& executions[last].lease is Some ==> {
                &&& steps[last] is Send
                &&& before.pool@.keys.contains_key(lease_of(executions[last]).id)
                &&& !tried(executions, last).contains(lease_of(executions[last]).id)
                &&& executions[last].rotations_left == n - last - 1
            }
            &&& executions[last].lease is None ==> {
                &&& forall|id: Seq<char>| #[trigger]
                    before.pool@.keys.contains_key(id) ==> tried(executions, last).contains(id)
                &&& steps[last] matches Step::Failed(e) && e is AllKeysExhausted
                &&& (forall|i: int| 0 < i < classes.len() ==> #[trigger] classes[i] is RotateBan)
                    ==> (steps[last] matches Step::Failed(
                    AiError::AllKeysExhausted { retry_in_ms },
                ) && retry_in_ms is None)
            }
        }),
{
    let start = before.pool@;
    let last = managers.len() - 1;
    lemma_turned_away(config, classes, before, managers, executions, steps, ticks, last);
    let done = tried(executions, last);
    lemma_counted(start, done);
    let pool = managers[last].pool@;
    if executions[last].lease is Some {
        let more = done.push(lease_of(executions[last]).id);
        assert(more =~= tried(executions, last + 1));
        assert forall|a: int, b: int| 0 <= a < b < more.len() implies more[a] != more[b] by {
            if b == last {
                assert(done.contains(done[a]));
            } else {
                assert(done[a] != done[b]);
            }
        }
        assert forall|j: int| 0 <= j < more.len() implies start.keys.contains_key(
            #[trigger] more[j],
        ) by {
            if j < last {
                assert(done[j] == more[j]);
            }
        }
        lemma_counted(start, more);
    } else {
        lemma_complete(start, done);
        if forall|i: int| 0 < i < classes.len() ==> #[trigger] classes[i] is RotateBan {
            assert forall|id: Seq<char>| #[trigger] pool.keys.contains_key(id) implies pool.keys[id].health
                is Banned by {
                assert(start.keys.dom().contains(id));
                assert(start.keys.contains_key(id));
                let j = choose|j: int| 0 <= j < done.len() && done[j] == id;
                assert(pool.keys[done[j]].health == verdict(classes[j + 1], ticks[j + 1]));
                assert(classes[j + 1] is RotateBan);
            }
            if let Step::Failed(AiError::AllKeysExhausted { retry_in_ms }) = steps[last] {
                law_recovery_is_known(pool, ticks[last].0, retry_in_ms);
            }
        }
    }
}

/// As many distinct keys as there are are all of them.
proof fn lemma_complete(start: PoolView, done: Seq<Seq<char>>)
    requires
        start.wf(),
        done.no_duplicates(),
        forall|j: int| 0 <= j < done.len() ==> start.keys.contains_key(#[trigger] done[j]),
        done.len() == start.keys.dom().len(),
    ensures
        forall|id: Seq<char>| #[trigger] start.keys.contains_key(id) ==> done.contains(id),
{
    done.unique_seq_to_set();
    assert(done.to_set().subset_of(start.keys.dom())) by {
        assert forall|id: Seq<char>| done.to_set().contains(id) implies start.keys.dom().contains(
            id,
        ) by {
            let j = choose|j: int| 0 <= j < done.len() && done[j] == id;
            assert(start.keys.contains_key(done[j]));
        }
    }
    vstd::set_lib::lemma_subset_equality(done.to_set(), start.keys.dom());
    assert forall|id: Seq<char>| #[trigger] start.keys.contains_key(id) implies done.contains(id) by {
        assert(start.keys.dom().contains(id));
        assert(done.to_set().contains(id));
    }
}

// ---------------------------------------------------------------------------
// Server errors
// ---------------------------------------------------------------------------
/// A try that meets a server error: while retries are left it is made again with
/// the same key, after twice the delay of the retry before and the jitter, and
/// exactly one retry is used up; after the last the request fails with that
/// error, and the lease ends.
pub proof fn law_server_error_uses_up_one_retry<S: KeyStore>(
    config: PoolConfig,
    before: KeyManager<S>,
    after: KeyManager<S>,
    from: Execution,
    to: Execution,
    status: u16,
    body: String,
    m: Moment,
    extra: Duration,
    step: Step,
)
    requires
        from.lease is Some,
        decided(
            config,
            before,
            after,
            from,
            to,
            Classified::RetrySameKey { status, body },
            m,
            extra,
            step,
        ),
    ensures
        from.server_retries < config.max_server_error_retries ==> {
            &&& step is Wait
            &&& to.lease == from.lease
            &&& to.server_retries == from.server_retries + 1
            &&& to.rotations_left == from.rotations_left
            &&& after == before
        },
        from.server_retries >= config.max_server_error_retries ==> {
            &&& step matches Step::Failed(AiError::ServerError { status: s, body: b }) && s == status
                && b@ == body@
            &&& to.lease is None
            &&& after.history() == before.history()
            &&& forall|id: Seq<char>|
                before.pool@.keys.contains_key(id) ==> (#[trigger] after.pool@.keys[id]).health
                    == before.pool@.keys[id].health
        },
{
}

/// A request whose tries with one key all meet server errors: `managers`,
/// `executions` and `steps` are what each led to, from the first try on.
pub open spec fn failing_throughout<S: KeyStore>(
    config: PoolConfig,
    errors: Seq<(u16, String)>,
    managers: Seq<KeyManager<S>>,
    executions: Seq<Execution>,
    steps: Seq<Step>,
    ticks: Seq<(Moment, Duration)>,
) -> bool {
    &&& managers.len() > 0
    &&& executions.len() == managers.len()
    &&& steps.len() == managers.len()
    &&& ticks.len() == managers.len()
    &&& errors.len() == managers.len()
    &&& executions[0].lease is Some
    &&& executions[0].server_retries == 0
    &&& forall|i: int|
        0 < i < managers.len() ==> {
            &&& executions[i - 1].lease is Some
            &&& decided(
                config,
                managers[i - 1],
                #[trigger] managers[i],
                executions[i - 1],
                executions[i],
                Classified::RetrySameKey { status: errors[i].0, body: errors[i].1 },
                ticks[i].0,
                ticks[i].1,
                steps[i],
            )
        }
}

/// A key is retried as often as configured and no more: of the tries that all
/// meet a server error, the one after as many retries as are configured is the
/// last, and all of them are with the same key.
pub proof fn law_retries_as_configured<S: KeyStore>(
    config: PoolConfig,
    errors: Seq<(u16, String)>,
    managers: Seq<KeyManager<S>>,
    executions: Seq<Execution>,
    steps: Seq<Step>,
    ticks: Seq<(Moment, Duration)>,
    i: int,
)
    requires
        failing_throughout(config, errors, managers, executions, steps, ticks),
        0 < i < managers.len(),
    ensures
        i <= config.max_server_error_retries + 1,
        i <= config.max_server_error_retries ==> {
            &&& steps[i] is Wait
            &&& executions[i].lease == executions[0].lease
            &&& executions[i].server_retries == i
            &&& managers[i] == managers[0]
        },
        i == config.max_server_error_retries + 1 ==> {
            &&& steps[i] matches Step::Failed(AiError::ServerError { status, body }) && status
                == errors[i].0 && body@ == errors[i].1@
            &&& executions[i].lease is None
        },
    decreases i,
{
    assert(decided(
        config,
        managers[i - 1],
        managers[i],
        executions[i - 1],
        executions[i],
        Classified::RetrySameKey { status: errors[i].0, body: errors[i].1 },
        ticks[i].0,
        ticks[i].1,
        steps[i],
    ));
    if i > 1 {
        law_retries_as_configured(config, errors, managers, executions, steps, ticks, i - 1);
    }
}

/// The delay before a retry is the base delay, doubled for each retry before, as
/// far as a span can be held; the jitter comes on top.
pub proof fn law_delay_doubles(base: Duration, retries: u32)
    requires
        retries < u32::MAX,
    ensures
        backed_off(base, 0) == base,
        ({
            let delay = backed_off(base, retries).nanos;
            let next = backed_off(base, (retries + 1) as u32).nanos;
            &&& 2 * delay <= u128::MAX ==> next == 2 * delay
            &&& 2 * delay > u128::MAX ==> next == u128::MAX
        }),
{
    lemma_pow2_unfold((retries + 1) as nat);
    assert(pow2(0) == 1) by {
        vstd::arithmetic::power2::lemma2_to64();
    }
    let half = pow2(retries as nat);
    lemma_pow2_pos(retries as nat);
    assert(base.nanos * (2 * half) == 2 * (base.nanos * half)) by (nonlinear_arith);
}

/// The wait before a retry is that delay and the jitter.
pub proof fn law_wait_before_a_retry<S: KeyStore>(
    config: PoolConfig,
    before: KeyManager<S>,
    after: KeyManager<S>,
    from: Execution,
    to: Execution,
    status: u16,
    body: String,
    m: Moment,
    extra: Duration,
    step: Step,
)
    requires
        from.lease is Some,
        from.server_retries < config.max_server_error_retries,
        decided(
            config,
            before,
            after,
            from,
            to,
            Classified::RetrySameKey { status, body },
            m,
            extra,
            step,
        ),
    ensures
        from.server_retries == 0 && config.backoff_base.nanos + extra.nanos <= u128::MAX ==> (
        step matches Step::Wait(span) && span.nanos == config.backoff_base.nanos + extra.nanos),
        step matches Step::Wait(span) && span.nanos >= extra.nanos && span.nanos
            >= config.backoff_base.nanos,
{
    let delay = backed_off(config.backoff_base, from.server_retries);
    assert(pow2(0) == 1) by {
        vstd::arithmetic::power2::lemma2_to64();
    }
    assert(config.backoff_base.nanos * 1 == config.backoff_base.nanos);
    lemma_pow2_pos(from.server_retries as nat);
    let factor = pow2(from.server_retries as nat);
    assert(config.backoff_base.nanos * factor >= config.backoff_base.nanos) by (nonlinear_arith)
        requires
            factor >= 1,
    ;
}

// ---------------------------------------------------------------------------
// Statuses
// ---------------------------------------------------------------------------
/// Every status has one meaning: success, a rate limit, a refused key, a request
/// at fault, a server error, or one that is not expected.
pub proof fn law_statuses(
    status: u16,
    header: Option<Seq<char>>,
    body: Seq<char>,
    unix: Duration,
    fallback: Duration,
    class: Classified,
)
    requires
        by_the_table(status, header, body, unix, fallback, class),
    ensures
        class is Success <==> status / 100 == 2,
        class is RotateCooldown <==> status == 429,
        class is RotateBan <==> status == 401 || status == 403,
        class is RetrySameKey <==> status / 100 == 5,
        class is FailFast <==> status / 100 != 2 && status / 100 != 5 && status != 429 && status
            != 401 && status != 403,
        class matches Classified::RotateCooldown(wait) ==> wait == asked_cooldown(
            header,
            unix,
            fallback,
        ),
        class matches Classified::RotateCooldown(wait) ==> header is None ==> wait == fallback,
        class matches Classified::RotateBan(reason) ==> reason@ == "http "@ + decimal_text(
            status as nat,
        ) + ": "@ + shortened(body, 200),
        class matches Classified::RetrySameKey { status: s, body: b } ==> s == status && b@ == body,
        class matches Classified::FailFast(e) ==> {
            &&& status == 400 || status == 404 || status == 422 ==> (
            e matches AiError::BadRequest { status: s, body: b } && s == status && b@ == body)
            &&& status != 400 && status != 404 && status != 422 ==> (
            e matches AiError::UnexpectedStatus { status: s, body: b } && s == status && b@ == body)
        },
{
}

/// A refused key is banned for the status and the beginning of the body, in the
/// pool and in the store, and no other key's health changes.
pub proof fn law_refused_key_is_banned<S: KeyStore>(
    config: PoolConfig,
    before: KeyManager<S>,
    after: KeyManager<S>,
    from: Execution,
    to: Execution,
    event: Event,
    m: Moment,
    extra: Duration,
    step: Step,
)
    requires
        before.pool@.wf(),
        from.lease is Some,
        before.pool@.keys.contains_key(lease_of(from).id),
        event matches Event::Response { status, .. } && (status == 401 || status == 403),
        advanced(config, before, after, from, to, event, m, extra, step),
    ensures
        ({
            let id = lease_of(from).id;
            let reason = "http "@ + decimal_text(event->status as nat) + ": "@ + shortened(
                event->body@,
                200,
            );
            &&& after.pool@.keys.contains_key(id)
            &&& after.pool@.keys[id].health == (HealthView::Banned { reason })
            &&& to.lease is Some ==> lease_of(to).id != id
        }),
{
    let class = choose|class: Classified| #[trigger]
        by_the_table(
            event->status,
            text_of(event->retry_after),
            event->body@,
            m.unix,
            config.default_cooldown,
            class,
        ) && decided(config, before, after, from, to, class, m, extra, step);
    law_banned_key_is_not_tried_again(
        config,
        before,
        after,
        from,
        to,
        class->RotateBan_0,
        m,
        extra,
        step,
    );
}

/// Jitter is a whole number of milliseconds below half a second, and a health of
/// cooling ends the wait and the jitter after it began.
pub proof fn law_jitter_and_cooling(span: Duration, at: Instant, wait: Duration)
    ensures
        is_jitter(span) ==> span.nanos < 500_000_000 && span.nanos % 1_000_000 == 0,
        drawn_jitter(span) ==> is_jitter(span),
        cooling(at, wait, span) is Cooldown,
        at.nanos + wait.nanos + span.nanos <= u128::MAX ==> cooling(
            at,
            wait,
            span,
        )->retry_after.nanos == at.nanos + wait.nanos + span.nanos,
{
    if is_jitter(span) {
        let ms = choose|ms: u64| ms < JITTER_MS && span == #[trigger] Duration::of_millis(ms);
        assert(span.nanos == ms * 1_000_000);
    }
}

/// What the store is told of a key after a lease: its windows as they are, and
/// its limits where they are its own; nothing of a key without rate limits.
pub proof fn law_usage_is_told(
    before: Seq<StoreEvent>,
    after: Seq<StoreEvent>,
    pool: PoolView,
    id: Seq<char>,
)
    requires
        pool.keys.contains_key(id),
        quota_reported(before, after, pool, id),
    ensures
        pool.keys[id].limits.per_minute is None && pool.keys[id].limits.per_hour is None ==> after
            == before,
        pool.keys[id].limits.per_minute is Some || pool.keys[id].limits.per_hour is Some ==> {
            &&& after.len() == before.len() + 1
            &&& after.drop_last() == before
            &&& after.last() matches StoreEvent::UpdateQuota { id: told, limits, minute, hour, .. }
                && told == id && minute == pool.keys[id].minute && hour == pool.keys[id].hour && (
            pool.keys[id].limits == pool.default_limits ==> limits is None) && (
            pool.keys[id].limits != pool.default_limits ==> limits == Some(pool.keys[id].limits))
        },
{
}

/// Whatever comes of a request, the master key stays, and what the store was told
/// before stays told.
pub proof fn law_request_leaves_the_vault_alone<S: KeyStore>(
    config: PoolConfig,
    before: KeyManager<S>,
    after: KeyManager<S>,
    from: Execution,
    to: Execution,
    class: Classified,
    m: Moment,
    extra: Duration,
    step: Step,
)
    requires
        from.lease is Some,
        decided(config, before, after, from, to, class, m, extra, step) || begun(
            before,
            after,
            to,
            m,
            step,
        ),
    ensures
        after.vault.envelope == before.vault.envelope,
        after.history().len() >= before.history().len(),
        after.history().take(before.history().len() as int) == before.history(),
{
    let old_events = before.history();
    let n = old_events.len() as int;
    let now = after.history();
    assert(old_events.take(n) =~= old_events);
    if begun(before, after, to, m, step) {
        if now != old_events {
            assert(now.take(n) =~= now.drop_last());
        }
    } else if class is RotateBan || class is RotateCooldown {
        let id = lease_of(from).id;
        let health = verdict(class, (m, extra));
        let reply = choose|reply: Result<(), VaultError>| #[trigger]
            rotated(
                left_behind(before.pool@, from, health),
                old_events.push(StoreEvent::UpdateHealth { id, health, reply }),
                after.pool@,
                now,
                from.rotations_left,
                to,
                m,
                step,
            );
        let told = old_events.push(StoreEvent::UpdateHealth { id, health, reply });
        assert(told.take(n) =~= old_events);
        if now != told {
            assert(now.drop_last() == told);
            assert(now.take(n) =~= told.take(n));
        }
    }
}

/// A key that is turned away from is reported to the store first, with its new
/// health.
pub proof fn law_new_health_is_told_first<S: KeyStore>(
    config: PoolConfig,
    before: KeyManager<S>,
    after: KeyManager<S>,
    from: Execution,
    to: Execution,
    class: Classified,
    m: Moment,
    extra: Duration,
    step: Step,
)
    requires
        from.lease is Some,
        class is RotateBan || class is RotateCooldown,
        decided(config, before, after, from, to, class, m, extra, step),
    ensures
        after.history().len() > before.history().len(),
        after.history()[before.history().len() as int] matches StoreEvent::UpdateHealth {
            id,
            health,
            ..
        } && id == lease_of(from).id && (class matches Classified::RotateBan(reason) ==> health == (
        HealthView::Banned { reason: reason@ })) && (class matches Classified::RotateCooldown(wait)
            ==> health is Cooldown),
        to.lease is None ==> after.history().len() == before.history().len() + 1,
{
    let id = lease_of(from).id;
    let health = verdict(class, (m, extra));
    let n = before.history().len() as int;
    let reply = choose|reply: Result<(), VaultError>| #[trigger]
        rotated(
            left_behind(before.pool@, from, health),
            before.history().push(StoreEvent::UpdateHealth { id, health, reply }),
            after.pool@,
            after.history(),
            from.rotations_left,
            to,
            m,
            step,
        );
    let told = before.history().push(StoreEvent::UpdateHealth { id, health, reply });
    assert(told[n] == (StoreEvent::UpdateHealth { id, health, reply }));
    if after.history() != told {
        assert(after.history().drop_last() == told);
        assert(after.history()[n] == after.history().drop_last()[n]);
    }
}

/// The usage that a request starts with is told to the store at once, where the
/// key has a rate limit, so that it survives a restart.
pub proof fn law_first_use_is_told<S: KeyStore>(
    before: KeyManager<S>,
    after: KeyManager<S>,
    to: Execution,
    m: Moment,
    step: Step,
)
    requires
        before.pool@.wf(),
        begun(before, after, to, m, step),
        to.lease is Some,
    ensures
        ({
            let id = lease_of(to).id;
            let key = after.pool@.keys[id];
            &&& after.pool@.keys.contains_key(id)
            &&& key.limits.per_minute is None && key.limits.per_hour is None ==> after.history()
                == before.history()
            &&& key.limits.per_minute is Some || key.limits.per_hour is Some ==> {
                &&& after.history().len() == before.history().len() + 1
                &&& after.history().last() matches StoreEvent::UpdateQuota {
                    id: told,
                    minute,
                    hour,
                    ..
                } && told == id && minute == key.minute && hour == key.hour
            }
        }),
{
    law_attempts_change_one_key(before.pool@, repeated(m));
}

/// A response that cannot be read is reported with what was wrong and the
/// beginning of its body.
pub proof fn law_unreadable_response(why: Seq<char>, bytes: Seq<u8>)
    ensures
        unreadable(why, bytes) == why + "; body: "@ + shortened(lossy_text(bytes), 300),
{
}

/// A lease stands for its id, secret and slot, and no lease for none.
pub proof fn law_lease_views(lease: LeasedKey)
    ensures
        lease_view(Some(lease)) == Some(lease@),
        lease_view(None) is None,
{
}

/// A request that fails for want of a key names the soonest recovery among the
/// keys as they are left.
pub proof fn law_exhaustion_names_the_soonest_recovery<S: KeyStore>(
    config: PoolConfig,
    before: KeyManager<S>,
    after: KeyManager<S>,
    from: Execution,
    to: Execution,
    class: Classified,
    m: Moment,
    extra: Duration,
    step: Step,
    retry_in_ms: Option<u64>,
)
    requires
        from.lease is Some,
        class is RotateBan || class is RotateCooldown,
        decided(config, before, after, from, to, class, m, extra, step) || begun(
            before,
            after,
            to,
            m,
            step,
        ),
        step == Step::Failed(AiError::AllKeysExhausted { retry_in_ms }),
    ensures
        retry_in_ms matches Some(least) ==> {
            &&& exists|id: Seq<char>| #[trigger]
                after.pool@.keys.contains_key(id) && after.pool@.keys[id].wait(m) == Some(least)
            &&& forall|id: Seq<char>| #[trigger]
                after.pool@.keys.contains_key(id) && after.pool@.keys[id].wait(m) is Some ==> least
                    <= after.pool@.keys[id].wait(m)->0
        },
        retry_in_ms is None ==> forall|id: Seq<char>| #[trigger]
            after.pool@.keys.contains_key(id) ==> after.pool@.keys[id].wait(m) is None,
{
}

/// The events that take a request to another key are the responses that refuse
/// or limit the one in use; jitter that was drawn is what is left of a number by
/// half a second, in milliseconds.
pub proof fn law_rotating_events(event: Event, span: Duration)
    ensures
        rotating(event) <==> (event is Response && (event->status == 429 || event->status == 401
            || event->status == 403)),
        drawn_jitter(span) ==> exists|lot: DrawnNumber|
            span.nanos == (#[trigger] lot@ % 500) * 1_000_000,
{
    if drawn_jitter(span) {
        let lot = choose|lot: DrawnNumber|
            span == Duration::of_millis((#[trigger] lot@ % JITTER_MS) as u64);
        assert(span.nanos == (lot@ % 500) * 1_000_000);
    }
}

/// A pool that keeps its clock keeps the latest look at it.
pub proof fn law_clock_is_kept(before: KeyPool, after: KeyPool, m: Moment)
    requires
        clock_kept(before, after),
        consulted(after, m),
    ensures
        after.timepiece() == before.timepiece(),
        consulted(before, m),
{
}

} // verus!
