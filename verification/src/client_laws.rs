//! What holds of building a client, whatever the keys and the store.

use vstd::prelude::*;

use crate::client::{
    admitted, built, conflicting, distinct_ids, inserts, loaded, refuses_caps, refuses_stored_cap,
    seed_views, seeded, stamp_after, taken, too_long, wired, AiClientBuilder,
};
use crate::clock::on_the_wall;
use crate::config::PoolConfig;
use crate::crypto::{censored, id_of, opened};
use crate::engine::PoolView;
use crate::error::{AiError, VaultError};
use crate::quota::KeyLimits;
use crate::storage::store::StoreEvent;
use crate::storage::vault::{corrupted, fresh_record, opened_keys, DecryptedView};
use crate::text::starts_with;

verus! {

/// A configuration is refused exactly where keys take turns and a concurrency
/// cap is asked for, by default or for one of the keys to be added.
pub proof fn law_caps_are_refused_in_proactive_mode(
    config: PoolConfig,
    seeds: Seq<(Seq<char>, Option<KeyLimits>)>,
)
    ensures
        config.rotation_mode is Reactive ==> !conflicting(config, seeds),
        config.rotation_mode is Proactive ==> (!conflicting(config, seeds) <==> (
        config.default_limits.max_concurrency is None && forall|i: int|
            0 <= i < seeds.len() ==> ((#[trigger] seeds[i]).1 is None
                || seeds[i].1->0.max_concurrency is None))),
{
}

/// The keys to be added are as they were given, with their limits, in order.
pub proof fn law_seed_views(seeds: Seq<(String, Option<KeyLimits>)>, i: int)
    ensures
        seed_views(seeds).len() == seeds.len(),
        0 <= i < seeds.len() ==> seed_views(seeds)[i].0 == seeds[i].0@ && seed_views(seeds)[i].1
            == seeds[i].1,
{
}

/// Keys are loaded one after the other: the next one comes in with all that was
/// read of it, nothing in flight, and the pool's limits where it has none; the
/// keys before it stay as they are.
pub proof fn law_keys_are_loaded_in_order(
    pool: PoolView,
    keys: Seq<DecryptedView>,
    key: DecryptedView,
)
    ensures
        loaded(pool, Seq::empty()) == pool,
        ({
            let before = loaded(pool, keys);
            let after = loaded(pool, keys.push(key));
            let state = after.keys[key.id];
            &&& after.keys.dom() =~= before.keys.dom().insert(key.id)
            &&& state.id == key.id
            &&& state.secret == key.secret
            &&& state.censored == key.censored
            &&& state.health == key.health
            &&& state.minute == key.minute_window
            &&& state.hour == key.hour_window
            &&& state.in_flight == 0
            &&& key.limits is Some ==> state.limits == key.limits->0
            &&& key.limits is None ==> state.limits == before.default_limits
            &&& !before.keys.contains_key(key.id) ==> state.order == before.next_order
            &&& !before.keys.contains_key(key.id) && before.next_order < usize::MAX
                ==> after.next_order == before.next_order + 1
            &&& forall|id: Seq<char>| id != key.id ==> #[trigger] after.keys[id] == before.keys[id]
            &&& after.mode == before.mode
            &&& after.default_limits == before.default_limits
            &&& after.cursor == before.cursor
            &&& after.primary == before.primary
        }),
{
    assert(keys.push(key).drop_last() =~= keys);
}

/// All keys with distinct ids end up in the pool, each with what was read of it,
/// and no other does.
pub proof fn law_every_key_is_loaded(pool: PoolView, keys: Seq<DecryptedView>, i: int)
    requires
        distinct_ids(keys),
        0 <= i < keys.len(),
    ensures
        ({
            let state = loaded(pool, keys).keys[keys[i].id];
            &&& loaded(pool, keys).keys.contains_key(keys[i].id)
            &&& state.id == keys[i].id
            &&& state.secret == keys[i].secret
            &&& state.censored == keys[i].censored
            &&& state.health == keys[i].health
            &&& state.minute == keys[i].minute_window
            &&& state.hour == keys[i].hour_window
            &&& state.in_flight == 0
            &&& keys[i].limits is Some ==> state.limits == keys[i].limits->0
            &&& keys[i].limits is None ==> state.limits == pool.default_limits
        }),
        loaded(pool, keys).default_limits == pool.default_limits,
        loaded(pool, keys).mode == pool.mode,
    decreases keys.len(),
{
    let rest = keys.drop_last();
    assert(rest.push(keys.last()) =~= keys);
    law_keys_are_loaded_in_order(pool, rest, keys.last());
    lemma_settings_stay(pool, rest);
    if i < rest.len() {
        assert forall|a: int, b: int| 0 <= a < b < rest.len() implies (#[trigger] rest[a]).id != (
        #[trigger] rest[b]).id by {
            assert(keys[a].id != keys[b].id);
        }
        law_every_key_is_loaded(pool, rest, i);
        assert(rest[i] == keys[i]);
        assert(keys[i].id != keys[keys.len() - 1].id);
    }
}

proof fn lemma_settings_stay(pool: PoolView, keys: Seq<DecryptedView>)
    ensures
        loaded(pool, keys).default_limits == pool.default_limits,
        loaded(pool, keys).mode == pool.mode,
    decreases keys.len(),
{
    if keys.len() > 0 {
        lemma_settings_stay(pool, keys.drop_last());
    }
}

/// The keys that were read make the pool, in the configured mode and with the
/// configured limits, unless keys take turns and one of them is capped: then
/// there is no pool, and the reason is given.
pub proof fn law_pool_of_the_keys(
    config: PoolConfig,
    keys: Seq<DecryptedView>,
    r: Result<PoolView, AiError>,
)
    requires
        admitted(config, keys, r),
    ensures
        config.rotation_mode is Reactive ==> r is Ok,
        r matches Ok(pool) ==> {
            &&& pool.mode == config.rotation_mode
            &&& pool.default_limits == config.default_limits
            &&& pool == loaded(
                PoolView::empty(config.rotation_mode, config.default_limits),
                keys,
            )
            &&& config.rotation_mode is Proactive ==> {
                &&& config.default_limits.max_concurrency is None
                &&& forall|id: Seq<char>| #[trigger]
                    pool.keys.contains_key(id) ==> pool.keys[id].limits.max_concurrency is None
            }
        },
        r matches Err(e) ==> e is InvalidConfig && config.rotation_mode is Proactive,
{
    lemma_settings_stay(PoolView::empty(config.rotation_mode, config.default_limits), keys);
}

proof fn lemma_inserted(
    events: Seq<StoreEvent>,
    seeds: Seq<(Seq<char>, Option<KeyLimits>)>,
    master: Seq<u8>,
    last: i64,
    i: int,
)
    requires
        inserts(events, seeds, master, last),
        0 <= i < events.len(),
    ensures
        events.len() <= seeds.len(),
        events[i] is Insert,
        events[i]->record.id == id_of(seeds[i].0),
        opened(master, events[i]->record.ciphertext) == Ok::<Seq<char>, Seq<char>>(seeds[i].0),
        events[i]->record.censored == censored(seeds[i].0),
        events[i]->record.limits == seeds[i].1,
        events[i]->record.health is Active,
{
    reveal(inserts);
    let from = if i == 0 {
        last
    } else {
        stamp_after(events, last, i - 1)
    };
    assert(events[i] matches StoreEvent::Insert { record, .. } && fresh_record(
        record,
        master,
        id_of(seeds[i].0),
        seeds[i].0,
        seeds[i].1,
        from,
    ));
}

/// Seeding hands the store a record for each key, in order, under the id that the
/// key gives and sealed so that it opens to the key; it stops at the first that
/// the store does not take, or that is too long to be sealed, and succeeds
/// exactly where there is none.
pub proof fn law_seeding_goes_in_order(
    before: Seq<StoreEvent>,
    after: Seq<StoreEvent>,
    seeds: Seq<(Seq<char>, Option<KeyLimits>)>,
    master: Seq<u8>,
    last: i64,
    next: i64,
    r: Result<(), VaultError>,
    i: int,
)
    requires
        seeded(before, after, seeds, master, last, next, r),
        0 <= i < after.len() - before.len(),
    ensures
        after.len() - before.len() <= seeds.len(),
        after.take(before.len() as int) == before,
        ({
            let event = after[before.len() + i];
            &&& event is Insert
            &&& event->record.id == id_of(seeds[i].0)
            &&& opened(master, event->record.ciphertext) == Ok::<Seq<char>, Seq<char>>(seeds[i].0)
            &&& event->record.censored == censored(seeds[i].0)
            &&& event->record.limits == seeds[i].1
            &&& event->record.health is Active
            &&& i < after.len() - before.len() - 1 ==> event->Insert_reply is Ok
            &&& i == after.len() - before.len() - 1 && event->Insert_reply is Err ==> r is Err
                && r->Err_0 == event->Insert_reply->Err_0
        }),
        r is Ok ==> after.len() - before.len() == seeds.len(),
        r is Err && after[after.len() - 1]->Insert_reply is Ok ==> after.len() - before.len()
            < seeds.len() && too_long(seeds[after.len() - before.len()].0),
{
    let n = before.len() as int;
    let new = after.skip(n);
    lemma_inserted(new, seeds, master, last, i);
    assert(new[i] == after[n + i]);
    assert(new[new.len() - 1] == after[after.len() - 1]);
    if i < new.len() - 1 {
        assert(taken(new[i]));
    }
}

/// The two refusals say what is wrong with the configuration: a cap that was asked
/// for, and one that was found in the store.
pub proof fn law_refusals(e: AiError)
    ensures
        refuses_caps(e) ==> e is InvalidConfig && starts_with(
            e->InvalidConfig_0@,
            "max_concurrency limits require RotationMode::Reactive;"@,
        ),
        refuses_stored_cap(e) ==> e is InvalidConfig && starts_with(
            e->InvalidConfig_0@,
            "a persisted key carries max_concurrency, which requires"@,
        ),
{
    reveal_strlit("max_concurrency limits require RotationMode::Reactive;");
    reveal_strlit("a persisted key carries max_concurrency, which requires");
    reveal_strlit(
        "max_concurrency limits require RotationMode::Reactive;                      proactive mode already rotates keys per request",
    );
    reveal_strlit(
        "a persisted key carries max_concurrency, which requires                  RotationMode::Reactive",
    );
    if refuses_caps(e) {
        let said = e->InvalidConfig_0@;
        let head = "max_concurrency limits require RotationMode::Reactive;"@;
        assert(said.take(head.len() as int) =~= head);
    }
    if refuses_stored_cap(e) {
        let said = e->InvalidConfig_0@;
        let head = "a persisted key carries max_concurrency, which requires"@;
        assert(said.take(head.len() as int) =~= head);
    }
}

/// Opening the pool reads the store once; the keys that open make the pool, the
/// windows that have run out by the wall clock dropped, and those that do not
/// open are banned in the store. Where the store cannot be read, that is the
/// failure.
pub proof fn law_pool_is_read_from_the_store(
    config: PoolConfig,
    master: Seq<u8>,
    before: Seq<StoreEvent>,
    after: Seq<StoreEvent>,
    r: Result<PoolView, AiError>,
)
    requires
        wired(config, master, before, after, r),
    ensures
        after.len() > before.len(),
        after.take(before.len() as int) == before,
        after[before.len() as int] is LoadAll,
        after[before.len() as int] matches StoreEvent::LoadAll { reply } && (reply matches Err(e)
            ==> r is Err && r->Err_0 == AiError::Vault(e) && after.len() == before.len() + 1) && (
        reply matches Ok(records) ==> {
            &&& after.len() == before.len() + 1 + corrupted(master, records).len()
            &&& r is Ok ==> exists|now_ms: i64|
                on_the_wall(now_ms) && r->Ok_0 == loaded(
                    PoolView::empty(config.rotation_mode, config.default_limits),
                    #[trigger] opened_keys(master, records, now_ms),
                )
        }),
{
}

/// Building a client: a conflicting configuration is refused before anything is
/// stored; a key that the store does not take fails the build with what the store
/// said; and a client comes out only after every key was taken and the store was
/// read.
pub proof fn law_building(
    builder: AiClientBuilder,
    master: Seq<u8>,
    last: i64,
    next: i64,
    before: Seq<StoreEvent>,
    middle: Seq<StoreEvent>,
    after: Seq<StoreEvent>,
    r: Result<PoolView, AiError>,
)
    requires
        built(builder, master, last, next, before, middle, after, r),
    ensures
        ({
            let seeds = seed_views(builder.seed_keys@);
            let conflict = conflicting(builder.config, seeds);
            &&& conflict ==> r is Err && r->Err_0 is InvalidConfig && after == before && next == last
            &&& r is Ok ==> {
                &&& !conflict
                &&& middle.len() == before.len() + seeds.len()
                &&& after.len() > middle.len()
                &&& after[middle.len() as int] is LoadAll
                &&& seeds.len() > 0 ==> taken(middle[middle.len() - 1])
            }
            &&& !conflict && middle.len() > before.len() ==> (
            middle[middle.len() - 1] matches StoreEvent::Insert { reply, .. } && (reply matches Err(
                e,
            ) ==> r is Err && r->Err_0 == AiError::Vault(e) && after == middle))
            &&& !conflict ==> middle.take(before.len() as int) == before
        }),
{
    let seeds = seed_views(builder.seed_keys@);
    if !conflicting(builder.config, seeds) {
        let reply = choose|reply: Result<(), VaultError>| #[trigger]
            seeded(before, middle, seeds, master, last, next, reply) && (match reply {
                Err(e) => after == middle && (r matches Err(AiError::Vault(inner)) && inner == e),
                Ok(_) => wired(builder.config, master, middle, after, r),
            });
        let n = before.len() as int;
        let new = middle.skip(n);
        if middle.len() > before.len() {
            lemma_inserted(new, seeds, master, last, new.len() - 1);
            assert(new[new.len() - 1] == middle[middle.len() - 1]);
        }
    }
}

} // verus!
