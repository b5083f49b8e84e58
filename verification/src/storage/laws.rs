//! What holds of stored keys and of the operations on them.

use vstd::prelude::*;
use vstd::utf8::encode_utf8;

use super::health::{HealthView, KeyHealth, KeyStatus, StatusView};
use super::manager::{
    added, health_put, listed_all, metadata_views, misplaced_cap, passed_on, shown_error,
    KeyManager, KeyMetadata,
};
use super::record::{KeyRecord, RecordView};
use super::sqlite::{columns_of_window, window_of_columns, KeyRow};
use super::store::{
    answers, applied, creation_times, get_reply, law_listing_is_in_creation_order,
    law_records_keep_their_ids, lemma_replay_is_finite, listing, load_reply, replay, KeyStore,
    StoreEvent,
};
use super::vault::{
    after_stamp, bans, corrupted, decrypted_views, fresh_record, opened_keys, sealed_record, stamp,
    DecryptedKey,
};
use crate::clock::{on_the_wall, Instant, Moment};
use crate::config::RotationMode;
use crate::crypto::primitives::MAX_MESSAGE;
use crate::crypto::{censored, id_of, opened, sealed};
use crate::engine::StateView;
use crate::error::{AiError, VaultError};
use crate::order::{comes_before, law_order_exists, ordered};
use crate::quota::{KeyLimits, WindowState};
use crate::text::{text_of, text_precedes};

verus! {

// ---------------------------------------------------------------------------
// Health
// ---------------------------------------------------------------------------
/// A key is usable while it is healthy, and from the end of its cooldown on; a
/// banned key never is.
pub proof fn law_usable_health(reason: Seq<char>, retry_after: Instant, now: Instant)
    ensures
        HealthView::Active.usable(now),
        (HealthView::Cooldown { retry_after }).usable(now) <==> retry_after.nanos <= now.nanos,
        !(HealthView::Banned { reason }).usable(now),
{
}

/// How a health is stored: its name, the reason of a ban, and the unix time at
/// which a cooldown ends, in milliseconds: as far ahead by the wall clock as it
/// is by the pool's.
pub proof fn law_stored_columns(reason: Seq<char>, retry_after: Instant, m: Moment)
    ensures
        HealthView::Active.columns(m) == ("active"@, None::<Seq<char>>, None::<i64>),
        (HealthView::Banned { reason }).columns(m) == ("banned"@, Some(reason), None::<i64>),
        ({
            let stored = (HealthView::Cooldown { retry_after }).columns(m);
            let ahead = if retry_after.nanos >= m.at.nanos {
                retry_after.nanos - m.at.nanos
            } else {
                0
            };
            &&& stored.0 == "cooldown"@
            &&& stored.1 is None
            &&& stored.2 is Some
            &&& m.unix.nanos + ahead <= u128::MAX && (m.unix.nanos + ahead) / 1_000_000 <= i64::MAX
                ==> stored.2->0 == (m.unix.nanos + ahead) / 1_000_000
        }),
        HealthView::Active.label() == "active"@,
        (HealthView::Banned { reason }).label() == "banned"@,
        (HealthView::Cooldown { retry_after }).label() == "cooldown"@,
{
}

/// What stored columns mean: a ban with its reason, a cooldown that ends when the
/// wall clock shows the stored time, and a healthy key otherwise.
pub proof fn law_loaded_columns(
    status: Seq<char>,
    reason: Option<Seq<char>>,
    until: Option<i64>,
    m: Moment,
)
    ensures
        ({
            let loaded = HealthView::from_columns(status, reason, until, m);
            &&& status == "banned"@ ==> loaded is Banned && (reason is Some ==> loaded->reason
                == reason->0) && (reason is None ==> loaded->reason == "unknown"@)
            &&& status == "cooldown"@ ==> {
                &&& loaded is Cooldown <==> until is Some && until->0 > (m.unix.nanos / 1_000_000)
                &&& loaded is Active <==> !(loaded is Cooldown)
                &&& loaded is Cooldown && m.at.nanos + (until->0 - m.unix.nanos / 1_000_000)
                    * 1_000_000 <= u128::MAX ==> loaded->retry_after.nanos == m.at.nanos + (
                until->0 - m.unix.nanos / 1_000_000) * 1_000_000
            }
            &&& status != "banned"@ && status != "cooldown"@ ==> loaded is Active
        }),
{
    law_stored_names_differ();
}

/// The two states that are stored by name have different names.
pub proof fn law_stored_names_differ()
    ensures
        "banned"@ != "cooldown"@,
        "active"@ != "cooldown"@,
        "active"@ != "banned"@,
{
    reveal_strlit("banned");
    reveal_strlit("cooldown");
    reveal_strlit("active");
    assert("banned"@.len() == 6 && "cooldown"@.len() == 8 && "active"@.len() == 6);
    assert("banned"@[0] != "active"@[0]);
}

/// What is shown of a health: a cooldown by the whole milliseconds that are left
/// of it.
pub proof fn law_shown_status(reason: Seq<char>, retry_after: Instant, now: Instant)
    ensures
        StatusView::of(HealthView::Active, now) is Active,
        StatusView::of(HealthView::Banned { reason }, now) == (StatusView::Banned { reason }),
        ({
            let shown = StatusView::of(HealthView::Cooldown { retry_after }, now);
            &&& shown is Cooldown
            &&& retry_after.nanos <= now.nanos ==> shown->remaining_ms == 0
            &&& retry_after.nanos > now.nanos && (retry_after.nanos - now.nanos) / 1_000_000
                <= u64::MAX ==> shown->remaining_ms == (retry_after.nanos - now.nanos) / 1_000_000
        }),
{
}

/// Health, status, records, keys and metadata say what their fields hold.
pub proof fn law_stored_views(
    health: KeyHealth,
    status: KeyStatus,
    record: KeyRecord,
    key: DecryptedKey,
    shown: KeyMetadata,
)
    ensures
        health is Active <==> health@ is Active,
        health matches KeyHealth::Cooldown { retry_after } ==> health@ == (HealthView::Cooldown {
            retry_after,
        }),
        health matches KeyHealth::Banned { reason } ==> health@ == (HealthView::Banned {
            reason: reason@,
        }),
        status is Active <==> status@ is Active,
        status matches KeyStatus::Cooldown { remaining_ms } ==> status@ == (StatusView::Cooldown {
            remaining_ms,
        }),
        status matches KeyStatus::Banned { reason } ==> status@ == (StatusView::Banned {
            reason: reason@,
        }),
        record@.id == record.id@ && record@.ciphertext == record.ciphertext@ && record@.censored
            == record.censored@ && record@.health == record.health@,
        record@.limits == record.limits && record@.minute_window == record.minute_window
            && record@.hour_window == record.hour_window && record@.created_at_ms
            == record.created_at_ms,
        key@.id == key.id@ && key@.secret == key.secret@ && key@.censored == key.censored@
            && key@.health == key.health@,
        key@.limits == key.limits && key@.minute_window == key.minute_window && key@.hour_window
            == key.hour_window,
        shown@.id == shown.id@ && shown@.censored_key == shown.censored_key@ && shown@.status
            == shown.status@ && shown@.quota == shown.quota && shown@.created_at_ms
            == shown.created_at_ms,
{
}

/// Replies and lists stand for what they hold, item by item.
pub proof fn law_reply_views(
    records: Vec<KeyRecord>,
    record: KeyRecord,
    keys: Seq<DecryptedKey>,
    e: VaultError,
    i: int,
)
    ensures
        load_reply(Ok(records)) matches Ok(list) && list.len() == records@.len() && (0 <= i
            < records@.len() ==> list[i] == records@[i]@),
        load_reply(Err(e)) == Err::<Seq<RecordView>, VaultError>(e),
        get_reply(Ok(record)) == Ok::<RecordView, VaultError>(record@),
        get_reply(Err(e)) == Err::<RecordView, VaultError>(e),
        decrypted_views(keys).len() == keys.len(),
        0 <= i < keys.len() ==> decrypted_views(keys)[i] == keys[i]@,
{
}

// ---------------------------------------------------------------------------
// Stores
// ---------------------------------------------------------------------------
/// What a call does to the stored records: inserting adds a record under an
/// unknown id only; deleting takes one out; updates change the fields that they
/// name of a known record; reading changes nothing. No call touches another
/// record.
pub proof fn law_calls_change_one_record(
    records: Map<Seq<char>, RecordView>,
    event: StoreEvent,
    other: Seq<char>,
)
    ensures
        ({
            let next = applied(records, event);
            &&& event matches StoreEvent::Insert { record, .. } ==> {
                &&& next.contains_key(record.id)
                &&& records.contains_key(record.id) ==> next[record.id] == records[record.id]
                &&& !records.contains_key(record.id) ==> next[record.id] == record
                &&& other != record.id ==> (next.contains_key(other) <==> records.contains_key(
                    other,
                )) && (records.contains_key(other) ==> next[other] == records[other])
            }
            &&& event matches StoreEvent::Delete { id, .. } ==> {
                &&& !next.contains_key(id)
                &&& other != id ==> (next.contains_key(other) <==> records.contains_key(other)) && (
                records.contains_key(other) ==> next[other] == records[other])
            }
            &&& event matches StoreEvent::UpdateHealth { id, health, .. } ==> {
                &&& next.contains_key(id) <==> records.contains_key(id)
                &&& records.contains_key(id) ==> next[id].health == health && next[id] == (
                RecordView { health: next[id].health, ..records[id] })
                &&& other != id ==> (next.contains_key(other) <==> records.contains_key(other)) && (
                records.contains_key(other) ==> next[other] == records[other])
            }
            &&& event matches StoreEvent::UpdateQuota { id, limits, minute, hour, .. } ==> {
                &&& next.contains_key(id) <==> records.contains_key(id)
                &&& records.contains_key(id) ==> {
                    &&& next[id].limits == limits
                    &&& next[id].minute_window == minute
                    &&& next[id].hour_window == hour
                    &&& next[id].id == records[id].id
                    &&& next[id].ciphertext == records[id].ciphertext
                    &&& next[id].censored == records[id].censored
                    &&& next[id].health == records[id].health
                    &&& next[id].created_at_ms == records[id].created_at_ms
                }
                &&& other != id ==> (next.contains_key(other) <==> records.contains_key(other)) && (
                records.contains_key(other) ==> next[other] == records[other])
            }
            &&& event is LoadAll || event is Get ==> next == records
        }),
{
}

/// What a faithful store replies: a call on an unknown id that it names is not
/// found, and any other call succeeds; what is read is what is stored.
pub proof fn law_replies_tell_what_is_stored(
    records: Map<Seq<char>, RecordView>,
    event: StoreEvent,
)
    requires
        answers(records, event),
    ensures
        event matches StoreEvent::Insert { reply, .. } ==> reply is Ok,
        event matches StoreEvent::Delete { id, reply } ==> (reply is Ok <==> records.contains_key(
            id,
        )) && (reply is Err ==> reply->Err_0 is NotFound && reply->Err_0->NotFound_0@ == id),
        event matches StoreEvent::UpdateHealth { id, reply, .. } ==> (reply is Ok
            <==> records.contains_key(id)) && (reply is Err ==> reply->Err_0 is NotFound
            && reply->Err_0->NotFound_0@ == id),
        event matches StoreEvent::UpdateQuota { id, reply, .. } ==> (reply is Ok
            <==> records.contains_key(id)) && (reply is Err ==> reply->Err_0 is NotFound
            && reply->Err_0->NotFound_0@ == id),
        event matches StoreEvent::Get { id, reply } ==> (reply is Ok <==> records.contains_key(id))
            && (reply is Ok ==> reply->Ok_0 == records[id]) && (reply is Err ==> reply->Err_0
            is NotFound && reply->Err_0->NotFound_0@ == id),
        event matches StoreEvent::LoadAll { reply } ==> reply is Ok && reply->Ok_0 == listing(
            records,
        ),
{
}

/// Before the first call nothing is stored.
pub proof fn law_nothing_is_stored_at_first(id: Seq<char>)
    ensures
        !replay(Seq::empty()).contains_key(id),
{
}

/// Records that were created in the same millisecond are listed by the bytes of
/// their ids; the others by the time of their creation. Each is listed once.
pub proof fn law_listing_order(history: Seq<StoreEvent>, i: int, j: int)
    requires
        0 <= i < j < listing(replay(history)).len(),
    ensures
        ({
            let list = listing(replay(history));
            &&& list[i].created_at_ms <= list[j].created_at_ms
            &&& list[i].created_at_ms == list[j].created_at_ms ==> text_precedes(
                list[i].id,
                list[j].id,
            )
        }),
{
    let records = replay(history);
    let times = creation_times(records);
    let ids = ordered(times);
    let list = listing(records);
    law_listing_is_in_creation_order(history);
    law_records_keep_their_ids(history);
    lemma_replay_is_finite(history);
    assert(times.dom() =~= records.dom());
    law_order_exists(times);
    assert(times.contains_key(ids[i]) && times.contains_key(ids[j]));
    assert(records.contains_key(ids[i]) && records.contains_key(ids[j]));
    assert(comes_before(times, ids[i], ids[j]));
    assert(list[i] == records[ids[i]] && list[j] == records[ids[j]]);
}

// ---------------------------------------------------------------------------
// Records and the vault
// ---------------------------------------------------------------------------
/// A window that has run out is dropped on loading, one that has not is kept,
/// and nothing else about the record changes.
pub proof fn law_only_stale_windows_are_dropped(record: RecordView, now_ms: i64)
    ensures
        ({
            let loaded = record.fresh(now_ms);
            &&& loaded.minute_window == (if record.minute_window is Some && now_ms
                < record.minute_window->0.end(60_000) {
                record.minute_window
            } else {
                None
            })
            &&& loaded.hour_window == (if record.hour_window is Some && now_ms
                < record.hour_window->0.end(3_600_000) {
                record.hour_window
            } else {
                None
            })
            &&& loaded == (RecordView {
                minute_window: loaded.minute_window,
                hour_window: loaded.hour_window,
                ..record
            })
        }),
{
}

/// A stamp is the time it was made at, or the earliest free one where that time
/// was given out before; the next free one is a millisecond later.
pub proof fn law_stamp_is_the_later(last: i64, now_ms: i64)
    ensures
        stamp(last, now_ms) >= now_ms,
        stamp(last, now_ms) >= last,
        stamp(last, now_ms) == now_ms || stamp(last, now_ms) == last,
        stamp(last, now_ms) < i64::MAX ==> after_stamp(stamp(last, now_ms)) == stamp(last, now_ms)
            + 1,
{
}

/// Records are opened one by one, in order: one that opens gives one key, with
/// all that was stored of it and the windows that still run; one that does not
/// gives none, and is reported under its id with the reason.
pub proof fn law_each_record_gives_its_key(
    master: Seq<u8>,
    records: Seq<RecordView>,
    record: RecordView,
    now_ms: i64,
)
    ensures
        ({
            let before = opened_keys(master, records, now_ms);
            let after = opened_keys(master, records.push(record), now_ms);
            let reported = corrupted(master, records.push(record));
            &&& opened(master, record.ciphertext) is Ok ==> {
                &&& after.len() == before.len() + 1
                &&& after.drop_last() == before
                &&& after.last().id == record.id
                &&& after.last().secret == opened(master, record.ciphertext)->Ok_0
                &&& after.last().censored == record.censored
                &&& after.last().health == record.health
                &&& after.last().limits == record.limits
                &&& after.last().minute_window == record.fresh(now_ms).minute_window
                &&& after.last().hour_window == record.fresh(now_ms).hour_window
                &&& reported == corrupted(master, records)
            }
            &&& opened(master, record.ciphertext) is Err ==> {
                &&& after == before
                &&& reported.len() == corrupted(master, records).len() + 1
                &&& reported.drop_last() == corrupted(master, records)
                &&& reported.last() == (
                    record.id,
                    "corrupted: "@ + opened(master, record.ciphertext)->Err_0,
                )
            }
            &&& opened_keys(master, Seq::empty(), now_ms).len() == 0
            &&& corrupted(master, Seq::empty()).len() == 0
        }),
{
    assert(records.push(record).drop_last() =~= records);
    let before = opened_keys(master, records, now_ms);
    let after = opened_keys(master, records.push(record), now_ms);
    let reported = corrupted(master, records.push(record));
    if opened(master, record.ciphertext) is Ok {
        assert(after.drop_last() =~= before);
    } else {
        assert(reported.drop_last() =~= corrupted(master, records));
    }
}

/// Each record that did not open is banned in the store for that reason, in
/// order, and no other call is made.
pub proof fn law_reported_records_are_banned(
    events: Seq<StoreEvent>,
    list: Seq<(Seq<char>, Seq<char>)>,
    i: int,
)
    requires
        bans(events, list),
        0 <= i < events.len(),
    ensures
        events.len() == list.len(),
        events[i] is UpdateHealth,
        events[i]->UpdateHealth_id == list[i].0,
        events[i]->health is Banned,
        events[i]->health->reason == list[i].1,
{
}

/// What is stored of a new key: a sealed secret that opens to the text, nothing
/// of the text beside it but its censored form, a healthy state without usage,
/// and a stamp that is no earlier than any given out.
pub proof fn law_new_record(
    record: RecordView,
    master: Seq<u8>,
    id: Seq<char>,
    text: Seq<char>,
    limits: Option<KeyLimits>,
    last: i64,
)
    requires
        fresh_record(record, master, id, text, limits, last),
    ensures
        record.id == id,
        opened(master, record.ciphertext) == Ok::<Seq<char>, Seq<char>>(text),
        record.censored == censored(text),
        record.health is Active,
        record.limits == limits,
        record.minute_window is None,
        record.hour_window is None,
        record.created_at_ms >= last,
        exists|now_ms: i64| #[trigger]
            on_the_wall(now_ms) && record.created_at_ms >= now_ms && (
            record.created_at_ms == now_ms || record.created_at_ms == last),
{
    let now_ms = choose|now_ms: i64|
        on_the_wall(now_ms) && record.created_at_ms >= now_ms && record.created_at_ms
            == #[trigger] stamp(last, now_ms);
    assert(on_the_wall(now_ms));
}

// ---------------------------------------------------------------------------
// The manager
// ---------------------------------------------------------------------------
/// What is listed of a key: its id, censored form and stamp as they are stored,
/// its live health where it is loaded and the stored one where it is not, and
/// its quota where there is anything to tell.
pub proof fn law_listed_key(
    keys: Map<Seq<char>, StateView>,
    records: Seq<RecordView>,
    m: Moment,
    i: int,
)
    requires
        0 <= i < records.len(),
    ensures
        listed_all(keys, records, m).len() == records.len(),
        ({
            let shown = listed_all(keys, records, m)[i];
            let record = records[i];
            let live = keys.contains_key(record.id);
            &&& shown.id == record.id
            &&& shown.censored_key == record.censored
            &&& shown.created_at_ms == record.created_at_ms
            &&& live ==> shown.status == StatusView::of(keys[record.id].health, m.at)
            &&& !live ==> shown.status == StatusView::of(record.health, m.at)
            &&& !live ==> shown.quota is None
            &&& live ==> {
                let quota = keys[record.id].quota(m.ms());
                &&& shown.quota is Some <==> quota.minute is Some || quota.hour is Some
                    || quota.max_concurrency is Some || quota.in_flight != 0
                &&& shown.quota is Some ==> shown.quota->0 == quota
            }
        }),
{
}

/// A concurrency cap is out of place exactly in proactive mode.
pub proof fn law_misplaced_cap(limits: KeyLimits, mode: RotationMode)
    ensures
        misplaced_cap(Some(limits), mode) <==> limits.max_concurrency is Some
            && mode is Proactive,
        !misplaced_cap(None, mode),
{
}

/// What a caller is told: an id that neither the store nor the pool knows is an
/// unknown key; anything else that fails is the vault's failure, as it is.
pub proof fn law_told_errors(e: VaultError, live: bool, r: Result<(), AiError>)
    ensures
        e is NotFound && !live ==> shown_error(e, live)
            == AiError::KeyNotFound(e->NotFound_0),
        live || !(e is NotFound) ==> shown_error(e, live) == AiError::Vault(e),
        passed_on(Ok(()), live, r) <==> r is Ok,
        passed_on(Err(e), live, r) <==> r is Err && r->Err_0 == shown_error(e, live),
{
}

/// A key that is added is loaded under the id that its text gives: with that
/// text, healthy, without usage, with its own limits or the pool's. The other
/// keys stay as they are; where adding fails the pool does.
pub proof fn law_added_key_is_loaded<S: KeyStore>(
    before: KeyManager<S>,
    after: KeyManager<S>,
    text: Seq<char>,
    limits: Option<KeyLimits>,
    last: i64,
    next: i64,
    r: Result<String, AiError>,
)
    requires
        added(before, after, text, limits, last, next, r),
    ensures
        r matches Ok(id) ==> {
            let key = after.pool@.keys[id@];
            &&& id@ == id_of(text)
            &&& after.pool@.keys.dom() =~= before.pool@.keys.dom().insert(id@)
            &&& key.id == id@
            &&& key.secret == text
            &&& key.censored == censored(text)
            &&& key.health is Active
            &&& limits is Some ==> key.limits == limits->0
            &&& limits is None ==> key.limits == before.pool@.default_limits
            &&& key.minute is None
            &&& key.hour is None
            &&& key.in_flight == 0
            &&& forall|other: Seq<char>| other != id@ ==> #[trigger] after.pool@.keys[other]
                == before.pool@.keys[other]
            &&& after.history().len() == before.history().len() + 1
            &&& after.history().last() is Insert
        },
        r is Err ==> after.pool@ == before.pool@,
        misplaced_cap(limits, before.pool@.mode) ==> r is Err && r->Err_0 is InvalidConfig
            && after == before,
        !misplaced_cap(limits, before.pool@.mode) && encode_utf8(text).len() > MAX_MESSAGE
            ==> r is Err && after == before,
        !misplaced_cap(limits, before.pool@.mode) && encode_utf8(text).len() <= MAX_MESSAGE ==> (
        r is Ok <==> (after.history().last() matches StoreEvent::Insert { reply, .. } && reply
            is Ok)),
{
}

/// A new health is told to the store and then to the pool: it takes hold of the
/// key that is meant where the store agrees, and of no other.
pub proof fn law_health_takes_hold<S: KeyStore>(
    before: KeyManager<S>,
    after: KeyManager<S>,
    id: Seq<char>,
    health: HealthView,
    r: Result<(), AiError>,
)
    requires
        health_put(before, after, id, health, r),
    ensures
        after.history().len() == before.history().len() + 1,
        after.history().last() is UpdateHealth,
        after.history().last()->UpdateHealth_id == id,
        after.history().last()->health == health,
        r is Ok ==> after.pool@.keys.contains_key(id) && after.pool@.keys[id].health == health,
        r is Ok ==> after.pool@.keys[id] == (StateView { health, ..before.pool@.keys[id] }),
        forall|other: Seq<char>|
            other != id && before.pool@.keys.contains_key(other)
                ==> #[trigger] after.pool@.keys[other] == before.pool@.keys[other],
        !before.pool@.keys.contains_key(id) ==> r is Err && after.pool@ == before.pool@,
        before.pool@.keys.contains_key(id) ==> (r is Ok <==> (
        after.history().last() matches StoreEvent::UpdateHealth { reply, .. } && reply is Ok)),
{
}

/// The record of a sealed key: its fields as they were given, the censored form
/// of its text, and no usage.
pub proof fn law_sealed_record(
    master: Seq<u8>,
    id: Seq<char>,
    text: Seq<char>,
    limits: Option<KeyLimits>,
    nonce: Seq<u8>,
    created_at_ms: i64,
)
    ensures
        ({
            let record = sealed_record(master, id, text, limits, nonce, created_at_ms);
            &&& record.id == id
            &&& record.ciphertext == sealed(master, nonce, text)
            &&& record.censored == censored(text)
            &&& record.health is Active
            &&& record.limits == limits
            &&& record.minute_window is None
            &&& record.hour_window is None
            &&& record.created_at_ms == created_at_ms
        }),
{
}

/// A window is stored by its start and its count, and not at all where there is
/// none; a count that cannot be one is read as the largest, so that it never
/// frees a key.
pub proof fn law_window_columns(window: WindowState, start: i64, used: i64)
    ensures
        columns_of_window(Some(window)) == (Some(window.start_ms), Some(window.used as i64)),
        columns_of_window(None) == (None::<i64>, None::<i64>),
        window_of_columns(Some(start), Some(used)) matches Some(w) && w.start_ms == start && (0
            <= used <= u32::MAX ==> w.used == used) && (!(0 <= used <= u32::MAX) ==> w.used
            == u32::MAX),
        window_of_columns(None, Some(used)) is None,
        window_of_columns(Some(start), None) is None,
{
}

/// A row holds a record field by field.
pub proof fn law_row(row: KeyRow, record: RecordView, m: Moment)
    ensures
        row.record(m).id == row.id@ && row.record(m).ciphertext == row.ciphertext@ && row.record(
            m,
        ).censored == row.censored@ && row.record(m).limits == row.limits && row.record(
            m,
        ).created_at_ms == row.created_at_ms,
        row.record(m).minute_window == window_of_columns(row.minute_start_ms, row.minute_used),
        row.record(m).hour_window == window_of_columns(row.hour_start_ms, row.hour_used),
        row.record(m).health == HealthView::from_columns(
            row.status@,
            text_of(row.ban_reason),
            row.cooldown_until_ms,
            m,
        ),
        row.stores(record, m) ==> {
            &&& row.id@ == record.id && row.ciphertext@ == record.ciphertext && row.censored@
                == record.censored && row.limits == record.limits && row.created_at_ms
                == record.created_at_ms
            &&& row.status@ == record.health.columns(m).0
            &&& text_of(row.ban_reason) == record.health.columns(m).1
            &&& row.cooldown_until_ms == record.health.columns(m).2
        },
{
}

/// Listed keys stand for what they hold, item by item.
pub proof fn law_metadata_views(list: Seq<KeyMetadata>, i: int)
    ensures
        metadata_views(list).len() == list.len(),
        0 <= i < list.len() ==> metadata_views(list)[i] == list[i]@,
{
}

/// A manager is in order where its vault and its pool are.
pub proof fn law_manager_in_order<S: KeyStore>(manager: KeyManager<S>)
    ensures
        manager.wf() <==> manager.vault.store.wf() && manager.pool@.wf(),
        manager.history() == manager.vault.store.history(),
{
}

} // verus!
