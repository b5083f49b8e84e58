//! The contract between the vault and a storage backend.

use vstd::prelude::*;

use super::health::{HealthView, KeyHealth};
use super::record::{KeyRecord, RecordView};
use crate::error::VaultError;
use crate::order::{comes_before, law_order_exists, ordered};
use crate::quota::{KeyLimits, WindowState};
use crate::text::law_text_order_is_total;

verus! {

/// What records stand for.
pub open spec fn record_views(records: Seq<KeyRecord>) -> Seq<RecordView> {
    records.map_values(|record: KeyRecord| record@)
}

/// What loading records came to.
pub open spec fn load_reply(r: Result<Vec<KeyRecord>, VaultError>) -> Result<
    Seq<RecordView>,
    VaultError,
> {
    match r {
        Ok(records) => Ok(record_views(records@)),
        Err(e) => Err(e),
    }
}

/// What fetching one record came to.
pub open spec fn get_reply(r: Result<KeyRecord, VaultError>) -> Result<RecordView, VaultError> {
    match r {
        Ok(record) => Ok(record@),
        Err(e) => Err(e),
    }
}

/// One call of a store, with what it replied.
#[allow(inconsistent_fields)]
pub enum StoreEvent {
    /// `load_all`.
    LoadAll { reply: Result<Seq<RecordView>, VaultError> },
    /// `insert`.
    Insert { record: RecordView, reply: Result<(), VaultError> },
    /// `delete`.
    Delete { id: Seq<char>, reply: Result<(), VaultError> },
    /// `update_health`.
    UpdateHealth { id: Seq<char>, health: HealthView, reply: Result<(), VaultError> },
    /// `update_quota`.
    UpdateQuota {
        id: Seq<char>,
        limits: Option<KeyLimits>,
        minute: Option<WindowState>,
        hour: Option<WindowState>,
        reply: Result<(), VaultError>,
    },
    /// `get`.
    Get { id: Seq<char>, reply: Result<RecordView, VaultError> },
}

/// Storage backend contract. Implementations only ever see encrypted blobs.
///
/// A store is known by its history: the calls it got and what it replied.
/// Nothing is assumed of the replies, so that what is proved of the vault holds
/// of every store, one that fails included. What a faithful store replies is
/// [`honest`].
pub trait KeyStore {
    /// The calls so far. Ordinary Rust code that implements the trait leaves
    /// this as it is.
    open spec fn history(&self) -> Seq<StoreEvent> {
        Seq::empty()
    }

    /// Whether the store is in a sound state; what that means is its own
    /// affair.
    open spec fn wf(&self) -> bool {
        true
    }

    /// Loads every record, in stable creation order.
    fn load_all(&mut self) -> (r: Result<Vec<KeyRecord>, VaultError>)
        requires
            old(self).wf(),
        ensures
            final(self).wf(),
            final(self).history() == old(self).history().push(
                StoreEvent::LoadAll { reply: load_reply(r) },
            ),
    ;

    /// Inserts a record; must be idempotent for an existing id.
    fn insert(&mut self, record: &KeyRecord) -> (r: Result<(), VaultError>)
        requires
            old(self).wf(),
        ensures
            final(self).wf(),
            final(self).history() == old(self).history().push(
                StoreEvent::Insert { record: record@, reply: r },
            ),
    ;

    /// Deletes a record by id.
    fn delete(&mut self, id: &str) -> (r: Result<(), VaultError>)
        requires
            old(self).wf(),
        ensures
            final(self).wf(),
            final(self).history() == old(self).history().push(
                StoreEvent::Delete { id: id@, reply: r },
            ),
    ;

    /// Persists a new health state for a record.
    fn update_health(&mut self, id: &str, health: KeyHealth) -> (r: Result<(), VaultError>)
        requires
            old(self).wf(),
        ensures
            final(self).wf(),
            final(self).history() == old(self).history().push(
                StoreEvent::UpdateHealth { id: id@, health: health@, reply: r },
            ),
    ;

    /// Persists quota state (limits and windows) for a record.
    fn update_quota(
        &mut self,
        id: &str,
        limits: Option<KeyLimits>,
        minute: Option<WindowState>,
        hour: Option<WindowState>,
    ) -> (r: Result<(), VaultError>)
        requires
            old(self).wf(),
        ensures
            final(self).wf(),
            final(self).history() == old(self).history().push(
                StoreEvent::UpdateQuota { id: id@, limits, minute, hour, reply: r },
            ),
    ;

    /// Fetches a single record (used by explicit decryption).
    fn get(&mut self, id: &str) -> (r: Result<KeyRecord, VaultError>)
        requires
            old(self).wf(),
        ensures
            final(self).wf(),
            final(self).history() == old(self).history().push(
                StoreEvent::Get { id: id@, reply: get_reply(r) },
            ),
    ;
}

// ---------------------------------------------------------------------------
// Faithful stores
// ---------------------------------------------------------------------------
/// When each record was created.
pub open spec fn creation_times(records: Map<Seq<char>, RecordView>) -> Map<Seq<char>, int> {
    records.map_values(|record: RecordView| record.created_at_ms as int)
}

/// The records in order of creation, and of their ids where they were created
/// at the same time.
pub open spec fn listing(records: Map<Seq<char>, RecordView>) -> Seq<RecordView> {
    ordered(creation_times(records)).map_values(|id: Seq<char>| records[id])
}

/// Whether a reply says that `id` was not found.
pub open spec fn not_found<T>(reply: Result<T, VaultError>, id: Seq<char>) -> bool {
    reply matches Err(VaultError::NotFound(missing)) && missing@ == id
}

/// Whether a store that holds `records` replies as it should.
pub open spec fn answers(records: Map<Seq<char>, RecordView>, event: StoreEvent) -> bool {
    match event {
        StoreEvent::LoadAll { reply } => reply == Ok::<Seq<RecordView>, VaultError>(
            listing(records),
        ),
        StoreEvent::Insert { reply, .. } => reply is Ok,
        StoreEvent::Delete { id, reply } => if records.contains_key(id) {
            reply is Ok
        } else {
            not_found(reply, id)
        },
        StoreEvent::UpdateHealth { id, reply, .. } => if records.contains_key(id) {
            reply is Ok
        } else {
            not_found(reply, id)
        },
        StoreEvent::UpdateQuota { id, reply, .. } => if records.contains_key(id) {
            reply is Ok
        } else {
            not_found(reply, id)
        },
        StoreEvent::Get { id, reply } => if records.contains_key(id) {
            reply == Ok::<RecordView, VaultError>(records[id])
        } else {
            not_found(reply, id)
        },
    }
}

/// What a store that held `records` holds after a call. A record whose id is
/// already there is not inserted again.
pub open spec fn applied(records: Map<Seq<char>, RecordView>, event: StoreEvent) -> Map<
    Seq<char>,
    RecordView,
> {
    match event {
        StoreEvent::Insert { record, .. } => if records.contains_key(record.id) {
            records
        } else {
            records.insert(record.id, record)
        },
        StoreEvent::Delete { id, .. } => records.remove(id),
        StoreEvent::UpdateHealth { id, health, .. } => if records.contains_key(id) {
            records.insert(id, RecordView { health, ..records[id] })
        } else {
            records
        },
        StoreEvent::UpdateQuota { id, limits, minute, hour, .. } => if records.contains_key(id) {
            records.insert(
                id,
                RecordView { limits, minute_window: minute, hour_window: hour, ..records[id] },
            )
        } else {
            records
        },
        _ => records,
    }
}

/// What a faithful store holds after the given calls.
pub open spec fn replay(history: Seq<StoreEvent>) -> Map<Seq<char>, RecordView>
    decreases history.len(),
{
    if history.len() == 0 {
        Map::empty()
    } else {
        applied(replay(history.drop_last()), history.last())
    }
}

/// Whether every reply was what a faithful store replies.
pub open spec fn honest(history: Seq<StoreEvent>) -> bool
    decreases history.len(),
{
    history.len() == 0 || (honest(history.drop_last()) && answers(
        replay(history.drop_last()),
        history.last(),
    ))
}

/// One more call, unfolded.
pub proof fn lemma_extended(history: Seq<StoreEvent>, event: StoreEvent)
    ensures
        replay(history.push(event)) == applied(replay(history), event),
        honest(history.push(event)) == (honest(history) && answers(replay(history), event)),
{
    assert(history.push(event).drop_last() =~= history);
}

/// A store that was faithful was so all along.
pub proof fn lemma_honest_prefix(history: Seq<StoreEvent>, n: int)
    requires
        honest(history),
        0 <= n < history.len(),
    ensures
        honest(history.take(n)),
        answers(replay(history.take(n)), history[n]),
    decreases history.len(),
{
    if n == history.len() - 1 {
        assert(history.take(n) =~= history.drop_last());
    } else {
        lemma_honest_prefix(history.drop_last(), n);
        assert(history.drop_last().take(n) =~= history.take(n));
    }
}

/// A faithful store keeps every record under its own id.
pub proof fn law_records_keep_their_ids(history: Seq<StoreEvent>)
    ensures
        forall|id: Seq<char>| #[trigger]
            replay(history).contains_key(id) ==> replay(history)[id].id == id,
    decreases history.len(),
{
    if history.len() > 0 {
        law_records_keep_their_ids(history.drop_last());
        let before = replay(history.drop_last());
        assert forall|id: Seq<char>| #[trigger] replay(history).contains_key(id) implies replay(
            history,
        )[id].id == id by {
            if before.contains_key(id) {
                assert(before[id].id == id);
            }
        }
    }
}

pub proof fn lemma_replay_is_finite(history: Seq<StoreEvent>)
    ensures
        replay(history).dom().finite(),
    decreases history.len(),
{
    if history.len() > 0 {
        lemma_replay_is_finite(history.drop_last());
    }
}

/// A faithful store lists every record once, and earlier records before later
/// ones: what was inserted first comes first.
pub proof fn law_listing_is_in_creation_order(history: Seq<StoreEvent>)
    ensures
        ({
            let records = replay(history);
            let list = listing(records);
            &&& forall|i: int, j: int|
                0 <= i < j < list.len() ==> (#[trigger] list[i]).created_at_ms <= (
                #[trigger] list[j]).created_at_ms && list[i].id != list[j].id
            &&& forall|i: int|
                0 <= i < list.len() ==> records.contains_key((#[trigger] list[i]).id)
                    && records[list[i].id] == list[i]
            &&& forall|id: Seq<char>| #[trigger]
                records.contains_key(id) ==> list.contains(records[id])
        }),
{
    let records = replay(history);
    let times = creation_times(records);
    let ids = ordered(times);
    let list = listing(records);
    lemma_replay_is_finite(history);
    law_records_keep_their_ids(history);
    assert(times.dom() =~= records.dom());
    law_order_exists(times);
    assert forall|i: int| 0 <= i < list.len() implies #[trigger] list[i] == records[ids[i]]
        && records.contains_key(ids[i]) && list[i].id == ids[i] by {
        assert(times.contains_key(ids[i]));
    }
    assert forall|i: int, j: int| 0 <= i < j < list.len() implies (
    #[trigger] list[i]).created_at_ms <= (#[trigger] list[j]).created_at_ms && list[i].id
        != list[j].id by {
        assert(comes_before(times, ids[i], ids[j]));
        law_text_order_is_total(ids[i], ids[i], ids[i]);
    }
    assert forall|id: Seq<char>| #[trigger] records.contains_key(id) implies list.contains(
        records[id],
    ) by {
        assert(times.contains_key(id));
        let i = choose|i: int| 0 <= i < ids.len() && ids[i] == id;
        assert(list[i] == records[id]);
    }
}

/// Inserting is idempotent: a record with a known id changes nothing, so that
/// seeding a key again never touches its health, limits or windows.
pub proof fn law_insert_is_idempotent(
    history: Seq<StoreEvent>,
    first: RecordView,
    second: RecordView,
    reply: Result<(), VaultError>,
    again: Result<(), VaultError>,
)
    requires
        first.id == second.id,
    ensures
        replay(
            history.push(StoreEvent::Insert { record: first, reply }).push(
                StoreEvent::Insert { record: second, reply: again },
            ),
        ) == replay(history.push(StoreEvent::Insert { record: first, reply })),
{
    lemma_extended(history, StoreEvent::Insert { record: first, reply });
    lemma_extended(
        history.push(StoreEvent::Insert { record: first, reply }),
        StoreEvent::Insert { record: second, reply: again },
    );
}

/// What is read back is what was written: after a record was inserted under
/// a new id, a faithful store gives that very record for it.
pub proof fn law_get_gives_what_was_inserted(
    history: Seq<StoreEvent>,
    record: RecordView,
    inserted: Result<(), VaultError>,
    reply: Result<RecordView, VaultError>,
)
    requires
        !replay(history).contains_key(record.id),
        honest(
            history.push(StoreEvent::Insert { record, reply: inserted }).push(
                StoreEvent::Get { id: record.id, reply },
            ),
        ),
    ensures
        reply == Ok::<RecordView, VaultError>(record),
{
    lemma_extended(history, StoreEvent::Insert { record, reply: inserted });
    lemma_extended(
        history.push(StoreEvent::Insert { record, reply: inserted }),
        StoreEvent::Get { id: record.id, reply },
    );
}

/// A deleted record is not found any more.
pub proof fn law_deleted_is_not_found(
    history: Seq<StoreEvent>,
    id: Seq<char>,
    deleted: Result<(), VaultError>,
    reply: Result<RecordView, VaultError>,
)
    requires
        honest(
            history.push(StoreEvent::Delete { id, reply: deleted }).push(
                StoreEvent::Get { id, reply },
            ),
        ),
    ensures
        not_found(reply, id),
{
    lemma_extended(history, StoreEvent::Delete { id, reply: deleted });
    lemma_extended(
        history.push(StoreEvent::Delete { id, reply: deleted }),
        StoreEvent::Get { id, reply },
    );
}

/// Updating one part of a record leaves its other parts, and every other
/// record, as they were.
pub proof fn law_updates_are_local(
    history: Seq<StoreEvent>,
    id: Seq<char>,
    health: HealthView,
    limits: Option<KeyLimits>,
    minute: Option<WindowState>,
    hour: Option<WindowState>,
    reply: Result<(), VaultError>,
    other: Seq<char>,
)
    requires
        replay(history).contains_key(id),
        other != id,
    ensures
        ({
            let before = replay(history);
            let healed = replay(history.push(StoreEvent::UpdateHealth { id, health, reply }));
            let counted = replay(
                history.push(StoreEvent::UpdateQuota { id, limits, minute, hour, reply }),
            );
            &&& healed[id] == (RecordView { health, ..before[id] })
            &&& counted[id] == (RecordView {
                limits,
                minute_window: minute,
                hour_window: hour,
                ..before[id]
            })
            &&& healed.contains_key(other) == before.contains_key(other)
            &&& counted.contains_key(other) == before.contains_key(other)
            &&& before.contains_key(other) ==> healed[other] == before[other] && counted[other]
                == before[other]
        }),
{
    lemma_extended(history, StoreEvent::UpdateHealth { id, health, reply });
    lemma_extended(history, StoreEvent::UpdateQuota { id, limits, minute, hour, reply });
}

} // verus!
