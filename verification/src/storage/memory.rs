//! In-memory `KeyStore` backed by a `DashMap`. Suits tests and sessions that
//! end with the process: blobs live in RAM and are lost on exit.

use vstd::prelude::*;

use dashmap::DashMap;

use super::health::KeyHealth;
use super::record::{KeyRecord, RecordView};
use super::store::{
    creation_times, get_reply, honest, lemma_extended, listing, load_reply, record_views, replay,
    KeyStore, StoreEvent,
};
use crate::error::VaultError;
use crate::order::{order_ids, ordered, ranks_of, texts, Ranked};
use crate::quota::{KeyLimits, WindowState};
use crate::tables::{
    no_records, records_entries, records_get, records_in, records_insert, records_new, records_remove,
};

verus! {

/// RAM-only `KeyStore`; contents are lost on drop.
pub struct MemoryStore {
    records: DashMap<String, KeyRecord>,
    log: Ghost<Seq<StoreEvent>>,
}

impl MemoryStore {
    /// The records held.
    pub closed spec fn contents(&self) -> Map<Seq<char>, RecordView> {
        records_in(self.records)
    }

    /// Creates an empty in-memory store.
    #[must_use]
    pub fn new() -> (r: MemoryStore)
        ensures
            r.wf(),
            r.contents() == no_records(),
            r.history() == Seq::<StoreEvent>::empty(),
    {
        MemoryStore { records: records_new(), log: Ghost(Seq::empty()) }
    }

    /// The store is faithful: it holds what its history says, and has replied
    /// accordingly.
    pub proof fn law_faithful(self)
        requires
            self.wf(),
        ensures
            honest(self.history()),
            self.contents() == replay(self.history()),
    {
    }
}

impl KeyStore for MemoryStore {
    closed spec fn history(&self) -> Seq<StoreEvent> {
        self.log@
    }

    closed spec fn wf(&self) -> bool {
        &&& honest(self.log@)
        &&& records_in(self.records) == replay(self.log@)
    }

    fn load_all(&mut self) -> (r: Result<Vec<KeyRecord>, VaultError>)
        ensures
            r matches Ok(all) && record_views(all@) == listing(old(self).contents()),
            final(self).contents() == old(self).contents(),
    {
        let ghost held = records_in(self.records);
        let entries: Vec<(String, KeyRecord)> = records_entries(&self.records);
        let mut items: Vec<Ranked> = Vec::new();
        let mut k: usize = 0;
        while k < entries.len()
            invariant
                k <= entries.len(),
                items.len() == k,
                forall|i: int|
                    0 <= i < k ==> (#[trigger] items[i]).id@ == entries[i].0@ && items[i].rank
                        == entries[i].1.created_at_ms,
            decreases entries.len() - k,
        {
            items.push(Ranked { id: entries[k].0.clone(), rank: entries[k].1.created_at_ms as i128 });
            k = k + 1;
        }
        proof {
            lemma_ranks(items@, entries@, held);
        }
        let ids: Vec<String> = order_ids(&items);
        assert forall|i: int| 0 <= i < ids.len() implies held.contains_key(
            (#[trigger] ids[i])@,
        ) by {
            assert(creation_times(held).contains_key(texts(ids@)[i]));
        }
        let mut all: Vec<KeyRecord> = Vec::new();
        let mut n: usize = 0;
        while n < ids.len()
            invariant
                n <= ids.len(),
                held == records_in(self.records),
                texts(ids@) == ordered(creation_times(held)),
                forall|i: int| 0 <= i < ids.len() ==> held.contains_key((#[trigger] ids[i])@),
                record_views(all@) == texts(ids@).take(n as int).map_values(
                    |id: Seq<char>| held[id],
                ),
                self.log@ == old(self).log@,
                self.records == old(self).records,
            decreases ids.len() - n,
        {
            if let Some(record) = records_get(&self.records, ids[n].as_str()) {
                proof {
                    assert(texts(ids@)[n as int] == ids[n as int]@);
                    assert(record_views(all@.push(record)) =~= record_views(all@).push(record@));
                    assert(texts(ids@).take(n + 1).map_values(|id: Seq<char>| held[id])
                        =~= texts(ids@).take(n as int).map_values(|id: Seq<char>| held[id]).push(
                        held[ids[n as int]@],
                    ));
                }
                all.push(record);
            }
            n = n + 1;
        }
        assert(texts(ids@).take(ids.len() as int) =~= texts(ids@));
        assert(record_views(all@) == listing(held));
        let r: Result<Vec<KeyRecord>, VaultError> = Ok(all);
        let ghost event = StoreEvent::LoadAll { reply: load_reply(r) };
        proof {
            lemma_extended(self.log@, event);
        }
        self.log = Ghost(self.log@.push(event));
        r
    }

    fn insert(&mut self, record: &KeyRecord) -> (r: Result<(), VaultError>)
        ensures
            r is Ok,
            final(self).contents() == (if old(self).contents().contains_key(record@.id) {
                old(self).contents()
            } else {
                old(self).contents().insert(record@.id, record@)
            }),
    {
        if records_get(&self.records, record.id.as_str()).is_none() {
            records_insert(&mut self.records, record.id.clone(), record.clone());
        }
        let r: Result<(), VaultError> = Ok(());
        let ghost event = StoreEvent::Insert { record: record@, reply: r };
        proof {
            lemma_extended(self.log@, event);
        }
        self.log = Ghost(self.log@.push(event));
        r
    }

    fn delete(&mut self, id: &str) -> (r: Result<(), VaultError>)
        ensures
            r is Ok <==> old(self).contents().contains_key(id@),
            r matches Err(e) ==> e matches VaultError::NotFound(missing) && missing@ == id@,
            final(self).contents() == old(self).contents().remove(id@),
    {
        let r: Result<(), VaultError> = if records_remove(&mut self.records, id) {
            Ok(())
        } else {
            Err(VaultError::NotFound(id.to_string()))
        };
        let ghost event = StoreEvent::Delete { id: id@, reply: r };
        proof {
            lemma_extended(self.log@, event);
        }
        self.log = Ghost(self.log@.push(event));
        r
    }

    fn update_health(&mut self, id: &str, health: KeyHealth) -> (r: Result<(), VaultError>)
        ensures
            r is Ok <==> old(self).contents().contains_key(id@),
            r matches Err(e) ==> e matches VaultError::NotFound(missing) && missing@ == id@,
            final(self).contents() == (if old(self).contents().contains_key(id@) {
                old(self).contents().insert(
                    id@,
                    RecordView { health: health@, ..old(self).contents()[id@] },
                )
            } else {
                old(self).contents()
            }),
    {
        let ghost shown = health@;
        let r: Result<(), VaultError> = match records_get(&self.records, id) {
            Some(mut record) => {
                record.health = health;
                records_insert(&mut self.records, id.to_string(), record);
                Ok(())
            },
            None => Err(VaultError::NotFound(id.to_string())),
        };
        let ghost event = StoreEvent::UpdateHealth { id: id@, health: shown, reply: r };
        proof {
            lemma_extended(self.log@, event);
        }
        self.log = Ghost(self.log@.push(event));
        r
    }

    fn update_quota(
        &mut self,
        id: &str,
        limits: Option<KeyLimits>,
        minute: Option<WindowState>,
        hour: Option<WindowState>,
    ) -> (r: Result<(), VaultError>)
        ensures
            r is Ok <==> old(self).contents().contains_key(id@),
            r matches Err(e) ==> e matches VaultError::NotFound(missing) && missing@ == id@,
            final(self).contents() == (if old(self).contents().contains_key(id@) {
                old(self).contents().insert(
                    id@,
                    RecordView {
                        limits,
                        minute_window: minute,
                        hour_window: hour,
                        ..old(self).contents()[id@]
                    },
                )
            } else {
                old(self).contents()
            }),
    {
        let r: Result<(), VaultError> = match records_get(&self.records, id) {
            Some(mut record) => {
                record.limits = limits;
                record.minute_window = minute;
                record.hour_window = hour;
                records_insert(&mut self.records, id.to_string(), record);
                Ok(())
            },
            None => Err(VaultError::NotFound(id.to_string())),
        };
        let ghost event = StoreEvent::UpdateQuota { id: id@, limits, minute, hour, reply: r };
        proof {
            lemma_extended(self.log@, event);
        }
        self.log = Ghost(self.log@.push(event));
        r
    }

    fn get(&mut self, id: &str) -> (r: Result<KeyRecord, VaultError>)
        ensures
            match r {
                Ok(record) => old(self).contents().contains_key(id@) && record@
                    == old(self).contents()[id@],
                Err(e) => !old(self).contents().contains_key(id@) && (e matches VaultError::NotFound(
                    missing,
                ) && missing@ == id@),
            },
            final(self).contents() == old(self).contents(),
    {
        let r: Result<KeyRecord, VaultError> = match records_get(&self.records, id) {
            Some(record) => Ok(record),
            None => Err(VaultError::NotFound(id.to_string())),
        };
        let ghost event = StoreEvent::Get { id: id@, reply: get_reply(r) };
        proof {
            lemma_extended(self.log@, event);
        }
        self.log = Ghost(self.log@.push(event));
        r
    }
}

proof fn lemma_ranks(
    items: Seq<Ranked>,
    entries: Seq<(String, KeyRecord)>,
    held: Map<Seq<char>, RecordView>,
)
    requires
        items.len() == entries.len(),
        forall|i: int|
            0 <= i < items.len() ==> (#[trigger] items[i]).id@ == entries[i].0@ && items[i].rank
                == entries[i].1.created_at_ms,
        forall|i: int|
            0 <= i < entries.len() ==> held.contains_key((#[trigger] entries[i]).0@)
                && entries[i].1@ == held[entries[i].0@],
        forall|id: Seq<char>| #[trigger]
            held.contains_key(id) ==> exists|i: int|
                0 <= i < entries.len() && (#[trigger] entries[i]).0@ == id,
    ensures
        ranks_of(items) == creation_times(held),
{
    crate::order::lemma_ranks_of(items);
    let times = creation_times(held);
    let ranks = ranks_of(items);
    assert forall|id: Seq<char>| #[trigger] ranks.contains_key(id) == times.contains_key(id) by {
        if times.contains_key(id) {
            assert(held.contains_key(id));
            let i = choose|i: int| 0 <= i < entries.len() && (#[trigger] entries[i]).0@ == id;
            assert(items[i].id@ == id);
        }
        if ranks.contains_key(id) {
            let i = choose|i: int| 0 <= i < items.len() && (#[trigger] items[i]).id@ == id;
            assert(held.contains_key(entries[i].0@));
        }
    }
    assert forall|id: Seq<char>| #[trigger] ranks.contains_key(id) implies ranks[id]
        == times[id] by {
        crate::order::lemma_rank_of(items, id);
        let i = choose|i: int|
            0 <= i < items.len() && (#[trigger] items[i]).id@ == id && items[i].rank == ranks[id];
        assert(entries[i].1@.created_at_ms == held[id].created_at_ms);
        assert(held.contains_key(id));
    }
    assert(ranks =~= times);
}

} // verus!
