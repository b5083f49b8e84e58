//! The `KeyManager`: the administrative surface over the vault and the live
//! pool. Everything it returns by default is censored; plaintext keys only
//! leave the vault through the one method that exists for that purpose.

use vstd::prelude::*;
use vstd::utf8::encode_utf8;

use super::health::{KeyHealth, KeyStatus, StatusView};
use super::record::{KeyRecord, RecordView};
use super::store::{honest, lemma_extended, replay, KeyStore, StoreEvent};
use super::vault::{after_stamp, fresh_record, law_stored_key_reads_back, Stamps, Vault};
use crate::clock::{on_the_wall, read_from, Moment};
use crate::config::RotationMode;
use crate::crypto::primitives::MAX_MESSAGE;
use crate::crypto::{censored, deterministic_id, id_of, opened};
use crate::engine::{KeyPool, KeySeed, PoolView, SeedView, StateView};
use crate::error::{AiError, VaultError};
use crate::quota::{KeyLimits, KeyQuotaInfo, WindowState};
use crate::secret::SecretString;
use crate::storage::HealthView;

verus! {

/// Censored key info, safe to expose to untrusted layers such as a UI process
/// or a log line. Never contains plaintext secrets.
#[derive(Debug)]
pub struct KeyMetadata {
    /// Stable key id.
    pub id: String,
    /// e.g. `sk-proj-...8f92`
    pub censored_key: String,
    /// Live health snapshot.
    pub status: KeyStatus,
    /// Live quota snapshot: windows (used/remaining/`resets_in_ms`), in-flight
    /// count, and concurrency cap. `None` for unlimited idle keys.
    pub quota: Option<KeyQuotaInfo>,
    /// Unix ms creation timestamp.
    pub created_at_ms: i64,
}

/// What a [`KeyMetadata`] stands for.
pub struct MetadataView {
    /// Stable key id.
    pub id: Seq<char>,
    /// Censored display form.
    pub censored_key: Seq<char>,
    /// Live health snapshot.
    pub status: StatusView,
    /// Live quota snapshot.
    pub quota: Option<KeyQuotaInfo>,
    /// Unix ms creation timestamp.
    pub created_at_ms: i64,
}

impl View for KeyMetadata {
    type V = MetadataView;

    open spec fn view(&self) -> MetadataView {
        MetadataView {
            id: self.id@,
            censored_key: self.censored_key@,
            status: self.status@,
            quota: self.quota,
            created_at_ms: self.created_at_ms,
        }
    }
}

/// Whether a quota snapshot has anything to say.
pub open spec fn telling(info: KeyQuotaInfo) -> bool {
    info.minute is Some || info.hour is Some || info.max_concurrency is Some || info.in_flight > 0
}

/// What the list says of a record: its live health where the key is loaded
/// (cooldowns tick in real time), the stored one otherwise.
pub open spec fn listed(
    keys: Map<Seq<char>, StateView>,
    record: RecordView,
    m: Moment,
) -> MetadataView {
    MetadataView {
        id: record.id,
        censored_key: record.censored,
        status: StatusView::of(
            if keys.contains_key(record.id) {
                keys[record.id].health
            } else {
                record.health
            },
            m.at,
        ),
        quota: if keys.contains_key(record.id) && telling(keys[record.id].quota(m.ms())) {
            Some(keys[record.id].quota(m.ms()))
        } else {
            None
        },
        created_at_ms: record.created_at_ms,
    }
}

/// What the list says of each record.
pub open spec fn listed_all(
    keys: Map<Seq<char>, StateView>,
    records: Seq<RecordView>,
    m: Moment,
) -> Seq<MetadataView> {
    records.map_values(|record: RecordView| listed(keys, record, m))
}

/// What metadata stands for.
pub open spec fn metadata_views(list: Seq<KeyMetadata>) -> Seq<MetadataView> {
    list.map_values(|item: KeyMetadata| item@)
}

/// Whether limits ask for a concurrency cap that the mode does not have.
pub open spec fn misplaced_cap(limits: Option<KeyLimits>, mode: RotationMode) -> bool {
    limits matches Some(l) && l.max_concurrency is Some && mode is Proactive
}

/// Whether limits ask for a concurrency cap that the mode does not have.
pub fn is_misplaced_cap(limits: Option<KeyLimits>, mode: RotationMode) -> (r: bool)
    ensures
        r == misplaced_cap(limits, mode),
{
    match (limits, mode) {
        (Some(l), RotationMode::Proactive) => l.max_concurrency.is_some(),
        _ => false,
    }
}

/// The seed of a key that was just added.
pub open spec fn added_seed(text: Seq<char>, limits: Option<KeyLimits>) -> SeedView {
    SeedView {
        id: id_of(text),
        secret: text,
        censored: censored(text),
        health: HealthView::Active,
        limits,
        minute: None,
        hour: None,
    }
}

/// Developer control surface over the vault and the live pool.
pub struct KeyManager<S: KeyStore> {
    /// The encrypted records.
    pub vault: Vault<S>,
    /// The decrypted keys in use.
    pub pool: KeyPool,
}

impl<S: KeyStore> KeyManager<S> {
    /// Whether store and pool are in a sound state.
    pub open spec fn wf(&self) -> bool {
        self.vault.wf() && self.pool@.wf()
    }

    /// The calls that the store got so far.
    pub open spec fn history(&self) -> Seq<StoreEvent> {
        self.vault.history()
    }

    /// The store got one more call, `event`, and nothing else about the vault
    /// changed.
    pub open spec fn called(self, before: KeyManager<S>, event: StoreEvent) -> bool {
        &&& self.history() == before.history().push(event)
        &&& self.vault.envelope == before.vault.envelope
    }

    /// Pairs a vault with the live pool of its keys.
    pub fn new(vault: Vault<S>, pool: KeyPool) -> (r: KeyManager<S>)
        ensures
            r.vault == vault,
            r.pool == pool,
    {
        KeyManager { vault, pool }
    }

    /// Every key at the given moment, with censored display text, live health,
    /// and quota usage.
    pub fn list_keys_at(&mut self, m: Moment) -> (r: Result<Vec<KeyMetadata>, AiError>)
        requires
            old(self).wf(),
        ensures
            final(self).wf(),
            final(self).pool == old(self).pool,
            final(self).history().len() > 0,
            final(self).history().last() matches StoreEvent::LoadAll { reply } && final(self).called(
                *old(self),
                StoreEvent::LoadAll { reply },
            ) && match (reply, r) {
                (Ok(records), Ok(list)) => metadata_views(list@) == listed_all(
                    old(self).pool@.keys,
                    records,
                    m,
                ),
                (Err(e), Err(AiError::Vault(inner))) => e == inner,
                _ => false,
            },
    {
        let records: Vec<KeyRecord> = match self.vault.store.load_all() {
            Ok(records) => records,
            Err(e) => {
                return Err(AiError::Vault(e));
            },
        };
        let ghost views = super::store::record_views(records@);
        let ghost keys = self.pool@.keys;
        let now_ms: i64 = m.unix_ms();
        let mut list: Vec<KeyMetadata> = Vec::new();
        let mut i: usize = 0;
        assert(metadata_views(list@) =~= listed_all(keys, views.take(0), m));
        while i < records.len()
            invariant
                i <= records.len(),
                views == super::store::record_views(records@),
                keys == self.pool@.keys,
                now_ms == m.ms(),
                metadata_views(list@) == listed_all(keys, views.take(i as int), m),
            decreases records.len() - i,
        {
            let record: &KeyRecord = &records[i];
            let health: KeyHealth = match self.pool.health_of(record.id.as_str()) {
                Some(live) => live,
                None => record.health.clone(),
            };
            let quota: Option<KeyQuotaInfo> = match self.pool.quota_of_at(
                record.id.as_str(),
                now_ms,
            ) {
                Some(info) => {
                    if info.minute.is_some() || info.hour.is_some() || info.max_concurrency.is_some()
                        || info.in_flight > 0 {
                        Some(info)
                    } else {
                        None
                    }
                },
                None => None,
            };
            let item: KeyMetadata = KeyMetadata {
                id: record.id.clone(),
                censored_key: record.censored.clone(),
                status: KeyStatus::from_health(&health, m.at),
                quota,
                created_at_ms: record.created_at_ms,
            };
            proof {
                assert(views[i as int] == record@);
                assert(item@ == listed(keys, views[i as int], m));
                assert(metadata_views(list@.push(item)) =~= metadata_views(list@).push(item@));
                assert(listed_all(keys, views.take(i + 1), m) =~= listed_all(
                    keys,
                    views.take(i as int),
                    m,
                ).push(item@));
            }
            list.push(item);
            i = i + 1;
        }
        assert(views.take(records.len() as int) =~= views);
        Ok(list)
    }

    /// Every key with censored display text, live health, and quota usage. The
    /// result contains no secrets and can be shown as it is.
    pub fn list_keys(&mut self) -> (r: Result<Vec<KeyMetadata>, AiError>)
        requires
            old(self).wf(),
        ensures
            final(self).wf(),
            final(self).pool == old(self).pool,
            final(self).history().len() > 0,
            final(self).history().last() matches StoreEvent::LoadAll { reply } && final(self).called(
                *old(self),
                StoreEvent::LoadAll { reply },
            ) && match (reply, r) {
                (Ok(records), Ok(list)) => exists|m: Moment|
                    read_from(old(self).pool.timepiece(), m) && m.at.nanos
                        >= old(self).pool.latest().nanos && metadata_views(list@)
                        == #[trigger] listed_all(old(self).pool@.keys, records, m),
                (Err(e), Err(AiError::Vault(inner))) => e == inner,
                _ => false,
            },
    {
        let m: Moment = self.pool.peek().moment();
        self.list_keys_at(m)
    }

    /// Decrypts a single key on demand, for the rare flows that genuinely need
    /// the plaintext (say, letting a user view or edit a stored key).
    pub fn get_decrypted_key(&mut self, id: &str) -> (r: Result<SecretString, AiError>)
        requires
            old(self).wf(),
        ensures
            final(self).wf(),
            final(self).pool == old(self).pool,
            final(self).history().len() > 0,
            final(self).history().last() matches StoreEvent::Get { id: asked, reply } && asked
                == id@ && final(self).called(*old(self), StoreEvent::Get { id: asked, reply })
                && match (reply, r) {
                (Err(e), Err(told)) => told == shown_error(
                    e,
                    old(self).pool@.keys.contains_key(id@),
                ),
                (Ok(record), r) => match (opened(old(self).vault.envelope@, record.ciphertext), r) {
                    (Ok(text), Ok(secret)) => secret@ == text,
                    (Err(reason), Err(AiError::Vault(VaultError::Corrupted(why)))) => why@
                        == reason,
                    _ => false,
                },
                _ => false,
            },
    {
        match self.vault.decrypt_one(id) {
            Ok(secret) => {
                proof {
                    let events = self.history();
                    assert(events.drop_last().push(events.last()) =~= events);
                }
                Ok(secret)
            },
            Err(e) => {
                proof {
                    let events = self.history();
                    assert(events.drop_last().push(events.last()) =~= events);
                }
                Err(show_error(e, self.pool.health_of(id).is_some()))
            },
        }
    }

    /// Encrypts and stores a new key, loads it into the live pool, and returns
    /// its deterministic id.
    pub fn add_key(&mut self, plaintext_key: &str, stamps: &mut Stamps) -> (r: Result<
        String,
        AiError,
    >)
        requires
            old(self).wf(),
        ensures
            final(self).wf(),
            added(
                *old(self),
                *final(self),
                plaintext_key@,
                None,
                old(stamps).last,
                final(stamps).last,
                r,
            ),
    {
        self.add_key_with_limits(plaintext_key, None, stamps)
    }

    /// Like [`KeyManager::add_key`], with explicit per-key limits (`None` =
    /// pool default).
    pub fn add_key_with_limits(
        &mut self,
        plaintext_key: &str,
        limits: Option<KeyLimits>,
        stamps: &mut Stamps,
    ) -> (r: Result<String, AiError>)
        requires
            old(self).wf(),
        ensures
            final(self).wf(),
            added(
                *old(self),
                *final(self),
                plaintext_key@,
                limits,
                old(stamps).last,
                final(stamps).last,
                r,
            ),
    {
        if is_misplaced_cap(limits, self.pool.mode()) {
            return Err(
                AiError::InvalidConfig(
                    "max_concurrency limits require RotationMode::Reactive;                  proactive mode already spreads load".to_string(),
                ),
            );
        }
        let id: String = deterministic_id(plaintext_key);
        let secret: SecretString = SecretString::new(plaintext_key.to_string());
        let record: KeyRecord = match self.vault.insert_plain(id.as_str(), &secret, limits, stamps) {
            Ok(record) => record,
            Err(e) => {
                return Err(AiError::Vault(e));
            },
        };
        self.pool.upsert(
            KeySeed::new(record.id.as_str(), secret, record.censored.as_str()).limits(record.limits),
        );
        Ok(id)
    }

    /// Quota snapshot of one key at `now_ms`.
    pub fn key_quota_at(&self, id: &str, now_ms: i64) -> (r: Result<KeyQuotaInfo, AiError>)
        ensures
            match r {
                Ok(info) => self.pool@.keys.contains_key(id@) && info
                    == self.pool@.keys[id@].quota(now_ms),
                Err(e) => !self.pool@.keys.contains_key(id@) && (e matches AiError::KeyNotFound(
                    missing,
                ) && missing@ == id@),
            },
    {
        match self.pool.quota_of_at(id, now_ms) {
            Some(info) => Ok(info),
            None => Err(AiError::KeyNotFound(id.to_string())),
        }
    }

    /// Live quota snapshot for one key: minute/hour window usage,
    /// `resets_at_ms` / `resets_in_ms` for realtime countdowns, in-flight
    /// count, and the concurrency cap.
    pub fn key_quota(&self, id: &str) -> (r: Result<KeyQuotaInfo, AiError>)
        ensures
            match r {
                Ok(info) => self.pool@.keys.contains_key(id@) && exists|now_ms: i64|
                    on_the_wall(now_ms) && info == #[trigger] self.pool@.keys[id@].quota(now_ms),
                Err(e) => !self.pool@.keys.contains_key(id@) && (e matches AiError::KeyNotFound(
                    missing,
                ) && missing@ == id@),
            },
    {
        let now_ms: i64 = crate::quota::now_ms();
        self.key_quota_at(id, now_ms)
    }

    /// Replaces a key's quota limits (live and persisted). Windows keep their
    /// current usage; only the caps change.
    pub fn set_key_limits(&mut self, id: &str, limits: Option<KeyLimits>) -> (r: Result<(), AiError>)
        requires
            old(self).wf(),
        ensures
            final(self).wf(),
            ({
                let before = old(self).pool@;
                let effective = match limits {
                    Some(l) => l,
                    None => before.default_limits,
                };
                if misplaced_cap(limits, before.mode) {
                    &&& r matches Err(AiError::InvalidConfig(why)) && why@
                        == "max_concurrency limits require RotationMode::Reactive"@
                    &&& *final(self) == *old(self)
                } else if !before.keys.contains_key(id@) {
                    &&& r matches Err(AiError::KeyNotFound(missing)) && missing@ == id@
                    &&& *final(self) == *old(self)
                } else {
                    &&& final(self).pool@ == before.with_limits(id@, effective)
                    &&& final(self).history().len() > 0
                    &&& final(self).history().last() matches StoreEvent::UpdateQuota { reply, .. }
                        && final(self).called(
                        *old(self),
                        StoreEvent::UpdateQuota {
                            id: id@,
                            limits,
                            minute: before.keys[id@].minute,
                            hour: before.keys[id@].hour,
                            reply,
                        },
                    ) && passed_on(reply, true, r)
                }
            }),
    {
        if is_misplaced_cap(limits, self.pool.mode()) {
            return Err(
                AiError::InvalidConfig(
                    "max_concurrency limits require RotationMode::Reactive".to_string(),
                ),
            );
        }
        let effective: KeyLimits = match limits {
            Some(l) => l,
            None => self.pool.default_limits(),
        };
        let (minute, hour): (Option<WindowState>, Option<WindowState>) = match self.pool.windows_of(
            id,
        ) {
            Some((minute, hour, _)) => (minute, hour),
            None => {
                return Err(AiError::KeyNotFound(id.to_string()));
            },
        };
        self.pool.set_limits(id, effective);
        match self.vault.store.update_quota(id, limits, minute, hour) {
            Ok(()) => Ok(()),
            Err(e) => Err(show_error(e, true)),
        }
    }

    /// Removes a key from disk and RAM.
    pub fn remove_key(&mut self, id: &str) -> (r: Result<(), AiError>)
        requires
            old(self).wf(),
        ensures
            final(self).wf(),
            final(self).history().len() > 0,
            final(self).history().last() matches StoreEvent::Delete { reply, .. } && final(self).called(
                *old(self),
                StoreEvent::Delete { id: id@, reply },
            ) && passed_on(reply, old(self).pool@.keys.contains_key(id@), r) && final(self).pool@ == (
            if reply is Ok {
                old(self).pool@.removed(id@)
            } else {
                old(self).pool@
            }),
    {
        match self.vault.store.delete(id) {
            Ok(()) => {
                self.pool.remove(id);
                Ok(())
            },
            Err(e) => Err(show_error(e, self.pool.health_of(id).is_some())),
        }
    }

    /// Gives a key a new health, persisted first and live after.
    fn put_health(&mut self, id: &str, health: KeyHealth) -> (r: Result<(), AiError>)
        requires
            old(self).wf(),
        ensures
            final(self).wf(),
            health_put(*old(self), *final(self), id@, health@, r),
    {
        let live: KeyHealth = health.clone();
        if let Err(e) = self.vault.store.update_health(id, health) {
            return Err(show_error(e, self.pool.health_of(id).is_some()));
        }
        match self.pool.set_health(id, live) {
            Some(()) => Ok(()),
            None => Err(AiError::KeyNotFound(id.to_string())),
        }
    }

    /// Manually bans a key (persisted and live).
    pub fn ban_key(&mut self, id: &str) -> (r: Result<(), AiError>)
        requires
            old(self).wf(),
        ensures
            final(self).wf(),
            health_put(
                *old(self),
                *final(self),
                id@,
                (HealthView::Banned { reason: "manually banned"@ }),
                r,
            ),
    {
        self.put_health(id, KeyHealth::Banned { reason: "manually banned".to_string() })
    }

    /// Restores a banned/cooling key back to `Active` (persisted and live).
    pub fn recover_key(&mut self, id: &str) -> (r: Result<(), AiError>)
        requires
            old(self).wf(),
        ensures
            final(self).wf(),
            health_put(*old(self), *final(self), id@, HealthView::Active, r),
    {
        self.put_health(id, KeyHealth::Active)
    }
}

/// What a caller is told of a failed operation on a key: an id that the store
/// does not know is an unknown key, unless it is `live` in the pool; anything
/// else is a failure of the vault.
pub open spec fn shown_error(e: VaultError, live: bool) -> AiError {
    match e {
        VaultError::NotFound(id) if !live => AiError::KeyNotFound(id),
        other => AiError::Vault(other),
    }
}

/// What a caller is told of a failed operation on a key.
fn show_error(e: VaultError, live: bool) -> (r: AiError)
    ensures
        r == shown_error(e, live),
{
    if live {
        return AiError::Vault(e);
    }
    match e {
        VaultError::NotFound(id) => AiError::KeyNotFound(id),
        other => AiError::Vault(other),
    }
}

/// Whether `r` passes on what the store replied of a key that is `live` in the
/// pool or not.
pub open spec fn passed_on(reply: Result<(), VaultError>, live: bool, r: Result<(), AiError>) -> bool {
    match (reply, r) {
        (Ok(_), Ok(_)) => true,
        (Err(e), Err(told)) => told == shown_error(e, live),
        _ => false,
    }
}

/// What adding a key comes to. A concurrency cap in proactive mode and a text
/// too long to be sealed are refused before anything changes. Otherwise the
/// store is handed a fresh record, and the pool loads the key if the store took
/// it. The stamps go on from `last` to `next`.
pub open spec fn added<S: KeyStore>(
    before: KeyManager<S>,
    after: KeyManager<S>,
    text: Seq<char>,
    limits: Option<KeyLimits>,
    last: i64,
    next: i64,
    r: Result<String, AiError>,
) -> bool {
    if misplaced_cap(limits, before.pool@.mode) {
        &&& r matches Err(AiError::InvalidConfig(why)) && why@
            == "max_concurrency limits require RotationMode::Reactive;                  proactive mode already spreads load"@
        &&& after == before
        &&& next == last
    } else if encode_utf8(text).len() > MAX_MESSAGE {
        &&& r matches Err(AiError::Vault(VaultError::Crypto(why))) && why@ == "aead::Error"@
        &&& after == before
        &&& next == last
    } else {
        let events = after.history();
        &&& after.vault.envelope == before.vault.envelope
        &&& events.len() == before.history().len() + 1
        &&& events.drop_last() == before.history()
        &&& events.last() matches StoreEvent::Insert { record, reply }
        &&& fresh_record(
            record,
            before.vault.envelope@,
            id_of(text),
            text,
            limits,
            last,
        )
        &&& next == after_stamp(record.created_at_ms)
        &&& match reply {
            Ok(_) => {
                &&& r matches Ok(id) && id@ == id_of(text)
                &&& after.pool@ == before.pool@.upserted(added_seed(text, limits))
            },
            Err(e) => {
                &&& r matches Err(AiError::Vault(inner)) && inner == e
                &&& after.pool == before.pool
            },
        }
    }
}

/// What giving a key a new health comes to: the store is told first; if it
/// agrees, the pool follows, and a key that is not loaded is reported.
pub open spec fn health_put<S: KeyStore>(
    before: KeyManager<S>,
    after: KeyManager<S>,
    id: Seq<char>,
    health: HealthView,
    r: Result<(), AiError>,
) -> bool {
    let events = after.history();
    &&& events.len() > 0
    &&& events.last() matches StoreEvent::UpdateHealth { reply, .. } && after.called(
        before,
        StoreEvent::UpdateHealth { id, health, reply },
    ) && match reply {
        Err(e) => {
            &&& r matches Err(told) && told == shown_error(e, before.pool@.keys.contains_key(id))
            &&& after.pool@ == before.pool@
        },
        Ok(_) => {
            &&& after.pool@ == before.pool@.with_health(id, health)
            &&& if before.pool@.keys.contains_key(id) {
                r is Ok
            } else {
                r matches Err(AiError::KeyNotFound(missing)) && missing@ == id
            }
        },
    }
}

/// A key that was added can be read back: with a faithful store that did not
/// have the id before, decrypting it gives the very plaintext that was added.
pub proof fn law_added_key_reads_back<S: KeyStore>(
    before: KeyManager<S>,
    with_key: KeyManager<S>,
    after: KeyManager<S>,
    text: Seq<char>,
    limits: Option<KeyLimits>,
    last: i64,
    next: i64,
    id: String,
    reply: Result<RecordView, VaultError>,
)
    requires
        added(before, with_key, text, limits, last, next, Ok(id)),
        !replay(before.history()).contains_key(id@),
        after.called(with_key, StoreEvent::Get { id: id@, reply }),
        honest(after.history()),
    ensures
        reply matches Ok(record) && opened(after.vault.envelope@, record.ciphertext) == Ok::<
            Seq<char>,
            Seq<char>,
        >(text),
{
    let events = with_key.history();
    if let StoreEvent::Insert { record, reply: inserted } = events.last() {
        assert(events =~= before.history().push(StoreEvent::Insert { record, reply: inserted }));
        law_stored_key_reads_back(
            before.history(),
            record,
            inserted,
            reply,
            before.vault.envelope@,
            text,
            limits,
            last,
        );
    }
}

/// A removed key is gone from the pool, and a faithful store does not find it
/// any more.
pub proof fn law_removed_key_is_gone(
    pool: PoolView,
    history: Seq<StoreEvent>,
    id: Seq<char>,
    deleted: Result<(), VaultError>,
)
    ensures
        !pool.removed(id).keys.contains_key(id),
        !replay(history.push(StoreEvent::Delete { id, reply: deleted })).contains_key(id),
{
    lemma_extended(history, StoreEvent::Delete { id, reply: deleted });
}

/// An unknown id is answered as such: whatever is asked of a key that neither
/// the pool nor a faithful store holds, the store replies that it was not found,
/// and the caller is told that there is no such key. The contents of the store
/// stay as they are.
pub proof fn law_unknown_key_is_not_found(
    history: Seq<StoreEvent>,
    id: Seq<char>,
    health: HealthView,
    deleted: Result<(), VaultError>,
    updated: Result<(), VaultError>,
    found: Result<RecordView, VaultError>,
)
    requires
        !replay(history).contains_key(id),
        honest(history.push(StoreEvent::Delete { id, reply: deleted })),
        honest(history.push(StoreEvent::UpdateHealth { id, health, reply: updated })),
        honest(history.push(StoreEvent::Get { id, reply: found })),
    ensures
        deleted matches Err(e) && (shown_error(e, false) matches AiError::KeyNotFound(missing)
            && missing@ == id),
        updated matches Err(e) && (shown_error(e, false) matches AiError::KeyNotFound(missing)
            && missing@ == id),
        found matches Err(e) && (shown_error(e, false) matches AiError::KeyNotFound(missing)
            && missing@ == id),
        replay(history.push(StoreEvent::Delete { id, reply: deleted })) == replay(history),
        replay(history.push(StoreEvent::UpdateHealth { id, health, reply: updated })) == replay(
            history,
        ),
{
    lemma_extended(history, StoreEvent::Delete { id, reply: deleted });
    lemma_extended(history, StoreEvent::UpdateHealth { id, health, reply: updated });
    lemma_extended(history, StoreEvent::Get { id, reply: found });
    assert(replay(history).remove(id) =~= replay(history));
}

/// The list tells nothing of the secrets: it is the same for two pools and two
/// stores that differ in secrets and ciphertexts alone.
pub proof fn law_list_reveals_no_secret(
    one: Map<Seq<char>, StateView>,
    other: Map<Seq<char>, StateView>,
    record: RecordView,
    ciphertext: Seq<u8>,
    m: Moment,
)
    requires
        one.dom() == other.dom(),
        forall|id: Seq<char>| #[trigger]
            one.contains_key(id) ==> one[id] == (StateView { secret: one[id].secret, ..other[id] }),
    ensures
        listed(one, record, m) == listed(other, RecordView { ciphertext, ..record }, m),
{
    assert(one.contains_key(record.id) == other.contains_key(record.id));
}

/// A banned key is out of service until it is recovered, and recovering makes
/// it healthy whatever it was before.
pub proof fn law_ban_and_recover(pool: PoolView, id: Seq<char>, reason: Seq<char>, m: Moment)
    requires
        pool.keys.contains_key(id),
    ensures
        !pool.with_health(id, HealthView::Banned { reason }).keys[id].rate_usable(m),
        pool.with_health(id, HealthView::Banned { reason }).with_health(
            id,
            HealthView::Active,
        ).keys[id].health.usable(m.at),
        pool.keys[id].health is Active ==> pool.with_health(
            id,
            HealthView::Banned { reason },
        ).with_health(id, HealthView::Active).keys == pool.keys,
{
    if pool.keys[id].health is Active {
        assert(pool.with_health(id, HealthView::Banned { reason }).with_health(
            id,
            HealthView::Active,
        ).keys =~= pool.keys);
    }
}

/// New limits keep the current usage: only the caps change.
pub proof fn law_new_limits_keep_usage(pool: PoolView, id: Seq<char>, limits: KeyLimits)
    requires
        pool.keys.contains_key(id),
    ensures
        ({
            let after = pool.with_limits(id, limits).keys[id];
            &&& after.minute == pool.keys[id].minute
            &&& after.hour == pool.keys[id].hour
            &&& after.in_flight == pool.keys[id].in_flight
            &&& after.health == pool.keys[id].health
            &&& after.limits == limits
        }),
{
}

} // verus!
