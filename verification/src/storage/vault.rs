//! A store together with the envelope that seals its blobs.

use vstd::prelude::*;
use vstd::utf8::encode_utf8;

use super::health::{HealthView, KeyHealth};
use super::record::{KeyRecord, RecordView};
use super::store::{
    get_reply, honest, law_get_gives_what_was_inserted, record_views, replay, KeyStore, StoreEvent,
};
use crate::clock::on_the_wall;
use crate::crypto::primitives::{MAX_MESSAGE, NONCE_LEN};
use crate::crypto::random::drawn;
use crate::crypto::{censor, censored, fresh_nonce, holds, opened, sealed, Envelope};
use crate::error::VaultError;
use crate::quota::{now_ms, KeyLimits, WindowState};
use crate::secret::SecretString;

verus! {

/// A store and the envelope that seals its blobs.
pub struct Vault<S: KeyStore> {
    /// The underlying storage backend.
    pub store: S,
    /// Seals and opens the blobs.
    pub envelope: Envelope,
}

/// A decrypted key ready to be loaded into the engine.
pub struct DecryptedKey {
    /// Stable key id.
    pub id: String,
    /// Decrypted API key.
    pub secret: SecretString,
    /// Censored display form.
    pub censored: String,
    /// Persisted health state.
    pub health: KeyHealth,
    /// Persisted per-key limits, if any.
    pub limits: Option<KeyLimits>,
    /// Persisted minute window (already expiry-checked).
    pub minute_window: Option<WindowState>,
    /// Persisted hour window (already expiry-checked).
    pub hour_window: Option<WindowState>,
}

/// What a [`DecryptedKey`] stands for.
pub struct DecryptedView {
    /// Stable key id.
    pub id: Seq<char>,
    /// Decrypted API key.
    pub secret: Seq<char>,
    /// Censored display form.
    pub censored: Seq<char>,
    /// Persisted health state.
    pub health: HealthView,
    /// Persisted per-key limits, if any.
    pub limits: Option<KeyLimits>,
    /// Persisted minute window.
    pub minute_window: Option<WindowState>,
    /// Persisted hour window.
    pub hour_window: Option<WindowState>,
}

impl View for DecryptedKey {
    type V = DecryptedView;

    open spec fn view(&self) -> DecryptedView {
        DecryptedView {
            id: self.id@,
            secret: self.secret@,
            censored: self.censored@,
            health: self.health@,
            limits: self.limits,
            minute_window: self.minute_window,
            hour_window: self.hour_window,
        }
    }
}

/// The creation stamp given at `now_ms`: never earlier than `last`.
pub open spec fn stamp(last: i64, now_ms: i64) -> i64 {
    if now_ms > last {
        now_ms
    } else {
        last
    }
}

/// The earliest stamp after `stamped`; the counter starts over past its end.
pub open spec fn after_stamp(stamped: i64) -> i64 {
    if stamped < i64::MAX {
        (stamped + 1) as i64
    } else {
        i64::MIN
    }
}

/// Where creation stamps come from. A process keeps one for all its vaults, so
/// that keys keep their insertion order whichever vault they go through.
#[derive(Debug, PartialEq, Eq, Structural)]
pub struct Stamps {
    /// No record made from now on is stamped earlier than this.
    pub last: i64,
}

impl Stamps {
    /// A source that has not stamped anything yet.
    pub fn new() -> (r: Stamps)
        ensures
            r.last == 0,
    {
        Stamps { last: 0 }
    }

    /// Stamps a record at `now_ms`. Stamps increase strictly, so that keys
    /// inserted in the same millisecond keep their insertion order in
    /// `load_all`. Reactive mode depends on this: the first-seeded key is the
    /// first failover candidate.
    pub fn monotonic_ms_at(&mut self, now_ms: i64) -> (r: i64)
        ensures
            r == stamp(old(self).last, now_ms),
            final(self).last == after_stamp(r),
    {
        let stamped: i64 = if now_ms > self.last {
            now_ms
        } else {
            self.last
        };
        self.last = if stamped < i64::MAX {
            stamped + 1
        } else {
            i64::MIN
        };
        stamped
    }
}

/// Stamps increase strictly, whatever the clock does, as long as the counter
/// has not reached its end.
pub proof fn law_stamps_increase(last: i64, now_ms: i64, later_ms: i64)
    requires
        stamp(last, now_ms) < i64::MAX,
    ensures
        stamp(after_stamp(stamp(last, now_ms)), later_ms) > stamp(last, now_ms),
{
}

/// Whether `record` is what sealing `text` under `id` makes: a healthy record
/// without usage, stamped no earlier than `last`.
pub open spec fn fresh_record(
    record: RecordView,
    master: Seq<u8>,
    id: Seq<char>,
    text: Seq<char>,
    limits: Option<KeyLimits>,
    last: i64,
) -> bool {
    &&& record.id == id
    &&& holds(master, record.ciphertext, text)
    &&& exists|nonce: Seq<u8>|
        nonce.len() == NONCE_LEN && drawn(nonce) && record.ciphertext == sealed(
            master,
            nonce,
            text,
        )
    &&& record.censored == censored(text)
    &&& record.health == HealthView::Active
    &&& record.limits == limits
    &&& record.minute_window is None
    &&& record.hour_window is None
    &&& record.created_at_ms >= last
    &&& record.created_at_ms >= 0
    &&& exists|now_ms: i64|
        on_the_wall(now_ms) && record.created_at_ms >= now_ms && record.created_at_ms
            == #[trigger] stamp(last, now_ms)
}

/// The record that sealing `text` under `id` and a nonce makes, stamped
/// `created_at_ms`: healthy and without usage.
pub open spec fn sealed_record(
    master: Seq<u8>,
    id: Seq<char>,
    text: Seq<char>,
    limits: Option<KeyLimits>,
    nonce: Seq<u8>,
    created_at_ms: i64,
) -> RecordView {
    RecordView {
        id,
        ciphertext: sealed(master, nonce, text),
        censored: censored(text),
        health: HealthView::Active,
        limits,
        minute_window: None,
        hour_window: None,
        created_at_ms,
    }
}

/// The key that a record opens to.
pub open spec fn decrypted(record: RecordView, text: Seq<char>) -> DecryptedView {
    DecryptedView {
        id: record.id,
        secret: text,
        censored: record.censored,
        health: record.health,
        limits: record.limits,
        minute_window: record.minute_window,
        hour_window: record.hour_window,
    }
}

/// The keys that records open to at `now_ms`, without those that do not open;
/// windows whose time has passed are dropped.
pub open spec fn opened_keys(master: Seq<u8>, records: Seq<RecordView>, now_ms: i64) -> Seq<
    DecryptedView,
>
    decreases records.len(),
{
    if records.len() == 0 {
        Seq::empty()
    } else {
        let before = opened_keys(master, records.drop_last(), now_ms);
        match opened(master, records.last().ciphertext) {
            Ok(text) => before.push(decrypted(records.last().fresh(now_ms), text)),
            Err(_) => before,
        }
    }
}

/// The ids of the records that do not open, each with the reason for its ban.
pub open spec fn corrupted(master: Seq<u8>, records: Seq<RecordView>) -> Seq<
    (Seq<char>, Seq<char>),
>
    decreases records.len(),
{
    if records.len() == 0 {
        Seq::empty()
    } else {
        let before = corrupted(master, records.drop_last());
        match opened(master, records.last().ciphertext) {
            Ok(_) => before,
            Err(why) => before.push((records.last().id, "corrupted: "@ + why)),
        }
    }
}

/// Whether `events` ban the given ids for the given reasons, in that order.
pub open spec fn bans(events: Seq<StoreEvent>, list: Seq<(Seq<char>, Seq<char>)>) -> bool {
    &&& events.len() == list.len()
    &&& forall|i: int|
        0 <= i < list.len() ==> (#[trigger] events[i] matches StoreEvent::UpdateHealth {
            id,
            health,
            ..
        } && id == list[i].0 && health == HealthView::Banned { reason: list[i].1 })
}

/// What decrypted keys stand for.
pub open spec fn decrypted_views(keys: Seq<DecryptedKey>) -> Seq<DecryptedView> {
    keys.map_values(|key: DecryptedKey| key@)
}

impl<S: KeyStore> Vault<S> {
    /// Whether the store is in a sound state.
    pub open spec fn wf(&self) -> bool {
        self.store.wf()
    }

    /// The calls that the store got so far.
    pub open spec fn history(&self) -> Seq<StoreEvent> {
        self.store.history()
    }

    /// Pairs a storage backend with the envelope that seals its blobs.
    pub fn new(store: S, envelope: Envelope) -> (r: Vault<S>)
        ensures
            r.store == store,
            r.envelope == envelope,
    {
        Vault { store, envelope }
    }

    /// The underlying storage backend.
    pub fn store(&self) -> (r: &S)
        ensures
            *r == self.store,
    {
        &self.store
    }

    /// Seals `plaintext` under the given nonce and inserts it under `id`, stamped
    /// at `now_ms`. The record is returned as it was handed to the store, whether
    /// or not the id was there before.
    pub fn insert_plain_at(
        &mut self,
        id: &str,
        plaintext: &SecretString,
        limits: Option<KeyLimits>,
        nonce: &[u8],
        now_ms: i64,
        stamps: &mut Stamps,
    ) -> (r: Result<KeyRecord, VaultError>)
        requires
            old(self).wf(),
            nonce@.len() == NONCE_LEN,
        ensures
            final(self).wf(),
            final(self).envelope == old(self).envelope,
            encode_utf8(plaintext@).len() > MAX_MESSAGE ==> {
                &&& r matches Err(VaultError::Crypto(why)) && why@ == "aead::Error"@
                &&& *final(self) == *old(self)
                &&& *final(stamps) == *old(stamps)
            },
            encode_utf8(plaintext@).len() <= MAX_MESSAGE ==> {
                let events = final(self).history();
                let record = sealed_record(
                    old(self).envelope@,
                    id@,
                    plaintext@,
                    limits,
                    nonce@,
                    stamp(old(stamps).last, now_ms),
                );
                &&& holds(old(self).envelope@, record.ciphertext, plaintext@)
                &&& events.len() == old(self).history().len() + 1
                &&& events.drop_last() == old(self).history()
                &&& events.last() matches StoreEvent::Insert { record: told, reply } && told
                    == record && get_reply(r) == (match reply {
                    Ok(_) => Ok(record),
                    Err(e) => Err(e),
                })
                &&& final(stamps).last == after_stamp(record.created_at_ms)
            },
    {
        let ciphertext: Vec<u8> = match self.envelope.seal_with(plaintext, nonce) {
            Ok(blob) => blob,
            Err(e) => {
                return Err(e);
            },
        };
        let record: KeyRecord = KeyRecord {
            id: id.to_string(),
            ciphertext,
            censored: censor(plaintext.expose_secret()),
            health: KeyHealth::Active,
            limits,
            minute_window: None,
            hour_window: None,
            created_at_ms: stamps.monotonic_ms_at(now_ms),
        };
        let reply: Result<(), VaultError> = self.store.insert(&record);
        assert(self.history().drop_last() =~= old(self).history());
        match reply {
            Ok(()) => Ok(record),
            Err(e) => Err(e),
        }
    }

    /// Seals `plaintext` under a random nonce and inserts it under `id`, stamped
    /// now. The record is returned as it was handed to the store, whether or not
    /// the id was there before.
    pub fn insert_plain(
        &mut self,
        id: &str,
        plaintext: &SecretString,
        limits: Option<KeyLimits>,
        stamps: &mut Stamps,
    ) -> (r: Result<KeyRecord, VaultError>)
        requires
            old(self).wf(),
        ensures
            final(self).wf(),
            final(self).envelope == old(self).envelope,
            encode_utf8(plaintext@).len() > MAX_MESSAGE ==> {
                &&& r matches Err(VaultError::Crypto(why)) && why@ == "aead::Error"@
                &&& *final(self) == *old(self)
                &&& *final(stamps) == *old(stamps)
            },
            encode_utf8(plaintext@).len() <= MAX_MESSAGE ==> {
                let events = final(self).history();
                &&& events.len() == old(self).history().len() + 1
                &&& events.drop_last() == old(self).history()
                &&& events.last() matches StoreEvent::Insert { record, reply }
                &&& fresh_record(
                    record,
                    old(self).envelope@,
                    id@,
                    plaintext@,
                    limits,
                    old(stamps).last,
                )
                &&& final(stamps).last == after_stamp(record.created_at_ms)
                &&& get_reply(r) == (match reply {
                    Ok(_) => Ok(record),
                    Err(e) => Err(e),
                })
            },
    {
        let nonce: Vec<u8> = fresh_nonce();
        self.insert_plain_at(id, plaintext, limits, nonce.as_slice(), now_ms(), stamps)
    }

    /// Loads and decrypts every record at `now_ms`. Records that fail GCM
    /// authentication (tampered rows) are banned as corrupted in the store,
    /// as far as it lets itself be told, and **skipped**.
    pub fn load_all_decrypted_at(&mut self, now_ms: i64) -> (r: Result<
        Vec<DecryptedKey>,
        VaultError,
    >)
        requires
            old(self).wf(),
        ensures
            final(self).wf(),
            final(self).envelope == old(self).envelope,
            ({
                let events = final(self).history();
                let n = old(self).history().len() as int;
                &&& events.len() > n
                &&& events.take(n) == old(self).history()
                &&& events[n] matches StoreEvent::LoadAll { reply }
                &&& match reply {
                    Err(e) => r == Err::<Vec<DecryptedKey>, VaultError>(e) && events.len() == n + 1,
                    Ok(records) => {
                        &&& r matches Ok(keys) && decrypted_views(keys@) == opened_keys(
                            old(self).envelope@,
                            records,
                            now_ms,
                        )
                        &&& bans(events.skip(n + 1), corrupted(old(self).envelope@, records))
                    },
                }
            }),
    {
        let ghost before = self.history();
        let ghost master = self.envelope@;
        let loaded: Result<Vec<KeyRecord>, VaultError> = self.store.load_all();
        let records: Vec<KeyRecord> = match loaded {
            Ok(records) => records,
            Err(e) => {
                assert(self.history().take(before.len() as int) =~= before);
                return Err(e);
            },
        };
        let ghost views = record_views(records@);
        let ghost start = self.history();
        let mut out: Vec<DecryptedKey> = Vec::new();
        let mut i: usize = 0;
        proof {
            assert(views.take(0) =~= Seq::<RecordView>::empty());
            assert(start.skip(start.len() as int) =~= Seq::<StoreEvent>::empty());
            assert(decrypted_views(out@) =~= Seq::<DecryptedView>::empty());
            assert(start.take(start.len() as int) =~= start);
        }
        while i < records.len()
            invariant
                i <= records.len(),
                self.wf(),
                master == self.envelope@,
                self.envelope == old(self).envelope,
                views == record_views(records@),
                decrypted_views(out@) == opened_keys(master, views.take(i as int), now_ms),
                self.history().len() >= start.len(),
                self.history().take(start.len() as int) == start,
                bans(
                    self.history().skip(start.len() as int),
                    corrupted(master, views.take(i as int)),
                ),
            decreases records.len() - i,
        {
            let ghost n = start.len() as int;
            let ghost events = self.history();
            let ghost list = corrupted(master, views.take(i as int));
            let mut record: KeyRecord = records[i].clone();
            proof {
                assert(views.take(i + 1).drop_last() =~= views.take(i as int));
                assert(views.take(i + 1).last() == record@);
            }
            record.expire_stale_windows(now_ms);
            let ghost current = record@;
            match self.envelope.open(record.ciphertext.as_slice()) {
                Ok(secret) => {
                    let key: DecryptedKey = DecryptedKey {
                        id: record.id,
                        secret,
                        censored: record.censored,
                        health: record.health,
                        limits: record.limits,
                        minute_window: record.minute_window,
                        hour_window: record.hour_window,
                    };
                    proof {
                        assert(decrypted_views(out@.push(key)) =~= decrypted_views(out@).push(
                            key@,
                        ));
                    }
                    out.push(key);
                },
                Err(VaultError::Corrupted(why)) => {
                    let reason: String = "corrupted: ".to_string().concat(why.as_str());
                    let ghost entry = (current.id, reason@);
                    let _reply = self.store.update_health(
                        record.id.as_str(),
                        KeyHealth::Banned { reason },
                    );
                    proof {
                        let now = self.history();
                        assert(now.take(n) =~= events.take(n));
                        assert(now.skip(n) =~= events.skip(n).push(now.last()));
                        assert(corrupted(master, views.take(i + 1)) == list.push(entry));
                        assert forall|k: int| 0 <= k < list.push(entry).len() implies (
                        #[trigger] now.skip(n)[k] matches StoreEvent::UpdateHealth {
                            id,
                            health,
                            ..
                        } && id == list.push(entry)[k].0 && health == HealthView::Banned {
                            reason: list.push(entry)[k].1,
                        }) by {
                            if k < list.len() {
                                assert(now.skip(n)[k] == events.skip(n)[k]);
                            }
                        }
                    }
                },
                Err(e) => {
                    return Err(e);
                },
            }
            i = i + 1;
        }
        proof {
            assert(views.take(records.len() as int) =~= views);
            let n = before.len() as int;
            let events = self.history();
            assert(start.take(n) =~= before);
            assert(events.take(n) =~= events.take(n + 1).take(n));
            assert(events[n] == events.take(n + 1)[n]);
        }
        Ok(out)
    }

    /// Loads and decrypts every record now. Records that fail GCM
    /// authentication (tampered rows) are banned as corrupted in the store and
    /// **skipped**.
    pub fn load_all_decrypted(&mut self) -> (r: Result<Vec<DecryptedKey>, VaultError>)
        requires
            old(self).wf(),
        ensures
            final(self).wf(),
            final(self).envelope == old(self).envelope,
            ({
                let events = final(self).history();
                let n = old(self).history().len() as int;
                &&& events.len() > n
                &&& events.take(n) == old(self).history()
                &&& events[n] matches StoreEvent::LoadAll { reply }
                &&& match reply {
                    Err(e) => r == Err::<Vec<DecryptedKey>, VaultError>(e) && events.len() == n + 1,
                    Ok(records) => {
                        &&& r matches Ok(keys) && exists|now_ms: i64|
                            on_the_wall(now_ms) && decrypted_views(keys@) == #[trigger] opened_keys(
                                old(self).envelope@,
                                records,
                                now_ms,
                            )
                        &&& bans(events.skip(n + 1), corrupted(old(self).envelope@, records))
                    },
                }
            }),
    {
        let now: i64 = now_ms();
        self.load_all_decrypted_at(now)
    }

    /// Explicitly decrypts a single record.
    pub fn decrypt_one(&mut self, id: &str) -> (r: Result<SecretString, VaultError>)
        requires
            old(self).wf(),
        ensures
            final(self).wf(),
            final(self).envelope == old(self).envelope,
            final(self).history().len() == old(self).history().len() + 1,
            final(self).history().drop_last() == old(self).history(),
            final(self).history().last() matches StoreEvent::Get { id: asked, reply } && asked == id@
                && match reply {
                Err(e) => r == Err::<SecretString, VaultError>(e),
                Ok(record) => match (r, opened(old(self).envelope@, record.ciphertext)) {
                    (Ok(secret), Ok(text)) => secret@ == text,
                    (Err(VaultError::Corrupted(why)), Err(reason)) => why@ == reason,
                    _ => false,
                },
            },
    {
        let found: Result<KeyRecord, VaultError> = self.store.get(id);
        assert(self.history().drop_last() =~= old(self).history());
        match found {
            Ok(record) => self.envelope.open(record.ciphertext.as_slice()),
            Err(e) => Err(e),
        }
    }
}

/// What is stored is what comes back: a record that was sealed from a text and
/// inserted under a new id into a faithful store opens to that very text.
pub proof fn law_stored_key_reads_back(
    history: Seq<StoreEvent>,
    record: RecordView,
    inserted: Result<(), VaultError>,
    reply: Result<RecordView, VaultError>,
    master: Seq<u8>,
    text: Seq<char>,
    limits: Option<KeyLimits>,
    last: i64,
)
    requires
        !replay(history).contains_key(record.id),
        fresh_record(record, master, record.id, text, limits, last),
        honest(
            history.push(StoreEvent::Insert { record, reply: inserted }).push(
                StoreEvent::Get { id: record.id, reply },
            ),
        ),
    ensures
        reply matches Ok(found) && opened(master, found.ciphertext) == Ok::<Seq<char>, Seq<char>>(
            text,
        ),
{
    law_get_gives_what_was_inserted(history, record, inserted, reply);
}

/// A corrupted record does not keep the others from loading: whatever records
/// surround it, each record that opens gives its key, and no other key is
/// given.
pub proof fn law_corruption_is_contained(
    master: Seq<u8>,
    left: Seq<RecordView>,
    bad: RecordView,
    right: Seq<RecordView>,
    now_ms: i64,
)
    requires
        opened(master, bad.ciphertext) is Err,
    ensures
        opened_keys(master, left + seq![bad] + right, now_ms) == opened_keys(
            master,
            left + right,
            now_ms,
        ),
    decreases right.len(),
{
    if right.len() == 0 {
        assert(left + seq![bad] + right =~= left.push(bad));
        assert(left.push(bad).drop_last() =~= left);
        assert(left + right =~= left);
    } else {
        law_corruption_is_contained(master, left, bad, right.drop_last(), now_ms);
        assert((left + seq![bad] + right).drop_last() =~= left + seq![bad] + right.drop_last());
        assert((left + right).drop_last() =~= left + right.drop_last());
        assert((left + seq![bad] + right).last() == right.last());
        assert((left + right).last() == right.last());
    }
}

} // verus!
