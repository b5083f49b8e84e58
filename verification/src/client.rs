//! The client: its builder, and what building comes to.

use vstd::prelude::*;
use vstd::utf8::encode_utf8;

use crate::clock::{on_the_wall, Clock, Duration};
use crate::config::{PoolConfig, RotationMode};
use crate::crypto::primitives::MAX_MESSAGE;
use crate::crypto::{deterministic_id, id_of, opened, Envelope, MasterKeyProvider};
use crate::engine::{KeyPool, KeySeed, PoolView, SeedView, StateView};
use crate::error::{AiError, VaultError};
use crate::http::dispatcher::Dispatcher;
use crate::quota::{
    admits, running, unlimited, KeyLimits, WindowInfo, WindowState, HOUR_MS, MINUTE_MS,
};
use crate::secret::{MasterKey, SecretString};
use crate::storage::manager::KeyManager;
use crate::storage::record::{KeyRecord, RecordView};
use crate::storage::store::{
    honest, law_listing_is_in_creation_order, lemma_extended, lemma_honest_prefix, listing, replay,
    KeyStore, StoreEvent,
};
use crate::storage::vault::{
    after_stamp, bans, corrupted, decrypted, decrypted_views, fresh_record, opened_keys, DecryptedKey,
    DecryptedView, Stamps, Vault,
};

verus! {

/// Fault-tolerant, key-pooling AI API client, as far as it decides: sending is
/// left to its user.
pub struct AiClient<S: KeyStore> {
    /// Vault and live pool.
    pub manager: KeyManager<S>,
    /// The retry policy.
    pub dispatcher: Dispatcher,
}

/// Builder for [`AiClient`]. Safe defaults: ephemeral master key, proactive
/// rotation, 60s timeout.
pub struct AiClientBuilder {
    /// Timeouts, limits and rotation.
    pub config: PoolConfig,
    /// Where the master key comes from.
    pub master: MasterKeyProvider,
    /// Plaintext keys to be stored, with their limits.
    pub seed_keys: Vec<(String, Option<KeyLimits>)>,
}

/// What seed keys stand for.
pub open spec fn seed_views(seeds: Seq<(String, Option<KeyLimits>)>) -> Seq<
    (Seq<char>, Option<KeyLimits>),
> {
    seeds.map_values(|seed: (String, Option<KeyLimits>)| (seed.0@, seed.1))
}

/// Whether a configuration asks for concurrency caps in proactive mode, which
/// already spreads load.
pub open spec fn conflicting(
    config: PoolConfig,
    seeds: Seq<(Seq<char>, Option<KeyLimits>)>,
) -> bool {
    config.rotation_mode is Proactive && (config.default_limits.max_concurrency is Some || exists|
        i: int,
    |
        0 <= i < seeds.len() && ((#[trigger] seeds[i]).1 matches Some(limits)
            && limits.max_concurrency is Some))
}

/// Whether `e` is the refusal of a conflicting configuration.
pub open spec fn refuses_caps(e: AiError) -> bool {
    e matches AiError::InvalidConfig(why) && why@
        == "max_concurrency limits require RotationMode::Reactive;                      proactive mode already rotates keys per request"@
}

/// Whether `e` is the refusal of a conflicting stored key.
pub open spec fn refuses_stored_cap(e: AiError) -> bool {
    e matches AiError::InvalidConfig(why) && why@
        == "a persisted key carries max_concurrency, which requires                  RotationMode::Reactive"@
}

/// Whether a plaintext is too long to be sealed.
pub open spec fn too_long(text: Seq<char>) -> bool {
    encode_utf8(text).len() > MAX_MESSAGE
}

/// Whether the store took a record.
pub open spec fn taken(event: StoreEvent) -> bool {
    event matches StoreEvent::Insert { reply, .. } && reply is Ok
}

/// The earliest stamp after the `i`th of the insertions `events`.
pub open spec fn stamp_after(events: Seq<StoreEvent>, last: i64, i: int) -> i64 {
    match events[i] {
        StoreEvent::Insert { record, .. } => after_stamp(record.created_at_ms),
        _ => last,
    }
}

/// The stamp from which the next insertion goes on.
pub open spec fn next_stamp(events: Seq<StoreEvent>, last: i64) -> i64 {
    if events.len() == 0 {
        last
    } else {
        stamp_after(events, last, events.len() - 1)
    }
}

/// Whether `events` insert fresh records of the first seeds, in their order and
/// with increasing stamps.
#[verifier::opaque]
pub open spec fn inserts(
    events: Seq<StoreEvent>,
    seeds: Seq<(Seq<char>, Option<KeyLimits>)>,
    master: Seq<u8>,
    last: i64,
) -> bool {
    &&& events.len() <= seeds.len()
    &&& forall|i: int|
        0 <= i < events.len() ==> {
            &&& #[trigger] events[i] matches StoreEvent::Insert { record, .. }
            &&& fresh_record(
                record,
                master,
                id_of(seeds[i].0),
                seeds[i].0,
                seeds[i].1,
                if i == 0 {
                    last
                } else {
                    stamp_after(events, last, i - 1)
                },
            )
            &&& !too_long(seeds[i].0)
        }
}

/// What seeding comes to: one insertion after the other, until the store
/// refuses one or a key is too long to be sealed. The stamps go on from `last`
/// to `next`, behind the last insertion.
pub open spec fn seeded(
    before: Seq<StoreEvent>,
    after: Seq<StoreEvent>,
    seeds: Seq<(Seq<char>, Option<KeyLimits>)>,
    master: Seq<u8>,
    last: i64,
    next: i64,
    r: Result<(), VaultError>,
) -> bool {
    let new = after.skip(before.len() as int);
    let n = new.len() as int;
    &&& after.len() >= before.len()
    &&& after.take(before.len() as int) == before
    &&& inserts(new, seeds, master, last)
    &&& next == next_stamp(new, last)
    &&& forall|i: int| 0 <= i < n - 1 ==> taken(#[trigger] new[i])
    &&& match r {
        Ok(_) => n == seeds.len() && (n > 0 ==> taken(new[n - 1])),
        Err(e) => {
            ||| n > 0 && (new[n - 1] matches StoreEvent::Insert { reply, .. } && reply == Err::<
                (),
                VaultError,
            >(e))
            ||| n < seeds.len() && (n > 0 ==> taken(new[n - 1])) && too_long(seeds[n].0) && (
            e matches VaultError::Crypto(why) && why@ == "aead::Error"@)
        },
    }
}

/// What a decrypted key is loaded as.
pub open spec fn seed_of(key: DecryptedView) -> SeedView {
    SeedView {
        id: key.id,
        secret: key.secret,
        censored: key.censored,
        health: key.health,
        limits: key.limits,
        minute: key.minute_window,
        hour: key.hour_window,
    }
}

/// A pool after loading keys in order.
pub open spec fn loaded(pool: PoolView, keys: Seq<DecryptedView>) -> PoolView
    decreases keys.len(),
{
    if keys.len() == 0 {
        pool
    } else {
        loaded(pool, keys.drop_last()).upserted(seed_of(keys.last()))
    }
}

/// What a pool stands for, where there is one.
pub open spec fn pool_reply(r: Result<KeyPool, AiError>) -> Result<PoolView, AiError> {
    match r {
        Ok(pool) => Ok(pool@),
        Err(e) => Err(e),
    }
}

/// What the pool of a client stands for, where there is a client.
pub open spec fn client_reply<S: KeyStore>(r: Result<AiClient<S>, AiError>) -> Result<
    PoolView,
    AiError,
> {
    match r {
        Ok(client) => Ok(client.manager.pool@),
        Err(e) => Err(e),
    }
}

/// What comes of the keys that were loaded: a pool of all of them, unless one
/// carries a cap that the mode does not have.
pub open spec fn admitted(
    config: PoolConfig,
    keys: Seq<DecryptedView>,
    r: Result<PoolView, AiError>,
) -> bool {
    let pool = loaded(PoolView::empty(config.rotation_mode, config.default_limits), keys);
    if config.rotation_mode is Proactive && pool.capped() {
        r matches Err(e) && refuses_stored_cap(e)
    } else {
        r == Ok::<PoolView, AiError>(pool)
    }
}

/// What building comes to once the configuration stands and the keys are
/// seeded: every stored key is loaded, and the ones that open are admitted.
pub open spec fn wired(
    config: PoolConfig,
    master: Seq<u8>,
    before: Seq<StoreEvent>,
    after: Seq<StoreEvent>,
    r: Result<PoolView, AiError>,
) -> bool {
    let n = before.len() as int;
    &&& after.len() > n
    &&& after.take(n) == before
    &&& after[n] matches StoreEvent::LoadAll { reply }
    &&& match reply {
        Err(e) => after.len() == n + 1 && (r matches Err(AiError::Vault(inner)) && inner == e),
        Ok(records) => {
            &&& bans(after.skip(n + 1), corrupted(master, records))
            &&& exists|now_ms: i64|
                on_the_wall(now_ms) && admitted(
                    config,
                    #[trigger] opened_keys(master, records, now_ms),
                    r,
                )
        },
    }
}

/// What building comes to, given the calls that the store had got `before`,
/// once the keys were seeded (`middle`), and in the end (`after`). A conflicting
/// configuration is refused before the store gets any call. The stamps go on
/// from `last` to `next`.
pub open spec fn built(
    builder: AiClientBuilder,
    master: Seq<u8>,
    last: i64,
    next: i64,
    before: Seq<StoreEvent>,
    middle: Seq<StoreEvent>,
    after: Seq<StoreEvent>,
    r: Result<PoolView, AiError>,
) -> bool {
    let seeds = seed_views(builder.seed_keys@);
    if conflicting(builder.config, seeds) {
        &&& r matches Err(e) && refuses_caps(e)
        &&& middle == before
        &&& after == before
        &&& next == last
    } else {
        exists|reply: Result<(), VaultError>|
            {
                &&& #[trigger] seeded(before, middle, seeds, master, last, next, reply)
                &&& match reply {
                    Err(e) => after == middle && (r matches Err(AiError::Vault(inner)) && inner
                        == e),
                    Ok(_) => wired(builder.config, master, middle, after, r),
                }
            }
    }
}

impl Default for AiClientBuilder {
    fn default() -> (r: AiClientBuilder)
        ensures
            r.config.default_url@ == "https://api.openai.com/v1/"@,
            r.config.rotation_mode is Proactive,
            r.config.concurrency_limit == 32,
            r.config.request_timeout.nanos == 60_000_000_000,
            r.config.max_server_error_retries == 3,
            r.config.default_cooldown.nanos == 30_000_000_000,
            r.config.backoff_base.nanos == 200_000_000,
            r.config.default_limits == unlimited(),
            r.master is Ephemeral,
            r.seed_keys@ == Seq::<(String, Option<KeyLimits>)>::empty(),
    {
        AiClientBuilder {
            config: PoolConfig::default(),
            master: MasterKeyProvider::Ephemeral,
            seed_keys: Vec::new(),
        }
    }
}

impl AiClientBuilder {
    /// Base URL of the OpenAI-compatible API.
    #[must_use]
    pub fn default_url(self, url: &str) -> (r: AiClientBuilder)
        ensures
            r.config.default_url@ == url@,
            r == (AiClientBuilder {
                config: PoolConfig { default_url: r.config.default_url, ..self.config },
                ..self
            }),
    {
        let config: PoolConfig = PoolConfig { default_url: url.to_string(), ..self.config };
        AiClientBuilder { config, ..self }
    }

    /// Rotation strategy: proactive round-robin or reactive sticky failover.
    #[must_use]
    pub fn rotation_mode(self, mode: RotationMode) -> (r: AiClientBuilder)
        ensures
            r == (AiClientBuilder {
                config: PoolConfig { rotation_mode: mode, ..self.config },
                ..self
            }),
    {
        let config: PoolConfig = PoolConfig { rotation_mode: mode, ..self.config };
        AiClientBuilder { config, ..self }
    }

    /// Limit on concurrent in-flight requests; at least one is allowed.
    #[must_use]
    pub fn concurrency_limit(self, limit: usize) -> (r: AiClientBuilder)
        ensures
            r == (AiClientBuilder {
                config: PoolConfig {
                    concurrency_limit: if limit > 0 {
                        limit
                    } else {
                        1
                    },
                    ..self.config
                },
                ..self
            }),
    {
        let concurrency_limit: usize = if limit > 0 {
            limit
        } else {
            1
        };
        let config: PoolConfig = PoolConfig { concurrency_limit, ..self.config };
        AiClientBuilder { config, ..self }
    }

    /// Per-request timeout.
    #[must_use]
    pub fn request_timeout(self, timeout: Duration) -> (r: AiClientBuilder)
        ensures
            r == (AiClientBuilder {
                config: PoolConfig { request_timeout: timeout, ..self.config },
                ..self
            }),
    {
        let config: PoolConfig = PoolConfig { request_timeout: timeout, ..self.config };
        AiClientBuilder { config, ..self }
    }

    /// How many times a 5xx is retried on the same key (default 3).
    #[must_use]
    pub fn max_server_error_retries(self, retries: u32) -> (r: AiClientBuilder)
        ensures
            r == (AiClientBuilder {
                config: PoolConfig { max_server_error_retries: retries, ..self.config },
                ..self
            }),
    {
        let config: PoolConfig = PoolConfig { max_server_error_retries: retries, ..self.config };
        AiClientBuilder { config, ..self }
    }

    /// Cooldown applied on 429 when no `Retry-After` header is present.
    #[must_use]
    pub fn default_cooldown(self, cooldown: Duration) -> (r: AiClientBuilder)
        ensures
            r == (AiClientBuilder {
                config: PoolConfig { default_cooldown: cooldown, ..self.config },
                ..self
            }),
    {
        let config: PoolConfig = PoolConfig { default_cooldown: cooldown, ..self.config };
        AiClientBuilder { config, ..self }
    }

    /// Where the 32-byte master encryption key comes from.
    #[must_use]
    pub fn master_key_provider(self, provider: MasterKeyProvider) -> (r: AiClientBuilder)
        ensures
            r == (AiClientBuilder { master: provider, ..self }),
    {
        AiClientBuilder { master: provider, ..self }
    }

    /// Seed API keys, in place of those given so far. Ids are deterministic
    /// hashes of the plaintext, so that building again after an application
    /// restart never creates duplicates.
    #[must_use]
    pub fn api_keys(self, keys: Vec<String>) -> (r: AiClientBuilder)
        ensures
            r.config == self.config,
            r.master == self.master,
            seed_views(r.seed_keys@) == keys@.map_values(
                |key: String| (key@, None::<KeyLimits>),
            ),
    {
        let mut seed_keys: Vec<(String, Option<KeyLimits>)> = Vec::new();
        let mut i: usize = 0;
        while i < keys.len()
            invariant
                i <= keys.len(),
                seed_keys.len() == i,
                forall|k: int|
                    0 <= k < i ==> (#[trigger] seed_keys[k]).0@ == keys[k]@ && seed_keys[k].1
                        is None,
            decreases keys.len() - i,
        {
            seed_keys.push((keys[i].clone(), None));
            i = i + 1;
        }
        assert(seed_views(seed_keys@) =~= keys@.map_values(
            |key: String| (key@, None::<KeyLimits>),
        ));
        AiClientBuilder { seed_keys, ..self }
    }

    /// Single-key convenience.
    #[must_use]
    pub fn api_key(self, key: &str) -> (r: AiClientBuilder)
        ensures
            r.config == self.config,
            r.master == self.master,
            seed_views(r.seed_keys@) == seed_views(self.seed_keys@).push((key@, None)),
    {
        self.seed(key, None)
    }

    /// Seeds a key with its own quota limits (overrides the pool default).
    #[must_use]
    pub fn api_key_with_limits(self, key: &str, limits: KeyLimits) -> (r: AiClientBuilder)
        ensures
            r.config == self.config,
            r.master == self.master,
            seed_views(r.seed_keys@) == seed_views(self.seed_keys@).push((key@, Some(limits))),
    {
        self.seed(key, Some(limits))
    }

    fn seed(self, key: &str, limits: Option<KeyLimits>) -> (r: AiClientBuilder)
        ensures
            r.config == self.config,
            r.master == self.master,
            seed_views(r.seed_keys@) == seed_views(self.seed_keys@).push((key@, limits)),
    {
        let mut seed_keys: Vec<(String, Option<KeyLimits>)> = self.seed_keys;
        let ghost before = seed_keys@;
        seed_keys.push((key.to_string(), limits));
        assert(seed_views(seed_keys@) =~= seed_views(before).push((key@, limits)));
        AiClientBuilder { seed_keys, ..self }
    }

    /// Default quota limits for every key that has no per-key limits. Each key
    /// still tracks its own windows independently.
    #[must_use]
    pub fn default_key_limits(self, limits: KeyLimits) -> (r: AiClientBuilder)
        ensures
            r == (AiClientBuilder {
                config: PoolConfig { default_limits: limits, ..self.config },
                ..self
            }),
    {
        let config: PoolConfig = PoolConfig { default_limits: limits, ..self.config };
        AiClientBuilder { config, ..self }
    }

    /// Refuses concurrency caps in proactive mode: round-robin already spreads
    /// load, so that splitting by concurrency only applies to reactive mode.
    pub fn validate(&self) -> (r: Result<(), AiError>)
        ensures
            r is Err <==> conflicting(self.config, seed_views(self.seed_keys@)),
            r matches Err(e) ==> refuses_caps(e),
    {
        let ghost seeds = seed_views(self.seed_keys@);
        if self.config.rotation_mode == RotationMode::Proactive {
            let mut capped: bool = self.config.default_limits.max_concurrency.is_some();
            let mut i: usize = 0;
            while i < self.seed_keys.len()
                invariant
                    i <= self.seed_keys.len(),
                    seeds == seed_views(self.seed_keys@),
                    self.config.rotation_mode is Proactive,
                    capped ==> conflicting(self.config, seeds),
                    self.config.default_limits.max_concurrency is Some ==> capped,
                    forall|k: int|
                        0 <= k < i && ((#[trigger] seeds[k]).1 matches Some(limits)
                            && limits.max_concurrency is Some) ==> capped,
                decreases self.seed_keys.len() - i,
            {
                assert(seeds[i as int].1 == self.seed_keys[i as int].1);
                if let Some(limits) = self.seed_keys[i].1 {
                    if limits.max_concurrency.is_some() {
                        capped = true;
                    }
                }
                i = i + 1;
            }
            if capped {
                return Err(
                    AiError::InvalidConfig(
                        "max_concurrency limits require RotationMode::Reactive;                      proactive mode already rotates keys per request".to_string(),
                    ),
                );
            }
        }
        Ok(())
    }

    /// Stores the seed keys. A store that keeps existing records keeps their
    /// persisted quota windows too.
    pub fn seed_vault<S: KeyStore>(&self, vault: &mut Vault<S>, stamps: &mut Stamps) -> (r: Result<
        (),
        VaultError,
    >)
        requires
            old(vault).wf(),
        ensures
            final(vault).wf(),
            final(vault).envelope == old(vault).envelope,
            seeded(
                old(vault).history(),
                final(vault).history(),
                seed_views(self.seed_keys@),
                old(vault).envelope@,
                old(stamps).last,
                final(stamps).last,
                r,
            ),
    {
        reveal(inserts);
        let ghost seeds = seed_views(self.seed_keys@);
        let ghost before = vault.history();
        let ghost n = before.len() as int;
        let ghost master = vault.envelope@;
        let ghost last = stamps.last;
        let mut i: usize = 0;
        proof {
            assert(before.skip(n) =~= Seq::<StoreEvent>::empty());
            assert(before.take(n) =~= before);
        }
        while i < self.seed_keys.len()
            invariant
                i <= self.seed_keys.len(),
                seeds == seed_views(self.seed_keys@),
                n == before.len(),
                vault.wf(),
                vault.envelope == old(vault).envelope,
                master == vault.envelope@,
                before == old(vault).history(),
                last == old(stamps).last,
                vault.history().len() == n + i,
                vault.history().take(n) == before,
                inserts(vault.history().skip(n), seeds, master, last),
                forall|k: int| 0 <= k < i ==> taken(#[trigger] vault.history().skip(n)[k]),
                stamps.last == next_stamp(vault.history().skip(n), last),
            decreases self.seed_keys.len() - i,
        {
            let ghost sofar = vault.history();
            let plaintext: &str = self.seed_keys[i].0.as_str();
            assert(seeds[i as int] == (plaintext@, self.seed_keys[i as int].1));
            let id: String = deterministic_id(plaintext);
            let secret: SecretString = SecretString::new(plaintext.to_string());
            let reply: Result<KeyRecord, VaultError> = vault.insert_plain(
                id.as_str(),
                &secret,
                self.seed_keys[i].1,
                stamps,
            );
            proof {
                let now = vault.history();
                if !too_long(plaintext@) {
                    assert(now =~= sofar.push(now.last()));
                    assert(now.take(n) =~= sofar.take(n));
                    assert(now.skip(n) =~= sofar.skip(n).push(now.last()));
                    assert forall|k: int| 0 <= k < i implies taken(#[trigger] now.skip(n)[k]) by {
                        assert(now.skip(n)[k] == sofar.skip(n)[k]);
                    }
                    lemma_one_more_insert(sofar.skip(n), seeds, master, last, now.last());
                } else {
                    assert(now == sofar);
                }
            }
            if let Err(e) = reply {
                return Err(e);
            }
            i = i + 1;
        }
        Ok(())
    }

    /// Makes the live pool of the keys that were loaded. Persisted limits are
    /// held to the same rule as configured ones.
    pub fn pool_of(&self, keys: Vec<DecryptedKey>, clock: Clock) -> (r: Result<KeyPool, AiError>)
        ensures
            admitted(self.config, decrypted_views(keys@), pool_reply(r)),
            r matches Ok(pool) ==> pool@.wf() && pool.timepiece() == clock,
    {
        let mode: RotationMode = self.config.rotation_mode;
        let mut pool: KeyPool = KeyPool::with_clock(mode, self.config.default_limits, clock);
        load_keys(&mut pool, keys);
        let capped: bool = pool.any_concurrency_limit();
        if mode == RotationMode::Proactive && capped {
            return Err(
                AiError::InvalidConfig(
                    "a persisted key carries max_concurrency, which requires                  RotationMode::Reactive".to_string(),
                ),
            );
        }
        Ok(pool)
    }

    /// Seeds keys idempotently and decrypts everything into a live pool.
    /// Tampered records are banned and skipped; persisted hour windows are
    /// summed up if still current, reset if their time has passed.
    ///
    /// Fails with [`AiError::InvalidConfig`] when a `max_concurrency` limit is
    /// combined with [`RotationMode::Proactive`].
    pub fn open_pool<S: KeyStore>(
        &self,
        vault: &mut Vault<S>,
        clock: Clock,
        stamps: &mut Stamps,
    ) -> (r: Result<KeyPool, AiError>)
        requires
            old(vault).wf(),
        ensures
            final(vault).wf(),
            final(vault).envelope == old(vault).envelope,
            exists|middle: Seq<StoreEvent>| #[trigger]
                built(
                    *self,
                    old(vault).envelope@,
                    old(stamps).last,
                    final(stamps).last,
                    old(vault).history(),
                    middle,
                    final(vault).history(),
                    pool_reply(r),
                ),
            conflicting(self.config, seed_views(self.seed_keys@)) ==> *final(vault) == *old(vault),
            r matches Ok(pool) ==> pool@.wf() && pool.timepiece() == clock,
    {
        let ghost before = vault.history();
        let ghost master = vault.envelope@;
        let ghost last = stamps.last;
        if let Err(e) = self.validate() {
            let r: Result<KeyPool, AiError> = Err(e);
            assert(built(*self, master, last, stamps.last, before, before, before, pool_reply(r)));
            return r;
        }
        let seeding: Result<(), VaultError> = self.seed_vault(vault, stamps);
        let ghost middle = vault.history();
        assert(seeded(
            before,
            middle,
            seed_views(self.seed_keys@),
            master,
            last,
            stamps.last,
            seeding,
        ));
        if let Err(e) = seeding {
            let r: Result<KeyPool, AiError> = Err(AiError::Vault(e));
            assert(built(*self, master, last, stamps.last, before, middle, middle, pool_reply(r)));
            return r;
        }
        let r: Result<KeyPool, AiError> = match vault.load_all_decrypted() {
            Ok(keys) => self.pool_of(keys, clock),
            Err(e) => Err(AiError::Vault(e)),
        };
        assert(wired(self.config, master, middle, vault.history(), pool_reply(r)));
        assert(built(*self, master, last, stamps.last, before, middle, vault.history(), pool_reply(r)));
        r
    }

    /// Builds the client over a store: see [`AiClientBuilder::open_pool`].
    pub fn build<S: KeyStore>(
        self,
        master: MasterKey,
        store: S,
        clock: Clock,
        stamps: &mut Stamps,
    ) -> (r: Result<AiClient<S>, AiError>)
        requires
            store.wf(),
        ensures
            exists|middle: Seq<StoreEvent>, end: S|
                {
                    &&& end.wf()
                    &&& #[trigger] built(
                        self,
                        master@,
                        old(stamps).last,
                        final(stamps).last,
                        store.history(),
                        middle,
                        end.history(),
                        client_reply(r),
                    )
                    &&& conflicting(self.config, seed_views(self.seed_keys@)) ==> end == store
                    &&& r matches Ok(client) ==> {
                        &&& client.manager.vault.store == end
                        &&& client.manager.vault.envelope@ == master@
                        &&& client.manager.wf()
                        &&& client.manager.pool.timepiece() == clock
                        &&& client.dispatcher.config == self.config
                    }
                },
    {
        let ghost before = store.history();
        let ghost secret = master@;
        let ghost last = stamps.last;
        let mut vault: Vault<S> = Vault::new(store, Envelope::new(master));
        let opened: Result<KeyPool, AiError> = self.open_pool(&mut vault, clock, stamps);
        let ghost end = vault.store;
        let ghost builder = self;
        let r: Result<AiClient<S>, AiError> = match opened {
            Ok(pool) => Ok(AiClient::new(vault, pool, self.config)),
            Err(e) => Err(e),
        };
        proof {
            let middle = choose|middle: Seq<StoreEvent>| #[trigger]
                built(
                    builder,
                    secret,
                    last,
                    stamps.last,
                    before,
                    middle,
                    end.history(),
                    pool_reply(opened),
                );
            assert(built(
                builder,
                secret,
                last,
                stamps.last,
                before,
                middle,
                end.history(),
                client_reply(r),
            ));
        }
        r
    }
}

/// Loads decrypted keys into a pool, in order.
fn load_keys(pool: &mut KeyPool, keys: Vec<DecryptedKey>)
    requires
        old(pool)@.wf(),
    ensures
        final(pool)@ == loaded(old(pool)@, decrypted_views(keys@)),
        final(pool)@.wf(),
        final(pool).timepiece() == old(pool).timepiece(),
{
    let ghost views = decrypted_views(keys@);
    let mut i: usize = 0;
    assert(views.take(0) =~= Seq::<DecryptedView>::empty());
    while i < keys.len()
        invariant
            i <= keys.len(),
            views == decrypted_views(keys@),
            pool@ == loaded(old(pool)@, views.take(i as int)),
            pool@.wf(),
            pool.timepiece() == old(pool).timepiece(),
        decreases keys.len() - i,
    {
        let key: &DecryptedKey = &keys[i];
        assert(views.take(i + 1).drop_last() =~= views.take(i as int));
        assert(views.take(i + 1).last() == key@);
        let seed: KeySeed = KeySeed::new(
            key.id.as_str(),
            key.secret.clone(),
            key.censored.as_str(),
        ).health(key.health.clone()).limits(key.limits).windows(key.minute_window, key.hour_window);
        pool.upsert(seed);
        i = i + 1;
    }
    assert(views.take(keys.len() as int) =~= views);
}

impl<S: KeyStore> AiClient<S> {
    /// A client over a vault and the live pool of its keys.
    pub fn new(vault: Vault<S>, pool: KeyPool, config: PoolConfig) -> (r: AiClient<S>)
        ensures
            r.manager.vault == vault,
            r.manager.pool == pool,
            r.dispatcher.config == config,
    {
        AiClient { manager: KeyManager::new(vault, pool), dispatcher: Dispatcher::new(config) }
    }

    /// Entry point: `AiClient::builder()...build(..)`.
    pub fn builder() -> (r: AiClientBuilder)
        ensures
            r.config.default_url@ == "https://api.openai.com/v1/"@,
            r.config.rotation_mode is Proactive,
            r.config.concurrency_limit == 32,
            r.config.request_timeout.nanos == 60_000_000_000,
            r.config.max_server_error_retries == 3,
            r.config.default_cooldown.nanos == 30_000_000_000,
            r.config.backoff_base.nanos == 200_000_000,
            r.config.default_limits == unlimited(),
            r.master is Ephemeral,
            r.seed_keys@ == Seq::<(String, Option<KeyLimits>)>::empty(),
    {
        AiClientBuilder::default()
    }
}

/// Whether limits carry a concurrency cap.
pub open spec fn caps(limits: Option<KeyLimits>) -> bool {
    limits matches Some(l) && l.max_concurrency is Some
}

/// No two of the keys have the same id.
pub open spec fn distinct_ids(keys: Seq<DecryptedView>) -> bool {
    forall|i: int, j: int|
        0 <= i < j < keys.len() ==> (#[trigger] keys[i]).id != (#[trigger] keys[j]).id
}

proof fn lemma_loaded(pool: PoolView, keys: Seq<DecryptedView>)
    requires
        distinct_ids(keys),
        pool.keys == Map::<Seq<char>, StateView>::empty(),
    ensures
        loaded(pool, keys).default_limits == pool.default_limits,
        forall|id: Seq<char>| #[trigger]
            loaded(pool, keys).keys.contains_key(id) ==> exists|i: int|
                0 <= i < keys.len() && (#[trigger] keys[i]).id == id,
        forall|i: int|
            0 <= i < keys.len() ==> {
                let state = loaded(pool, keys).keys[(#[trigger] keys[i]).id];
                &&& loaded(pool, keys).keys.contains_key(keys[i].id)
                &&& state.limits == (match keys[i].limits {
                    Some(limits) => limits,
                    None => pool.default_limits,
                })
            },
    decreases keys.len(),
{
    if keys.len() > 0 {
        let rest = keys.drop_last();
        lemma_loaded(pool, rest);
        let before = loaded(pool, rest);
        let after = loaded(pool, keys);
        let last = keys.len() - 1;
        assert forall|id: Seq<char>| #[trigger] after.keys.contains_key(id) implies exists|i: int|
            0 <= i < keys.len() && (#[trigger] keys[i]).id == id by {
            if before.keys.contains_key(id) {
                let i = choose|i: int| 0 <= i < rest.len() && (#[trigger] rest[i]).id == id;
                assert(keys[i].id == id);
            } else {
                assert(keys[last].id == id);
            }
        }
        assert forall|i: int| 0 <= i < keys.len() implies {
            let state = after.keys[(#[trigger] keys[i]).id];
            &&& after.keys.contains_key(keys[i].id)
            &&& state.limits == (match keys[i].limits {
                Some(limits) => limits,
                None => pool.default_limits,
            })
        } by {
            if i < last {
                assert(keys[i] == rest[i]);
                assert(keys[i].id != keys[last].id);
            }
        }
    }
}

/// Loaded keys make a capped pool exactly where the default limits or those of
/// one of the keys carry a cap.
pub proof fn law_caps_of_loaded_keys_are_found(
    mode: RotationMode,
    default_limits: KeyLimits,
    keys: Seq<DecryptedView>,
)
    requires
        distinct_ids(keys),
    ensures
        loaded(PoolView::empty(mode, default_limits), keys).capped() <==> (
        default_limits.max_concurrency is Some || exists|i: int|
            0 <= i < keys.len() && caps((#[trigger] keys[i]).limits)),
{
    let pool = loaded(PoolView::empty(mode, default_limits), keys);
    lemma_loaded(PoolView::empty(mode, default_limits), keys);
    if pool.capped() && default_limits.max_concurrency is None {
        let id = choose|id: Seq<char>| #[trigger]
            pool.keys.contains_key(id) && pool.keys[id].limits.max_concurrency is Some;
        let i = choose|i: int| 0 <= i < keys.len() && (#[trigger] keys[i]).id == id;
        assert(caps(keys[i].limits));
    }
    if exists|i: int| 0 <= i < keys.len() && caps((#[trigger] keys[i]).limits) {
        let i = choose|i: int| 0 <= i < keys.len() && caps((#[trigger] keys[i]).limits);
        assert(pool.keys.contains_key(keys[i].id));
    }
}

/// Which of the records open, by their places.
spec fn opening(master: Seq<u8>, records: Seq<RecordView>) -> Seq<int>
    decreases records.len(),
{
    if records.len() == 0 {
        Seq::empty()
    } else {
        let before = opening(master, records.drop_last());
        if opened(master, records.last().ciphertext) is Ok {
            before.push(records.len() - 1)
        } else {
            before
        }
    }
}

proof fn lemma_opening(master: Seq<u8>, records: Seq<RecordView>, now_ms: i64)
    ensures
        ({
            let from = opening(master, records);
            let keys = opened_keys(master, records, now_ms);
            &&& keys.len() == from.len()
            &&& forall|k: int|
                0 <= k < from.len() ==> {
                    &&& 0 <= #[trigger] from[k] < records.len()
                    &&& opened(master, records[from[k]].ciphertext) is Ok
                    &&& keys[k].id == records[from[k]].id
                    &&& keys[k].limits == records[from[k]].limits
                }
            &&& forall|a: int, b: int|
                0 <= a < b < from.len() ==> #[trigger] from[a] < #[trigger] from[b]
            &&& forall|i: int|
                0 <= i < records.len() && opened(master, (#[trigger] records[i]).ciphertext) is Ok
                    ==> from.contains(i)
        }),
    decreases records.len(),
{
    if records.len() > 0 {
        let rest = records.drop_last();
        lemma_opening(master, rest, now_ms);
        let before = opening(master, rest);
        let from = opening(master, records);
        let keys = opened_keys(master, records, now_ms);
        let was = opened_keys(master, rest, now_ms);
        assert forall|k: int| 0 <= k < from.len() implies {
            &&& 0 <= #[trigger] from[k] < records.len()
            &&& opened(master, records[from[k]].ciphertext) is Ok
            &&& keys[k].id == records[from[k]].id
            &&& keys[k].limits == records[from[k]].limits
        } by {
            if k < before.len() {
                assert(from[k] == before[k]);
                assert(keys[k] == was[k]);
                assert(records[from[k]] == rest[before[k]]);
            }
        }
        assert forall|i: int|
            0 <= i < records.len() && opened(
                master,
                (#[trigger] records[i]).ciphertext,
            ) is Ok implies from.contains(i) by {
            if i < rest.len() {
                assert(rest[i] == records[i]);
                let k = choose|k: int| 0 <= k < before.len() && before[k] == i;
                assert(from[k] == i);
            } else {
                assert(from[before.len() as int] == i);
            }
        }
    }
}

/// Whether some record that opens carries a concurrency cap.
pub open spec fn stored_cap(master: Seq<u8>, records: Map<Seq<char>, RecordView>) -> bool {
    exists|id: Seq<char>| #[trigger]
        records.contains_key(id) && opened(master, records[id].ciphertext) is Ok && caps(
            records[id].limits,
        )
}

proof fn lemma_faithful_seeding(
    before: Seq<StoreEvent>,
    after: Seq<StoreEvent>,
    seeds: Seq<(Seq<char>, Option<KeyLimits>)>,
    master: Seq<u8>,
    last: i64,
    next: i64,
    reply: Result<(), VaultError>,
)
    requires
        seeded(before, after, seeds, master, last, next, reply),
        honest(after),
        forall|i: int| 0 <= i < seeds.len() ==> !too_long((#[trigger] seeds[i]).0),
    ensures
        reply is Ok,
{
    let new = after.skip(before.len() as int);
    let n = new.len() as int;
    if n > 0 {
        assert(after.last() == new[n - 1]);
        lemma_honest_prefix(after, after.len() - 1);
    }
}

proof fn lemma_faithful_load(
    config: PoolConfig,
    master: Seq<u8>,
    middle: Seq<StoreEvent>,
    after: Seq<StoreEvent>,
    r: Result<PoolView, AiError>,
)
    requires
        wired(config, master, middle, after, r),
        honest(after),
        config.rotation_mode is Proactive ==> config.default_limits.max_concurrency is None,
    ensures
        ({
            let stored = config.rotation_mode is Proactive && stored_cap(master, replay(middle));
            &&& r is Err <==> stored
            &&& r matches Err(e) ==> refuses_stored_cap(e)
        }),
{
    let m = middle.len() as int;
    lemma_honest_prefix(after, m);
    let records = replay(middle);
    let list = listing(records);
    assert(after[m] == (StoreEvent::LoadAll { reply: Ok(list) }));
    law_listing_is_in_creation_order(middle);
    let now_ms = choose|now_ms: i64|
        admitted(config, #[trigger] opened_keys(master, list, now_ms), r);
    lemma_stored_cap(config, master, middle, now_ms);
}

proof fn lemma_stored_cap(
    config: PoolConfig,
    master: Seq<u8>,
    history: Seq<StoreEvent>,
    now_ms: i64,
)
    ensures
        ({
            let keys = opened_keys(master, listing(replay(history)), now_ms);
            let pool = loaded(PoolView::empty(config.rotation_mode, config.default_limits), keys);
            pool.capped() <==> (config.default_limits.max_concurrency is Some || stored_cap(
                master,
                replay(history),
            ))
        }),
{
    let records = replay(history);
    let list = listing(records);
    law_listing_is_in_creation_order(history);
    let keys = opened_keys(master, list, now_ms);
    let from = opening(master, list);
    lemma_opening(master, list, now_ms);
    assert forall|a: int, b: int| 0 <= a < b < keys.len() implies (#[trigger] keys[a]).id != (
    #[trigger] keys[b]).id by {
        assert(from[a] < from[b]);
        assert(list[from[a]].id != list[from[b]].id);
    }
    law_caps_of_loaded_keys_are_found(config.rotation_mode, config.default_limits, keys);
    if exists|k: int| 0 <= k < keys.len() && caps((#[trigger] keys[k]).limits) {
        let k = choose|k: int| 0 <= k < keys.len() && caps((#[trigger] keys[k]).limits);
        assert(0 <= from[k] < list.len());
        assert(records.contains_key(list[from[k]].id));
        assert(stored_cap(master, records));
    }
    if stored_cap(master, records) {
        let id = choose|id: Seq<char>| #[trigger]
            records.contains_key(id) && opened(master, records[id].ciphertext) is Ok && caps(
                records[id].limits,
            );
        assert(list.contains(records[id]));
        let i = choose|i: int| 0 <= i < list.len() && list[i] == records[id];
        assert(from.contains(i));
        let k = choose|k: int| 0 <= k < from.len() && from[k] == i;
        assert(0 <= from[k] < list.len());
        assert(caps(keys[k].limits));
    }
}

/// On a faithful store, building fails exactly where concurrency caps meet
/// proactive mode: in the default limits, in those of a seed key, or in those of
/// a stored key that opens. In the first two cases the store gets no call at
/// all. (A key too long to be sealed is refused on its own account.)
pub proof fn law_faithful_store_builds(
    builder: AiClientBuilder,
    master: Seq<u8>,
    last: i64,
    next: i64,
    before: Seq<StoreEvent>,
    middle: Seq<StoreEvent>,
    after: Seq<StoreEvent>,
    r: Result<PoolView, AiError>,
)
    requires
        built(builder, master, last, next, before, middle, after, r),
        honest(after),
        forall|i: int|
            0 <= i < builder.seed_keys.len() ==> !too_long((#[trigger] builder.seed_keys[i]).0@),
    ensures
        ({
            let conflict = conflicting(builder.config, seed_views(builder.seed_keys@));
            let stored = builder.config.rotation_mode is Proactive && stored_cap(
                master,
                replay(middle),
            );
            &&& r is Err <==> conflict || stored
            &&& r matches Err(e) ==> e is InvalidConfig
            &&& conflict ==> (r matches Err(e) && refuses_caps(e)) && after == before
            &&& !conflict && stored ==> (r matches Err(e) && refuses_stored_cap(e))
        }),
{
    let config = builder.config;
    let seeds = seed_views(builder.seed_keys@);
    if !conflicting(config, seeds) {
        let reply = choose|reply: Result<(), VaultError>|
            {
                &&& #[trigger] seeded(before, middle, seeds, master, last, next, reply)
                &&& match reply {
                    Err(e) => after == middle && (r matches Err(AiError::Vault(inner)) && inner
                        == e),
                    Ok(_) => wired(config, master, middle, after, r),
                }
            };
        if reply is Err {
            assert forall|i: int| 0 <= i < seeds.len() implies !too_long(
                (#[trigger] seeds[i]).0,
            ) by {
                assert(seeds[i].0 == builder.seed_keys[i].0@);
            }
            lemma_faithful_seeding(before, middle, seeds, master, last, next, reply);
        } else {
            lemma_faithful_load(config, master, middle, after, r);
        }
    }
}

/// Usage carries across restarts: a key that is loaded from the record that a
/// faithful store made of its windows shows the same quota usage as before,
/// while the windows are current, and none once they have passed.
pub proof fn law_usage_survives_restart(
    history: Seq<StoreEvent>,
    pool: PoolView,
    id: Seq<char>,
    limits: Option<KeyLimits>,
    minute: Option<WindowState>,
    hour: Option<WindowState>,
    reply: Result<(), VaultError>,
    text: Seq<char>,
    now_ms: i64,
)
    requires
        replay(history).contains_key(id),
    ensures
        ({
            let stored = replay(
                history.push(StoreEvent::UpdateQuota { id, limits, minute, hour, reply }),
            )[id];
            let key = seed_of(decrypted(stored.fresh(now_ms), text));
            let state = pool.loaded(key);
            &&& state.minute == running(minute, now_ms, MINUTE_MS)
            &&& state.hour == running(hour, now_ms, HOUR_MS)
            &&& forall|limit: Option<u32>| #[trigger]
                WindowInfo::of(state.hour, limit, now_ms, HOUR_MS) == WindowInfo::of(
                    hour,
                    limit,
                    now_ms,
                    HOUR_MS,
                )
            &&& forall|limit: Option<u32>| #[trigger]
                admits(state.hour, limit, now_ms, HOUR_MS) == admits(hour, limit, now_ms, HOUR_MS)
        }),
{
    lemma_extended(history, StoreEvent::UpdateQuota { id, limits, minute, hour, reply });
}

proof fn lemma_one_more_insert(
    events: Seq<StoreEvent>,
    seeds: Seq<(Seq<char>, Option<KeyLimits>)>,
    master: Seq<u8>,
    last: i64,
    event: StoreEvent,
)
    requires
        inserts(events, seeds, master, last),
        events.len() < seeds.len(),
        event matches StoreEvent::Insert { record, .. } && fresh_record(
            record,
            master,
            id_of(seeds[events.len() as int].0),
            seeds[events.len() as int].0,
            seeds[events.len() as int].1,
            next_stamp(events, last),
        ),
        !too_long(seeds[events.len() as int].0),
    ensures
        inserts(events.push(event), seeds, master, last),
{
    reveal(inserts);
    let more = events.push(event);
    assert forall|i: int| 0 <= i < more.len() implies {
        &&& #[trigger] more[i] matches StoreEvent::Insert { record, .. }
        &&& fresh_record(
            record,
            master,
            id_of(seeds[i].0),
            seeds[i].0,
            seeds[i].1,
            if i == 0 {
                last
            } else {
                stamp_after(more, last, i - 1)
            },
        )
        &&& !too_long(seeds[i].0)
    } by {
        if i > 0 {
            assert(more[i - 1] == events[i - 1]);
        }
        if i < events.len() {
            assert(more[i] == events[i]);
        }
    }
}

proof fn lemma_fewer_inserts(
    events: Seq<StoreEvent>,
    seeds: Seq<(Seq<char>, Option<KeyLimits>)>,
    master: Seq<u8>,
    last: i64,
)
    requires
        inserts(events, seeds, master, last),
        events.len() > 0,
    ensures
        inserts(events.drop_last(), seeds, master, last),
        events.len() <= seeds.len(),
        events.last() matches StoreEvent::Insert { record, .. } && record.id == id_of(
            seeds[events.len() - 1].0,
        ),
{
    reveal(inserts);
    let rest = events.drop_last();
    assert(events[events.len() - 1] == events.last());
    assert forall|i: int| 0 <= i < rest.len() implies {
        &&& #[trigger] rest[i] matches StoreEvent::Insert { record, .. }
        &&& fresh_record(
            record,
            master,
            id_of(seeds[i].0),
            seeds[i].0,
            seeds[i].1,
            if i == 0 {
                last
            } else {
                stamp_after(rest, last, i - 1)
            },
        )
        &&& !too_long(seeds[i].0)
    } by {
        assert(rest[i] == events[i]);
        if i > 0 {
            assert(rest[i - 1] == events[i - 1]);
        }
    }
}

/// Whether `id` is that of one of the first `n` seeds.
pub open spec fn is_seed(seeds: Seq<(Seq<char>, Option<KeyLimits>)>, n: int, id: Seq<char>) -> bool {
    exists|i: int| 0 <= i < n && id_of((#[trigger] seeds[i]).0) == id
}

/// Whether `records` are `old_records` and records of the first `n` seeds.
pub open spec fn topped_up(
    old_records: Map<Seq<char>, RecordView>,
    records: Map<Seq<char>, RecordView>,
    seeds: Seq<(Seq<char>, Option<KeyLimits>)>,
    n: int,
) -> bool {
    &&& forall|id: Seq<char>| #[trigger]
        records.contains_key(id) == (old_records.contains_key(id) || is_seed(seeds, n, id))
    &&& forall|id: Seq<char>| #[trigger]
        old_records.contains_key(id) ==> records[id] == old_records[id]
}

/// Whether `record` was the first inserted for its id, and is that of a seed.
pub open spec fn first_inserted(
    events: Seq<StoreEvent>,
    seeds: Seq<(Seq<char>, Option<KeyLimits>)>,
    id: Seq<char>,
    record: RecordView,
) -> bool {
    exists|i: int|
        {
            &&& 0 <= i < events.len()
            &&& #[trigger] events[i] matches StoreEvent::Insert { record: given, .. } && given
                == record
            &&& id_of(seeds[i].0) == id
            &&& !is_seed(seeds, i, id)
        }
}

/// Seeding is idempotent: what a faithful store holds afterwards is what it held
/// before, every record as it was with its health, limits and windows, and one
/// record for each seed key that was not stored yet, however often it is given:
/// the first that was inserted for it.
pub proof fn law_seeding_adds_what_is_missing(
    before: Seq<StoreEvent>,
    events: Seq<StoreEvent>,
    seeds: Seq<(Seq<char>, Option<KeyLimits>)>,
    master: Seq<u8>,
    last: i64,
)
    requires
        inserts(events, seeds, master, last),
    ensures
        topped_up(replay(before), replay(before + events), seeds, events.len() as int),
        forall|id: Seq<char>| #[trigger]
            replay(before + events).contains_key(id) && !replay(before).contains_key(id)
                ==> first_inserted(events, seeds, id, replay(before + events)[id]),
    decreases events.len(),
{
    let old_records = replay(before);
    if events.len() == 0 {
        assert(before + events =~= before);
    } else {
        let rest = events.drop_last();
        let n = events.len() - 1;
        lemma_fewer_inserts(events, seeds, master, last);
        law_seeding_adds_what_is_missing(before, rest, seeds, master, last);
        assert(before + events =~= (before + rest).push(events[n]));
        lemma_extended(before + rest, events[n]);
        let were = replay(before + rest);
        let records = replay(before + events);
        let new_id = id_of(seeds[n].0);
        assert forall|id: Seq<char>| #[trigger] records.contains_key(id) == (
        old_records.contains_key(id) || is_seed(seeds, n + 1, id)) by {
            assert(were.contains_key(id) == (old_records.contains_key(id) || is_seed(
                seeds,
                n,
                id,
            )));
            lemma_one_more_seed(seeds, n, id);
        }
        assert forall|id: Seq<char>| #[trigger] old_records.contains_key(id) implies records[id]
            == old_records[id] by {
            assert(were.contains_key(id));
        }
        assert forall|id: Seq<char>| #[trigger]
            records.contains_key(id) && !old_records.contains_key(id) implies first_inserted(
            events,
            seeds,
            id,
            records[id],
        ) by {
            assert(were.contains_key(id) == is_seed(seeds, n, id));
            if were.contains_key(id) {
                assert(first_inserted(rest, seeds, id, were[id]));
                let i = choose|i: int|
                    {
                        &&& 0 <= i < rest.len()
                        &&& #[trigger] rest[i] matches StoreEvent::Insert { record: given, .. }
                            && given == were[id]
                        &&& id_of(seeds[i].0) == id
                        &&& !is_seed(seeds, i, id)
                    };
                assert(events[i] == rest[i]);
            } else {
                assert(events[n] == events.last());
            }
        }
    }
}

proof fn lemma_one_more_seed(
    seeds: Seq<(Seq<char>, Option<KeyLimits>)>,
    n: int,
    id: Seq<char>,
)
    requires
        0 <= n < seeds.len(),
    ensures
        is_seed(seeds, n + 1, id) == (is_seed(seeds, n, id) || id_of(seeds[n].0) == id),
{
    if is_seed(seeds, n, id) {
        let i = choose|i: int| 0 <= i < n && id_of((#[trigger] seeds[i]).0) == id;
        assert(id_of(seeds[i].0) == id);
    }
    if id_of(seeds[n].0) == id {
        assert(0 <= n < n + 1 && id_of(seeds[n].0) == id);
    }
}

/// In particular, seeding again what is stored already changes nothing.
pub proof fn law_reseeding_changes_nothing(
    before: Seq<StoreEvent>,
    events: Seq<StoreEvent>,
    seeds: Seq<(Seq<char>, Option<KeyLimits>)>,
    master: Seq<u8>,
    last: i64,
)
    requires
        inserts(events, seeds, master, last),
        forall|i: int|
            0 <= i < seeds.len() ==> replay(before).contains_key(id_of((#[trigger] seeds[i]).0)),
    ensures
        replay(before + events) == replay(before),
{
    assert(events.len() <= seeds.len()) by {
        reveal(inserts);
    }
    law_seeding_adds_what_is_missing(before, events, seeds, master, last);
    let (old_records, records) = (replay(before), replay(before + events));
    assert forall|id: Seq<char>| #[trigger] records.contains_key(id) implies (
    old_records.contains_key(id)) by {
        if is_seed(seeds, events.len() as int, id) {
            let i = choose|i: int|
                0 <= i < events.len() && id_of((#[trigger] seeds[i]).0) == id;
            assert(old_records.contains_key(id_of(seeds[i].0)));
        }
    }
    assert forall|id: Seq<char>| #[trigger] old_records.contains_key(id) implies (
    records.contains_key(id)) by {}
    assert(records =~= old_records);
}

/// After a successful build every seed key is stored under its id, whatever was
/// there stays as it was, and nothing else comes in: the ids are the old ones and
/// those of the seeds.
pub proof fn law_build_seeds_each_key_once(
    builder: AiClientBuilder,
    master: Seq<u8>,
    last: i64,
    next: i64,
    before: Seq<StoreEvent>,
    middle: Seq<StoreEvent>,
    after: Seq<StoreEvent>,
    pool: PoolView,
)
    requires
        built(builder, master, last, next, before, middle, after, Ok(pool)),
    ensures
        topped_up(
            replay(before),
            replay(middle),
            seed_views(builder.seed_keys@),
            builder.seed_keys.len() as int,
        ),
{
    let seeds = seed_views(builder.seed_keys@);
    let reply = choose|reply: Result<(), VaultError>|
        {
            &&& #[trigger] seeded(before, middle, seeds, master, last, next, reply)
            &&& match reply {
                Err(e) => false,
                Ok(_) => wired(builder.config, master, middle, after, Ok(pool)),
            }
        };
    let events = middle.skip(before.len() as int);
    assert(middle =~= before + events);
    law_seeding_adds_what_is_missing(before, events, seeds, master, last);
}

} // verus!
