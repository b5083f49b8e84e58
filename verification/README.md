# ai-pool

A pool of API keys for OpenAI-compatible services: key rotation, per-key rate
quotas, encrypted key storage, and the retry policy around them. The rules of
the pool are executable Rust whose behaviour is stated in contracts and proved
by Verus; the network, the database and the keychain are ordinary Rust around
them.

## Layout

- `src/` is the verified library.
  - `client.rs` builds the whole: validated configuration, seeded vault, loaded
    pool.
  - `engine/` picks the key for the next request, round-robin or by sticky
    failover, and honours quotas (`quota.rs`). `engine/laws.rs` states what
    holds of the pool whatever is done with it.
  - `http/` decides what each response means, when a request is repeated and
    with which key (`dispatcher.rs`, `retry_after.rs`), reads provider errors
    (`models.rs`) and splits event streams (`stream.rs`).
  - `storage/` and `crypto/` keep the keys: records sealed with AES-256-GCM
    behind a `KeyStore`, an in-memory store, the columns of a database store,
    and the `KeyManager` over vault and pool.
  - `sdk/` assembles request payloads and reads replies; `json.rs` holds the
    rules for JSON values.
  - `clock.rs`, `order.rs`, `text.rs`, `secret.rs`, `config.rs`, `error.rs` and
    `tables.rs` are what these rest on.
- `app/` is the asynchronous client: it sends requests, blocks on the database
  and asks the keychain, and leaves every decision to the library.
- `tests/` runs the library.

## Time and chance

Every rule that depends on the time or on a random number has a form that is
handed them (`next_key_at`, `lease_at`, `cooldown_key_at`, `advance_at`,
`jitter_of`, `insert_plain_at`, `list_keys_at`, `load_all_decrypted_at`, ...) and
says exactly what comes of them, and a form that reads the clocks, draws the
number, and calls the first. The retry policy is a state machine:
`Dispatcher::execute` and `Dispatcher::advance` say what to do next, and are told
what came of it. `http/laws.rs` states what holds of whole requests.

## Stores

A `KeyStore` is known by its history: the calls it got and what it replied.
Nothing is assumed of the replies, so what is proved of the vault and the
manager holds of a failing store too. What a faithful store replies is stated
in `storage/store.rs`; `MemoryStore` is proved to be one.

Creation stamps come from a `Stamps` value that is handed in: a process keeps
one for all its vaults, so that keys keep their insertion order.

## What is not proved

Functions of other crates are called behind items whose contracts are believed:
`tables.rs` (`dashmap`), `json.rs` (`serde_json`), `secret.rs` (`secrecy`),
`crypto/primitives.rs` (`aes-gcm`, `sha2`, `hex`, `rand`, text conversions of
std), `text.rs` (`String::push`) and `clock.rs` (the machine's clocks). The doc
comment of each says what is relied upon.
