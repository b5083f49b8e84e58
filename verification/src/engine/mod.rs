//! Key selection and rotation.
//!
//! Holds the decrypted keys in RAM and decides *which* key to use for the next
//! request, honoring each key's optional quota limits (per-minute / per-hour
//! windows, per-key concurrency).

pub mod choice;
pub mod key;
pub mod laws;
pub mod pool;
pub mod proactive;
pub mod reactive;

pub use key::{KeySeed, KeyState, LeaseView, LeasedKey, SeedView, StateView};
pub use pool::{KeyPool, PoolView, Round, RoundView};
