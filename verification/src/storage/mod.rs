//! Key storage: the vault.
//!
//! A [`KeyStore`] only deals with **encrypted blobs and metadata**. Encryption
//! and decryption happen in [`Vault`], which pairs a store with an
//! [`Envelope`](crate::crypto::Envelope).

pub mod health;
pub mod laws;
pub mod manager;
pub mod memory;
pub mod record;
pub mod sqlite;
pub mod store;
pub mod vault;

pub use health::{HealthView, KeyHealth, KeyStatus, StatusView};
pub use manager::{KeyManager, KeyMetadata, MetadataView};
pub use memory::MemoryStore;
pub use record::{KeyRecord, RecordView};
pub use store::KeyStore;
pub use vault::{DecryptedKey, DecryptedView, Stamps, Vault};
