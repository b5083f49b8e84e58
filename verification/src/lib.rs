//! A pool of API keys for OpenAI-compatible services: key rotation, per-key
//! rate quotas, encrypted key storage and the retry policy around them.
//!
//! The library holds every rule of the pool and no I/O. It is split as
//! follows:
//!
//! * [`storage`] and [`crypto`] keep the keys: records sealed with AES-256-GCM
//!   behind a [`storage::KeyStore`].
//! * [`engine`] picks the key for the next request, round-robin or by sticky
//!   failover, and honours the quotas of [`quota`].
//! * [`http`] decides what each response means, when a request is repeated and
//!   with which key, and splits event streams.
//! * [`sdk`] assembles request payloads and reads replies.
//! * [`client`] builds the whole: validated configuration, seeded vault, loaded
//!   pool.
//!
//! Times are values: [`clock::Clock`] reads the machine's clocks, and every
//! rule that depends on the time has a form that is handed the moment.

pub mod client;
pub mod client_laws;
pub mod clock;
pub mod config;
pub mod crypto;
pub mod engine;
pub mod error;
pub mod http;
pub mod json;
pub mod order;
pub mod quota;
pub mod sdk;
pub mod secret;
pub mod storage;
pub mod tables;
pub mod text;
pub mod text_laws;

pub use client::{AiClient, AiClientBuilder};
pub use config::{PoolConfig, RotationMode};
pub use crypto::MasterKeyProvider;
pub use engine::KeySeed;
pub use error::{AiError, StreamInterruption, VaultError};
pub use http::models::{ChatChunk, ChatResponse, Choice, ChunkChoice, Delta, Message, Usage};
pub use quota::{KeyLimits, KeyQuotaInfo, WindowInfo, WindowState};
pub use sdk::{ChatBuilder, ReasoningEffort, ResponseFormat, ThinkingConfig};
pub use secret::SecretString;
pub use storage::{KeyHealth, KeyManager, KeyMetadata, KeyRecord, KeyStatus, KeyStore};
