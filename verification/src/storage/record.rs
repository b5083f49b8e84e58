//! The encrypted rows that a key store holds.

use vstd::prelude::*;

use super::health::{HealthView, KeyHealth};
use crate::quota::{KeyLimits, WindowState, HOUR_MS, MINUTE_MS};

verus! {

/// One encrypted key row, as seen by a [`super::KeyStore`].
#[derive(Debug)]
pub struct KeyRecord {
    /// Stable id, a deterministic hash of the key.
    pub id: String,
    /// `nonce || AES-256-GCM ciphertext+tag` of the plaintext API key.
    pub ciphertext: Vec<u8>,
    /// Censored representation kept alongside the blob, so that a UI never
    /// needs to decrypt just to render `sk-proj...8f92`.
    pub censored: String,
    /// Current health.
    pub health: KeyHealth,
    /// Optional per-key quota limits (`None` = use the pool default).
    pub limits: Option<KeyLimits>,
    /// Persisted minute window (reset at load if its time has passed).
    pub minute_window: Option<WindowState>,
    /// Persisted hour window (reset at load if its time has passed).
    pub hour_window: Option<WindowState>,
    /// Unix ms creation timestamp.
    pub created_at_ms: i64,
}

/// What a [`KeyRecord`] stands for.
pub struct RecordView {
    /// Stable id.
    pub id: Seq<char>,
    /// Sealed API key.
    pub ciphertext: Seq<u8>,
    /// Censored representation.
    pub censored: Seq<char>,
    /// Current health.
    pub health: HealthView,
    /// Per-key limits, if any.
    pub limits: Option<KeyLimits>,
    /// Minute window, if any.
    pub minute_window: Option<WindowState>,
    /// Hour window, if any.
    pub hour_window: Option<WindowState>,
    /// Unix ms creation timestamp.
    pub created_at_ms: i64,
}

impl View for KeyRecord {
    type V = RecordView;

    open spec fn view(&self) -> RecordView {
        RecordView {
            id: self.id@,
            ciphertext: self.ciphertext@,
            censored: self.censored@,
            health: self.health@,
            limits: self.limits,
            minute_window: self.minute_window,
            hour_window: self.hour_window,
            created_at_ms: self.created_at_ms,
        }
    }
}

impl Clone for KeyRecord {
    fn clone(&self) -> (r: KeyRecord)
        ensures
            r@ == self@,
    {
        let ciphertext: Vec<u8> = self.ciphertext.clone();
        assert(ciphertext@ =~= self.ciphertext@);
        KeyRecord {
            id: self.id.clone(),
            ciphertext,
            censored: self.censored.clone(),
            health: self.health.clone(),
            limits: self.limits,
            minute_window: self.minute_window,
            hour_window: self.hour_window,
            created_at_ms: self.created_at_ms,
        }
    }
}

/// The window, unless its time has passed at `now_ms`.
pub open spec fn unexpired(window: Option<WindowState>, now_ms: i64, len_ms: i64) -> Option<
    WindowState,
> {
    match window {
        Some(w) if w.over(now_ms, len_ms) => None,
        other => other,
    }
}

impl RecordView {
    /// The record without the windows whose time has passed at `now_ms`.
    pub open spec fn fresh(self, now_ms: i64) -> RecordView {
        RecordView {
            minute_window: unexpired(self.minute_window, now_ms, MINUTE_MS),
            hour_window: unexpired(self.hour_window, now_ms, HOUR_MS),
            ..self
        }
    }
}

impl KeyRecord {
    /// Drops persisted windows whose time has already passed, so that stale
    /// usage never carries into a new window after a restart.
    pub fn expire_stale_windows(&mut self, now_ms: i64)
        ensures
            final(self)@ == old(self)@.fresh(now_ms),
    {
        if let Some(w) = self.minute_window {
            if w.expired(now_ms, MINUTE_MS) {
                self.minute_window = None;
            }
        }
        if let Some(w) = self.hour_window {
            if w.expired(now_ms, HOUR_MS) {
                self.hour_window = None;
            }
        }
    }
}

} // verus!
