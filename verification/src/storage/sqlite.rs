//! The columns of the persistent key store:
//!
//! ```sql
//! CREATE TABLE ai_pool_keys (
//!     id                TEXT PRIMARY KEY,
//!     ciphertext        BLOB NOT NULL,   -- nonce || AES-256-GCM ct+tag
//!     censored          TEXT NOT NULL,
//!     status            TEXT NOT NULL,   -- active | cooldown | banned
//!     ban_reason        TEXT,
//!     cooldown_until_ms INTEGER,
//!     limits_json       TEXT,            -- serialized KeyLimits, NULL = pool default
//!     minute_start_ms   INTEGER,         -- minute window start (unix ms)
//!     minute_used       INTEGER,
//!     hour_start_ms     INTEGER,         -- hour window start (unix ms)
//!     hour_used         INTEGER,
//!     created_at_ms     INTEGER NOT NULL
//! );
//! ```

use vstd::prelude::*;

use super::health::{consistent, kept, law_columns_round_trip, storable, HealthView, KeyHealth};
use super::record::{KeyRecord, RecordView};
use crate::clock::Moment;
use crate::error::VaultError;
use crate::quota::{KeyLimits, WindowState};
use crate::text::text_of;

verus! {

/// A window as two columns: its start and its usage.
pub open spec fn columns_of_window(w: Option<WindowState>) -> (Option<i64>, Option<i64>) {
    match w {
        Some(w) => (Some(w.start_ms), Some(w.used as i64)),
        None => (None, None),
    }
}

/// The window that two columns stand for; a usage that no counter can hold is
/// taken as the largest.
pub open spec fn window_of_columns(start: Option<i64>, used: Option<i64>) -> Option<WindowState> {
    match (start, used) {
        (Some(start_ms), Some(used)) => Some(
            WindowState {
                start_ms,
                used: if 0 <= used <= u32::MAX {
                    used as u32
                } else {
                    u32::MAX
                },
            },
        ),
        _ => None,
    }
}

/// A window as two columns: its start and its usage.
pub fn window_columns(w: Option<WindowState>) -> (r: (Option<i64>, Option<i64>))
    ensures
        r == columns_of_window(w),
{
    match w {
        Some(w) => (Some(w.start_ms), Some(w.used as i64)),
        None => (None, None),
    }
}

/// The window that two columns stand for.
pub fn window_from_columns(start: Option<i64>, used: Option<i64>) -> (r: Option<WindowState>)
    ensures
        r == window_of_columns(start, used),
{
    match (start, used) {
        (Some(start_ms), Some(used)) => {
            let count: u32 = if 0 <= used && used <= u32::MAX as i64 {
                used as u32
            } else {
                u32::MAX
            };
            Some(WindowState { start_ms, used: count })
        },
        _ => None,
    }
}

/// One row of the table, its limits already read.
#[derive(Debug)]
pub struct KeyRow {
    /// Primary key.
    pub id: String,
    /// Sealed API key.
    pub ciphertext: Vec<u8>,
    /// Censored representation.
    pub censored: String,
    /// `active`, `cooldown` or `banned`.
    pub status: String,
    /// Why the key was banned.
    pub ban_reason: Option<String>,
    /// Unix ms at which a cooldown ends.
    pub cooldown_until_ms: Option<i64>,
    /// Per-key limits, absent for the pool default.
    pub limits: Option<KeyLimits>,
    /// Start of the minute window.
    pub minute_start_ms: Option<i64>,
    /// Usage of the minute window.
    pub minute_used: Option<i64>,
    /// Start of the hour window.
    pub hour_start_ms: Option<i64>,
    /// Usage of the hour window.
    pub hour_used: Option<i64>,
    /// Unix ms creation timestamp.
    pub created_at_ms: i64,
}

impl KeyRow {
    /// The record that the row stands for at moment `m`.
    pub open spec fn record(self, m: Moment) -> RecordView {
        RecordView {
            id: self.id@,
            ciphertext: self.ciphertext@,
            censored: self.censored@,
            health: HealthView::from_columns(
                self.status@,
                text_of(self.ban_reason),
                self.cooldown_until_ms,
                m,
            ),
            limits: self.limits,
            minute_window: window_of_columns(self.minute_start_ms, self.minute_used),
            hour_window: window_of_columns(self.hour_start_ms, self.hour_used),
            created_at_ms: self.created_at_ms,
        }
    }

    /// Whether the row holds what a record stores at moment `m`.
    pub open spec fn stores(self, record: RecordView, m: Moment) -> bool {
        &&& self.id@ == record.id
        &&& self.ciphertext@ == record.ciphertext
        &&& self.censored@ == record.censored
        &&& (self.status@, text_of(self.ban_reason), self.cooldown_until_ms)
            == record.health.columns(m)
        &&& self.limits == record.limits
        &&& (self.minute_start_ms, self.minute_used) == columns_of_window(record.minute_window)
        &&& (self.hour_start_ms, self.hour_used) == columns_of_window(record.hour_window)
        &&& self.created_at_ms == record.created_at_ms
    }
}

/// The record that a row stands for at moment `m`.
pub fn row_to_record(row: KeyRow, m: Moment) -> (r: KeyRecord)
    ensures
        r@ == row.record(m),
{
    let health: KeyHealth = KeyHealth::from_columns_at(
        row.status.as_str(),
        row.ban_reason,
        row.cooldown_until_ms,
        m,
    );
    KeyRecord {
        id: row.id,
        ciphertext: row.ciphertext,
        censored: row.censored,
        health,
        limits: row.limits,
        minute_window: window_from_columns(row.minute_start_ms, row.minute_used),
        hour_window: window_from_columns(row.hour_start_ms, row.hour_used),
        created_at_ms: row.created_at_ms,
    }
}

/// The row that stores a record at moment `m`.
pub fn record_to_row(record: &KeyRecord, m: Moment) -> (r: KeyRow)
    ensures
        r.stores(record@, m),
{
    let (status, ban_reason, cooldown_until_ms) = record.health.to_columns_at(m);
    let (minute_start_ms, minute_used) = window_columns(record.minute_window);
    let (hour_start_ms, hour_used) = window_columns(record.hour_window);
    let ciphertext: Vec<u8> = record.ciphertext.clone();
    assert(ciphertext@ =~= record.ciphertext@);
    KeyRow {
        id: record.id.clone(),
        ciphertext,
        censored: record.censored.clone(),
        status,
        ban_reason,
        cooldown_until_ms,
        limits: record.limits,
        minute_start_ms,
        minute_used,
        hour_start_ms,
        hour_used,
        created_at_ms: record.created_at_ms,
    }
}

/// What a change by id comes to, given how many rows it affected.
pub fn changed_rows(rows: u64, id: &str) -> (r: Result<(), VaultError>)
    ensures
        r is Ok <==> rows > 0,
        r matches Err(e) ==> e matches VaultError::NotFound(missing) && missing@ == id@,
{
    if rows == 0 {
        Err(VaultError::NotFound(id.to_string()))
    } else {
        Ok(())
    }
}

/// What fetching one record comes to, given the row that was found.
pub fn found_row(row: Option<KeyRow>, id: &str, m: Moment) -> (r: Result<KeyRecord, VaultError>)
    ensures
        match (row, r) {
            (Some(found), Ok(record)) => record@ == found.record(m),
            (None, Err(VaultError::NotFound(missing))) => missing@ == id@,
            _ => false,
        },
{
    match row {
        Some(found) => Ok(row_to_record(found, m)),
        None => Err(VaultError::NotFound(id.to_string())),
    }
}

/// A window reads back from its columns as it was written.
pub proof fn law_window_columns_round_trip(w: Option<WindowState>)
    ensures
        window_of_columns(columns_of_window(w).0, columns_of_window(w).1) == w,
{
}

/// A row gives back the record that it stores: every field exactly, and the
/// health as far as the clocks agree.
pub proof fn law_row_round_trip(
    row: KeyRow,
    record: RecordView,
    written: Moment,
    read: Moment,
    drift: nat,
)
    requires
        row.stores(record, written),
        consistent(written, read, drift),
        storable(record.health, written, read, drift),
    ensures
        row.record(read) == (RecordView { health: row.record(read).health, ..record }),
        kept(record.health, row.record(read).health, written, read, drift),
{
    law_window_columns_round_trip(record.minute_window);
    law_window_columns_round_trip(record.hour_window);
    law_columns_round_trip(record.health, written, read, drift);
}

} // verus!
