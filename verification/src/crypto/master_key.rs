//! Where the 32-byte AES-256 master key comes from.
//!
//! A key that the caller supplies, or that is made up for one run, is resolved
//! on the spot. One that lives in the OS keychain takes steps there:
//! [`MasterKeyProvider::resolve`] asks for the entry to be read,
//! [`on_keychain_read`] judges what came back and may ask for a fresh key to be
//! stored, and [`on_keychain_stored`] judges that.

use vstd::prelude::*;
use vstd::utf8::encode_utf8;

use super::primitives::{
    hex_bytes, hex_decode, hex_encode, hex_text, hex_value, is_hex, lower_case,
    to_lower,
};
use super::random::{drawn, Drawn};
use crate::error::VaultError;
use crate::secret::MasterKey;
use crate::text::{contains, is_white, occurs_in, trim, trimmed, without_leading, without_trailing};

verus! {

/// Source of the master encryption key that seals the on-disk vault.
pub enum MasterKeyProvider {
    /// A single 32-byte key in the OS keychain, created on first run.
    OsKeychain,
    /// The caller's own 32-byte key (e.g. derived from a passphrase or read
    /// from a configuration file).
    Custom(MasterKey),
    /// A random key made at startup and kept in memory. With a persistent
    /// store this makes old rows unreadable after a restart, so it only suits
    /// sessions that end with the process.
    Ephemeral,
}

/// What resolving a provider comes to.
pub enum Resolution {
    /// The key.
    Key(MasterKey),
    /// The entry in the OS keychain has to be read first.
    ReadKeychain,
}

/// What reading the keychain entry came to.
pub enum KeychainRead {
    /// The entry's text.
    Found(String),
    /// There is no such entry yet.
    NoEntry,
    /// Reading failed, with this message.
    Failed(String),
    /// The entry could not even be addressed, with this message.
    Unavailable(String),
}

/// What is to be done after a look into the keychain.
pub enum KeychainStep {
    /// The entry holds this key.
    Key(MasterKey),
    /// First run: store `entry`, which stands for `key`.
    Store {
        /// Text to store.
        entry: String,
        /// The key it stands for.
        key: MasterKey,
    },
    /// Resolution fails.
    Fail(VaultError),
}

impl MasterKeyProvider {
    /// Resolves the provider into the actual 32-byte key, or into the request
    /// to read the keychain.
    pub fn resolve(&self) -> (r: Resolution)
        ensures
            match *self {
                MasterKeyProvider::Custom(given) => r matches Resolution::Key(key) && key@
                    == given@,
                MasterKeyProvider::Ephemeral => r matches Resolution::Key(key) && drawn(key@),
                MasterKeyProvider::OsKeychain => r is ReadKeychain,
            },
    {
        match self {
            MasterKeyProvider::Custom(given) => Resolution::Key(given.clone()),
            MasterKeyProvider::Ephemeral => Resolution::Key(fresh_key()),
            MasterKeyProvider::OsKeychain => Resolution::ReadKeychain,
        }
    }

    /// What may be shown of the provider; a custom key is not.
    pub fn shown(&self) -> (r: &'static str)
        ensures
            r@ == (match *self {
                MasterKeyProvider::OsKeychain => "MasterKeyProvider::OsKeychain"@,
                MasterKeyProvider::Custom(_) => "MasterKeyProvider::Custom(<redacted>)"@,
                MasterKeyProvider::Ephemeral => "MasterKeyProvider::Ephemeral"@,
            }),
    {
        match self {
            MasterKeyProvider::OsKeychain => "MasterKeyProvider::OsKeychain",
            MasterKeyProvider::Custom(_) => "MasterKeyProvider::Custom(<redacted>)",
            MasterKeyProvider::Ephemeral => "MasterKeyProvider::Ephemeral",
        }
    }

    /// Convenience constructor validating an arbitrary byte slice.
    pub fn custom_from_slice(bytes: &[u8]) -> (r: Result<MasterKeyProvider, VaultError>)
        ensures
            match r {
                Ok(provider) => bytes@.len() == 32 && (provider matches MasterKeyProvider::Custom(
                    key,
                ) && key@ == bytes@),
                Err(e) => bytes@.len() != 32 && e is InvalidMasterKey,
            },
    {
        match MasterKey::from_slice(bytes) {
            Some(key) => Ok(MasterKeyProvider::Custom(key)),
            None => Err(VaultError::InvalidMasterKey),
        }
    }
}

fn fresh_key() -> (r: MasterKey)
    ensures
        drawn(r@),
{
    let bytes: Vec<u8> = Drawn::bytes(32).into_bytes();
    match MasterKey::from_slice(bytes.as_slice()) {
        Some(key) => key,
        None => vstd::pervasive::unreached(),
    }
}

/// What a keychain failure means: a locked keychain shows by its message.
pub open spec fn locked_message(lowered: Seq<char>) -> bool {
    occurs_in(lowered, "lock"@) || occurs_in(lowered, "denied"@) || occurs_in(
        lowered,
        "interaction"@,
    )
}

/// The error for a keychain failure, given its message in lower case.
pub fn keychain_failure(message: &str, lowered: &str) -> (r: VaultError)
    ensures
        locked_message(lowered@) ==> r is KeychainLocked,
        !locked_message(lowered@) ==> (r matches VaultError::Keychain(why) && why@ == message@),
{
    if contains(lowered, "lock") || contains(lowered, "denied") || contains(lowered, "interaction") {
        VaultError::KeychainLocked
    } else {
        VaultError::Keychain(message.to_string())
    }
}

/// The error for a keychain failure. Locked keychains surface as platform
/// failures; the common cases are told apart by their message so that an
/// application can ask the user to unlock.
pub fn map_keyring_err(message: &str) -> (r: VaultError)
    ensures
        locked_message(lower_case(message@)) ==> r is KeychainLocked,
        !locked_message(lower_case(message@)) ==> (r matches VaultError::Keychain(why) && why@
            == message@),
{
    let lowered: String = to_lower(message);
    keychain_failure(message, lowered.as_str())
}

/// The digits of a keychain entry.
pub open spec fn entry_digits(entry: Seq<char>) -> Seq<u8> {
    encode_utf8(trimmed(entry))
}

/// The key that a keychain entry stands for, or what is wrong with it.
pub open spec fn entry_key(entry: Seq<char>) -> Result<Seq<u8>, Seq<char>> {
    let digits = entry_digits(entry);
    if !is_hex(digits) {
        Err("master key entry is not valid hex"@)
    } else if hex_bytes(digits).len() != 32 {
        Err("master key entry is not 32 bytes"@)
    } else {
        Ok(hex_bytes(digits))
    }
}

/// The key that a keychain entry stands for.
pub fn key_of_entry(entry: &str) -> (r: Result<MasterKey, VaultError>)
    ensures
        match (r, entry_key(entry@)) {
            (Ok(key), Ok(bytes)) => key@ == bytes,
            (Err(VaultError::Keychain(why)), Err(fault)) => why@ == fault,
            _ => false,
        },
{
    let digits: String = trim(entry);
    match hex_decode(digits.as_str()) {
        Some(bytes) => match MasterKey::from_slice(bytes.as_slice()) {
            Some(key) => Ok(key),
            None => Err(VaultError::Keychain("master key entry is not 32 bytes".to_string())),
        },
        None => Err(VaultError::Keychain("master key entry is not valid hex".to_string())),
    }
}

/// Judges what reading the keychain entry came to. A missing entry is made:
/// `fresh` is the key to store.
pub fn on_keychain_read_with(read: KeychainRead, fresh: MasterKey) -> (r: KeychainStep)
    ensures
        match read {
            KeychainRead::Found(entry) => match (r, entry_key(entry@)) {
                (KeychainStep::Key(key), Ok(bytes)) => key@ == bytes,
                (KeychainStep::Fail(VaultError::Keychain(why)), Err(fault)) => why@ == fault,
                _ => false,
            },
            KeychainRead::NoEntry => r matches KeychainStep::Store { entry, key } && entry@
                == hex_text(fresh@) && key@ == fresh@,
            KeychainRead::Failed(message) => if locked_message(lower_case(message@)) {
                r matches KeychainStep::Fail(e) && e is KeychainLocked
            } else {
                r matches KeychainStep::Fail(VaultError::Keychain(why)) && why@ == message@
            },
            KeychainRead::Unavailable(message) => r matches KeychainStep::Fail(
                VaultError::Keychain(why),
            ) && why@ == message@,
        },
{
    match read {
        KeychainRead::Found(entry) => match key_of_entry(entry.as_str()) {
            Ok(key) => KeychainStep::Key(key),
            Err(e) => KeychainStep::Fail(e),
        },
        KeychainRead::NoEntry => {
            let entry: String = hex_encode(fresh.expose_secret().as_slice());
            KeychainStep::Store { entry, key: fresh }
        },
        KeychainRead::Failed(message) => KeychainStep::Fail(map_keyring_err(message.as_str())),
        KeychainRead::Unavailable(message) => KeychainStep::Fail(VaultError::Keychain(message)),
    }
}

/// Judges what reading the keychain entry came to. A missing entry is made,
/// with a random key.
pub fn on_keychain_read(read: KeychainRead) -> (r: KeychainStep)
    ensures
        match read {
            KeychainRead::Found(entry) => match (r, entry_key(entry@)) {
                (KeychainStep::Key(key), Ok(bytes)) => key@ == bytes,
                (KeychainStep::Fail(VaultError::Keychain(why)), Err(fault)) => why@ == fault,
                _ => false,
            },
            KeychainRead::NoEntry => r matches KeychainStep::Store { entry, key } && entry@
                == hex_text(key@) && drawn(key@),
            KeychainRead::Failed(message) => if locked_message(lower_case(message@)) {
                r matches KeychainStep::Fail(e) && e is KeychainLocked
            } else {
                r matches KeychainStep::Fail(VaultError::Keychain(why)) && why@ == message@
            },
            KeychainRead::Unavailable(message) => r matches KeychainStep::Fail(
                VaultError::Keychain(why),
            ) && why@ == message@,
        },
{
    on_keychain_read_with(read, fresh_key())
}

/// Judges what storing a fresh key came to: the key is the master key unless
/// storing failed with a message.
pub fn on_keychain_stored(key: MasterKey, failure: Option<String>) -> (r: Result<
    MasterKey,
    VaultError,
>)
    ensures
        match failure {
            None => r == Ok::<MasterKey, VaultError>(key),
            Some(message) => if locked_message(lower_case(message@)) {
                r matches Err(e) && e is KeychainLocked
            } else {
                r matches Err(VaultError::Keychain(why)) && why@ == message@
            },
        },
{
    match failure {
        None => Ok(key),
        Some(message) => Err(map_keyring_err(message.as_str())),
    }
}

/// The entry stored for a key stands for that key when it is read again.
pub proof fn law_keychain_entry_reads_back(key: Seq<u8>)
    ensures
        is_hex(entry_digits(hex_text(key))),
        hex_bytes(entry_digits(hex_text(key))) == key,
{
    let text = hex_text(key);
    assert forall|i: int| 0 <= i < text.len() implies !is_white(#[trigger] text[i]) && (text[i] as u32)
        < 128 && hex_value(text[i] as u8) == Some(
        (if i % 2 == 0 {
            key[i / 2] as int / 16
        } else {
            key[i / 2] as int % 16
        }) as u8,
    ) by {
        let half = if i % 2 == 0 {
            key[i / 2] as int / 16
        } else {
            key[i / 2] as int % 16
        };
        assert(0 <= half < 16);
        assert(text[i] == super::primitives::hex_digit(half));
    }
    assert(without_leading(text) == text);
    assert(without_trailing(text) == text);
    assert(vstd::utf8::is_ascii_chars(text));
    vstd::utf8::is_ascii_chars_encode_utf8(text);
    let digits = entry_digits(text);
    assert forall|i: int| 0 <= i < digits.len() implies hex_value(#[trigger] digits[i])
        is Some by {
        assert(digits[i] == text[i] as u8);
    }
    assert forall|i: int| 0 <= i < key.len() implies hex_bytes(digits)[i] == key[i] by {
        assert(digits[2 * i] == text[2 * i] as u8);
        assert(digits[2 * i + 1] == text[2 * i + 1] as u8);
        assert((2 * i) / 2 == i && (2 * i) % 2 == 0);
        assert((2 * i + 1) / 2 == i && (2 * i + 1) % 2 == 1);
    }
    assert(hex_bytes(digits) =~= key);
}

} // verus!
