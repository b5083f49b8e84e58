//! Values that must not be shown: API keys and the master key. Neither type
//! has a printable form; reading one takes a call that says so. `secrecy` holds
//! them, and wipes their memory when they are dropped.

use vstd::prelude::*;

use secrecy::{ExposeSecret, SecretBox};

verus! {

/// A plaintext API key. `secrecy`'s type is bounded by a trait of its own, so it
/// is held out of sight and known by its text alone.
#[verifier::external_body]
pub struct SecretString {
    inner: SecretBox<str>,
}

/// The text in custody.
pub uninterp spec fn secret_text(secret: SecretString) -> Seq<char>;

impl View for SecretString {
    type V = Seq<char>;

    open spec fn view(&self) -> Seq<char> {
        secret_text(*self)
    }
}

/// `SecretString::from`: the text, in custody.
#[verifier::external_body]
fn secret_new(text: String) -> (r: SecretString)
    ensures
        secret_text(r) == text@,
{
    SecretString { inner: SecretBox::from(text) }
}

/// `ExposeSecret::expose_secret`: the text in custody.
#[verifier::external_body]
fn secret_exposed(secret: &SecretString) -> (r: &str)
    ensures
        r@ == secret_text(*secret),
{
    secret.inner.expose_secret()
}

impl SecretString {
    /// Takes a plaintext into custody.
    pub fn new(text: String) -> (r: SecretString)
        ensures
            r@ == text@,
    {
        secret_new(text)
    }

    /// The plaintext itself. Call this at the last possible moment.
    pub fn expose_secret(&self) -> (r: &str)
        ensures
            r@ == self@,
    {
        secret_exposed(self)
    }
}

impl Clone for SecretString {
    fn clone(&self) -> (r: SecretString)
        ensures
            r@ == self@,
    {
        SecretString::new(self.expose_secret().to_string())
    }
}

/// A 32-byte AES-256 key, held and known like a [`SecretString`].
#[verifier::external_body]
pub struct MasterKey {
    inner: SecretBox<[u8; 32]>,
}

/// The bytes in custody.
pub uninterp spec fn master_bytes(key: MasterKey) -> [u8; 32];

impl View for MasterKey {
    type V = Seq<u8>;

    open spec fn view(&self) -> Seq<u8> {
        master_bytes(*self)@
    }
}

/// `SecretBox::new`: the bytes, in custody.
#[verifier::external_body]
fn master_new(bytes: [u8; 32]) -> (r: MasterKey)
    ensures
        master_bytes(r) == bytes,
{
    MasterKey { inner: SecretBox::new(Box::new(bytes)) }
}

/// `ExposeSecret::expose_secret`: the bytes in custody.
#[verifier::external_body]
fn master_exposed(key: &MasterKey) -> (r: &[u8; 32])
    ensures
        *r == master_bytes(*key),
{
    key.inner.expose_secret()
}

impl MasterKey {
    /// Takes a key into custody.
    pub fn new(bytes: [u8; 32]) -> (r: MasterKey)
        ensures
            r@ == bytes@,
    {
        master_new(bytes)
    }

    /// Takes a key of exactly 32 bytes into custody.
    pub fn from_slice(bytes: &[u8]) -> (r: Option<MasterKey>)
        ensures
            r is Some <==> bytes@.len() == 32,
            r matches Some(key) ==> key@ == bytes@,
    {
        if bytes.len() != 32 {
            return None;
        }
        let mut key: [u8; 32] = [0;32];
        let mut i: usize = 0;
        while i < 32
            invariant
                i <= 32,
                bytes@.len() == 32,
                forall|j: int| 0 <= j < i ==> key@[j] == bytes@[j],
            decreases 32 - i,
        {
            key[i] = bytes[i];
            i = i + 1;
        }
        assert(key@ =~= bytes@);
        Some(MasterKey::new(key))
    }

    /// The key itself. Call this at the last possible moment.
    pub fn expose_secret(&self) -> (r: &[u8; 32])
        ensures
            r@ == self@,
            self@.len() == 32,
    {
        master_exposed(self)
    }

    /// Every master key has 32 bytes.
    pub proof fn law_length(self)
        ensures
            self@.len() == 32,
    {
    }
}

impl Clone for MasterKey {
    fn clone(&self) -> (r: MasterKey)
        ensures
            r@ == self@,
    {
        MasterKey::new(*self.expose_secret())
    }
}

} // verus!
