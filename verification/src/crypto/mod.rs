//! Envelope encryption (AES-256-GCM).
//!
//! The vault never writes a plaintext API key to disk. Each record is sealed
//! with the 32-byte master key using AES-256-GCM (authenticated encryption)
//! under a fresh random 12-byte nonce. The stored blob layout is:
//!
//! ```text
//! [ 12-byte nonce | ciphertext + 16-byte GCM tag ]
//! ```
//!
//! Because GCM is *authenticated*, a blob whose tag does not belong to it fails
//! to open with `VaultError::Corrupted` rather than yielding garbage; the vault
//! then bans that key as corrupted and moves on.

pub mod laws;
pub mod master_key;
pub mod primitives;
pub mod random;

pub use master_key::{KeychainRead, KeychainStep, MasterKeyProvider, Resolution};

use vstd::prelude::*;
use vstd::utf8::{decode_utf8, encode_utf8, valid_utf8};

use crate::error::VaultError;
use crate::secret::{MasterKey, SecretString};
use crate::text::{chars_of, string_of};
use primitives::{
    gcm_decrypt, gcm_encrypt, gcm_opened, gcm_sealed, hex_encode, hex_text, sha256,
    sha256_digest, utf8_text, MAX_MESSAGE, NONCE_LEN, TAG_LEN,
};
use random::{drawn, Drawn};

verus! {

/// What a blob opens to under a master key: the text, or why it is refused.
pub open spec fn opened(master: Seq<u8>, blob: Seq<u8>) -> Result<Seq<char>, Seq<char>> {
    if blob.len() < NONCE_LEN + TAG_LEN {
        Err("blob too short"@)
    } else {
        match gcm_opened(master, blob.take(NONCE_LEN as int), blob.skip(NONCE_LEN as int)) {
            None => Err("AES-GCM authentication failed"@),
            Some(bytes) => if valid_utf8(bytes) {
                Ok(decode_utf8(bytes))
            } else {
                Err("decrypted key is not valid UTF-8"@)
            },
        }
    }
}

/// The blob that a text is sealed into under a master key and a nonce.
pub open spec fn sealed(master: Seq<u8>, nonce: Seq<u8>, text: Seq<char>) -> Seq<u8> {
    nonce + gcm_sealed(master, nonce, encode_utf8(text))
}

/// Whether `blob` opens to `text` and to nothing once its tag is changed.
pub open spec fn holds(master: Seq<u8>, blob: Seq<u8>, text: Seq<char>) -> bool {
    &&& opened(master, blob) == Ok::<Seq<char>, Seq<char>>(text)
    &&& forall|other: Seq<u8>|
        other.len() == blob.len() && other != blob && other.take(blob.len() - TAG_LEN)
            == blob.take(blob.len() - TAG_LEN) ==> #[trigger] opened(master, other) is Err
}

/// Stateless helper that seals and opens API keys with the master key.
pub struct Envelope {
    master: MasterKey,
}

impl View for Envelope {
    type V = Seq<u8>;

    closed spec fn view(&self) -> Seq<u8> {
        self.master@
    }
}

impl Clone for Envelope {
    fn clone(&self) -> (r: Envelope)
        ensures
            r@ == self@,
    {
        Envelope { master: self.master.clone() }
    }
}

impl Envelope {
    /// Wraps a resolved 32-byte master key.
    pub fn new(master: MasterKey) -> (r: Envelope)
        ensures
            r@ == master@,
    {
        Envelope { master }
    }

    /// Encrypts a plaintext API key under a given nonce. Returns `nonce ||
    /// ciphertext+tag`.
    pub fn seal_with(&self, plaintext: &SecretString, nonce: &[u8]) -> (r: Result<
        Vec<u8>,
        VaultError,
    >)
        requires
            nonce@.len() == NONCE_LEN,
        ensures
            r is Ok <==> encode_utf8(plaintext@).len() <= MAX_MESSAGE,
            r matches Ok(blob) ==> blob@ == sealed(self@, nonce@, plaintext@),
            r matches Ok(blob) ==> holds(self@, blob@, plaintext@),
            r matches Ok(blob) ==> blob@.len() == encode_utf8(plaintext@).len() + NONCE_LEN
                + TAG_LEN,
            r matches Err(e) ==> e matches VaultError::Crypto(why) && why@ == "aead::Error"@,
    {
        let message: &[u8] = plaintext.expose_secret().as_bytes();
        if message.len() as u64 > MAX_MESSAGE {
            return Err(VaultError::Crypto("aead::Error".to_string()));
        }
        let key: &[u8; 32] = self.master.expose_secret();
        match gcm_encrypt(key.as_slice(), nonce, message) {
            Some(ciphertext) => {
                let mut blob: Vec<u8> = Vec::new();
                blob.extend_from_slice(nonce);
                blob.extend_from_slice(ciphertext.as_slice());
                proof {
                    assert(blob@ =~= nonce@ + ciphertext@);
                    lemma_holds(self@, nonce@, plaintext@, ciphertext@);
                }
                Ok(blob)
            },
            None => Err(VaultError::Crypto("aead::Error".to_string())),
        }
    }

    /// Encrypts a plaintext API key under a fresh random nonce. Returns `nonce
    /// || ciphertext+tag`.
    pub fn seal(&self, plaintext: &SecretString) -> (r: Result<Vec<u8>, VaultError>)
        ensures
            r is Ok <==> encode_utf8(plaintext@).len() <= MAX_MESSAGE,
            r matches Ok(blob) ==> exists|nonce: Seq<u8>|
                nonce.len() == NONCE_LEN && drawn(nonce) && blob@ == sealed(
                    self@,
                    nonce,
                    plaintext@,
                ),
            r matches Ok(blob) ==> holds(self@, blob@, plaintext@),
            r matches Ok(blob) ==> blob@.len() == encode_utf8(plaintext@).len() + NONCE_LEN
                + TAG_LEN,
            r matches Err(e) ==> e matches VaultError::Crypto(why) && why@ == "aead::Error"@,
    {
        let nonce: Vec<u8> = fresh_nonce();
        self.seal_with(plaintext, nonce.as_slice())
    }

    /// Decrypts a `nonce || ciphertext+tag` blob back into a
    /// [`SecretString`].
    ///
    /// Returns [`VaultError::Corrupted`] if the blob fails GCM authentication
    /// (tampering or a rotated master key).
    pub fn open(&self, blob: &[u8]) -> (r: Result<SecretString, VaultError>)
        ensures
            match (r, opened(self@, blob@)) {
                (Ok(secret), Ok(text)) => secret@ == text,
                (Err(VaultError::Corrupted(why)), Err(reason)) => why@ == reason,
                _ => false,
            },
    {
        if blob.len() < NONCE_LEN + TAG_LEN {
            return Err(VaultError::Corrupted("blob too short".to_string()));
        }
        let (nonce, ciphertext) = blob.split_at(NONCE_LEN);
        assert(nonce@ =~= blob@.take(NONCE_LEN as int));
        assert(ciphertext@ =~= blob@.skip(NONCE_LEN as int));
        let key: &[u8; 32] = self.master.expose_secret();
        match gcm_decrypt(key.as_slice(), nonce, ciphertext) {
            Some(plaintext) => match utf8_text(plaintext) {
                Some(text) => {
                    proof {
                        vstd::utf8::encode_utf8_decode_utf8(text@);
                    }
                    Ok(SecretString::new(text))
                },
                None => Err(
                    VaultError::Corrupted("decrypted key is not valid UTF-8".to_string()),
                ),
            },
            None => Err(VaultError::Corrupted("AES-GCM authentication failed".to_string())),
        }
    }
}

/// A random nonce.
pub fn fresh_nonce() -> (r: Vec<u8>)
    ensures
        r@.len() == NONCE_LEN,
        drawn(r@),
{
    Drawn::bytes(NONCE_LEN).into_bytes()
}

proof fn lemma_holds(master: Seq<u8>, nonce: Seq<u8>, text: Seq<char>, ciphertext: Seq<u8>)
    requires
        nonce.len() == NONCE_LEN,
        ciphertext.len() == encode_utf8(text).len() + TAG_LEN,
        gcm_opened(master, nonce, ciphertext) == Some(encode_utf8(text)),
        forall|other: Seq<u8>|
            other.len() == ciphertext.len() && other != ciphertext && other.take(
                encode_utf8(text).len() as int,
            ) == ciphertext.take(encode_utf8(text).len() as int) ==> #[trigger] gcm_opened(
                master,
                nonce,
                other,
            ) is None,
    ensures
        holds(master, nonce + ciphertext, text),
{
    let blob = nonce + ciphertext;
    let n = NONCE_LEN as int;
    let body = encode_utf8(text).len() as int;
    assert(blob.take(n) =~= nonce);
    assert(blob.skip(n) =~= ciphertext);
    vstd::utf8::encode_utf8_valid_utf8(text);
    vstd::utf8::encode_utf8_decode_utf8(text);
    assert forall|other: Seq<u8>|
        other.len() == blob.len() && other != blob && other.take(blob.len() - TAG_LEN) == blob.take(
            blob.len() - TAG_LEN,
        ) implies #[trigger] opened(master, other) is Err by {
        let kept = blob.len() - TAG_LEN;
        assert forall|i: int| 0 <= i < kept implies other[i] == blob[i] by {
            assert(other.take(kept)[i] == blob.take(kept)[i]);
        }
        assert(other.take(n) =~= nonce);
        let rest = other.skip(n);
        assert(rest.take(body) =~= ciphertext.take(body));
        if rest == ciphertext {
            assert(other =~= nonce + rest);
        }
        assert(gcm_opened(master, nonce, rest) is None);
    }
}

/// The id of a plaintext key: `k-` and the first eight bytes of its SHA-256
/// digest, in hexadecimal.
pub open spec fn id_of(plaintext: Seq<char>) -> Seq<char> {
    "k-"@ + hex_text(sha256(encode_utf8(plaintext)).take(8))
}

/// Deterministic id for a plaintext key (idempotent seeding): if the builder
/// runs again after an application restart, the same key hashes to the same id
/// and no duplicate row is inserted.
pub fn deterministic_id(plaintext: &str) -> (r: String)
    ensures
        r@ == id_of(plaintext@),
        r@.len() == 18,
{
    let digest: Vec<u8> = sha256_digest(plaintext.as_bytes());
    let (head, _rest) = digest.as_slice().split_at(8);
    assert(head@ =~= digest@.take(8));
    proof {
        reveal_strlit("k-");
    }
    "k-".to_string().concat(hex_encode(head).as_str())
}

/// What is shown of a key: its first seven and its last four characters, and
/// nothing at all of a key of at most eight.
pub open spec fn censored(plaintext: Seq<char>) -> Seq<char> {
    if plaintext.len() <= 8 {
        "****"@
    } else {
        plaintext.take(7) + "..."@ + plaintext.skip(plaintext.len() - 4)
    }
}

/// Censors a key for UI display: `sk-proj...8f92`.
pub fn censor(plaintext: &str) -> (r: String)
    ensures
        r@ == censored(plaintext@),
{
    let chars: Vec<char> = chars_of(plaintext);
    if chars.len() <= 8 {
        return "****".to_string();
    }
    let prefix: String = string_of(&chars, 0, 7);
    let suffix: String = string_of(&chars, chars.len() - 4, chars.len());
    assert(chars@.subrange(0, 7) =~= chars@.take(7));
    assert(chars@.subrange(chars.len() - 4, chars.len() as int) =~= chars@.skip(chars.len() - 4));
    prefix.concat("...").concat(suffix.as_str())
}

/// The censored form gives nothing away but the ends of a key: keys with the
/// same ends look the same, however they differ in between and however long
/// they are, and all keys of at most eight characters look the same.
pub proof fn law_censoring_hides_the_middle(a: Seq<char>, b: Seq<char>)
    ensures
        a.len() <= 8 && b.len() <= 8 ==> censored(a) == censored(b),
        a.len() > 8 && b.len() > 8 && a.take(7) == b.take(7) && a.skip(a.len() - 4) == b.skip(
            b.len() - 4,
        ) ==> censored(a) == censored(b),
        censored(a).len() <= 14,
{
    reveal_strlit("****");
    reveal_strlit("...");
}

} // verus!
