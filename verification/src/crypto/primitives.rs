//! The functions of other crates, and of the standard library, that sealing
//! and naming keys rest on. Each is called as it is, and its contract says
//! what is relied upon.

use vstd::prelude::*;
use vstd::utf8::{decode_utf8, encode_utf8, valid_utf8};

use aes_gcm::aead::Aead;
use aes_gcm::{Aes256Gcm, KeyInit, Nonce};
use rand::RngCore;
use sha2::{Digest, Sha256};

verus! {

/// Length of an AES-GCM nonce.
pub const NONCE_LEN: usize = 12;

/// Length of an AES-GCM authentication tag.
pub const TAG_LEN: usize = 16;

/// The longest message that AES-GCM seals.
pub const MAX_MESSAGE: u64 = 0x10_0000_0000;

/// The ciphertext and tag that AES-256-GCM makes of a message, under a key and
/// a nonce and without associated data.
pub uninterp spec fn gcm_sealed(key: Seq<u8>, nonce: Seq<u8>, message: Seq<u8>) -> Seq<u8>;

/// The message that AES-256-GCM opens a ciphertext and tag to, if the tag is
/// authentic.
pub uninterp spec fn gcm_opened(key: Seq<u8>, nonce: Seq<u8>, sealed: Seq<u8>) -> Option<Seq<u8>>;

/// `aes_gcm::Aes256Gcm`'s `encrypt`: it seals every message of at most
/// `MAX_MESSAGE` bytes. The result is as long as the message and a tag; opened
/// under the same key and nonce it gives the message back; and no other tag
/// behind the same ciphertext is accepted, since the tag is recomputed and
/// compared.
#[verifier::external_body]
pub(crate) fn gcm_encrypt(key: &[u8], nonce: &[u8], message: &[u8]) -> (r: Option<Vec<u8>>)
    requires
        key@.len() == 32,
        nonce@.len() == NONCE_LEN,
        message@.len() <= MAX_MESSAGE,
    ensures
        r is Some,
        r->0@ == gcm_sealed(key@, nonce@, message@),
        r->0@.len() == message@.len() + TAG_LEN,
        gcm_opened(key@, nonce@, r->0@) == Some(message@),
        forall|other: Seq<u8>|
            other.len() == r->0@.len() && other != r->0@ && other.take(message@.len() as int)
                == r->0@.take(message@.len() as int) ==> #[trigger] gcm_opened(
                key@,
                nonce@,
                other,
            ) is None,
{
    let cipher = Aes256Gcm::new_from_slice(key).ok()?;
    cipher.encrypt(Nonce::from_slice(nonce), message).ok()
}

/// `aes_gcm::Aes256Gcm`'s `decrypt`: the message, where the tag is authentic.
/// Nothing shorter than a tag opens, and what opens is shorter by a tag.
#[verifier::external_body]
pub(crate) fn gcm_decrypt(key: &[u8], nonce: &[u8], sealed: &[u8]) -> (r: Option<Vec<u8>>)
    requires
        key@.len() == 32,
        nonce@.len() == NONCE_LEN,
    ensures
        r is Some <==> gcm_opened(key@, nonce@, sealed@) is Some,
        r matches Some(message) ==> gcm_opened(key@, nonce@, sealed@) == Some(message@),
        r matches Some(message) ==> message@.len() + TAG_LEN == sealed@.len(),
{
    let cipher = Aes256Gcm::new_from_slice(key).ok()?;
    cipher.decrypt(Nonce::from_slice(nonce), sealed).ok()
}

/// The SHA-256 digest of some bytes.
pub uninterp spec fn sha256(data: Seq<u8>) -> Seq<u8>;

/// `sha2::Sha256`'s `digest`: 32 bytes.
#[verifier::external_body]
pub(crate) fn sha256_digest(data: &[u8]) -> (r: Vec<u8>)
    ensures
        r@ == sha256(data@),
        r@.len() == 32,
{
    Sha256::digest(data).to_vec()
}

/// The lower-case hexadecimal digit of `n < 16`.
pub open spec fn hex_digit(n: int) -> char {
    if n < 10 {
        (('0' as u32) + n) as char
    } else {
        (('a' as u32) + (n - 10)) as char
    }
}

/// Two lower-case hexadecimal digits per byte, the high half first.
pub open spec fn hex_text(bytes: Seq<u8>) -> Seq<char> {
    Seq::new(
        2 * bytes.len(),
        |i: int|
            hex_digit(
                if i % 2 == 0 {
                    bytes[i / 2] as int / 16
                } else {
                    bytes[i / 2] as int % 16
                },
            ),
    )
}

/// The value of a hexadecimal digit of either case, given as an ASCII byte.
pub open spec fn hex_value(c: u8) -> Option<u8> {
    if 0x30 <= c <= 0x39 {
        Some((c - 0x30) as u8)
    } else if 0x41 <= c <= 0x46 {
        Some((c - 0x41 + 10) as u8)
    } else if 0x61 <= c <= 0x66 {
        Some((c - 0x61 + 10) as u8)
    } else {
        None
    }
}

/// Whether `text` is an even number of hexadecimal digits.
pub open spec fn is_hex(text: Seq<u8>) -> bool {
    &&& text.len() % 2 == 0
    &&& forall|i: int| 0 <= i < text.len() ==> hex_value(#[trigger] text[i]) is Some
}

/// The bytes that hexadecimal digits stand for.
pub open spec fn hex_bytes(text: Seq<u8>) -> Seq<u8> {
    Seq::new(
        text.len() / 2,
        |i: int| (hex_value(text[2 * i])->0 * 16 + hex_value(text[2 * i + 1])->0) as u8,
    )
}

/// `hex::encode`.
#[verifier::external_body]
pub(crate) fn hex_encode(bytes: &[u8]) -> (r: String)
    ensures
        r@ == hex_text(bytes@),
{
    hex::encode(bytes)
}

/// `hex::decode`: the bytes, where the text is an even number of digits.
#[verifier::external_body]
pub(crate) fn hex_decode(text: &str) -> (r: Option<Vec<u8>>)
    ensures
        r is Some <==> is_hex(encode_utf8(text@)),
        r matches Some(bytes) ==> bytes@ == hex_bytes(encode_utf8(text@)),
{
    hex::decode(text).ok()
}

/// `rand::rng().fill_bytes`: as many bytes as asked for, at random.
#[verifier::external_body]
pub(crate) fn random_bytes(count: usize) -> (r: Vec<u8>)
    ensures
        r@.len() == count,
{
    let mut bytes = vec![0u8; count];
    rand::rng().fill_bytes(&mut bytes);
    bytes
}

/// `rand::random`: any number.
#[verifier::external_body]
pub(crate) fn random_number() -> (r: u64) {
    rand::random::<u64>()
}

/// `String::from_utf8`: the text, where the bytes are valid UTF-8.
#[verifier::external_body]
pub(crate) fn utf8_text(bytes: Vec<u8>) -> (r: Option<String>)
    ensures
        r is Some <==> valid_utf8(bytes@),
        r matches Some(text) ==> encode_utf8(text@) == bytes@,
{
    String::from_utf8(bytes).ok()
}

/// Bytes as text, with whatever is not UTF-8 replaced.
pub uninterp spec fn lossy_text(bytes: Seq<u8>) -> Seq<char>;

/// `String::from_utf8_lossy`: valid UTF-8 is kept as it is.
#[verifier::external_body]
pub(crate) fn text_lossy(bytes: &[u8]) -> (r: String)
    ensures
        r@ == lossy_text(bytes@),
        valid_utf8(bytes@) ==> r@ == decode_utf8(bytes@),
{
    String::from_utf8_lossy(bytes).into_owned()
}

/// Text in lower case.
pub uninterp spec fn lower_case(text: Seq<char>) -> Seq<char>;

/// `str::to_lowercase`.
#[verifier::external_body]
pub(crate) fn to_lower(text: &str) -> (r: String)
    ensures
        r@ == lower_case(text@),
{
    text.to_lowercase()
}

} // verus!
