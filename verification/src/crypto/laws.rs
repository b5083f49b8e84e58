//! What holds of ids, censored forms, blobs and keychain entries.

use vstd::prelude::*;
use vstd::utf8::{decode_utf8, encode_utf8, valid_utf8};

use super::master_key::{entry_digits, entry_key, locked_message};
use super::primitives::{
    gcm_opened, gcm_sealed, hex_bytes, hex_text, hex_value, is_hex, sha256, NONCE_LEN, TAG_LEN,
};
use super::{censored, holds, id_of, opened, sealed};
use crate::text::{occurs_in, trimmed};

verus! {

/// A key of at most eight characters is shown as four asterisks, whatever it is.
/// Of a longer one the first seven characters and the last four are shown, with
/// three dots between, and nothing else.
pub proof fn law_censored_form(text: Seq<char>, i: int)
    ensures
        text.len() <= 8 ==> censored(text).len() == 4 && (0 <= i < 4 ==> censored(text)[i] == '*'),
        text.len() > 8 ==> {
            let shown = censored(text);
            &&& shown.len() == 14
            &&& 0 <= i < 7 ==> shown[i] == text[i]
            &&& 7 <= i < 10 ==> shown[i] == '.'
            &&& 10 <= i < 14 ==> shown[i] == text[text.len() - 14 + i]
        },
{
    reveal_strlit("****");
    reveal_strlit("...");
}

/// A byte is written as two lower-case hexadecimal digits, the high one first.
pub proof fn law_hex_digits(bytes: Seq<u8>, i: int)
    requires
        0 <= i < bytes.len(),
    ensures
        hex_text(bytes).len() == 2 * bytes.len(),
        ({
            let (high, low) = (bytes[i] / 16, bytes[i] % 16);
            &&& hex_text(bytes)[2 * i] as u32 == (if high < 10 {
                48 + high
            } else {
                87 + high
            })
            &&& hex_text(bytes)[2 * i + 1] as u32 == (if low < 10 {
                48 + low
            } else {
                87 + low
            })
        }),
{
    assert((2 * i) % 2 == 0 && (2 * i) / 2 == i);
    assert((2 * i + 1) % 2 == 1 && (2 * i + 1) / 2 == i);
}

/// Digits of either case are read, and nothing else is; two of them make a byte,
/// the high one first.
pub proof fn law_hex_is_read(text: Seq<u8>, c: u8, i: int)
    ensures
        hex_value(c) is Some <==> (48 <= c <= 57 || 65 <= c <= 70 || 97 <= c <= 102),
        48 <= c <= 57 ==> hex_value(c) == Some((c - 48) as u8),
        65 <= c <= 70 ==> hex_value(c) == Some((c - 55) as u8),
        97 <= c <= 102 ==> hex_value(c) == Some((c - 87) as u8),
        is_hex(text) <==> (text.len() % 2 == 0 && forall|k: int|
            0 <= k < text.len() ==> hex_value(#[trigger] text[k]) is Some),
        hex_bytes(text).len() == text.len() / 2,
        is_hex(text) && 0 <= i < text.len() / 2 ==> hex_bytes(text)[i] == hex_value(text[2 * i])->0
            * 16 + hex_value(text[2 * i + 1])->0,
{
    if is_hex(text) && 0 <= i < text.len() / 2 {
        assert(hex_value(text[2 * i]) is Some);
        assert(hex_value(text[2 * i + 1]) is Some);
        assert(hex_value(text[2 * i])->0 < 16 && hex_value(text[2 * i + 1])->0 < 16);
    }
}

/// An id is `k-` and the first eight bytes of the digest of the key, in
/// hexadecimal: equal keys have equal ids, and keys whose digests begin
/// differently have different ones.
pub proof fn law_ids_follow_the_digest(a: Seq<char>, b: Seq<char>)
    requires
        sha256(encode_utf8(a)).len() == 32,
        sha256(encode_utf8(b)).len() == 32,
    ensures
        id_of(a).len() == 18,
        id_of(a)[0] == 'k',
        id_of(a)[1] == '-',
        id_of(a).skip(2) == hex_text(sha256(encode_utf8(a)).take(8)),
        id_of(a) == id_of(b) <==> sha256(encode_utf8(a)).take(8) == sha256(encode_utf8(b)).take(8),
{
    reveal_strlit("k-");
    let x = sha256(encode_utf8(a)).take(8);
    let y = sha256(encode_utf8(b)).take(8);
    assert(id_of(a).skip(2) =~= hex_text(x));
    if id_of(a) == id_of(b) {
        assert(id_of(b).skip(2) =~= hex_text(y));
        assert forall|i: int| 0 <= i < 8 implies x[i] == y[i] by {
            law_hex_digits(x, i);
            law_hex_digits(y, i);
            assert(hex_text(x)[2 * i] == hex_text(y)[2 * i]);
            assert(hex_text(x)[2 * i + 1] == hex_text(y)[2 * i + 1]);
            assert(x[i] == (x[i] / 16) * 16 + x[i] % 16);
            assert(y[i] == (y[i] / 16) * 16 + y[i] % 16);
        }
        assert(x =~= y);
    }
}

/// A blob is its nonce, and then the ciphertext of the text's UTF-8 under that
/// nonce.
pub proof fn law_blob_layout(master: Seq<u8>, nonce: Seq<u8>, text: Seq<char>)
    requires
        nonce.len() == 12,
    ensures
        sealed(master, nonce, text).len() >= 12,
        sealed(master, nonce, text).take(12) == nonce,
        sealed(master, nonce, text).skip(12) == gcm_sealed(master, nonce, encode_utf8(text)),
{
    let blob = sealed(master, nonce, text);
    assert(blob.take(12) =~= nonce);
    assert(blob.skip(12) =~= gcm_sealed(master, nonce, encode_utf8(text)));
}

/// A blob is opened by taking it apart again: one that is too short for a nonce
/// and a tag, that does not authenticate, or that holds no UTF-8 is refused, each
/// for its own reason.
pub proof fn law_opening_a_blob(master: Seq<u8>, blob: Seq<u8>)
    ensures
        blob.len() < 28 ==> opened(master, blob) == Err::<Seq<char>, Seq<char>>("blob too short"@),
        blob.len() >= 28 ==> {
            let inner = gcm_opened(master, blob.take(12), blob.skip(12));
            &&& inner is None ==> opened(master, blob) == Err::<Seq<char>, Seq<char>>(
                "AES-GCM authentication failed"@,
            )
            &&& inner is Some && valid_utf8(inner->0) ==> opened(master, blob) == Ok::<
                Seq<char>,
                Seq<char>,
            >(decode_utf8(inner->0))
            &&& inner is Some && !valid_utf8(inner->0) ==> opened(master, blob) == Err::<
                Seq<char>,
                Seq<char>,
            >("decrypted key is not valid UTF-8"@)
        },
        NONCE_LEN == 12,
        TAG_LEN == 16,
{
}

/// A blob that holds a text opens to it, and no blob that differs in nothing but
/// its tag opens at all.
pub proof fn law_tag_is_held(master: Seq<u8>, blob: Seq<u8>, text: Seq<char>, other: Seq<u8>)
    requires
        holds(master, blob, text),
    ensures
        opened(master, blob) == Ok::<Seq<char>, Seq<char>>(text),
        other.len() == blob.len() && other != blob && other.take(blob.len() - 16) == blob.take(
            blob.len() - 16,
        ) ==> opened(master, other) is Err,
{
}

/// A keychain that says anywhere that it is locked, that access was denied or
/// that it would have to interact is locked, and no other is.
pub proof fn law_locked_messages(before: Seq<char>, after: Seq<char>, message: Seq<char>)
    ensures
        locked_message(before + "lock"@ + after),
        locked_message(before + "denied"@ + after),
        locked_message(before + "interaction"@ + after),
        !occurs_in(message, "lock"@) && !occurs_in(message, "denied"@) && !occurs_in(
            message,
            "interaction"@,
        ) ==> !locked_message(message),
{
    crate::text_laws::law_parts_of_a_text(before, "lock"@, after);
    crate::text_laws::law_parts_of_a_text(before, "denied"@, after);
    crate::text_laws::law_parts_of_a_text(before, "interaction"@, after);
}

/// An entry gives a master key exactly where it is sixty-four hexadecimal
/// digits, white space around them aside; the key is what they stand for. Any
/// other entry is refused: for its digits, or for their number.
pub proof fn law_keychain_entry(entry: Seq<char>)
    ensures
        ({
            let digits = encode_utf8(trimmed(entry));
            &&& entry_key(entry) is Ok <==> is_hex(digits) && digits.len() == 64
            &&& entry_key(entry) is Ok ==> entry_key(entry)->Ok_0 == hex_bytes(digits)
                && entry_key(entry)->Ok_0.len() == 32
            &&& !is_hex(digits) ==> entry_key(entry) == Err::<Seq<u8>, Seq<char>>(
                "master key entry is not valid hex"@,
            )
            &&& is_hex(digits) && digits.len() != 64 ==> entry_key(entry) == Err::<
                Seq<u8>,
                Seq<char>,
            >("master key entry is not 32 bytes"@)
            &&& entry_digits(entry) == digits
        }),
{
}

} // verus!
