use ai_pool::crypto::master_key::{
    key_of_entry, keychain_failure, map_keyring_err, on_keychain_read, on_keychain_read_with,
    on_keychain_stored, KeychainRead, KeychainStep, Resolution,
};
use ai_pool::crypto::{censor, deterministic_id, Envelope, MasterKeyProvider};
use ai_pool::secret::{MasterKey, SecretString};
use ai_pool::VaultError;
use aes_gcm::aead::Aead;
use aes_gcm::{Aes256Gcm, KeyInit, Nonce};

fn env() -> Envelope {
    Envelope::new(MasterKey::new([7u8; 32]))
}

fn secret(text: &str) -> SecretString {
    SecretString::new(text.to_string())
}

fn resolved(provider: &MasterKeyProvider) -> MasterKey {
    match provider.resolve() {
        Resolution::Key(key) => key,
        Resolution::ReadKeychain => panic!("no keychain here"),
    }
}

#[test]
fn ephemeral_is_random() {
    let a = resolved(&MasterKeyProvider::Ephemeral);
    let b = resolved(&MasterKeyProvider::Ephemeral);
    assert_ne!(a.expose_secret(), b.expose_secret());
}

#[test]
fn custom_roundtrip() {
    let p = MasterKeyProvider::custom_from_slice(&[9u8; 32]).ok().unwrap();
    assert_eq!(resolved(&p).expose_secret(), &[9u8; 32]);
}

#[test]
fn custom_rejects_wrong_len() {
    assert!(matches!(
        MasterKeyProvider::custom_from_slice(&[1u8; 16]),
        Err(VaultError::InvalidMasterKey)
    ));
}

#[test]
fn roundtrip() {
    let e = env();
    let blob = e.seal(&secret("sk-test-123")).unwrap();
    let out = e.open(&blob).ok().unwrap();
    assert_eq!(out.expose_secret(), "sk-test-123");
}

#[test]
fn tamper_detected() {
    let e = env();
    let mut blob = e.seal(&secret("sk-test-123")).unwrap();
    let last = blob.len() - 1;
    blob[last] ^= 0xFF;
    assert!(matches!(e.open(&blob), Err(VaultError::Corrupted(_))));
}

#[test]
fn nonce_uniqueness() {
    let e = env();
    let a = e.seal(&secret("same")).unwrap();
    let b = e.seal(&secret("same")).unwrap();
    assert_ne!(a, b, "two seals of the same plaintext must differ");
}

#[test]
fn censor_formats() {
    assert_eq!(censor("sk-proj-abcdef8f92"), "sk-proj...8f92");
    assert_eq!(censor("short"), "****");
}

#[test]
fn deterministic_ids_stable() {
    assert_eq!(deterministic_id("key1"), deterministic_id("key1"));
    assert_ne!(deterministic_id("key1"), deterministic_id("key2"));
}

#[test]
fn sealing_under_a_given_nonce_is_reproducible() {
    let e = env();
    let nonce = [3u8; 12];
    let a = e.seal_with(&secret("sk-test-123"), &nonce).unwrap();
    let b = e.seal_with(&secret("sk-test-123"), &nonce).unwrap();
    assert_eq!(a, b);
    assert_eq!(&a[..12], &nonce);
    // nonce, message and tag
    assert_eq!(a.len(), 12 + 11 + 16);
    assert_ne!(&a[12..23], b"sk-test-123");
    assert_eq!(e.open(&a).ok().unwrap().expose_secret(), "sk-test-123");
}

#[test]
fn another_master_key_does_not_open() {
    let blob = env().seal(&secret("sk-test-123")).unwrap();
    let other = Envelope::new(MasterKey::new([8u8; 32]));
    assert!(matches!(other.open(&blob), Err(VaultError::Corrupted(_))));
}

#[test]
fn blobs_too_short_for_a_nonce_are_corrupted() {
    assert!(matches!(env().open(&[]), Err(VaultError::Corrupted(_))));
    assert!(matches!(env().open(&[1u8; 12]), Err(VaultError::Corrupted(_))));
    assert!(matches!(env().open(&[1u8; 13]), Err(VaultError::Corrupted(_))));
}

#[test]
fn empty_and_wide_texts_round_trip() {
    let e = env();
    for text in ["", "schlüssel-🔑"] {
        let blob = e.seal(&secret(text)).unwrap();
        assert_eq!(e.open(&blob).ok().unwrap().expose_secret(), text);
    }
}

#[test]
fn ids_are_the_head_of_the_digest() {
    // SHA-256 of "abc" starts with ba7816bf 8f01cfea.
    assert_eq!(deterministic_id("abc"), "k-ba7816bf8f01cfea");
    // SHA-256 of the empty text starts with e3b0c442 98fc1c14.
    assert_eq!(deterministic_id(""), "k-e3b0c44298fc1c14");
}

#[test]
fn censoring_counts_characters() {
    assert_eq!(censor("äöüäöüäöüäöü"), "äöüäöüä...üäöü");
    assert_eq!(censor("12345678"), "****");
    assert_eq!(censor("123456789"), "1234567...6789");
    assert_eq!(censor(""), "****");
}

#[test]
fn keychain_is_asked_for_only_where_it_is_the_source() {
    assert!(matches!(
        MasterKeyProvider::OsKeychain.resolve(),
        Resolution::ReadKeychain
    ));
}

#[test]
fn keychain_entries_are_hexadecimal_keys() {
    let entry = "0a".repeat(32);
    match on_keychain_read(KeychainRead::Found(entry.clone())) {
        KeychainStep::Key(key) => assert_eq!(key.expose_secret(), &[10u8; 32]),
        _ => panic!("a stored key is used as it is"),
    }
    assert_eq!(key_of_entry(&entry).ok().unwrap().expose_secret(), &[10u8; 32]);
    assert!(matches!(key_of_entry("zz"), Err(VaultError::Keychain(_))));
    match key_of_entry("0a0b") {
        Err(VaultError::Keychain(why)) => assert_eq!(why, "master key entry is not 32 bytes"),
        _ => panic!("two bytes are no key"),
    }
    // White space around the entry does not matter, nor does the case.
    let spaced = format!(" {}\n", "0A".repeat(32));
    assert_eq!(key_of_entry(&spaced).ok().unwrap().expose_secret(), &[10u8; 32]);
}

#[test]
fn first_run_stores_a_fresh_key_that_reads_back() {
    let fresh = MasterKey::new([0xABu8; 32]);
    match on_keychain_read_with(KeychainRead::NoEntry, fresh) {
        KeychainStep::Store { entry, key } => {
            assert_eq!(entry, "ab".repeat(32));
            assert_eq!(
                key_of_entry(&entry).ok().unwrap().expose_secret(),
                key.expose_secret()
            );
            assert!(on_keychain_stored(key, None).is_ok());
        }
        _ => panic!("a missing entry is created"),
    }
    let (a, b) = (
        on_keychain_read(KeychainRead::NoEntry),
        on_keychain_read(KeychainRead::NoEntry),
    );
    match (a, b) {
        (KeychainStep::Store { entry: a, .. }, KeychainStep::Store { entry: b, .. }) => {
            assert_ne!(a, b);
        }
        _ => panic!("a missing entry is created"),
    }
}

#[test]
fn locked_keychains_are_told_from_other_failures() {
    assert!(matches!(
        map_keyring_err("The Keychain is LOCKED"),
        VaultError::KeychainLocked
    ));
    match map_keyring_err("something else") {
        VaultError::Keychain(why) => assert_eq!(why, "something else"),
        other => panic!("unexpected {}", other.message()),
    }
    assert!(matches!(
        keychain_failure("The Keychain is LOCKED", "the keychain is locked"),
        VaultError::KeychainLocked
    ));
    assert!(matches!(
        on_keychain_read(KeychainRead::Failed("database locked".to_string())),
        KeychainStep::Fail(VaultError::KeychainLocked)
    ));
    let key = MasterKey::new([1u8; 32]);
    assert!(matches!(
        on_keychain_stored(key, Some("no such service".to_string())),
        Err(VaultError::Keychain(_))
    ));
}

#[test]
fn sealed_bytes_that_are_no_text_are_corrupted() {
    let cipher = Aes256Gcm::new_from_slice(&[7u8; 32]).unwrap();
    let nonce = [5u8; 12];
    let sealed = |message: &[u8]| {
        let mut blob = nonce.to_vec();
        blob.extend(cipher.encrypt(Nonce::from_slice(&nonce), message).unwrap());
        blob
    };
    assert_eq!(
        env().open(&sealed(b"sk-1")).ok().unwrap().expose_secret(),
        "sk-1"
    );
    match env().open(&sealed(&[0xFF, 0xFE])) {
        Err(VaultError::Corrupted(why)) => assert_eq!(why, "decrypted key is not valid UTF-8"),
        _ => panic!("two stray bytes are no text"),
    }
    match env().open(&[0u8; 27]) {
        Err(VaultError::Corrupted(why)) => assert_eq!(why, "blob too short"),
        _ => panic!("a nonce and a tag take 28 bytes"),
    }
    match env().open(&[0u8; 28]) {
        Err(VaultError::Corrupted(why)) => assert_eq!(why, "AES-GCM authentication failed"),
        _ => panic!("nobody sealed this"),
    }
}

#[test]
fn providers_do_not_show_their_keys() {
    let custom = MasterKeyProvider::custom_from_slice(&[9u8; 32]).ok().unwrap();
    assert_eq!(custom.shown(), "MasterKeyProvider::Custom(<redacted>)");
    assert_eq!(MasterKeyProvider::OsKeychain.shown(), "MasterKeyProvider::OsKeychain");
    assert_eq!(MasterKeyProvider::Ephemeral.shown(), "MasterKeyProvider::Ephemeral");
}
