use pswd_store::auth::{authenticate, derive_key, set_new_password, to_hex, verification_digest};
use pswd_store::cfg::Cfg;
use pswd_store::cipher::{decrypt, encrypt};
use pswd_store::error::StoreError;

#[test]
fn cipher_round_trip_various_lengths() {
    let key = [7u8; 32];
    let iv = [9u8; 16];
    for len in [0usize, 1, 15, 16, 17, 31, 32, 100, 5000] {
        let data: Vec<u8> = (0..len).map(|i| (i * 31 % 251) as u8).collect();
        let c = encrypt(&data, &key, &iv);
        assert_eq!(c.len(), (len / 16 + 1) * 16);
        if len > 0 {
            assert_ne!(c[..len], data[..]);
        }
        assert_eq!(decrypt(&c, &key, &iv).unwrap(), data);
    }
}

#[test]
fn empty_plaintext_encrypts_to_one_padding_block() {
    let key = [7u8; 32];
    let iv = [9u8; 16];
    let c = encrypt(&[], &key, &iv);
    assert_eq!(c.len(), 16);
    assert!(decrypt(&c, &key, &iv).unwrap().is_empty());
    assert_eq!(decrypt(&c, &[8u8; 32], &iv).unwrap_err(), StoreError::DecryptionFailed);
}

#[test]
fn encryption_is_deterministic() {
    let key = [1u8; 32];
    let iv = [2u8; 16];
    assert_eq!(encrypt(b"same input", &key, &iv), encrypt(b"same input", &key, &iv));
}

#[test]
fn decrypt_rejects_empty_input_and_partial_blocks() {
    let key = [3u8; 32];
    let iv = [4u8; 16];
    assert_eq!(decrypt(&[], &key, &iv).unwrap_err(), StoreError::DecryptionFailed);
    assert_eq!(decrypt(&[0u8; 15], &key, &iv).unwrap_err(), StoreError::DecryptionFailed);
    let mut c = encrypt(b"hello", &key, &iv);
    c.pop();
    assert_eq!(decrypt(&c, &key, &iv).unwrap_err(), StoreError::DecryptionFailed);
}

#[test]
fn decrypt_under_wrong_key_fails_without_panicking() {
    let c = encrypt(b"a secret worth keeping", &[5u8; 32], &[6u8; 16]);
    let r = decrypt(&c, &[8u8; 32], &[6u8; 16]);
    assert_eq!(r.unwrap_err(), StoreError::DecryptionFailed);
}

#[test]
fn hex_is_lower_case_two_digits_per_byte() {
    assert_eq!(to_hex(&[0x00, 0xab, 0x1f, 0xff, 0x90]), "00ab1fff90");
    assert_eq!(to_hex(&[]), "");
}

#[test]
fn key_is_sha3_256_of_password_and_iv_its_prefix() {
    let k = derive_key("");
    assert_eq!(
        to_hex(&k.key),
        "a7ffc6f8bf1ed76651c14756a061d662f580ff4de43b49fa82d80a4b80f8434a"
    );
    assert_eq!(k.iv[..], k.key[..16]);
    let abc = derive_key("abc");
    assert_eq!(
        to_hex(&abc.key),
        "3a985da74fe225b2045c172d6bd390bd855f086e3e9d525b46bfe24511431532"
    );
}

#[test]
fn digest_is_hex_of_hash_of_key() {
    let k = derive_key("pw");
    let d = verification_digest(&k.key);
    assert_eq!(d.len(), 64);
    assert_eq!(d.chars().count(), 64);
    assert!(d.chars().all(|c| c.is_ascii_hexdigit() && !c.is_ascii_uppercase()));
    assert_ne!(d, to_hex(&k.key));
}

#[test]
fn new_password_then_authenticate() {
    let mut cfg = Cfg::new("records.bin".to_string());
    let k = set_new_password(&mut cfg, &"hunter2".to_string(), &"hunter2".to_string()).unwrap();
    assert_eq!(cfg.record_pth, "records.bin");
    assert_eq!(cfg.pswd, verification_digest(&k.key));
    let again = authenticate(&cfg, "hunter2").unwrap();
    assert_eq!(again.key, k.key);
    assert_eq!(again.iv, k.iv);
    assert_eq!(authenticate(&cfg, "hunter3").unwrap_err(), StoreError::AuthenticationFailed);
}

#[test]
fn mismatched_new_password_changes_nothing() {
    let mut cfg = Cfg::new("r".to_string());
    let r = set_new_password(&mut cfg, &"one".to_string(), &"two".to_string());
    assert_eq!(r.err(), Some(StoreError::PasswordMismatch));
    assert_eq!(cfg.pswd, "");
    assert_eq!(cfg.record_pth, "r");
}
