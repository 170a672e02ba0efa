use myvault::cipher::{decrypt, derive_key, encrypt, rand_key};
use myvault::errors::VaultError;

#[test]
fn df_time() {
    derive_key("my-password", b"salt-3434223403240");
    assert_eq!(2 + 2, 4);
}

#[test]
fn encrypt_then_decrypt_round_trips() {
    let key = rand_key();
    let msg = b"attack at dawn".to_vec();
    let blob = encrypt(&key, &msg);
    assert_eq!(blob.len(), msg.len() + 28);
    assert_eq!(decrypt(&key, &blob), Ok(msg));
}

#[test]
fn encrypt_twice_never_repeats() {
    let key = rand_key();
    let msg = b"same message".to_vec();
    let a = encrypt(&key, &msg);
    let b = encrypt(&key, &msg);
    assert_ne!(a, b);
}

#[test]
fn encrypt_does_not_echo_plaintext() {
    let key = rand_key();
    let msg = b"plain".to_vec();
    let blob = encrypt(&key, &msg);
    assert_ne!(blob, msg);
    assert!(!blob.windows(msg.len()).any(|w| w == &msg[..]));
}

#[test]
fn decrypt_wrong_key_fails() {
    let key = rand_key();
    let other = rand_key();
    assert_ne!(key, other);
    let blob = encrypt(&key, b"secret");
    assert_eq!(decrypt(&other, &blob), Err(VaultError::AuthenticationFailure));
}

#[test]
fn decrypt_any_corrupted_byte_fails() {
    let key = rand_key();
    let blob = encrypt(&key, b"integrity matters");
    for i in 0..blob.len() {
        let mut bad = blob.clone();
        bad[i] ^= 0x01;
        assert_eq!(decrypt(&key, &bad), Err(VaultError::AuthenticationFailure));
    }
}

#[test]
fn decrypt_short_blob_fails() {
    let key = rand_key();
    assert_eq!(decrypt(&key, &[]), Err(VaultError::AuthenticationFailure));
    assert_eq!(decrypt(&key, &[0u8; 11]), Err(VaultError::AuthenticationFailure));
}

#[test]
fn derive_is_deterministic() {
    let a = derive_key("master", b"salt-salt-salt-salt");
    let b = derive_key("master", b"salt-salt-salt-salt");
    assert_eq!(a, b);
    assert_eq!(a.len(), 32);
}

#[test]
fn derive_depends_on_salt() {
    let a = derive_key("master", b"salt-number-one!");
    let b = derive_key("master", b"salt-number-two!");
    assert_ne!(a, b);
}

#[test]
fn derive_does_not_echo_password() {
    let key = derive_key("master-password-0123456789abcdef", b"some-salt-bytes!");
    assert_ne!(&key[..], "master-password-0123456789abcdef".as_bytes());
}
