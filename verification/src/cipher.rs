use vstd::prelude::*;

use aes_gcm::aead::{Aead, Generate, KeyInit};
use aes_gcm::Aes256Gcm;

use crate::errors::VaultError;

verus! {

/// Length of a symmetric key, in bytes.
pub const KEY_LEN: usize = 32;

/// Length of the random nonce drawn for every encryption, in bytes.
pub const NONCE_LEN: usize = 12;

/// Bytes an encrypted blob adds to its plaintext: the nonce and the tag.
pub const AEAD_OVERHEAD: usize = 28;

/// Longest plaintext the cipher accepts, in bytes.
pub const AEAD_PLAINTEXT_MAX: u64 = 68719476704;

/// Longest blob that can decrypt: `AEAD_PLAINTEXT_MAX` plus the overhead.
pub const AEAD_BLOB_MAX: u64 = 68719476732;

/// Smallest salt the key derivation accepts, in bytes.
pub const SALT_MIN: usize = 8;

/// Longest password or salt the key derivation accepts, in bytes.
pub const DERIVE_INPUT_MAX: u64 = 0xFFFF_FFFF;

/// The 32-byte key that the key derivation returns for a password and a salt.
/// It is a pure function of the two inputs.
pub uninterp spec fn derived_key(pwd: Seq<char>, salt: Seq<u8>) -> Seq<u8>;

/// What authenticated decryption of `blob` under `key` yields: the plaintext,
/// or `None` when the tag does not verify. Decryption is a pure function of
/// the key and the blob.
pub uninterp spec fn aead_decrypt(key: Seq<u8>, blob: Seq<u8>) -> Option<Seq<u8>>;

/// What decryption yields once the blob lengths the cipher refuses outright
/// are accounted for.
pub open spec fn aead_open_spec(key: Seq<u8>, blob: Seq<u8>) -> Option<Seq<u8>> {
    if blob.len() < NONCE_LEN || blob.len() > AEAD_BLOB_MAX {
        None
    } else {
        aead_decrypt(key, blob)
    }
}

/// Relies on `aes_gcm`'s key generation: a fresh 256-bit key from the
/// system's secure random source (it aborts if that source fails).
#[verifier::external_body]
pub fn rand_key() -> (r: Vec<u8>)
    ensures
        r@.len() == KEY_LEN,
{
    let key = aes_gcm::Key::<Aes256Gcm>::try_generate().expect("failed to generate aes key");
    key.to_vec()
}

/// Relies on `argon2`'s `hash_password_into` with the default parameters: a
/// memory-hard derivation whose 32-byte output depends on the password and
/// the salt alone.
#[verifier::external_body]
pub fn derive_key(master_password: &str, salt: &[u8]) -> (r: Vec<u8>)
    requires
        salt@.len() >= SALT_MIN,
        salt@.len() <= DERIVE_INPUT_MAX,
        vstd::utf8::encode_utf8(master_password@).len() <= DERIVE_INPUT_MAX,
    ensures
        r@ == derived_key(master_password@, salt@),
        r@.len() == KEY_LEN,
{
    let argon2 = argon2::Argon2::default();
    let mut key = [0u8; 32];
    argon2
        .hash_password_into(master_password.as_bytes(), salt, &mut key)
        .expect("failed to generate data key");
    key.to_vec()
}

/// Relies on `aes_gcm`'s AES-256-GCM: draws a fresh random 96-bit nonce,
/// encrypts and authenticates `plaintext` under `k`, and returns
/// nonce ‖ ciphertext ‖ tag as one blob. Decrypting the blob under the same
/// key yields the plaintext back.
#[verifier::external_body]
pub fn encrypt(k: &[u8], plaintext: &[u8]) -> (r: Vec<u8>)
    requires
        k@.len() == KEY_LEN,
        plaintext@.len() <= AEAD_PLAINTEXT_MAX,
    ensures
        r@.len() == plaintext@.len() + AEAD_OVERHEAD,
        aead_decrypt(k@, r@) == Some(plaintext@),
{
    let nonce = aes_gcm::aead::Nonce::<Aes256Gcm>::try_generate().expect("failed to generate nonce");
    let cipher = Aes256Gcm::new_from_slice(k).unwrap();
    let ciphered_data = cipher.encrypt(&nonce, plaintext).expect("failed to encrypt");
    let mut encrypted_data: Vec<u8> = nonce.to_vec();
    encrypted_data.extend_from_slice(&ciphered_data);
    encrypted_data
}

/// Relies on `aes_gcm`'s AES-256-GCM decryption: splits the first 12 bytes as
/// the nonce and authenticates and decrypts the remainder; `None` exactly
/// when the tag does not verify.
#[verifier::external_body]
fn aead_open(k: &[u8], blob: &[u8]) -> (r: Option<Vec<u8>>)
    requires
        k@.len() == KEY_LEN,
        blob@.len() >= NONCE_LEN,
        blob@.len() <= AEAD_BLOB_MAX,
    ensures
        match r {
            Some(p) => aead_decrypt(k@, blob@) == Some(p@) && p@.len() + AEAD_OVERHEAD
                == blob@.len(),
            None => aead_decrypt(k@, blob@) is None,
        },
{
    let (nonce_arr, ciphered_data) = blob.split_at(12);
    let nonce = aes_gcm::aead::Nonce::<Aes256Gcm>::try_from(nonce_arr).expect("failed to parse nonce");
    let cipher = Aes256Gcm::new_from_slice(k).unwrap();
    cipher.decrypt(&nonce, ciphered_data).ok()
}

/// Authenticated decryption of one blob under `k`. Fails with
/// `AuthenticationFailure` — returning no plaintext at all — when the blob is
/// shorter than a nonce, longer than the cipher allows, or does not verify
/// (wrong key, corrupted bytes, or tampering).
pub fn decrypt(k: &[u8], blob: &[u8]) -> (r: Result<Vec<u8>, VaultError>)
    requires
        k@.len() == KEY_LEN,
    ensures
        match r {
            Ok(p) => aead_open_spec(k@, blob@) == Some(p@) && p@.len() + AEAD_OVERHEAD
                == blob@.len(),
            Err(e) => e == VaultError::AuthenticationFailure && aead_open_spec(k@, blob@) is None,
        },
{
    if blob.len() < NONCE_LEN {
        return Err(VaultError::AuthenticationFailure);
    }
    if blob.len() as u64 > AEAD_BLOB_MAX {
        return Err(VaultError::AuthenticationFailure);
    }
    match aead_open(k, blob) {
        Some(p) => Ok(p),
        None => Err(VaultError::AuthenticationFailure),
    }
}

/// Law: decryption inverts encryption. Every blob `encrypt` can return for
/// `(k, m)` meets this lemma's hypotheses (they are `encrypt`'s contract), and
/// its conclusion is what `decrypt` returns `Ok(m)` for: so
/// `decrypt(k, encrypt(k, m))` yields `m`, the length guards never rejecting
/// an encryption's output.
pub proof fn lemma_decrypt_inverts_encrypt(k: Seq<u8>, m: Seq<u8>, blob: Seq<u8>)
    requires
        m.len() <= AEAD_PLAINTEXT_MAX,
        blob.len() == m.len() + AEAD_OVERHEAD,
        aead_decrypt(k, blob) == Some(m),
    ensures
        aead_open_spec(k, blob) == Some(m),
{
}

/// Relies on `chrono::Utc::now` for a wall-clock timestamp: seconds since the
/// Unix epoch, or zero for a clock set before it.
#[verifier::external_body]
pub(crate) fn now_seconds() -> (r: u64) {
    u64::try_from(chrono::Utc::now().timestamp()).unwrap_or(0)
}

} // verus!
