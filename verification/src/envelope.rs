use vstd::prelude::*;

use vstd::utf8::encode_utf8;

use crate::cipher::{
    aead_open_spec, decrypt, derive_key, derived_key, encrypt, rand_key, AEAD_OVERHEAD,
    DERIVE_INPUT_MAX, KEY_LEN,
};
use crate::errors::VaultError;

verus! {

/// Length of the random key-derivation salt, in bytes.
pub const SALT_LEN: usize = 32;

/// The unlocked data-encryption key of one vault, held for the life of the
/// session and never written to disk in the clear.
pub struct VaultSession {
    pub key: Vec<u8>,
}

impl VaultSession {
    pub open spec fn wf(&self) -> bool {
        self.key@.len() == KEY_LEN
    }
}

/// What unwrapping the data key under a password yields: the key, or
/// `AuthenticationFailure` when the wrap does not verify (a wrong password
/// and corrupted bytes are indistinguishable by design), or `CorruptData`
/// when the unwrapped value is not key-sized.
pub open spec fn unlock_spec(pwd: Seq<char>, salt: Seq<u8>, env_key: Seq<u8>) -> Result<
    Seq<u8>,
    VaultError,
> {
    match aead_open_spec(derived_key(pwd, salt), env_key) {
        Some(k) => if k.len() == KEY_LEN {
            Ok(k)
        } else {
            Err(VaultError::CorruptData)
        },
        None => Err(VaultError::AuthenticationFailure),
    }
}

/// Creates the envelope of a fresh vault: a random salt, a random data key,
/// and the data key wrapped under the password-derived key.
pub fn create(password: &str) -> (r: (Vec<u8>, Vec<u8>, VaultSession))
    requires
        encode_utf8(password@).len() <= DERIVE_INPUT_MAX,
    ensures
        r.0@.len() == SALT_LEN,
        r.1@.len() == KEY_LEN + AEAD_OVERHEAD,
        r.2.wf(),
        unlock_spec(password@, r.0@, r.1@) == Ok::<Seq<u8>, VaultError>(r.2.key@),
{
    let data_key = rand_key();
    let salt = rand_key();
    let kek = derive_key(password, salt.as_slice());
    let env_key = encrypt(kek.as_slice(), data_key.as_slice());
    (salt, env_key, VaultSession { key: data_key })
}

/// Re-derives the password key and unwraps the data key.
pub fn unlock(password: &str, salt: &[u8], env_key: &[u8]) -> (r: Result<
    VaultSession,
    VaultError,
>)
    requires
        salt@.len() >= crate::cipher::SALT_MIN,
        salt@.len() <= DERIVE_INPUT_MAX,
        encode_utf8(password@).len() <= DERIVE_INPUT_MAX,
    ensures
        match r {
            Ok(s) => s.wf() && unlock_spec(password@, salt@, env_key@) == Ok::<
                Seq<u8>,
                VaultError,
            >(s.key@),
            Err(e) => unlock_spec(password@, salt@, env_key@) == Err::<Seq<u8>, VaultError>(e),
        },
{
    let kek = derive_key(password, salt);
    match decrypt(kek.as_slice(), env_key) {
        Ok(k) => {
            if k.len() == KEY_LEN {
                Ok(VaultSession { key: k })
            } else {
                Err(VaultError::CorruptData)
            }
        },
        Err(e) => Err(e),
    }
}

} // verus!
