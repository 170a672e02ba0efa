//! A local, single-user secrets vault.
//!
//! The vault is one binary file: a fixed-width header holding a salt and the
//! wrapped data key, followed by the authenticated encryption of the entry
//! list. A master password unlocks the data key (envelope encryption); the
//! data key encrypts every secret.

pub mod cipher;
pub mod codec;
pub mod envelope;
pub mod errors;
pub mod file;
pub mod model;
