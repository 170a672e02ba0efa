use vstd::prelude::*;

verus! {

/// Error taxonomy of the vault.
#[derive(Debug, PartialEq, Eq, Structural, Clone, Copy)]
pub enum VaultError {
    /// Invalid entry index or duplicate key name: recoverable, the caller continues.
    UserInputError,
    /// Wrong password, or tampered/corrupted ciphertext: the operation aborts.
    AuthenticationFailure,
    /// Malformed header or body structure: the load aborts.
    CorruptData,
    /// File shorter than the fixed header width.
    TooShort,
    /// Disk read or write error, mapped by the surrounding program.
    IoFailure,
}

} // verus!
