use vstd::prelude::*;

verus! {

/// Every failure that the vault core reports to its caller.
#[derive(Debug, Clone, Copy, PartialEq, Eq, Structural)]
pub enum VaultError {
    /// An empty label or passphrase, or a label that the record format cannot hold.
    InvalidInput,
    /// The authentication tag did not verify: wrong key, or damaged or truncated data.
    AuthenticationFailure,
    /// A stored record could not be parsed.
    StorageCorruption,
    /// Reading or writing the backing file failed.
    StorageError,
    /// The key derivation parameters were rejected.
    KeyDerivationError,
    /// The operation needs an unlocked session.
    Locked,
}

} // verus!
