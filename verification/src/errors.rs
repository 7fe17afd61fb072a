use vstd::prelude::*;

verus! {

/// The failures that the vault's key-management and persistence layer can
/// report. Each variant names a distinct user-visible condition, so a caller
/// can tell a bad keyfile from a corrupted vault from a disk problem.
#[derive(Clone, Copy, Debug, PartialEq, Eq, Structural)]
pub enum Error {
    /// A filesystem operation failed (open, read, write or stat).
    Io,
    /// A key file or key buffer does not hold exactly
    /// `KEY_COUNT * KEY_LENGTH` bytes.
    InvalidKeyfile,
    /// Password-based key derivation was attempted against a vault that has
    /// no initialization vector yet.
    MissingVaultIV,
    /// The bytes given are not a well-formed vault: wrong magic, truncated
    /// field, or trailing garbage.
    VaultFormatError,
}

impl Error {
    /// A short human-readable description of the failure.
    pub fn message(&self) -> &'static str {
        match self {
            Error::Io => "I/O failure",
            Error::InvalidKeyfile => "invalid keyfile",
            Error::MissingVaultIV => "vault has no initialization vector",
            Error::VaultFormatError => "malformed vault",
        }
    }
}

} // verus!
