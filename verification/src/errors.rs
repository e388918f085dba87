//! The error taxonomy of the vault.

use vstd::prelude::*;

verus! {

/// What can go wrong while opening or saving a vault.
///
/// A wrong passphrase and a corrupted or tampered container are
/// indistinguishable by design: both fail authentication and surface as
/// `Decrypt`.
#[derive(Clone, Copy, Debug, PartialEq, Eq, Structural)]
pub enum PassmateError {
    /// The authenticated encryption primitive failed to seal the entry map.
    Encrypt,
    /// Authentication failed: wrong passphrase, or a corrupted or tampered
    /// container.
    Decrypt,
    /// The key-derivation primitive rejected its inputs.
    EncryptionKey,
    /// The entry map could not be serialized, or the decrypted plaintext did
    /// not deserialize into an entry map.
    Json,
    /// A filesystem failure other than a missing vault file.
    IO,
}

} // verus!
