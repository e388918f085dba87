//! A local secret store: named string entries persisted to a single file,
//! protected at rest by password-based authenticated encryption.
//!
//! The vault container owns an in-memory entry map; opening splits the stored
//! salt and nonce from the ciphertext, derives a key from the passphrase, and
//! decrypts, while saving re-derives a key under a fresh salt and re-encrypts
//! the whole map under a fresh nonce.

pub mod codec;
pub mod crypto;
pub mod errors;
pub mod model;
pub mod order;
pub mod vault;

pub use errors::PassmateError;
pub use vault::Vault;
