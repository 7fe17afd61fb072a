//! A local secrets vault: an on-disk encrypted container protected by a
//! symmetric key that is derived from a key file, a user password, or a
//! freshly generated random key. This crate holds the vault's
//! key-management and persistence core: how key material is obtained and
//! derived, how the vault header (with its initialization vector) is built
//! and parsed, and how vault state is serialized for disk. File and console
//! I/O live outside the library, which works on plain byte buffers.

pub mod crypto;
pub mod errors;
pub mod keys;
pub mod manager;
pub mod source;
pub mod vault;

pub use errors::Error;
pub use keys::KeyMaterial;
pub use keys::KEY_COUNT;
pub use keys::KEY_LENGTH;
pub use manager::SecretsManager;
pub use source::KeySource;
pub use vault::Vault;
pub use vault::VaultEntry;
pub use vault::IV_SIZE;
