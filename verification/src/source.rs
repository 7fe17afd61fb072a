use vstd::prelude::*;
use crate::crypto::derive_password_keys;
use crate::crypto::fill_random;
use crate::crypto::pbkdf2_sha1;
use crate::crypto::PBKDF2_ROUNDS;
use crate::errors::Error;
use crate::keys::spec_import;
use crate::keys::KeyMaterial;
use crate::keys::KEY_COUNT;
use crate::keys::KEY_LENGTH;
use crate::vault::iv_view;
use crate::vault::IV_SIZE;

verus! {

/// Where encryption/decryption keys should be obtained from. A value is
/// consumed once, by key resolution; it is never stored.
pub enum KeySource {
    /// Use the raw contents of a binary key file, as read from disk by the
    /// caller.
    File(Vec<u8>),
    /// Derive keys from the given password, salted with the vault's IV.
    Password(String),
    /// Generate new keys from a cryptographically secure RNG.
    Generate,
}

/// The machine limit on a password: its UTF-8 form must fit the derivation
/// primitive's 31-bit length argument. Every realistic password does.
pub open spec fn source_fits(ks: KeySource) -> bool {
    match ks {
        KeySource::Password(p) => vstd::utf8::encode_utf8(p@).len() <= 0x7fff_ffff,
        _ => true,
    }
}

/// How resolved key material relates to its source and the vault IV it was
/// resolved against: a file source yields the file's bytes; a password
/// source yields the PBKDF2 derivation salted with the IV, which must be
/// present; generation yields some buffer of the right length, and nothing
/// more is promised of random keys.
pub open spec fn spec_resolves(ks: KeySource, iv: Option<Seq<u8>>, keys: Seq<u8>) -> bool {
    match ks {
        KeySource::File(data) => spec_import(data@) == Some(keys),
        KeySource::Password(p) => iv is Some && keys == pbkdf2_sha1(
            vstd::utf8::encode_utf8(p@),
            iv.unwrap(),
            PBKDF2_ROUNDS as int,
            (KEY_COUNT * KEY_LENGTH) as int,
        ),
        KeySource::Generate => keys.len() == KEY_COUNT * KEY_LENGTH,
    }
}

impl KeySource {
    /// Resolves this source to key material against the given vault IV.
    /// A file source succeeds exactly when the file holds
    /// `KEY_COUNT * KEY_LENGTH` bytes, failing with `InvalidKeyfile`
    /// otherwise; a password source succeeds exactly when the IV is
    /// present, failing with `MissingVaultIV` otherwise; generation always
    /// succeeds.
    pub fn extract_keys(&self, iv: &Option<Vec<u8>>) -> (r: Result<KeyMaterial, Error>)
        requires
            source_fits(*self),
            iv_view(*iv) matches Some(s) ==> s.len() == IV_SIZE,
        ensures
            match r {
                Ok(k) => k.wf() && spec_resolves(*self, iv_view(*iv), k@),
                Err(e) => match *self {
                    KeySource::File(data) => e == Error::InvalidKeyfile && data@.len()
                        != KEY_COUNT * KEY_LENGTH,
                    KeySource::Password(_) => e == Error::MissingVaultIV && iv_view(
                        *iv,
                    ) is None,
                    KeySource::Generate => false,
                },
            },
    {
        match self {
            KeySource::Generate => {
                let buffer = fill_random(KEY_COUNT * KEY_LENGTH);
                KeyMaterial::import(&buffer)
            },
            KeySource::File(data) => KeyMaterial::import(data),
            KeySource::Password(password) => {
                match iv {
                    None => Err(Error::MissingVaultIV),
                    Some(iv_bytes) => {
                        let key_data = derive_password_keys(password.as_str(), iv_bytes);
                        KeyMaterial::import(&key_data)
                    },
                }
            },
        }
    }
}

/// Determinism of password-based derivation: resolving the same password
/// against the same vault IV always yields the same key material.
pub proof fn lemma_password_derivation_deterministic(
    ks: KeySource,
    iv: Option<Seq<u8>>,
    k1: Seq<u8>,
    k2: Seq<u8>,
)
    requires
        ks is Password,
        spec_resolves(ks, iv, k1),
        spec_resolves(ks, iv, k2),
    ensures
        k1 == k2,
{
}

/// Determinism of file-based resolution: a key file's bytes pin the key
/// material exactly, whatever vault it is resolved against.
pub proof fn lemma_file_resolution_deterministic(
    ks: KeySource,
    iv1: Option<Seq<u8>>,
    iv2: Option<Seq<u8>>,
    k1: Seq<u8>,
    k2: Seq<u8>,
)
    requires
        ks is File,
        spec_resolves(ks, iv1, k1),
        spec_resolves(ks, iv2, k2),
    ensures
        k1 == k2,
{
}

} // verus!
