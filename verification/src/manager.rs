use vstd::prelude::*;
use crate::errors::Error;
use crate::keys::spec_export;
use crate::keys::KeyMaterial;
use crate::keys::KEY_COUNT;
use crate::keys::KEY_LENGTH;
use crate::source::source_fits;
use crate::source::spec_resolves;
use crate::source::KeySource;
use crate::vault::model_wf;
use crate::vault::spec_parse;
use crate::vault::spec_serialize;
use crate::vault::Vault;
use crate::vault::VaultModel;
use crate::vault::IV_SIZE;

verus! {

/// Mathematical model of a secrets manager: its vault, the path it is
/// bound to, and its resolved key material.
#[verifier::ext_equal]
pub ghost struct ManagerModel {
    pub vault: VaultModel,
    pub path: Seq<char>,
    pub keys: Seq<u8>,
}

/// The primary interface for a secrets store: a vault, the path it came
/// from or will be saved to, and the key material resolved for it. The key
/// material is resolved once, at construction, and never mutated.
pub struct SecretsManager {
    vault: Vault,
    path: String,
    keys: KeyMaterial,
}

impl View for SecretsManager {
    type V = ManagerModel;

    closed spec fn view(&self) -> ManagerModel {
        ManagerModel { vault: self.vault@, path: self.path@, keys: self.keys@ }
    }
}

impl SecretsManager {
    /// A well-formed manager: its vault is well formed and already has its
    /// IV, and its key material is complete.
    pub open spec fn wf(&self) -> bool {
        &&& model_wf(self@.vault)
        &&& self@.vault.iv is Some
        &&& self@.keys.len() == KEY_COUNT * KEY_LENGTH
    }

    /// Creates a manager over a fresh empty vault with a newly generated
    /// IV, resolving `key_source` against that IV, and binds `path` for
    /// later saves. Nothing is written anywhere. Fails only for a file
    /// source of the wrong length, with `InvalidKeyfile`; a password
    /// source always finds the fresh IV present.
    pub fn new(path: String, key_source: KeySource) -> (r: Result<SecretsManager, Error>)
        requires
            source_fits(key_source),
        ensures
            match r {
                Ok(m) => m.wf() && m@.path == path@ && m@.vault.entries.len() == 0
                    && m@.vault.iv.unwrap().len() == IV_SIZE && spec_resolves(
                    key_source,
                    m@.vault.iv,
                    m@.keys,
                ),
                Err(e) => match key_source {
                    KeySource::File(data) => e == Error::InvalidKeyfile && data@.len()
                        != KEY_COUNT * KEY_LENGTH,
                    KeySource::Password(_) => false,
                    KeySource::Generate => false,
                },
            },
    {
        let vault = Vault::new();
        let keys = match key_source.extract_keys(&vault.iv) {
            Ok(k) => k,
            Err(e) => {
                return Err(e);
            },
        };
        Ok(SecretsManager { vault, path, keys })
    }

    /// Creates a manager over an existing vault, parsed from the bytes
    /// read from `path`, resolving `key_source` against the vault's stored
    /// IV. Fails with `VaultFormatError` exactly when the bytes are not a
    /// well-formed vault, and otherwise only for a file source of the
    /// wrong length, with `InvalidKeyfile`; a password source always finds
    /// the stored IV present.
    pub fn load(path: String, data: &Vec<u8>, key_source: KeySource) -> (r: Result<
        SecretsManager,
        Error,
    >)
        requires
            source_fits(key_source),
        ensures
            match r {
                Ok(m) => m.wf() && m@.path == path@ && spec_parse(data@) == Some(m@.vault)
                    && spec_resolves(key_source, m@.vault.iv, m@.keys),
                Err(e) => match key_source {
                    KeySource::File(fdata) => (e == Error::VaultFormatError && spec_parse(
                        data@,
                    ) is None) || (e == Error::InvalidKeyfile && spec_parse(data@) is Some
                        && fdata@.len() != KEY_COUNT * KEY_LENGTH),
                    KeySource::Password(_) => e == Error::VaultFormatError && spec_parse(
                        data@,
                    ) is None,
                    KeySource::Generate => e == Error::VaultFormatError && spec_parse(
                        data@,
                    ) is None,
                },
            },
    {
        let vault = match Vault::from_bytes(data) {
            Ok(v) => v,
            Err(e) => {
                return Err(e);
            },
        };
        let keys = match key_source.extract_keys(&vault.iv) {
            Ok(k) => k,
            Err(e) => {
                return Err(e);
            },
        };
        Ok(SecretsManager { vault, path, keys })
    }

    /// Serializes the underlying vault into its on-disk byte layout. The
    /// caller writes these bytes atomically to the bound path.
    pub fn save(&self) -> (r: Vec<u8>)
        requires
            self.wf(),
        ensures
            r@ == spec_serialize(self@.vault),
    {
        self.vault.to_bytes()
    }

    /// The flat binary representation of the resident key material, in the
    /// layout a file key source expects: writing it to a key file and
    /// resolving that file later yields the same keys. This also turns
    /// password-derived keys into an equivalent on-disk form.
    pub fn export_keyfile(&self) -> (r: Vec<u8>)
        requires
            self.wf(),
        ensures
            r@ == spec_export(self@.keys),
            r@ == self@.keys,
    {
        self.keys.export_bytes()
    }

    /// The path this manager was bound to at construction.
    pub fn path(&self) -> (r: &String)
        ensures
            r@ == self@.path,
    {
        &self.path
    }

    /// Read access to the underlying vault.
    pub fn vault(&self) -> (r: &Vault)
        ensures
            r@ == self@.vault,
    {
        &self.vault
    }

    /// Appends one encrypted entry to the underlying vault, for the
    /// higher-level secret API.
    pub fn push_entry(&mut self, e: crate::vault::VaultEntry)
        requires
            old(self).wf(),
            crate::vault::entry_wf(e@),
            old(self)@.vault.entries.len() + 1 < 0x1_0000_0000,
        ensures
            final(self).wf(),
            final(self)@.vault.iv == old(self)@.vault.iv,
            final(self)@.vault.entries == old(self)@.vault.entries.push(e@),
            final(self)@.keys == old(self)@.keys,
            final(self)@.path == old(self)@.path,
    {
        self.vault.push_entry(e);
    }
}

} // verus!
