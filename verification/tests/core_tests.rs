use securevault::errors::Error;
use securevault::keys::KeyMaterial;
use securevault::keys::KEY_COUNT;
use securevault::keys::KEY_LENGTH;
use securevault::manager::SecretsManager;
use securevault::source::KeySource;
use securevault::vault::Vault;
use securevault::vault::VaultEntry;
use securevault::vault::IV_SIZE;
use securevault::vault::NONCE_SIZE;
use securevault::vault::TAG_SIZE;

fn total_len() -> usize {
    KEY_COUNT * KEY_LENGTH
}

fn sample_keys() -> Vec<u8> {
    let mut v = Vec::new();
    let mut i: usize = 0;
    while i < total_len() {
        v.push((i * 7 + 3) as u8);
        i += 1;
    }
    v
}

fn sample_entry(seed: u8) -> VaultEntry {
    let name = vec![b'k', b'e', b'y', seed];
    let nonce = vec![seed; NONCE_SIZE];
    let tag = vec![seed.wrapping_add(1); TAG_SIZE];
    let mut ciphertext = Vec::new();
    let mut i: usize = 0;
    while i < 9 {
        ciphertext.push(seed.wrapping_mul(3).wrapping_add(i as u8));
        i += 1;
    }
    VaultEntry { name, nonce, tag, ciphertext }
}

#[test]
fn import_export_roundtrip() {
    let data = sample_keys();
    let k = KeyMaterial::import(&data).unwrap();
    let exported = k.export_bytes();
    assert_eq!(exported, data);
    let k2 = KeyMaterial::import(&exported).unwrap();
    assert_eq!(k2.export_bytes(), data);
}

#[test]
fn import_rejects_wrong_lengths() {
    for len in [0usize, 1, 31, 33, 64] {
        let data = vec![0xabu8; len];
        if len == total_len() {
            continue;
        }
        assert_eq!(KeyMaterial::import(&data).err().unwrap(), Error::InvalidKeyfile);
    }
}

#[test]
fn key_slots_split_the_buffer() {
    let data = sample_keys();
    let k = KeyMaterial::import(&data).unwrap();
    let slot0 = k.key(0);
    let slot1 = k.key(1);
    assert_eq!(slot0.as_slice(), &data[..KEY_LENGTH]);
    assert_eq!(slot1.as_slice(), &data[KEY_LENGTH..2 * KEY_LENGTH]);
}

#[test]
fn generate_twice_differs() {
    let iv: Option<Vec<u8>> = None;
    let k1 = KeySource::Generate.extract_keys(&iv).unwrap();
    let k2 = KeySource::Generate.extract_keys(&iv).unwrap();
    assert_eq!(k1.export_bytes().len(), total_len());
    assert_eq!(k2.export_bytes().len(), total_len());
    // Two 256-bit draws from a secure RNG collide with negligible probability.
    assert_ne!(k1.export_bytes(), k2.export_bytes());
}

#[test]
fn password_derivation_is_deterministic() {
    let iv = Some(vec![0x11u8; IV_SIZE]);
    let p1 = KeySource::Password(String::from("correct horse"));
    let p2 = KeySource::Password(String::from("correct horse"));
    let k1 = p1.extract_keys(&iv).unwrap();
    let k2 = p2.extract_keys(&iv).unwrap();
    assert_eq!(k1.export_bytes(), k2.export_bytes());
}

#[test]
fn password_derivation_depends_on_iv() {
    let iv_a = Some(vec![0x11u8; IV_SIZE]);
    let iv_b = Some(vec![0x22u8; IV_SIZE]);
    let p = String::from("correct horse");
    let k_a = KeySource::Password(p.clone()).extract_keys(&iv_a).unwrap();
    let k_b = KeySource::Password(p.clone()).extract_keys(&iv_b).unwrap();
    assert_ne!(k_a.export_bytes(), k_b.export_bytes());
}

#[test]
fn password_derivation_depends_on_password() {
    let iv = Some(vec![0x11u8; IV_SIZE]);
    let k_a = KeySource::Password(String::from("alpha")).extract_keys(&iv).unwrap();
    let k_b = KeySource::Password(String::from("beta")).extract_keys(&iv).unwrap();
    assert_ne!(k_a.export_bytes(), k_b.export_bytes());
}

#[test]
fn password_derivation_computes_fresh_bytes() {
    // The derived buffer must come from the KDF, not from either input.
    let iv = Some(vec![0x11u8; IV_SIZE]);
    let k = KeySource::Password(String::from("0123456789abcdef0123456789abcdef"))
        .extract_keys(&iv)
        .unwrap();
    let out = k.export_bytes();
    assert_ne!(out, b"0123456789abcdef0123456789abcdef".to_vec());
    assert_ne!(out, vec![0x11u8; total_len()]);
}

#[test]
fn password_without_iv_fails() {
    let iv: Option<Vec<u8>> = None;
    let r = KeySource::Password(String::from("pw")).extract_keys(&iv);
    assert_eq!(r.err().unwrap(), Error::MissingVaultIV);
}

#[test]
fn file_source_takes_exact_buffer() {
    let data = sample_keys();
    let k = KeySource::File(data.clone()).extract_keys(&None).unwrap();
    assert_eq!(k.export_bytes(), data);
}

#[test]
fn file_source_rejects_off_by_one() {
    // A 31-byte key file when the keys take 32 bytes in all.
    assert_eq!(total_len(), 32);
    let data = vec![0x5au8; 31];
    let r = KeySource::File(data).extract_keys(&None);
    assert_eq!(r.err().unwrap(), Error::InvalidKeyfile);
}

#[test]
fn empty_vault_roundtrips() {
    let v = Vault::new();
    let bytes = v.to_bytes();
    let v2 = Vault::from_bytes(&bytes).unwrap();
    assert_eq!(v2.iv, v.iv);
    assert_eq!(v2.entries.len(), 0);
}

#[test]
fn vault_with_entries_roundtrips() {
    let mut v = Vault::new();
    v.push_entry(sample_entry(1));
    v.push_entry(sample_entry(2));
    let bytes = v.to_bytes();
    let v2 = Vault::from_bytes(&bytes).unwrap();
    assert_eq!(v2.iv, v.iv);
    assert_eq!(v2.entries.len(), 2);
    for i in 0..2 {
        assert_eq!(v2.entries[i].name, v.entries[i].name);
        assert_eq!(v2.entries[i].nonce, v.entries[i].nonce);
        assert_eq!(v2.entries[i].tag, v.entries[i].tag);
        assert_eq!(v2.entries[i].ciphertext, v.entries[i].ciphertext);
    }
}

#[test]
fn vault_layout_is_exact() {
    // Fix the on-disk layout byte for byte: magic, IV, little-endian entry
    // count, then per entry a length-prefixed name, nonce, tag and
    // length-prefixed ciphertext.
    let iv: Vec<u8> = (0u8..IV_SIZE as u8).collect();
    let entry = VaultEntry {
        name: vec![b'a', b'b'],
        nonce: vec![7u8; NONCE_SIZE],
        tag: vec![9u8; TAG_SIZE],
        ciphertext: vec![0xaa, 0xbb, 0xcc],
    };
    let v = Vault { iv: Some(iv.clone()), entries: vec![entry] };
    let mut expected: Vec<u8> = vec![0x73, 0x76, 0x6c, 0x74];
    expected.extend_from_slice(&iv);
    expected.extend_from_slice(&1u32.to_le_bytes());
    expected.extend_from_slice(&2u32.to_le_bytes());
    expected.extend_from_slice(b"ab");
    expected.extend_from_slice(&[7u8; NONCE_SIZE]);
    expected.extend_from_slice(&[9u8; TAG_SIZE]);
    expected.extend_from_slice(&3u32.to_le_bytes());
    expected.extend_from_slice(&[0xaa, 0xbb, 0xcc]);
    assert_eq!(v.to_bytes(), expected);
}

#[test]
fn loaded_vault_saves_back_identically() {
    let mut v = Vault::new();
    v.push_entry(sample_entry(3));
    v.push_entry(VaultEntry {
        name: Vec::new(),
        nonce: vec![0u8; NONCE_SIZE],
        tag: vec![0u8; TAG_SIZE],
        ciphertext: Vec::new(),
    });
    let bytes = v.to_bytes();
    let v2 = Vault::from_bytes(&bytes).unwrap();
    assert_eq!(v2.to_bytes(), bytes);
}

#[test]
fn vault_rejects_bad_magic() {
    let v = Vault::new();
    let mut bytes = v.to_bytes();
    bytes[0] ^= 0xff;
    assert_eq!(Vault::from_bytes(&bytes).err().unwrap(), Error::VaultFormatError);
}

#[test]
fn vault_rejects_truncation_and_trailing_bytes() {
    let mut v = Vault::new();
    v.push_entry(sample_entry(7));
    let bytes = v.to_bytes();
    let truncated = bytes[..bytes.len() - 1].to_vec();
    assert_eq!(Vault::from_bytes(&truncated).err().unwrap(), Error::VaultFormatError);
    let mut extended = bytes.clone();
    extended.push(0);
    assert_eq!(Vault::from_bytes(&extended).err().unwrap(), Error::VaultFormatError);
    let empty: Vec<u8> = Vec::new();
    assert_eq!(Vault::from_bytes(&empty).err().unwrap(), Error::VaultFormatError);
}

#[test]
fn manager_new_binds_path_and_keys() {
    let m = SecretsManager::new(String::from("vault.bin"), KeySource::Generate).unwrap();
    assert_eq!(m.path(), "vault.bin");
    assert_eq!(m.export_keyfile().len(), total_len());
}

#[test]
fn manager_new_rejects_bad_keyfile() {
    let r = SecretsManager::new(String::from("v"), KeySource::File(vec![1, 2, 3]));
    assert_eq!(r.err().unwrap(), Error::InvalidKeyfile);
}

#[test]
fn manager_load_rejects_garbage() {
    let garbage = vec![9u8; 40];
    let r = SecretsManager::load(String::from("v"), &garbage, KeySource::Generate);
    assert_eq!(r.err().unwrap(), Error::VaultFormatError);
}

#[test]
fn save_then_load_with_exported_keyfile_restores_keys() {
    // Create a vault with generated keys, save it, export the keys to a
    // keyfile image, then re-load the saved vault with that keyfile: the
    // restored key material must match the original byte for byte.
    let m1 = SecretsManager::new(String::from("p"), KeySource::Generate).unwrap();
    let saved = m1.save();
    let keyfile = m1.export_keyfile();
    let m2 = SecretsManager::load(String::from("p"), &saved, KeySource::File(keyfile)).unwrap();
    assert_eq!(m2.export_keyfile(), m1.export_keyfile());
    assert_eq!(m2.vault().iv, m1.vault().iv);
}

#[test]
fn password_keys_survive_save_and_load() {
    let m1 = SecretsManager::new(String::from("p"), KeySource::Password(String::from("pw")))
        .unwrap();
    let saved = m1.save();
    let m2 = SecretsManager::load(
        String::from("p"),
        &saved,
        KeySource::Password(String::from("pw")),
    )
    .unwrap();
    assert_eq!(m2.export_keyfile(), m1.export_keyfile());
}

#[test]
fn corrupting_iv_changes_password_keys() {
    // Corrupt one byte of the IV field in the saved image: the vault still
    // parses, but password-derived keys must differ from the originals, so
    // decryption of old entries fails authentication instead of yielding
    // garbage that looks valid.
    let pw = || KeySource::Password(String::from("pw"));
    let m1 = SecretsManager::new(String::from("p"), pw()).unwrap();
    let mut saved = m1.save();
    saved[4] ^= 0x01; // first byte of the IV field, just past the magic
    let m2 = SecretsManager::load(String::from("p"), &saved, pw()).unwrap();
    assert_ne!(m2.export_keyfile(), m1.export_keyfile());
}

#[test]
fn error_messages_are_distinct() {
    let msgs = [
        Error::Io.message(),
        Error::InvalidKeyfile.message(),
        Error::MissingVaultIV.message(),
        Error::VaultFormatError.message(),
    ];
    for i in 0..msgs.len() {
        for j in 0..msgs.len() {
            if i != j {
                assert_ne!(msgs[i], msgs[j]);
            }
        }
    }
}
