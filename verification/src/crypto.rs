use vstd::prelude::*;
use vstd::string::StringSliceAdditionalSpecFns;
use crate::keys::KEY_COUNT;
use crate::keys::KEY_LENGTH;

verus! {

/// Iteration count for password-based key derivation. Fixed so that the
/// same password and salt always derive the same keys.
pub const PBKDF2_ROUNDS: usize = 8192;

/// The key material that PBKDF2-HMAC-SHA1 derives: a pure function of the
/// password bytes, the salt, the iteration count and the output length.
pub uninterp spec fn pbkdf2_sha1(password: Seq<u8>, salt: Seq<u8>, rounds: int, out_len: int) -> Seq<u8>;

/// Relies on openssl::rand::rand_bytes: fills the whole buffer with bytes
/// from a cryptographically secure RNG. Nothing is promised of the values;
/// the process aborts if the RNG itself fails, since key generation must
/// never fall back to weaker material.
#[verifier::external_body]
pub(crate) fn fill_random(len: usize) -> (r: Vec<u8>)
    requires
        len <= 0x7fff_ffff,
    ensures
        r@.len() == len,
{
    let mut buffer = vec![0u8; len];
    openssl::rand::rand_bytes(&mut buffer).expect("secure RNG failure");
    buffer
}

/// Relies on openssl::pkcs5::pbkdf2_hmac with SHA-1: fills an output buffer
/// of `KEY_COUNT * KEY_LENGTH` bytes with key material that depends only on
/// the password bytes, the salt, and the fixed iteration count and output
/// length. The process aborts if derivation itself fails.
#[verifier::external_body]
pub(crate) fn derive_password_keys(password: &str, salt: &Vec<u8>) -> (r: Vec<u8>)
    requires
        password.spec_bytes().len() <= 0x7fff_ffff,
        salt@.len() <= 0x7fff_ffff,
    ensures
        r@.len() == KEY_COUNT * KEY_LENGTH,
        r@ == pbkdf2_sha1(
            password.spec_bytes(),
            salt@,
            PBKDF2_ROUNDS as int,
            (KEY_COUNT * KEY_LENGTH) as int,
        ),
{
    let mut key_data = vec![0u8; KEY_COUNT * KEY_LENGTH];
    openssl::pkcs5::pbkdf2_hmac(
        password.as_bytes(),
        salt.as_slice(),
        PBKDF2_ROUNDS,
        openssl::hash::MessageDigest::sha1(),
        &mut key_data,
    )
    .expect("PBKDF2 key derivation failure");
    key_data
}

} // verus!
