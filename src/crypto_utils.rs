use argon2::{Algorithm, Argon2, Params, Version};
use chacha20poly1305::aead::generic_array::GenericArray;
use chacha20poly1305::aead::{Aead, AeadCore, KeyInit, OsRng};
use chacha20poly1305::ChaCha20Poly1305;
use vstd::prelude::*;
use vstd::string::StringSliceAdditionalSpecFns;

use crate::error::VaultError;

verus! {

/// Length of a master key.
pub const KEY_LEN: usize = 32;

/// Length of the nonce that starts every ciphertext blob.
pub const NONCE_LEN: usize = 12;

/// Length of the authentication tag that ends every ciphertext blob.
pub const TAG_LEN: usize = 16;

/// Argon2id memory cost, in KiB.
pub const ARGON2_M_COST: u32 = 15000;

/// Argon2id number of passes.
pub const ARGON2_T_COST: u32 = 2;

/// Argon2id degree of parallelism.
pub const ARGON2_P_COST: u32 = 1;

/// Shortest salt that Argon2 accepts.
pub const MIN_SALT_LEN: usize = 8;

/// Length of the salt used when the host configures none.
pub const DEFAULT_SALT_LEN: usize = 16;

/// Every byte of the salt used when the host configures none.
pub const DEFAULT_SALT_BYTE: u8 = 2;

#[verifier::external_type_specification]
#[verifier::external_body]
pub struct ExAeadError(chacha20poly1305::aead::Error);

#[verifier::external_type_specification]
#[verifier::external_body]
pub struct ExArgon2Error(argon2::Error);

/// ChaCha20-Poly1305 output (ciphertext followed by the tag) for a key, a
/// nonce and a plaintext, with no associated data.
pub uninterp spec fn chacha20poly1305_seal(key: Seq<u8>, nonce: Seq<u8>, plaintext: Seq<u8>) -> Seq<u8>;

/// ChaCha20-Poly1305 decryption of `sealed` (ciphertext followed by the tag):
/// `None` when the tag does not verify.
pub uninterp spec fn chacha20poly1305_open(key: Seq<u8>, nonce: Seq<u8>, sealed: Seq<u8>) -> Option<Seq<u8>>;

/// The 32-byte Argon2id (version 0x13) hash of a password under a salt and cost parameters.
pub uninterp spec fn argon2id_hash(password: Seq<u8>, salt: Seq<u8>, m_cost: u32, t_cost: u32, p_cost: u32) -> Seq<u8>;

/// The cipher refuses payloads of 2^32 - 1 blocks of 64 bytes or more.
pub open spec fn payload_fits(len: int) -> bool {
    len / 64 < 0xFFFF_FFFF
}

/// Relies on `AeadCore::generate_nonce` of ChaCha20Poly1305 with the operating
/// system's random source: twelve fresh random bytes.
#[verifier::external_body]
fn random_nonce() -> (r: Vec<u8>)
    ensures
        r@.len() == NONCE_LEN,
{
    ChaCha20Poly1305::generate_nonce(&mut OsRng).to_vec()
}

/// Relies on `Aead::encrypt` of ChaCha20Poly1305 (no associated data): it fails
/// only on a payload that is too long, appends a 16-byte tag, and `Aead::decrypt`
/// under the same key and nonce gives the plaintext back.
#[verifier::external_body]
fn chacha_seal(key: &[u8], nonce: &[u8], plaintext: &[u8]) -> (r: Result<Vec<u8>, chacha20poly1305::aead::Error>)
    requires
        key@.len() == KEY_LEN,
        nonce@.len() == NONCE_LEN,
    ensures
        r is Ok <==> payload_fits(plaintext@.len() as int),
        r matches Ok(c) ==> c@ == chacha20poly1305_seal(key@, nonce@, plaintext@),
        r matches Ok(c) ==> c@.len() == plaintext@.len() + TAG_LEN,
        r matches Ok(c) ==> chacha20poly1305_open(key@, nonce@, c@) == Some(plaintext@),
{
    let cipher = ChaCha20Poly1305::new(GenericArray::from_slice(key));
    cipher.encrypt(GenericArray::from_slice(nonce), plaintext)
}

/// Relies on `Aead::decrypt` of ChaCha20Poly1305 (no associated data): it
/// verifies the tag at the end of `sealed` and returns the plaintext, or fails.
#[verifier::external_body]
fn chacha_open(key: &[u8], nonce: &[u8], sealed: &[u8]) -> (r: Result<Vec<u8>, chacha20poly1305::aead::Error>)
    requires
        key@.len() == KEY_LEN,
        nonce@.len() == NONCE_LEN,
    ensures
        r matches Ok(p) ==> chacha20poly1305_open(key@, nonce@, sealed@) == Some(p@),
        r is Err ==> chacha20poly1305_open(key@, nonce@, sealed@) is None,
{
    let cipher = ChaCha20Poly1305::new(GenericArray::from_slice(key));
    cipher.decrypt(GenericArray::from_slice(nonce), sealed)
}

/// Argon2 accepts these cost parameters (`Params::new`).
pub open spec fn argon2_params_ok(m_cost: u32, t_cost: u32, p_cost: u32) -> bool {
    &&& 8 <= m_cost
    &&& 8 * p_cost <= m_cost
    &&& 1 <= t_cost
    &&& 1 <= p_cost
}

/// Relies on argon2's `Params::new` and `Argon2::hash_password_into` (Argon2id,
/// version 0x13, 32-byte output): they fail exactly on rejected cost parameters,
/// a salt shorter than 8 bytes, or a password or salt longer than 2^32 - 1 bytes.
#[verifier::external_body]
fn argon2id_32(password: &[u8], salt: &[u8], m_cost: u32, t_cost: u32, p_cost: u32) -> (r: Result<Vec<u8>, argon2::Error>)
    requires
        p_cost <= 0xFF_FFFF,
    ensures
        r is Ok <==> (argon2_params_ok(m_cost, t_cost, p_cost) && MIN_SALT_LEN <= salt@.len()
            <= 0xFFFF_FFFF && password@.len() <= 0xFFFF_FFFF),
        r matches Ok(k) ==> k@ == argon2id_hash(password@, salt@, m_cost, t_cost, p_cost),
        r matches Ok(k) ==> k@.len() == KEY_LEN,
{
    let params = match Params::new(m_cost, t_cost, p_cost, Some(32)) {
        Ok(p) => p,
        Err(e) => return Err(e),
    };
    let mut out = vec![0u8; 32];
    match Argon2::new(Algorithm::Argon2id, Version::V0x13, params).hash_password_into(password, salt, &mut out) {
        Ok(()) => Ok(out),
        Err(e) => Err(e),
    }
}

/// `blob` is a nonce followed by the sealing of `plaintext` under `key` with that nonce.
pub open spec fn sealed_under(blob: Seq<u8>, key: Seq<u8>, plaintext: Seq<u8>) -> bool {
    &&& blob.len() == NONCE_LEN + plaintext.len() + TAG_LEN
    &&& blob.subrange(NONCE_LEN as int, blob.len() as int) == chacha20poly1305_seal(
        key,
        blob.subrange(0, NONCE_LEN as int),
        plaintext,
    )
}

/// What decrypting `blob` under `key` yields: `None` for a blob too short to
/// hold a nonce, or one whose tag does not verify.
pub open spec fn decrypt_spec(blob: Seq<u8>, key: Seq<u8>) -> Option<Seq<u8>> {
    if blob.len() < NONCE_LEN {
        None
    } else {
        chacha20poly1305_open(
            key,
            blob.subrange(0, NONCE_LEN as int),
            blob.subrange(NONCE_LEN as int, blob.len() as int),
        )
    }
}

/// The key that the vault's fixed Argon2id parameters derive from a passphrase and a salt.
pub open spec fn derived_key(passphrase: Seq<u8>, salt: Seq<u8>) -> Seq<u8> {
    argon2id_hash(passphrase, salt, ARGON2_M_COST, ARGON2_T_COST, ARGON2_P_COST)
}

/// Encrypts `plaintext` under `key` with a fresh random nonce and returns
/// the nonce followed by the ciphertext and its tag.
pub fn encrypt_bytes(plaintext: &[u8], key: &[u8]) -> (r: Vec<u8>)
    requires
        key@.len() == KEY_LEN,
        payload_fits(plaintext@.len() as int),
    ensures
        sealed_under(r@, key@, plaintext@),
        decrypt_spec(r@, key@) == Some(plaintext@),
{
    let mut out = random_nonce();
    let ghost nonce = out@;
    match chacha_seal(key, out.as_slice(), plaintext) {
        Ok(sealed) => {
            let mut sealed = sealed;
            let ghost s = sealed@;
            out.append(&mut sealed);
            assert(out@.subrange(0, NONCE_LEN as int) =~= nonce);
            assert(out@.subrange(NONCE_LEN as int, out@.len() as int) =~= s);
            out
        },
        Err(_) => out,
    }
}

/// Encrypts the UTF-8 bytes of `cleartext`, as `encrypt_bytes` does.
pub fn encrypt(cleartext: &str, key: &[u8]) -> (r: Vec<u8>)
    requires
        key@.len() == KEY_LEN,
        payload_fits(cleartext.spec_bytes().len() as int),
    ensures
        sealed_under(r@, key@, cleartext.spec_bytes()),
        decrypt_spec(r@, key@) == Some(cleartext.spec_bytes()),
{
    encrypt_bytes(cleartext.as_bytes(), key)
}

/// Splits `obsf` into nonce and sealed payload and verifies and decrypts it
/// under `key`. A blob shorter than a nonce, or one whose tag does not verify,
/// is an authentication failure.
pub fn decrypt(obsf: &[u8], key: &[u8]) -> (r: Result<Vec<u8>, VaultError>)
    requires
        key@.len() == KEY_LEN,
    ensures
        r matches Ok(p) ==> decrypt_spec(obsf@, key@) == Some(p@),
        r matches Err(e) ==> decrypt_spec(obsf@, key@) is None && e == VaultError::AuthenticationFailure,
{
    if obsf.len() < NONCE_LEN {
        return Err(VaultError::AuthenticationFailure);
    }
    let (nonce, sealed) = obsf.split_at(NONCE_LEN);
    match chacha_open(key, nonce, sealed) {
        Ok(p) => Ok(p),
        Err(_) => Err(VaultError::AuthenticationFailure),
    }
}

/// The salt used when the host configures none. It is the same for every
/// identity, so two users with one passphrase get one key: a host that can
/// keep a per-identity salt should pass that instead.
pub fn default_salt() -> (r: Vec<u8>)
    ensures
        r@ == Seq::new(DEFAULT_SALT_LEN as nat, |_i: int| DEFAULT_SALT_BYTE),
{
    let mut salt: Vec<u8> = Vec::new();
    let mut i: usize = 0;
    while i < DEFAULT_SALT_LEN
        invariant
            i <= DEFAULT_SALT_LEN,
            salt@ == Seq::new(i as nat, |_i: int| DEFAULT_SALT_BYTE),
        decreases DEFAULT_SALT_LEN - i,
    {
        salt.push(DEFAULT_SALT_BYTE);
        i = i + 1;
        assert(salt@ =~= Seq::new(i as nat, |_i: int| DEFAULT_SALT_BYTE));
    }
    salt
}

/// Derives a 32-byte key from `password` and `salt` with Argon2id at the
/// vault's fixed cost parameters. It fails only on a salt that Argon2 refuses
/// (under 8 bytes) or an input longer than 2^32 - 1 bytes.
pub fn hash_password(password: &str, salt: &[u8]) -> (r: Result<Vec<u8>, VaultError>)
    ensures
        r is Ok <==> (MIN_SALT_LEN <= salt@.len() <= 0xFFFF_FFFF && password.spec_bytes().len()
            <= 0xFFFF_FFFF),
        r matches Ok(k) ==> k@ == derived_key(password.spec_bytes(), salt@) && k@.len() == KEY_LEN,
        r matches Err(e) ==> e == VaultError::KeyDerivationError,
{
    match argon2id_32(password.as_bytes(), salt, ARGON2_M_COST, ARGON2_T_COST, ARGON2_P_COST) {
        Ok(k) => Ok(k),
        Err(_) => Err(VaultError::KeyDerivationError),
    }
}

/// Key derivation is deterministic: two keys that `hash_password` returned
/// for one passphrase and one salt are the same bytes.
pub proof fn lemma_derivation_deterministic(k1: Seq<u8>, k2: Seq<u8>, passphrase: Seq<u8>, salt: Seq<u8>)
    requires
        k1 == derived_key(passphrase, salt),
        k2 == derived_key(passphrase, salt),
    ensures
        k1 == k2,
        k1.len() == k2.len(),
{
}

} // verus!
