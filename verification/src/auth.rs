//! Password hashing and checking (Argon2id), session tokens, and token digests.

use argon2::{PasswordHasher, PasswordVerifier};
use crate::text::{byte_len, decimal_text, hex_lower, hex_text, utf8_len};
use rand::RngCore;
use sha2::Digest;
use vstd::prelude::*;
use vstd::string::*;
use vstd::utf8::*;

verus! {

/// Argon2id memory cost, in KiB.
pub const ARGON2_MEMORY_KIB: u32 = 19456;
/// Argon2id iterations.
pub const ARGON2_ITERATIONS: u32 = 2;
/// Argon2id parallelism.
pub const ARGON2_LANES: u32 = 1;
/// Shortest accepted password, in UTF-8 bytes.
pub const MIN_PASSWORD_BYTES: usize = 6;
/// Longest accepted password, in UTF-8 bytes.
pub const MAX_PASSWORD_BYTES: usize = 256;

#[verifier::external_type_specification]
#[verifier::external_body]
pub struct ExPasswordHashError(argon2::password_hash::Error);

/// Why a password could not be hashed.
#[derive(Clone, Copy, Debug, PartialEq, Eq, Structural)]
pub enum AuthError {
    /// The password is shorter than 6 or longer than 256 bytes.
    PasswordLength,
}

/// Whether Argon2 accepts `password` (as bytes) against the PHC hash string
/// `phc`: the string parses and recomputing the hash with its algorithm,
/// version, parameters and salt gives its output. This names the answer of
/// `PasswordHash::new` followed by `Argon2::verify_password`.
pub uninterp spec fn argon2_verifies(password: Seq<u8>, phc: Seq<char>) -> bool;

/// The SHA-256 digest of `data`.
pub uninterp spec fn sha256(data: Seq<u8>) -> Seq<u8>;

/// The costs `argon2::Params::new` accepts: memory at least 8 KiB and at least
/// 8 KiB per lane, at least one iteration, and 1 to 0xFFFFFF lanes.
pub open spec fn argon2_costs_ok(m_cost: u32, t_cost: u32, p_cost: u32) -> bool {
    m_cost >= 8 && m_cost >= 8 * p_cost && t_cost >= 1 && 1 <= p_cost <= 0xff_ffff
}

/// The start of the PHC string of an Argon2id (version 0x13) hash with these
/// costs, `$argon2id$v=19$m=<m>,t=<t>,p=<p>$`; the salt and the hash follow.
pub open spec fn argon2id_phc_prefix(m_cost: nat, t_cost: nat, p_cost: nat) -> Seq<char> {
    "$argon2id$v=19$m="@ + decimal_text(m_cost) + ",t="@ + decimal_text(t_cost) + ",p="@
        + decimal_text(p_cost) + "$"@
}

/// Hashes `password` with Argon2id version 0x13: `Params::new(m_cost, t_cost,
/// p_cost, None)`, a fresh salt from `SaltString::generate(&mut OsRng)`, then
/// `Argon2::hash_password`, whose `PasswordHash` is written out as a PHC string.
/// Claimed: costs that `Params::new` refuses give an error; with costs it
/// accepts and a password of at most `u32::MAX` bytes hashing succeeds (the
/// other errors of `hash_password` concern output and salt lengths, which the
/// default 32-byte output and the generated 16-byte salt meet; a missing OS
/// random source panics rather than errs); a returned string verifies
/// `password` (the verifier recomputes with the string's own parameters and
/// salt) and starts `$argon2id$v=19$m=..,t=..,p=..$` with these costs in
/// decimal, as `PasswordHash`'s `Display` and argon2's parameter string write
/// them. The salt, hence the rest of the string, is random.
#[verifier::external_body]
fn argon2id_hash(password: &str, m_cost: u32, t_cost: u32, p_cost: u32) -> (r: Result<String, argon2::password_hash::Error>)
    requires
        p_cost <= 0x1fff_ffff,
    ensures
        !argon2_costs_ok(m_cost, t_cost, p_cost) ==> r is Err,
        argon2_costs_ok(m_cost, t_cost, p_cost) && utf8_len(password@) <= 0xffff_ffff ==> r is Ok,
        r matches Ok(h) ==> argon2_verifies(encode_utf8(password@), h@),
        r matches Ok(h) ==> argon2id_phc_prefix(m_cost as nat, t_cost as nat, p_cost as nat).is_prefix_of(h@),
{
    let params = argon2::Params::new(m_cost, t_cost, p_cost, None)?;
    let salt = argon2::password_hash::SaltString::generate(&mut rand::rngs::OsRng);
    let hasher = argon2::Argon2::new(argon2::Algorithm::Argon2id, argon2::Version::V0x13, params);
    Ok(hasher.hash_password(password.as_bytes(), &salt)?.to_string())
}

/// `PasswordHash::new(phc)` then `Argon2::default().verify_password(..)`;
/// claimed: the answer is `argon2_verifies` of the password bytes and the string.
#[verifier::external_body]
fn argon2_check(password: &str, phc: &str) -> (r: bool)
    ensures
        r == argon2_verifies(encode_utf8(password@), phc@),
{
    match argon2::PasswordHash::new(phc) {
        Ok(h) => argon2::Argon2::default().verify_password(password.as_bytes(), &h).is_ok(),
        Err(_) => false,
    }
}

/// 32 bytes from the operating system's random source (`OsRng::fill_bytes`,
/// which panics if there is none). Claimed only their number.
#[verifier::external_body]
fn os_random_32() -> (r: Vec<u8>)
    ensures
        r@.len() == 32,
{
    let mut bytes = [0u8; 32];
    rand::rngs::OsRng.fill_bytes(&mut bytes);
    bytes.to_vec()
}

/// `Sha256::digest(data)`: claimed to be `sha256(data)`, 32 bytes long.
#[verifier::external_body]
fn sha256_digest(data: &[u8]) -> (r: Vec<u8>)
    ensures
        r@ == sha256(data@),
        r@.len() == 32,
{
    sha2::Sha256::digest(data).to_vec()
}

/// The password length is within the accepted bounds.
pub open spec fn password_length_ok(password: Seq<char>) -> bool {
    MIN_PASSWORD_BYTES <= utf8_len(password) <= MAX_PASSWORD_BYTES
}

/// What `verify` answers: the password is at most 256 bytes and Argon2 accepts
/// it against the hash string.
pub open spec fn password_matches(password: Seq<char>, hash: Seq<char>) -> bool {
    utf8_len(password) <= MAX_PASSWORD_BYTES && argon2_verifies(encode_utf8(password), hash)
}

/// The PHC string of every new password hash starts so: Argon2id, version
/// 0x13, 19456 KiB of memory, 2 iterations, 1 lane.
pub open spec fn new_hash_prefix() -> Seq<char> {
    "$argon2id$v=19$m=19456,t=2,p=1$"@
}

/// The costs of new password hashes are those of `new_hash_prefix`.
proof fn lemma_new_hash_prefix()
    ensures
        argon2id_phc_prefix(ARGON2_MEMORY_KIB as nat, ARGON2_ITERATIONS as nat, ARGON2_LANES as nat)
            == new_hash_prefix(),
{
    reveal_strlit("$argon2id$v=19$m=19456,t=2,p=1$");
    reveal_strlit("$argon2id$v=19$m=");
    reveal_strlit(",t=");
    reveal_strlit(",p=");
    reveal_strlit("$");
    reveal_with_fuel(decimal_text, 6);
    assert(decimal_text(19456) =~= seq!['1', '9', '4', '5', '6']);
    assert(decimal_text(2) =~= seq!['2']);
    assert(decimal_text(1) =~= seq!['1']);
    assert(argon2id_phc_prefix(19456, 2, 1) =~= new_hash_prefix());
}

/// Hashes a new password with Argon2id (19 MiB, 2 iterations, 1 lane) under a
/// random salt. Passwords must hold 6 to 256 UTF-8 bytes, and every such
/// password is hashed; the hash verifies the password and records those costs.
pub fn hash_password(password: &str) -> (r: Result<String, AuthError>)
    ensures
        r is Ok <==> password_length_ok(password@),
        r is Err ==> r == Err::<String, AuthError>(AuthError::PasswordLength),
        r matches Ok(h) ==> password_matches(password@, h@),
        r matches Ok(h) ==> new_hash_prefix().is_prefix_of(h@),
{
    let n = byte_len(password);
    if n < MIN_PASSWORD_BYTES || n > MAX_PASSWORD_BYTES {
        return Err(AuthError::PasswordLength);
    }
    proof {
        lemma_new_hash_prefix();
    }
    match argon2id_hash(password, ARGON2_MEMORY_KIB, ARGON2_ITERATIONS, ARGON2_LANES) {
        Ok(h) => Ok(h),
        Err(_) => {
            // Argon2 refuses no password of 6 to 256 bytes with these costs.
            proof {
                assert(false);
            }
            Err(AuthError::PasswordLength)
        },
    }
}

/// Whether `password` matches the stored hash string. Passwords over 256
/// bytes never match.
pub fn verify(password: &str, hash: &str) -> (r: bool)
    ensures
        r == password_matches(password@, hash@),
{
    if byte_len(password) > MAX_PASSWORD_BYTES {
        return false;
    }
    argon2_check(password, hash)
}

/// A fresh session token: 32 random bytes as 64 lower-case hexadecimal digits.
pub fn token() -> (r: String)
    ensures
        exists|b: Seq<u8>| b.len() == 32 && r@ == hex_text(b),
        r@.len() == 64,
{
    let bytes = os_random_32();
    hex_lower(bytes.as_slice())
}

/// The lower-case hexadecimal SHA-256 digest of a token's UTF-8 bytes: what
/// the server keeps in place of the token.
pub fn digest(token: &str) -> (r: String)
    ensures
        r@ == hex_text(sha256(encode_utf8(token@))),
        r@.len() == 64,
{
    let d = sha256_digest(token.as_bytes());
    hex_lower(d.as_slice())
}

} // verus!
