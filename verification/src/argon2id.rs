//! Passcode hashing with Argon2id, salted by the game.
use crate::codec::{le64, le64_bytes, le64_read, le64_value};
use crate::ext::{argon2id_digest, argon2id_hash_into};
use vstd::prelude::*;

verus! {

/// Hashes a password with Argon2id, the little-endian bytes of `salt` as
/// the salt, into an `i64` read from the eight-byte digest in little-endian
/// order.
///
/// Returns `None` if hashing fails.
pub fn hash(pwd: &[u8], salt: i64) -> (r: Option<i64>)
    ensures
        match argon2id_digest(pwd@, le64(salt)) {
            Ok(d) => r == Some(le64_value(d)),
            Err(_) => r is None,
        },
{
    match try_hash(pwd, salt) {
        Ok(h) => Some(h),
        Err(_) => None,
    }
}

/// Hashes a password as `hash` does, giving the text of the hashing error
/// where it fails.
pub fn try_hash(pwd: &[u8], salt: i64) -> (r: Result<i64, String>)
    ensures
        match argon2id_digest(pwd@, le64(salt)) {
            Ok(d) => r == Ok::<i64, String>(le64_value(d)),
            Err(e) => r matches Err(text) && text@ == e,
        },
{
    let salt = le64_bytes(salt);
    match argon2id_hash_into(pwd, salt.as_slice()) {
        Ok(d) => Ok(le64_read(d.as_slice())),
        Err(e) => Err(e),
    }
}

} // verus!
