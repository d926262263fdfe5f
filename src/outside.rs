//! The calls this library makes into code it does not verify: the password
//! hash and the system clock.

use vstd::prelude::*;

verus! {

#[verifier::external_type_specification]
#[verifier::external_body]
pub struct ExBcryptError(bcrypt::BcryptError);

#[verifier::external_type_specification]
#[verifier::external_body]
pub struct ExSystemTimeError(std::time::SystemTimeError);

/// The bcrypt hash string (version 2b) of a password under a cost factor and salt.
pub uninterp spec fn bcrypt_hash(password: Seq<char>, cost: u32, salt: Seq<u8>) -> Seq<char>;

/// Relies on bcrypt::hash_with_salt and the `Display` of its `HashParts`:
/// the call fails exactly when the cost lies outside 4..=31, and otherwise
/// the hash string depends on the password, the cost and the salt alone.
#[verifier::external_body]
pub(crate) fn hash_with_salt(password: &str, cost: u32, salt: [u8; 16]) -> (r: Result<
    String,
    bcrypt::BcryptError,
>)
    ensures
        r is Ok <==> 4 <= cost <= 31,
        r matches Ok(h) ==> h@ == bcrypt_hash(password@, cost, salt@),
{
    bcrypt::hash_with_salt(password, cost, salt).map(|h| h.to_string())
}

/// Relies on std::time::SystemTime::elapsed on UNIX_EPOCH: the whole seconds
/// since the epoch, or an error when the clock stands before it.
#[verifier::external_body]
pub(crate) fn unix_seconds() -> (r: Result<u64, std::time::SystemTimeError>) {
    std::time::UNIX_EPOCH.elapsed().map(|d| d.as_secs())
}

} // verus!
