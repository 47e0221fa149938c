//! Password hashing and checking with Argon2.
use vstd::prelude::*;
use vstd::utf8::encode_utf8;
use argon2::password_hash::rand_core::OsRng;
use argon2::password_hash::SaltString;
use argon2::{Argon2, PasswordHash, PasswordHasher, PasswordVerifier};

verus! {

/// Whether `argon2::PasswordHash::new` parses the text as a PHC string.
pub uninterp spec fn phc_string(hash: Seq<char>) -> bool;

/// Whether Argon2 (default parameters, no secret) verifies the password against
/// the PHC string: what `PasswordVerifier::verify_password` answers `Ok` to.
pub uninterp spec fn argon2_accepts(password: Seq<char>, hash: Seq<char>) -> bool;

/// Whether Argon2 accepts the password's length: at most `u32::MAX` bytes of UTF-8.
pub open spec fn password_fits(password: Seq<char>) -> bool {
    encode_utf8(password).len() <= 0xffff_ffff
}

/// Hashes a password with `Argon2::default()` and a salt drawn from the operating
/// system (`SaltString::generate` with `OsRng`), and writes the result as a PHC
/// string. The salt is random, so the text is not stated; argon2 documents the two
/// facts stated: the text is a PHC string, and verifying the same password against
/// it succeeds.
#[verifier::external_body]
pub(crate) fn hash_password(password: &String) -> (r: String)
    requires
        password_fits(password@),
    ensures
        phc_string(r@),
        argon2_accepts(password@, r@),
{
    let salt = SaltString::generate(&mut OsRng);
    Argon2::default().hash_password(password.as_bytes(), &salt).expect(
        "hashing a password should not fail",
    ).to_string()
}

/// Parses the stored hash with `PasswordHash::new` and checks the password against it
/// with `Argon2::default().verify_password`.
#[verifier::external_body]
pub(crate) fn verify_password(password: &String, hash: &String) -> (r: bool)
    requires
        phc_string(hash@),
    ensures
        r == argon2_accepts(password@, hash@),
{
    let parsed = PasswordHash::new(hash).expect("stored hash should be valid PHC string");
    Argon2::default().verify_password(password.as_bytes(), &parsed).is_ok()
}

} // verus!
