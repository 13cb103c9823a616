use vstd::prelude::*;

verus! {

/// Whether bcrypt accepts `password` against the stored `digest`.
pub uninterp spec fn bcrypt_accepts(password: Seq<char>, digest: Seq<char>) -> bool;

/// Relies on uuid::Uuid::new_v4 and its `to_string`: a random identifier.
#[verifier::external_body]
pub(crate) fn fresh_id() -> (r: String) {
    uuid::Uuid::new_v4().to_string()
}

/// Relies on chrono::Utc::now and DateTime::to_rfc3339: the current time as text.
#[verifier::external_body]
pub(crate) fn now_rfc3339() -> (r: String) {
    chrono::Utc::now().to_rfc3339()
}

/// Relies on bcrypt::verify: whether the password matches the stored digest.
/// A digest that bcrypt cannot read counts as no match.
#[verifier::external_body]
pub(crate) fn password_matches(password: &str, digest: &str) -> (r: bool)
    ensures
        r == bcrypt_accepts(password@, digest@),
{
    bcrypt::verify(password, digest).unwrap_or(false)
}

/// Relies on bcrypt::hash at cost 10: a salted digest of the password (the
/// salt is random), or nothing when bcrypt reports an error. bcrypt::verify
/// reads salt and cost back from the digest, so it accepts the password.
#[verifier::external_body]
pub(crate) fn hash_password(password: &str) -> (r: Option<String>)
    ensures
        r matches Some(d) ==> bcrypt_accepts(password@, d@),
{
    bcrypt::hash(password, 10).ok()
}

} // verus!
