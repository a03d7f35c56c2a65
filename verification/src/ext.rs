use vstd::prelude::*;

verus! {

/// Relies on uuid::Uuid::new_v4: draws a fresh random version-4 identifier.
/// The value depends on a random number generator, so nothing is assumed of
/// it beyond being a 128-bit value.
#[verifier::external_body]
pub fn fresh_random_id() -> (r: u128)
{
    uuid::Uuid::new_v4().as_u128()
}

/// Relies on uuid::Uuid::new_v4 and its Display form: draws a fresh random
/// correlation key. The value depends on a random number generator, so
/// nothing is assumed of it.
#[verifier::external_body]
pub fn fresh_random_key() -> (r: String)
{
    uuid::Uuid::new_v4().to_string()
}

} // verus!
