//! Identifiers that nobody else has.
use vstd::prelude::*;

verus! {

/// `uuid::Uuid::now_v7`, written as `Uuid` prints it: a hyphenated UUID of 36 characters. It
/// is made of the time and of random bits, so nothing more can be said of it.
#[verifier::external_body]
pub(crate) fn fresh_id() -> (r: String)
    ensures
        r@.len() == 36,
{
    uuid::Uuid::now_v7().to_string()
}

} // verus!
