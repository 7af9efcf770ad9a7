//! Generation of fresh map identifiers.

use vstd::prelude::*;

verus! {

/// Relies on `uuid::Uuid::new_v4` and the `Display` of `uuid::Uuid`: a
/// fresh random version-4 UUID rendered in its hyphenated form, which is
/// always 36 characters long.
#[verifier::external_body]
pub fn fresh_uuid() -> (r: String)
    ensures
        r@.len() == 36,
{
    uuid::Uuid::new_v4().to_string()
}

} // verus!
