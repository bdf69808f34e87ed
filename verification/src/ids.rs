//! Lease id generation.

use vstd::prelude::*;

verus! {

/// Relies on `uuid::Uuid::new_v4` and its `Display` impl: a fresh random
/// (version 4) UUID rendered in the hyphenated form, which is always 36
/// characters long. Randomness gives no usable uniqueness guarantee to a
/// verifier, so callers must check the id against their own table.
#[verifier::external_body]
pub(crate) fn fresh_lease_id() -> (r: String)
    ensures
        r@.len() == 36,
{
    uuid::Uuid::new_v4().to_string()
}

} // verus!
