//! Stable identifiers: every record is keyed by a string id that serves as
//! the join key between the local and the remote copy.

use vstd::prelude::*;

verus! {

/// Relies on uuid's `Uuid::new_v4` and its `Display` impl: a fresh random
/// identifier in the hyphenated form, which is always 36 ASCII characters.
/// Nothing is assumed about which value comes back.
#[verifier::external_body]
pub(crate) fn fresh_id() -> (r: String)
    ensures
        r@.len() == 36,
{
    uuid::Uuid::new_v4().to_string()
}

} // verus!
