//! Fresh identifiers for sessions and matches.

use vstd::prelude::*;

verus! {

/// Mints an identifier with `uuid::Uuid::new_v4` and writes it with the
/// crate's `Display`, the hyphenated lower-case form. Which identifier comes
/// back depends on the system's random source, so nothing is claimed of it
/// but the length of that form, 36 characters.
#[verifier::external_body]
pub(crate) fn new_uuid() -> (id: String)
    ensures
        id@.len() == 36,
{
    uuid::Uuid::new_v4().to_string()
}

} // verus!
