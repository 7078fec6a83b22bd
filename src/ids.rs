//! Fresh identifiers for new rows and staging directories.

use vstd::prelude::*;

verus! {

/// Relies on uuid's `Uuid::new_v4` and its `Display`: a random version-4 UUID in its
/// hyphenated form, 36 characters long.
#[verifier::external_body]
pub(crate) fn new_id() -> (r: String)
    ensures
        r@.len() == 36,
{
    uuid::Uuid::new_v4().to_string()
}

} // verus!
