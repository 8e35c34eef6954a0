//! Fresh identifiers.

use vstd::prelude::*;

verus! {

/// `uuid::Uuid::new_v4` and its hyphenated text: random, and always 36
/// characters long. That two of them differ is a matter of chance and is not
/// claimed.
#[verifier::external_body]
pub(crate) fn fresh_id() -> (r: String)
    ensures
        r@.len() == 36,
{
    uuid::Uuid::new_v4().to_string()
}

} // verus!
