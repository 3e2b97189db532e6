//! Fresh operation ids.

use vstd::prelude::*;

verus! {

/// Draws a random version-4 UUID with `uuid::Uuid::new_v4` and renders it
/// with the crate's `Display`, which writes the hyphenated form: 32
/// hexadecimal digits in five groups, 36 characters in all. Which id comes
/// back is left open; that it differs from earlier ones is likely and not
/// claimed. `uuid` panics if the operating system hands out no random
/// bytes.
#[verifier::external_body]
pub(crate) fn fresh_operation_id() -> (id: String)
    ensures
        id@.len() == 36,
{
    uuid::Uuid::new_v4().to_string()
}

} // verus!
