use vstd::prelude::*;

verus! {

/// Relies on uuid::Uuid::new_v4, rendered through its Display form:
/// a fresh 128-bit random identifier in the 36-character hyphenated format.
/// Nothing more is assumed of it; in particular no two calls are related.
#[verifier::external_body]
pub(crate) fn random_id_string() -> (r: String)
    ensures
        r@.len() == 36,
{
    uuid::Uuid::new_v4().to_string()
}

} // verus!
