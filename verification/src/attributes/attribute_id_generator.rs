use vstd::prelude::*;

use crate::attributes::source_attribute::SourceAttribute;
use crate::error::{Error, ErrorKind};
use crate::idgen::random_id_string;

verus! {

/// Assigns a fresh random id to the attribute.
///
/// Id assignment is strictly additive: a record that already carries an id
/// is never overwritten, and the call fails with `CannotOverrideId`.
pub fn set_random_id(attribute: &mut SourceAttribute) -> (r: Result<(), Error>)
    ensures
        old(attribute).id is Some ==> (r matches Err(e) && e.kind == ErrorKind::CannotOverrideId
            && *final(attribute) == *old(attribute)),
        old(attribute).id is None ==> r is Ok && (final(attribute).id matches Some(id)
            && id@.len() == 36) && final(attribute).name == old(attribute).name
            && final(attribute).data_type == old(attribute).data_type && final(attribute).unit
            == old(attribute).unit && final(attribute).optional == old(attribute).optional,
{
    match &attribute.id {
        Some(_) => Err(Error::new(ErrorKind::CannotOverrideId, "attribute already has an id")),
        None => {
            let id = random_id_string();
            attribute.id = Some(id);
            Ok(())
        },
    }
}

} // verus!
