use vstd::prelude::*;

use crate::categories::source_category::SourceCategory;
use crate::error::{Error, ErrorKind};
use crate::idgen::random_id_string;

verus! {

/// Assigns a fresh random id to the category.
///
/// Id assignment is strictly additive: a record that already carries an id
/// is never overwritten, and the call fails with `CannotOverrideId`.
pub fn set_random_id(source_category: &mut SourceCategory) -> (r: Result<(), Error>)
    ensures
        old(source_category).id is Some ==> (r matches Err(e) && e.kind
            == ErrorKind::CannotOverrideId && *final(source_category) == *old(source_category)),
        old(source_category).id is None ==> r is Ok && (final(source_category).id matches Some(id)
            && id@.len() == 36) && final(source_category).name == old(source_category).name
            && final(source_category).parent == old(source_category).parent && final(source_category).parent_name == old(source_category).parent_name && final(source_category).selectable_as_last == old(source_category).selectable_as_last && final(source_category).attributes == old(source_category).attributes,
{
    match &source_category.id {
        Some(_) => {
            let mut message = String::from_str("category '");
            message.append(source_category.name.as_str());
            message.append("' already has an id");
            Err(Error::from_string(ErrorKind::CannotOverrideId, message))
        },
        None => {
            let id = random_id_string();
            source_category.id = Some(id);
            Ok(())
        },
    }
}

} // verus!
