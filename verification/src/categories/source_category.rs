use vstd::prelude::*;

use crate::attributes::source_attribute::SourceAttribute;

verus! {

/// Partial category as read from one storage fragment: the id may still be
/// missing, and the parent may be referenced by id and/or by name.
#[derive(Debug)]
pub struct SourceCategory {
    pub id: Option<String>,
    pub parent: Option<String>,
    pub parent_name: Option<String>,
    pub name: String,
    pub selectable_as_last: Option<bool>,
    pub attributes: Vec<SourceAttribute>,
}

} // verus!
