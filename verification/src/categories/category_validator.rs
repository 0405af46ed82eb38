use vstd::prelude::*;

verus! {

/// Placeholder for a category-level validator; the category checks
/// themselves live under `validations`.
pub struct CategoryValidator {}

impl CategoryValidator {
    pub fn new() -> (v: CategoryValidator) {
        CategoryValidator {  }
    }
}

} // verus!
