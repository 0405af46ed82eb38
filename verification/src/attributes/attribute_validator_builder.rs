use vstd::prelude::*;

use crate::attributes::attribute_validator::AttributeValidator;
use crate::config::Config;

verus! {

/// Builds an attribute validator from the run's configuration.
pub fn build_attribute_validator(config: &Config) -> (v: AttributeValidator)
    ensures
        v.allowed() == config.valid_types(),
{
    AttributeValidator::new(config.valid_data_types())
}

} // verus!
