use vstd::prelude::*;

use crate::attributes::source_attribute::SourceAttribute;

verus! {

/// Complete, in-memory attribute: the id is present and `optional` is resolved.
#[derive(Debug, Clone)]
pub struct Attribute {
    pub id: String,
    pub name: String,
    pub data_type: String,
    pub unit: Option<String>,
    pub optional: bool,
}

impl Attribute {
    /// The partial record that persisting this attribute writes back.
    pub open spec fn spec_to_source(self) -> SourceAttribute {
        SourceAttribute {
            id: Some(self.id),
            name: self.name,
            data_type: self.data_type,
            unit: self.unit,
            optional: Some(self.optional),
        }
    }

    pub fn to_source_attribute(&self) -> (s: SourceAttribute)
        ensures
            s == self.spec_to_source(),
    {
        let unit = match &self.unit {
            Some(u) => Some(u.clone()),
            None => None,
        };
        SourceAttribute {
            id: Some(self.id.clone()),
            name: self.name.clone(),
            data_type: self.data_type.clone(),
            unit,
            optional: Some(self.optional),
        }
    }

    pub fn to_source_attributes(attributes: &[Attribute]) -> (r: Vec<SourceAttribute>)
        ensures
            r@.len() == attributes@.len(),
            forall|i: int|
                0 <= i < attributes@.len() ==> r@[i] == attributes@[i].spec_to_source(),
    {
        let mut source_attributes: Vec<SourceAttribute> = Vec::new();
        let mut i: usize = 0;
        while i < attributes.len()
            invariant
                0 <= i <= attributes@.len(),
                source_attributes@.len() == i,
                forall|j: int|
                    0 <= j < i ==> source_attributes@[j] == attributes@[j].spec_to_source(),
            decreases attributes@.len() - i,
        {
            source_attributes.push(attributes[i].to_source_attribute());
            i = i + 1;
        }
        source_attributes
    }
}

} // verus!
