use vstd::prelude::*;

use crate::attributes::attribute::Attribute;
use crate::error::{Error, ErrorKind};

verus! {

/// Partial attribute as read from storage; the id may still be missing.
#[derive(Debug, Clone)]
pub struct SourceAttribute {
    pub id: Option<String>,
    pub name: String,
    pub data_type: String,
    pub unit: Option<String>,
    pub optional: Option<bool>,
}

impl SourceAttribute {
    /// The complete attribute this record resolves to, once it has an id;
    /// a missing `optional` flag defaults to `false`.
    pub open spec fn spec_to_attribute(self) -> Attribute
        recommends
            self.id is Some,
    {
        Attribute {
            id: self.id.unwrap(),
            name: self.name,
            data_type: self.data_type,
            unit: self.unit,
            optional: self.optional.unwrap_or(false),
        }
    }

    pub fn to_attribute(&self) -> (r: Result<Attribute, Error>)
        ensures
            self.id is Some ==> (r matches Ok(a) && a == self.spec_to_attribute()),
            self.id is None ==> (r matches Err(e) && e.kind == ErrorKind::MissingId),
    {
        match &self.id {
            Some(id) => {
                let optional = match self.optional {
                    Some(value) => value,
                    None => false,
                };
                let unit = match &self.unit {
                    Some(u) => Some(u.clone()),
                    None => None,
                };
                Ok(Attribute {
                    id: id.clone(),
                    name: self.name.clone(),
                    data_type: self.data_type.clone(),
                    unit,
                    optional,
                })
            },
            None => Err(
                Error::new(
                    ErrorKind::MissingId,
                    "source attribute cannot be converted to attribute without an id",
                ),
            ),
        }
    }

    pub fn to_attributes(source_attributes: &[SourceAttribute]) -> (r: Result<Vec<Attribute>, Error>)
        ensures
            (forall|i: int| 0 <= i < source_attributes@.len() ==> source_attributes@[i].id is Some)
                ==> (r matches Ok(v) && v@.len() == source_attributes@.len() && (forall|i: int|
                0 <= i < source_attributes@.len() ==> v@[i]
                    == source_attributes@[i].spec_to_attribute())),
            (exists|i: int|
                0 <= i < source_attributes@.len() && source_attributes@[i].id is None) ==> (
            r matches Err(e) && e.kind == ErrorKind::MissingId),
    {
        let mut attributes: Vec<Attribute> = Vec::new();
        let mut i: usize = 0;
        while i < source_attributes.len()
            invariant
                0 <= i <= source_attributes@.len(),
                attributes@.len() == i,
                forall|j: int| 0 <= j < i ==> source_attributes@[j].id is Some,
                forall|j: int|
                    0 <= j < i ==> attributes@[j] == source_attributes@[j].spec_to_attribute(),
            decreases source_attributes@.len() - i,
        {
            match source_attributes[i].to_attribute() {
                Ok(attribute) => attributes.push(attribute),
                Err(error) => {
                    return Err(error);
                },
            }
            i = i + 1;
        }
        Ok(attributes)
    }
}

} // verus!
