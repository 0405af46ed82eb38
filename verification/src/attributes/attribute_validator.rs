use vstd::prelude::*;

use crate::attributes::source_attribute::SourceAttribute;
use crate::error::{
    contains_seq, lemma_append_contains_left, lemma_append_contains_right, lemma_contains_self,
    Error, ErrorKind,
};
use crate::str_views;

verus! {

/// Whether `data_type` is one of the allowed data types.
pub open spec fn data_type_ok(allowed: Seq<Seq<char>>, data_type: Seq<char>) -> bool {
    exists|i: int| 0 <= i < allowed.len() && allowed[i] == data_type
}

/// Holds attributes to the configured data-type whitelist, one at a time.
pub struct AttributeValidator {
    valid_data_types: Vec<String>,
}

impl AttributeValidator {
    pub closed spec fn allowed(&self) -> Seq<Seq<char>> {
        str_views(self.valid_data_types@)
    }

    pub fn new(valid_data_types: Vec<String>) -> (v: AttributeValidator)
        ensures
            v.allowed() == str_views(valid_data_types@),
    {
        AttributeValidator { valid_data_types }
    }

    fn is_data_type_valid(&self, attribute: &SourceAttribute) -> (r: bool)
        ensures
            r == data_type_ok(self.allowed(), attribute.data_type@),
    {
        let mut i: usize = 0;
        while i < self.valid_data_types.len()
            invariant
                0 <= i <= self.valid_data_types@.len(),
                forall|j: int| 0 <= j < i ==> self.allowed()[j] != attribute.data_type@,
            decreases self.valid_data_types@.len() - i,
        {
            if self.valid_data_types[i] == attribute.data_type {
                assert(self.allowed()[i as int] == attribute.data_type@);
                return true;
            }
            i = i + 1;
        }
        false
    }

    /// Accepts the attribute exactly when its data type is whitelisted;
    /// otherwise fails with `InvalidDataType`, naming the attribute (by id
    /// where it has one, by name otherwise) and the offending type.
    pub fn check_attribute_validity(&self, attribute: &SourceAttribute) -> (r: Result<(), Error>)
        ensures
            r is Ok <==> data_type_ok(self.allowed(), attribute.data_type@),
            r matches Err(e) ==> e.kind == ErrorKind::InvalidDataType && contains_seq(
                e.message@,
                attribute.data_type@,
            ) && (attribute.id matches Some(id) ==> contains_seq(e.message@, id@)) && (
            attribute.id is None ==> contains_seq(e.message@, attribute.name@)),
    {
        if !self.is_data_type_valid(attribute) {
            let mut message = String::from_str("attribute '");
            let ghost opening = message@;
            match &attribute.id {
                Some(id) => message.append(id.as_str()),
                None => message.append(attribute.name.as_str()),
            }
            let ghost identifier = if attribute.id is Some {
                attribute.id.unwrap()@
            } else {
                attribute.name@
            };
            proof {
                lemma_contains_self(identifier);
                lemma_append_contains_right(opening, identifier, identifier);
            }
            message.append("' has an invalid data type: ");
            proof {
                lemma_append_contains_left(opening + identifier, "' has an invalid data type: "@, identifier);
            }
            let ghost named = message@;
            message.append(attribute.data_type.as_str());
            proof {
                lemma_append_contains_left(named, attribute.data_type@, identifier);
                lemma_contains_self(attribute.data_type@);
                lemma_append_contains_right(named, attribute.data_type@, attribute.data_type@);
            }
            return Err(Error::from_string(ErrorKind::InvalidDataType, message));
        }
        Ok(())
    }
}

} // verus!
