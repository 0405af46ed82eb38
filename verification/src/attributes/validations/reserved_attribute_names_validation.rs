use vstd::prelude::*;

use crate::attributes::attribute::Attribute;
use crate::error::{Error, ErrorKind};
use crate::str_views;

verus! {

/// What str::to_lowercase returns; it depends on the characters alone.
pub uninterp spec fn lower_of(s: Seq<char>) -> Seq<char>;

/// Relies on str::to_lowercase: the Unicode lowercase form of the string,
/// a function of its characters alone.
#[verifier::external_body]
fn lowercase(s: &str) -> (r: String)
    ensures
        r@ == lower_of(s@),
{
    s.to_lowercase()
}

/// Whether `name` matches one of the reserved keywords, case-insensitively
/// on the name's side (the keywords are configured in lower case).
pub open spec fn name_reserved(reserved: Seq<Seq<char>>, name: Seq<char>) -> bool {
    exists|i: int| 0 <= i < reserved.len() && reserved[i] == lower_of(name)
}

/// Rejects attributes whose name is a reserved keyword: a reserved name is
/// an immediate authoring error, so the first match fails the run.
pub struct ReservedAttributeNamesValidation {
    reserved_keywords: Vec<String>,
}

impl ReservedAttributeNamesValidation {
    pub closed spec fn reserved(&self) -> Seq<Seq<char>> {
        str_views(self.reserved_keywords@)
    }

    pub fn new(reserved_keywords: Vec<String>) -> (v: ReservedAttributeNamesValidation)
        ensures
            v.reserved() == str_views(reserved_keywords@),
    {
        ReservedAttributeNamesValidation { reserved_keywords }
    }

    /// Accepts the slice exactly when no attribute's lowercased name is a
    /// reserved keyword; the first offender fails with
    /// `ReservedKeywordUsedAsName`.
    pub fn partially_validate(&mut self, attributes: &[Attribute]) -> (r: Result<(), Error>)
        ensures
            *final(self) == *old(self),
            r is Ok <==> (forall|i: int|
                0 <= i < attributes@.len() ==> !name_reserved(
                    old(self).reserved(),
                    attributes@[i].name@,
                )),
            r matches Err(e) ==> e.kind == ErrorKind::ReservedKeywordUsedAsName,
    {
        let mut i: usize = 0;
        while i < attributes.len()
            invariant
                0 <= i <= attributes@.len(),
                *self == *old(self),
                forall|j: int|
                    0 <= j < i ==> !name_reserved(self.reserved(), attributes@[j].name@),
            decreases attributes@.len() - i,
        {
            let attribute = &attributes[i];
            let lowered = lowercase(attribute.name.as_str());
            let mut k: usize = 0;
            while k < self.reserved_keywords.len()
                invariant
                    0 <= k <= self.reserved_keywords@.len(),
                    *self == *old(self),
                    lowered@ == lower_of(attributes@[i as int].name@),
                    0 <= i < attributes@.len(),
                    forall|j: int| 0 <= j < k ==> self.reserved()[j] != lowered@,
                decreases self.reserved_keywords@.len() - k,
            {
                if lowered == self.reserved_keywords[k] {
                    assert(self.reserved()[k as int] == lower_of(attributes@[i as int].name@));
                    let mut message = String::from_str("attribute with id '");
                    message.append(attributes[i].id.as_str());
                    message.append("' is using as name a reserved keyword: ");
                    message.append(self.reserved_keywords[k].as_str());
                    return Err(Error::from_string(ErrorKind::ReservedKeywordUsedAsName, message));
                }
                k = k + 1;
            }
            i = i + 1;
        }
        Ok(())
    }

    /// Nothing is accumulated, so completion always succeeds.
    pub fn complete(&mut self) -> (r: Result<(), Error>)
        ensures
            *final(self) == *old(self),
            r is Ok,
    {
        Ok(())
    }
}

} // verus!
