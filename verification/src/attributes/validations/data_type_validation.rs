use vstd::prelude::*;

use crate::attributes::attribute::Attribute;
use crate::attributes::attribute_validator::data_type_ok;
use crate::error::{
    contains_seq, lemma_append_contains_left, lemma_append_contains_right, lemma_contains_self,
    lemma_contains_trans, Error, ErrorKind,
};
use crate::str_views;

verus! {

/// Some recorded finding names the attribute.
pub open spec fn offender_named(failed: Seq<Error>, name: Seq<char>) -> bool {
    exists|t: int| 0 <= t < failed.len() && contains_seq(#[trigger] failed[t].message@, name)
}

/// Holds every attribute's data type to the configured whitelist.
/// Violations are accumulated and reported together at completion.
pub struct DataTypeValidation {
    failed_validations: Vec<Error>,
    valid_data_types: Vec<String>,
    checked: Ghost<Seq<Attribute>>,
}

impl DataTypeValidation {
    pub closed spec fn allowed(&self) -> Seq<Seq<char>> {
        str_views(self.valid_data_types@)
    }

    /// Every attribute this validation has seen so far.
    pub closed spec fn checked_attrs(&self) -> Seq<Attribute> {
        self.checked@
    }

    /// The failure list is empty exactly when every attribute seen so far
    /// had a whitelisted data type, and every offender is named in some
    /// recorded finding.
    pub closed spec fn wf(&self) -> bool {
        &&& (self.failed_validations@.len() == 0 <==> forall|i: int|
            0 <= i < self.checked@.len() ==> data_type_ok(
                self.allowed(),
                self.checked@[i].data_type@,
            ))
        &&& (forall|i: int|
            0 <= i < self.checked@.len() && !data_type_ok(
                self.allowed(),
                (#[trigger] self.checked@[i]).data_type@,
            ) ==> offender_named(self.failed_validations@, self.checked@[i].name@))
    }

    pub fn new(valid_data_types: Vec<String>) -> (v: DataTypeValidation)
        ensures
            v.wf(),
            v.allowed() == str_views(valid_data_types@),
            v.checked_attrs() == Seq::<Attribute>::empty(),
    {
        DataTypeValidation {
            failed_validations: Vec::new(),
            valid_data_types,
            checked: Ghost(Seq::empty()),
        }
    }

    fn validate_attribute_data_type(&self, attribute: &Attribute) -> (r: Result<(), Error>)
        ensures
            r is Ok <==> data_type_ok(self.allowed(), attribute.data_type@),
            r matches Err(e) ==> e.kind == ErrorKind::FailedDataTypeAttributeValidation
                && contains_seq(e.message@, attribute.name@),
    {
        let mut i: usize = 0;
        while i < self.valid_data_types.len()
            invariant
                0 <= i <= self.valid_data_types@.len(),
                forall|j: int| 0 <= j < i ==> self.allowed()[j] != attribute.data_type@,
            decreases self.valid_data_types@.len() - i,
        {
            if self.valid_data_types[i] == attribute.data_type {
                assert(self.allowed()[i as int] == attribute.data_type@);
                return Ok(());
            }
            i = i + 1;
        }
        let mut message = String::from_str("attribute '");
        let ghost opening = message@;
        message.append(attribute.name.as_str());
        proof {
            lemma_contains_self(attribute.name@);
            lemma_append_contains_right(opening, attribute.name@, attribute.name@);
        }
        let ghost named = message@;
        message.append("' with id '");
        message.append(attribute.id.as_str());
        message.append("' has an invalid data type: ");
        message.append(attribute.data_type.as_str());
        proof {
            lemma_append_contains_left(named, message@.subrange(named.len() as int, message@.len() as int), attribute.name@);
            assert(named + message@.subrange(named.len() as int, message@.len() as int) =~= message@);
        }
        Err(Error::from_string(ErrorKind::FailedDataTypeAttributeValidation, message))
    }

    /// Checks one category's attributes; findings are recorded, never fatal here.
    pub fn partially_validate(&mut self, attributes: &[Attribute]) -> (r: Result<(), Error>)
        requires
            old(self).wf(),
        ensures
            final(self).wf(),
            r is Ok,
            final(self).allowed() == old(self).allowed(),
            final(self).checked_attrs() == old(self).checked_attrs() + attributes@,
    {
        let mut i: usize = 0;
        while i < attributes.len()
            invariant
                0 <= i <= attributes@.len(),
                self.wf(),
                self.allowed() == old(self).allowed(),
                self.checked_attrs() == old(self).checked_attrs() + attributes@.take(i as int),
            decreases attributes@.len() - i,
        {
            let ghost prev = self.checked@;
            let ghost prev_failed = self.failed_validations@;
            let attribute_ok = match self.validate_attribute_data_type(&attributes[i]) {
                Ok(_) => true,
                Err(error) => {
                    self.failed_validations.push(error);
                    false
                },
            };
            proof {
                self.checked@ = prev.push(attributes@[i as int]);
                assert(self.checked_attrs() =~= old(self).checked_attrs() + attributes@.take(
                    i as int + 1,
                ));
                if attribute_ok {
                    if prev_failed.len() == 0 {
                        assert forall|j: int| 0 <= j < self.checked@.len() implies data_type_ok(
                            self.allowed(),
                            self.checked@[j].data_type@,
                        ) by {
                            if j < prev.len() {
                                assert(self.checked@[j] == prev[j]);
                            }
                        }
                    } else {
                        let j = choose|j: int|
                            0 <= j < prev.len() && !data_type_ok(
                                self.allowed(),
                                prev[j].data_type@,
                            );
                        assert(self.checked@[j] == prev[j]);
                    }
                } else {
                    assert(self.checked@[prev.len() as int] == attributes@[i as int]);
                }
                assert forall|j: int|
                    0 <= j < self.checked@.len() && !data_type_ok(
                    self.allowed(),
                    (#[trigger] self.checked@[j]).data_type@,
                ) implies offender_named(
                    self.failed_validations@,
                    self.checked@[j].name@,
                ) by {
                    if j < prev.len() {
                        assert(self.checked@[j] == prev[j]);
                        let t = choose|t: int|
                            0 <= t < prev_failed.len() && contains_seq(
                                #[trigger] prev_failed[t].message@,
                                prev[j].name@,
                            );
                        assert(self.failed_validations@[t] == prev_failed[t]);
                    } else {
                        assert(!attribute_ok);
                        assert(contains_seq(
                            self.failed_validations@.last().message@,
                            attributes@[i as int].name@,
                        ));
                        assert(self.failed_validations@[self.failed_validations@.len() - 1]
                            == self.failed_validations@.last());
                    }
                }
            }
            i = i + 1;
        }
        proof {
            assert(attributes@.take(attributes@.len() as int) =~= attributes@);
        }
        Ok(())
    }

    /// Succeeds exactly when every attribute seen had a whitelisted data
    /// type; otherwise reports all findings at once.
    pub fn complete(&mut self) -> (r: Result<(), Error>)
        requires
            old(self).wf(),
        ensures
            final(self).wf(),
            r is Ok <==> (forall|i: int|
                0 <= i < old(self).checked_attrs().len() ==> data_type_ok(
                    old(self).allowed(),
                    old(self).checked_attrs()[i].data_type@,
                )),
            r matches Err(e) ==> e.kind == ErrorKind::FailedDataTypeAttributeValidation && (
            forall|i: int|
                0 <= i < old(self).checked_attrs().len() && !data_type_ok(
                    old(self).allowed(),
                    (#[trigger] old(self).checked_attrs()[i]).data_type@,
                ) ==> contains_seq(e.message@, old(self).checked_attrs()[i].name@)),
            final(self).allowed() == old(self).allowed(),
            final(self).checked_attrs() == old(self).checked_attrs(),
    {
        if self.failed_validations.len() == 0 {
            return Ok(());
        }
        let mut error_accumulation = String::new();
        let mut i: usize = 0;
        while i < self.failed_validations.len()
            invariant
                0 <= i <= self.failed_validations@.len(),
                self == old(self),
                old(self).failed_validations@.len() != 0,
                forall|t: int|
                    0 <= t < i ==> contains_seq(
                        error_accumulation@,
                        (#[trigger] self.failed_validations@[t]).message@,
                    ),
            decreases self.failed_validations@.len() - i,
        {
            let ghost sofar = error_accumulation@;
            error_accumulation.append("\n");
            let ghost broken = error_accumulation@;
            error_accumulation.append(self.failed_validations[i].message.as_str());
            proof {
                let entry = self.failed_validations@[i as int].message@;
                lemma_contains_self(entry);
                lemma_append_contains_right(broken, entry, entry);
                assert forall|t: int|
                    0 <= t < i + 1 implies contains_seq(
                    error_accumulation@,
                    (#[trigger] self.failed_validations@[t]).message@,
                ) by {
                    if t < i as int {
                        lemma_append_contains_left(
                            sofar,
                            "\n"@,
                            self.failed_validations@[t].message@,
                        );
                        lemma_append_contains_left(
                            broken,
                            entry,
                            self.failed_validations@[t].message@,
                        );
                    }
                }
            }
            i = i + 1;
        }
        proof {
            assert forall|j: int|
                0 <= j < self.checked@.len() && !data_type_ok(
                self.allowed(),
                (#[trigger] self.checked@[j]).data_type@,
            ) implies contains_seq(error_accumulation@, self.checked@[j].name@) by {
                let t = choose|t: int|
                    0 <= t < self.failed_validations@.len() && contains_seq(
                        #[trigger] self.failed_validations@[t].message@,
                        self.checked@[j].name@,
                    );
                lemma_contains_trans(
                    error_accumulation@,
                    self.failed_validations@[t].message@,
                    self.checked@[j].name@,
                );
            }
        }
        Err(Error::from_string(ErrorKind::FailedDataTypeAttributeValidation, error_accumulation))
    }
}

} // verus!
