use vstd::prelude::*;
use vstd::hash_map::StringHashMap;

use crate::attributes::attribute::Attribute;
use crate::attributes::attribute_id_tracker::attribute_entries_map;
use crate::attributes::attribute_tracker_io::AttributeEntry;
use crate::error::{
    contains_seq, lemma_append_contains_left, lemma_append_contains_right, lemma_contains_self,
    lemma_contains_trans, Error, ErrorKind,
};

verus! {

/// The expectation map after the attributes have consumed their entries
/// in order.
pub open spec fn expectations_after(
    m: Map<Seq<char>, String>,
    attrs: Seq<Attribute>,
) -> Map<Seq<char>, String>
    decreases attrs.len(),
{
    if attrs.len() == 0 {
        m
    } else {
        expectations_after(m, attrs.drop_last()).remove(attrs.last().id@)
    }
}

/// Whether each attribute, at its turn, still finds its id in the
/// expectation map (each ledger id may be validated once).
pub open spec fn ids_validated_once(m: Map<Seq<char>, String>, attrs: Seq<Attribute>) -> bool
    decreases attrs.len(),
{
    if attrs.len() == 0 {
        true
    } else {
        ids_validated_once(m, attrs.drop_last()) && expectations_after(
            m,
            attrs.drop_last(),
        ).contains_key(attrs.last().id@)
    }
}

/// The (recorded type, attribute) pairs the attributes give rise to, in order.
pub open spec fn comparisons(m: Map<Seq<char>, String>, attrs: Seq<Attribute>) -> Seq<
    (Seq<char>, Attribute),
>
    decreases attrs.len(),
{
    if attrs.len() == 0 {
        Seq::empty()
    } else {
        comparisons(m, attrs.drop_last()).push(
            (expectations_after(m, attrs.drop_last())[attrs.last().id@]@, attrs.last()),
        )
    }
}

/// Whether a recorded-type/attribute pair agrees on the data type.
pub open spec fn comparison_holds(pair: (Seq<char>, Attribute)) -> bool {
    pair.0 == pair.1.data_type@
}

/// Some recorded finding names the changed attribute, its recorded type
/// and the type now observed.
pub open spec fn change_reported(failed: Seq<Error>, pair: (Seq<char>, Attribute)) -> bool {
    exists|t: int|
        0 <= t < failed.len() && contains_seq(#[trigger] failed[t].message@, pair.1.name@)
            && contains_seq(failed[t].message@, pair.0) && contains_seq(
            failed[t].message@,
            pair.1.data_type@,
        )
}

/// Holds every attribute to the data type the ledger recorded for it when
/// its id was issued. Changes are accumulated and reported at completion;
/// validating the same id twice is an immediate error.
pub struct DataTypeConstantValidation {
    expected_data_types: StringHashMap<String>,
    failed_validations: Vec<Error>,
    compared: Ghost<Seq<(Seq<char>, Attribute)>>,
}

impl DataTypeConstantValidation {
    pub closed spec fn expected(&self) -> Map<Seq<char>, String> {
        self.expected_data_types@
    }

    /// Every recorded-type/attribute pair compared so far.
    pub closed spec fn compared_pairs(&self) -> Seq<(Seq<char>, Attribute)> {
        self.compared@
    }

    /// The failure list is empty exactly when every comparison so far
    /// held, and every change is reported with its old and new type.
    pub closed spec fn wf(&self) -> bool {
        &&& (self.failed_validations@.len() == 0 <==> forall|i: int|
            0 <= i < self.compared_pairs().len() ==> comparison_holds(
                #[trigger] self.compared_pairs()[i],
            ))
        &&& (forall|i: int|
            0 <= i < self.compared_pairs().len() && !comparison_holds(
                #[trigger] self.compared_pairs()[i],
            ) ==> change_reported(self.failed_validations@, self.compared_pairs()[i]))
    }

    pub fn new(entries: &Vec<AttributeEntry>) -> (v: DataTypeConstantValidation)
        ensures
            v.wf(),
            v.expected() == attribute_entries_map(entries@),
            v.compared_pairs() == Seq::<(Seq<char>, Attribute)>::empty(),
    {
        let mut expected_data_type: StringHashMap<String> = StringHashMap::new();
        let mut i: usize = 0;
        while i < entries.len()
            invariant
                0 <= i <= entries@.len(),
                expected_data_type@ == attribute_entries_map(entries@.take(i as int)),
            decreases entries@.len() - i,
        {
            let entry = &entries[i];
            expected_data_type.insert(entry.id.clone(), entry.data_type.clone());
            proof {
                assert(entries@.take(i + 1).drop_last() =~= entries@.take(i as int));
                assert(entries@.take(i + 1).last() == entries@[i as int]);
            }
            i = i + 1;
        }
        proof {
            assert(entries@.take(entries@.len() as int) =~= entries@);
        }
        DataTypeConstantValidation {
            expected_data_types: expected_data_type,
            failed_validations: Vec::new(),
            compared: Ghost(Seq::empty()),
        }
    }

    /// Compares one category's attributes against their recorded types.
    /// A type change is recorded, not yet fatal; an id validated twice
    /// (or never issued) fails at once with `DuplicatedId`.
    pub fn partially_validate(&mut self, attributes: &[Attribute]) -> (r: Result<(), Error>)
        requires
            old(self).wf(),
        ensures
            final(self).wf(),
            r is Ok <==> ids_validated_once(old(self).expected(), attributes@),
            r is Ok ==> final(self).expected() == expectations_after(
                old(self).expected(),
                attributes@,
            ) && final(self).compared_pairs() == old(self).compared_pairs() + comparisons(
                old(self).expected(),
                attributes@,
            ),
            r matches Err(e) ==> e.kind == ErrorKind::DuplicatedId,
    {
        let mut i: usize = 0;
        while i < attributes.len()
            invariant
                0 <= i <= attributes@.len(),
                self.wf(),
                ids_validated_once(old(self).expected(), attributes@.take(i as int)),
                self.expected() == expectations_after(
                    old(self).expected(),
                    attributes@.take(i as int),
                ),
                self.compared_pairs() == old(self).compared_pairs() + comparisons(
                    old(self).expected(),
                    attributes@.take(i as int),
                ),
            decreases attributes@.len() - i,
        {
            let attribute = &attributes[i];
            proof {
                assert(attributes@.take(i as int + 1).drop_last() =~= attributes@.take(i as int));
                assert(attributes@.take(i as int + 1).last() == attributes@[i as int]);
            }
            let looked_up: Option<String> = match self.expected_data_types.get(
                attribute.id.as_str(),
            ) {
                Some(expected) => Some(expected.clone()),
                None => None,
            };
            match looked_up {
                Some(expected_data_type) => {
                    self.expected_data_types.remove(attribute.id.as_str());
                    let ghost prev = self.compared@;
                    let ghost prev_failed = self.failed_validations@;
                    let ghost pair_ok = (expected_data_type@ == attribute.data_type@);
                    if !(expected_data_type == attribute.data_type) {
                        let mut message = String::from_str("attribute '");
                        let ghost opening = message@;
                        message.append(attribute.name.as_str());
                        proof {
                            lemma_contains_self(attribute.name@);
                            lemma_append_contains_right(opening, attribute.name@, attribute.name@);
                        }
                        let ghost named = message@;
                        message.append("' with id '");
                        message.append(attribute.id.as_str());
                        message.append("' changed its data type from '");
                        let ghost before_old_type = message@;
                        message.append(expected_data_type.as_str());
                        proof {
                            lemma_contains_self(expected_data_type@);
                            lemma_append_contains_right(
                                before_old_type,
                                expected_data_type@,
                                expected_data_type@,
                            );
                        }
                        message.append("' to '");
                        let ghost before_new_type = message@;
                        message.append(attribute.data_type.as_str());
                        proof {
                            lemma_contains_self(attribute.data_type@);
                            lemma_append_contains_right(
                                before_new_type,
                                attribute.data_type@,
                                attribute.data_type@,
                            );
                        }
                        message.append("'");
                        proof {
                            let whole = message@;
                            assert(named + whole.subrange(named.len() as int, whole.len() as int)
                                =~= whole);
                            lemma_append_contains_left(
                                named,
                                whole.subrange(named.len() as int, whole.len() as int),
                                attribute.name@,
                            );
                            let mid = before_old_type + expected_data_type@;
                            assert(mid + whole.subrange(mid.len() as int, whole.len() as int)
                                =~= whole);
                            lemma_append_contains_left(
                                mid,
                                whole.subrange(mid.len() as int, whole.len() as int),
                                expected_data_type@,
                            );
                            let tail = before_new_type + attribute.data_type@;
                            assert(tail + whole.subrange(tail.len() as int, whole.len() as int)
                                =~= whole);
                            lemma_append_contains_left(
                                tail,
                                whole.subrange(tail.len() as int, whole.len() as int),
                                attribute.data_type@,
                            );
                        }
                        self.failed_validations.push(
                            Error::from_string(
                                ErrorKind::FailedDataTypeConstantAttributeValidation,
                                message,
                            ),
                        );
                    }
                    proof {
                        self.compared@ = prev.push(
                            (expected_data_type@, attributes@[i as int]),
                        );
                        assert(self.compared_pairs() =~= old(self).compared_pairs() + comparisons(
                            old(self).expected(),
                            attributes@.take(i as int + 1),
                        ));
                        if pair_ok {
                            if prev_failed.len() == 0 {
                                assert forall|j: int|
                                    0 <= j < self.compared_pairs().len() implies comparison_holds(
                                    #[trigger] self.compared_pairs()[j],
                                ) by {
                                    if j < prev.len() {
                                        assert(self.compared_pairs()[j] == prev[j]);
                                    }
                                }
                            } else {
                                let j = choose|j: int|
                                    0 <= j < prev.len() && !comparison_holds(#[trigger] prev[j]);
                                assert(self.compared_pairs()[j] == prev[j]);
                            }
                        } else {
                            assert(self.compared_pairs()[prev.len() as int] == (
                            expected_data_type@,
                            attributes@[i as int],
                            ));
                            assert(!comparison_holds(self.compared_pairs()[prev.len() as int]));
                        }
                        assert forall|j: int|
                            0 <= j < self.compared_pairs().len() && !comparison_holds(
                            #[trigger] self.compared_pairs()[j],
                        ) implies change_reported(
                            self.failed_validations@,
                            self.compared_pairs()[j],
                        ) by {
                            if j < prev.len() {
                                assert(self.compared_pairs()[j] == prev[j]);
                                let t = choose|t: int|
                                    0 <= t < prev_failed.len() && contains_seq(
                                        #[trigger] prev_failed[t].message@,
                                        prev[j].1.name@,
                                    ) && contains_seq(prev_failed[t].message@, prev[j].0)
                                        && contains_seq(
                                        prev_failed[t].message@,
                                        prev[j].1.data_type@,
                                    );
                                assert(self.failed_validations@[t] == prev_failed[t]);
                            } else {
                                assert(!pair_ok);
                                assert(self.failed_validations@[self.failed_validations@.len()
                                    - 1] == self.failed_validations@.last());
                            }
                        }
                    }
                },
                None => {
                    let mut message = String::from_str("attribute's id '");
                    message.append(attribute.id.as_str());
                    message.append("' has been validated twice");
                    proof {
                        ids_validated_once_prefix_fails(
                            old(self).expected(),
                            attributes@,
                            i as int + 1,
                        );
                    }
                    return Err(Error::from_string(ErrorKind::DuplicatedId, message));
                },
            }
            i = i + 1;
        }
        proof {
            assert(attributes@.take(attributes@.len() as int) =~= attributes@);
        }
        Ok(())
    }

    /// Succeeds exactly when no compared attribute changed its data type;
    /// otherwise reports every change at once.
    pub fn complete(&mut self) -> (r: Result<(), Error>)
        requires
            old(self).wf(),
        ensures
            final(self).wf(),
            r is Ok <==> (forall|i: int|
                0 <= i < old(self).compared_pairs().len() ==> comparison_holds(
                    #[trigger] old(self).compared_pairs()[i],
                )),
            r matches Err(e) ==> e.kind == ErrorKind::FailedDataTypeConstantAttributeValidation
                && (forall|i: int|
                0 <= i < old(self).compared_pairs().len() && !comparison_holds(
                    #[trigger] old(self).compared_pairs()[i],
                ) ==> contains_seq(e.message@, old(self).compared_pairs()[i].1.name@)
                    && contains_seq(e.message@, old(self).compared_pairs()[i].0) && contains_seq(
                    e.message@,
                    old(self).compared_pairs()[i].1.data_type@,
                )),
            final(self).expected() == old(self).expected(),
            final(self).compared_pairs() == old(self).compared_pairs(),
    {
        if self.failed_validations.len() == 0 {
            return Ok(());
        }
        let mut error_accumulation = String::new();
        let mut i: usize = 0;
        while i < self.failed_validations.len()
            invariant
                0 <= i <= self.failed_validations@.len(),
                self == old(self),
                old(self).failed_validations@.len() != 0,
                forall|t: int|
                    0 <= t < i ==> contains_seq(
                        error_accumulation@,
                        (#[trigger] self.failed_validations@[t]).message@,
                    ),
            decreases self.failed_validations@.len() - i,
        {
            let ghost sofar = error_accumulation@;
            error_accumulation.append("\n");
            let ghost broken = error_accumulation@;
            error_accumulation.append(self.failed_validations[i].message.as_str());
            proof {
                let entry = self.failed_validations@[i as int].message@;
                lemma_contains_self(entry);
                lemma_append_contains_right(broken, entry, entry);
                assert forall|t: int|
                    0 <= t < i + 1 implies contains_seq(
                    error_accumulation@,
                    (#[trigger] self.failed_validations@[t]).message@,
                ) by {
                    if t < i as int {
                        lemma_append_contains_left(
                            sofar,
                            "\n"@,
                            self.failed_validations@[t].message@,
                        );
                        lemma_append_contains_left(
                            broken,
                            entry,
                            self.failed_validations@[t].message@,
                        );
                    }
                }
            }
            i = i + 1;
        }
        proof {
            assert forall|j: int|
                0 <= j < self.compared_pairs().len() && !comparison_holds(
                #[trigger] self.compared_pairs()[j],
            ) implies contains_seq(error_accumulation@, self.compared_pairs()[j].1.name@)
                && contains_seq(error_accumulation@, self.compared_pairs()[j].0) && contains_seq(
                error_accumulation@,
                self.compared_pairs()[j].1.data_type@,
            ) by {
                let t = choose|t: int|
                    0 <= t < self.failed_validations@.len() && contains_seq(
                        #[trigger] self.failed_validations@[t].message@,
                        self.compared_pairs()[j].1.name@,
                    ) && contains_seq(
                        self.failed_validations@[t].message@,
                        self.compared_pairs()[j].0,
                    ) && contains_seq(
                        self.failed_validations@[t].message@,
                        self.compared_pairs()[j].1.data_type@,
                    );
                lemma_contains_trans(
                    error_accumulation@,
                    self.failed_validations@[t].message@,
                    self.compared_pairs()[j].1.name@,
                );
                lemma_contains_trans(
                    error_accumulation@,
                    self.failed_validations@[t].message@,
                    self.compared_pairs()[j].0,
                );
                lemma_contains_trans(
                    error_accumulation@,
                    self.failed_validations@[t].message@,
                    self.compared_pairs()[j].1.data_type@,
                );
            }
        }
        Err(
            Error::from_string(
                ErrorKind::FailedDataTypeConstantAttributeValidation,
                error_accumulation,
            ),
        )
    }
}

/// A validation sequence with a failing prefix fails as a whole.
proof fn ids_validated_once_prefix_fails(
    m: Map<Seq<char>, String>,
    attrs: Seq<Attribute>,
    n: int,
)
    requires
        0 <= n <= attrs.len(),
        !ids_validated_once(m, attrs.take(n)),
    ensures
        !ids_validated_once(m, attrs),
    decreases attrs.len() - n,
{
    if n < attrs.len() {
        assert(attrs.take(n + 1).drop_last() =~= attrs.take(n));
        ids_validated_once_prefix_fails(m, attrs, n + 1);
    } else {
        assert(attrs.take(n) =~= attrs);
    }
}

} // verus!
