use vstd::prelude::*;

use crate::str_views;

verus! {

/// The run's immutable configuration: the attribute data-type whitelist
/// and the reserved keywords no attribute may be named after.
#[derive(Debug)]
pub struct Config {
    valid_data_types: Vec<String>,
    reserved_keywords: Vec<String>,
}

impl Config {
    pub closed spec fn valid_types(&self) -> Seq<Seq<char>> {
        str_views(self.valid_data_types@)
    }

    pub closed spec fn reserved(&self) -> Seq<Seq<char>> {
        str_views(self.reserved_keywords@)
    }

    pub fn new(valid_data_types: Vec<String>, reserved_keywords: Vec<String>) -> (c: Config)
        ensures
            c.valid_types() == str_views(valid_data_types@),
            c.reserved() == str_views(reserved_keywords@),
    {
        Config { valid_data_types, reserved_keywords }
    }

    pub fn valid_data_types(&self) -> (r: Vec<String>)
        ensures
            str_views(r@) == self.valid_types(),
    {
        let mut valid_data_types_copy: Vec<String> = Vec::new();
        let mut i: usize = 0;
        while i < self.valid_data_types.len()
            invariant
                0 <= i <= self.valid_data_types@.len(),
                valid_data_types_copy@.len() == i,
                forall|j: int|
                    0 <= j < i ==> valid_data_types_copy@[j]@ == self.valid_data_types@[j]@,
            decreases self.valid_data_types@.len() - i,
        {
            valid_data_types_copy.push(self.valid_data_types[i].clone());
            i = i + 1;
        }
        proof {
            assert(str_views(valid_data_types_copy@) =~= self.valid_types());
        }
        valid_data_types_copy
    }

    pub fn reserved_keywords(&self) -> (r: Vec<String>)
        ensures
            str_views(r@) == self.reserved(),
    {
        let mut reserved_keywords_copy: Vec<String> = Vec::new();
        let mut i: usize = 0;
        while i < self.reserved_keywords.len()
            invariant
                0 <= i <= self.reserved_keywords@.len(),
                reserved_keywords_copy@.len() == i,
                forall|j: int|
                    0 <= j < i ==> reserved_keywords_copy@[j]@ == self.reserved_keywords@[j]@,
            decreases self.reserved_keywords@.len() - i,
        {
            reserved_keywords_copy.push(self.reserved_keywords[i].clone());
            i = i + 1;
        }
        proof {
            assert(str_views(reserved_keywords_copy@) =~= self.reserved());
        }
        reserved_keywords_copy
    }
}

} // verus!
