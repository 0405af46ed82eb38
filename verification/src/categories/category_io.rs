use vstd::prelude::*;

use crate::categories::source_category::SourceCategory;
use crate::error::Error;

verus! {

/// Interface to the storage of one category fragment: read the partial
/// record, write a record back, and derive the parent name from the
/// fragment's position. Implementations live outside the library.
pub trait CategoryIO {
    fn read(&mut self) -> Result<SourceCategory, Error>;

    fn write(&self, category: &SourceCategory) -> Result<(), Error>;

    fn parent_name(&self) -> Result<Option<String>, Error>;
}

} // verus!
