use vstd::prelude::*;

use crate::categories::category_id_tracker::CategoryEntry;
use crate::error::Error;

verus! {

/// Interface to the category id ledger: read everything, append one entry.
/// Implementations live outside the library, next to the storage they use.
pub trait CategoryIdTrackerIO {
    fn read_entries(&self) -> Result<Vec<CategoryEntry>, Error>;

    fn write_entry(&self, entry: &CategoryEntry) -> Result<(), Error>;
}

} // verus!
