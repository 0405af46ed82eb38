use vstd::prelude::*;

use crate::error::Error;

verus! {

/// One attribute ledger record: the id ever issued and the data type
/// recorded when it was issued.
#[derive(Debug, Clone)]
pub struct AttributeEntry {
    pub id: String,
    pub data_type: String,
}

/// Interface to the attribute id ledger: read everything, append one entry.
/// Implementations live outside the library, next to the storage they use.
pub trait AttributeTrackerIO {
    fn read_entries(&self) -> Result<Vec<AttributeEntry>, Error>;

    fn write_entry(&self, entry: &AttributeEntry) -> Result<(), Error>;
}

} // verus!
