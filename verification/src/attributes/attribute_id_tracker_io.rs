use vstd::prelude::*;

use crate::attributes::attribute_tracker_io::AttributeEntry;
use crate::error::Error;

verus! {

/// Older name of the attribute ledger interface, kept for callers that
/// still use it; same read-all / append-one shape as `AttributeTrackerIO`.
pub trait AttributeIdTrackerIO {
    fn read_entries(&self) -> Result<Vec<AttributeEntry>, Error>;

    fn write_entry(&self, entry: &AttributeEntry) -> Result<(), Error>;
}

} // verus!
