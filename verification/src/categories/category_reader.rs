use vstd::prelude::*;

use crate::error::Error;

verus! {

/// Interface to a reader that discovers every category fragment and hands
/// back its raw text. Implementations live outside the library.
pub trait CategoryReader {
    /// Reads all available categories as JSON strings.
    fn read_json_category(&mut self) -> Result<Vec<String>, Error>;
}

} // verus!
