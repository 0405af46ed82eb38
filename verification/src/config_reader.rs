use vstd::prelude::*;

use crate::config::Config;
use crate::error::Error;

verus! {

/// Interface to the run's configuration source, read once at startup.
/// Implementations live outside the library.
pub trait ConfigReader {
    fn read(&self) -> Result<Config, Error>;
}

} // verus!
