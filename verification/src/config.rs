//! The global configuration record: the tool's own version string,
//! persisted once at initialization.

use vstd::prelude::*;
use vstd::string::*;

verus! {

/// The version string written into a fresh configuration record.
pub open spec fn spec_default_version() -> Seq<char> {
    "0.1.0"@
}

/// The process-wide configuration record. Carries no command data.
#[derive(Debug, Clone)]
pub struct Config {
    pub version: String,
}

impl Default for Config {
    /// A fresh configuration carrying the tool's current version.
    fn default() -> (r: Config)
        ensures
            r.version@ == spec_default_version(),
    {
        Config { version: "0.1.0".to_owned() }
    }
}

} // verus!
