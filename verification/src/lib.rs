pub mod args;
pub mod matching;
pub mod picker;
pub mod rank;
pub mod shelf;
pub mod template;

use vstd::prelude::*;

verus! {

/// Persisted settings: where the command shelf file lives.
pub struct Config {
    pub storage_path: String,
}

impl Config {
    /// Builds a configuration that stores commands at the given path.
    pub fn new(storage_path: String) -> (c: Config)
        ensures
            c.storage_path@ == storage_path@,
    {
        Config { storage_path }
    }
}

} // verus!
