//! The script that the runner mode executes.
use vstd::prelude::*;

use crate::text::push_all;

verus! {

/// Something that can be executed from a location on disk.
pub trait Executable {
    /// Where the executable lies.
    fn get_location(&self) -> &str;
}

/// A bash script given by its path.
pub struct BashScript {
    pub path: String,
}

impl BashScript {
    /// The script at `path`.
    pub fn new(path: &str) -> (r: BashScript)
        ensures
            r.path@ == path@,
    {
        let mut p = String::new();
        push_all(&mut p, path);
        BashScript { path: p }
    }
}

impl Executable for BashScript {
    fn get_location(&self) -> (r: &str)
        ensures
            r@ == self.path@,
    {
        self.path.as_str()
    }
}

/// Runs scripts with bash.
pub struct BashExecutor;

} // verus!
