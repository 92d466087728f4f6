//! Capturing the memory in use.
use vstd::prelude::*;

verus! {

/// Handle the data for the memory in use
pub trait MemoryCapturer {
    /// Capture the memory status and assign it to `self`.
    fn capture(&mut self);
}

} // verus!
