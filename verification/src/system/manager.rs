//! Capturing the state of the system's resources.
use vstd::prelude::*;

verus! {

/// Handle the data for system resources
pub trait SystemCapturer: Sized {
    /// Capture the system status and assign it to `self`.
    fn capture(&mut self);

    /// The change from `self` to `other`.
    fn compare(&self, other: &Self) -> Self;
}

} // verus!
