//! The one way in which an input can be refused.
use vstd::prelude::*;

verus! {

/// An input on which clustering cannot start.
#[derive(Debug, Clone, Copy, PartialEq, Eq, Structural)]
pub enum InputError {
    /// The sample set has fewer than two elements, so no pair of seed
    /// centroids can be formed from it.
    TooFewSamples,
}

} // verus!
