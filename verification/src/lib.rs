//! The discrete core of two-means clustering for one-dimensional data.
//!
//! The procedure decides whether a sample of real numbers is better explained
//! by one cluster or by two. Its arithmetic on real numbers is the caller's;
//! every comparison, choice and piece of bookkeeping is made here, on the
//! IEEE 754 binary64 bit patterns of the numbers involved, and is verified.
use vstd::prelude::*;

pub mod assign;
pub mod binary64;
pub mod error;
pub mod lloyd;
pub mod seed;
pub mod select;

verus! {

/// Stateless holder of the clustering steps.
pub struct TwoMeans1D {}

} // verus!
