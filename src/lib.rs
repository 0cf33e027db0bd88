use vstd::prelude::*;

verus! {

pub mod model;
pub mod permutation;
pub mod laws;
pub mod puzzle;

} // verus!
