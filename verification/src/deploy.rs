//! Contract deployment is a declared non-goal: the operation exists so
//! call sites can name it, and it reports itself unavailable instead of
//! doing any work.

use vstd::prelude::*;

verus! {

/// The placeholder deployment operation.
#[derive(Clone, Copy, Debug, Default)]
pub struct Deploy {}

impl Deploy {
    /// Deployment is never available in this crate.
    pub fn available(&self) -> (r: bool)
        ensures
            !r,
    {
        false
    }
}

} // verus!
