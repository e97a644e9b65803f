//! The one error of the crate.

use vstd::prelude::*;

verus! {

/// The error for a pool that was asked for with no workers.
///
/// It carries nothing: there is one way to fail, and when it happens no
/// worker has been started and nothing needs to be undone.
#[derive(Clone, Copy, Debug, PartialEq, Eq)]
pub struct PoolCreationError {}

impl PoolCreationError {
    /// The text shown to the person who configured the pool.
    pub fn message(&self) -> (text: String)
        ensures
            text@ == "Oops! Invalid thread size. We can't make threads `0`"@,
    {
        "Oops! Invalid thread size. We can't make threads `0`".to_owned()
    }
}

} // verus!
