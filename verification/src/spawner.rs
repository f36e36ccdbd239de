//! The handle through which the surrounding program starts its tasks.

use vstd::prelude::*;

verus! {

/// A token for the task runtime of the surrounding program.
#[derive(Copy, Clone, Debug, PartialEq, Eq, Hash, Structural)]
pub struct Spawner;

impl Spawner {
    pub fn new() -> (s: Self)
        ensures
            s == Spawner,
    {
        Spawner
    }
}

} // verus!
