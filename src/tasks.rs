use vstd::prelude::*;

verus! {

/// How a task runner executes the work handed to it.
#[derive(Clone, Copy, Debug, PartialEq, Eq, Structural)]
pub enum ProbeT {
    /// Drives the work on the calling thread.
    Blocking,
    /// Hands the work to a thread pool.
    NonBlocking,
    /// Leaves the work to a pool managed elsewhere.
    Pool,
}

} // verus!
