//! Where the progress of a running pipe is kept.

use vstd::prelude::*;

use crate::error::Failure;

verus! {

/// The durable state of a running pipe. The driver reports progress here; what is kept,
/// and where, is up to the implementation.
pub trait PipeStore {
    /// Persists where the pipe `id` resumes, so that a restart continues from there. It is
    /// called once a chunk is durably written.
    fn checkpoint(&self, id: u128, cursor: Option<String>) -> Result<(), Failure>;
}

/// A store that keeps nothing: the cursor advances in memory for the run.
#[derive(Debug)]
pub struct NoPipeStore;

impl PipeStore for NoPipeStore {
    fn checkpoint(&self, id: u128, cursor: Option<String>) -> (r: Result<(), Failure>)
        ensures
            r is Ok,
    {
        Ok(())
    }
}

} // verus!
