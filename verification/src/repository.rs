//! The storage collaborator's interface.
//!
//! The core operates on an in-memory snapshot of batches; a repository is
//! the surrounding application's means of producing that snapshot and of
//! persisting a mutated batch back. Implementations live outside the
//! core, next to whatever store they speak to.

use vstd::prelude::*;

use crate::model::Batch;

verus! {

/// A store of batches, keyed by an identifier the store assigns.
pub trait Repository {
    /// Persist `batch` durably.
    fn add(&self, batch: Batch);

    /// Reconstruct a stored batch, allocation set included.
    fn get(&self, reference: i32) -> Batch;
}

} // verus!
