//! The snapshot reader: what a retrieval returns for what is stored.

use vstd::prelude::*;
use crate::error::SyncError;
use crate::model::{Snapshot, SnapshotView};
use crate::reconstruct::{reconstruct, reconstruct_spec, well_parented};
use crate::rows::TablesView;
use crate::store::{MemoryStore, StoreView};

verus! {

/// What a retrieval returns for the tables `t`: the snapshot that they
/// describe, or `SyncError::Consistency` where a row names a parent that
/// is not stored.
pub open spec fn assemble_spec(t: TablesView) -> Result<SnapshotView, SyncError> {
    if well_parented(t) {
        Ok(reconstruct_spec(t))
    } else {
        Err(SyncError::Consistency)
    }
}

/// What a retrieval returns from `store`. It sees the committed tables
/// only, never those of an open transaction.
pub open spec fn read_spec(store: StoreView) -> Result<SnapshotView, SyncError> {
    assemble_spec(store.committed)
}

/// Whether `r` is the result `expected`, each snapshot taken as what it
/// stands for.
pub open spec fn is_result(r: Result<Snapshot, SyncError>, expected: Result<SnapshotView, SyncError>) -> bool {
    match r {
        Ok(s) => expected == Ok::<SnapshotView, SyncError>(s@),
        Err(e) => expected == Err::<SnapshotView, SyncError>(e),
    }
}

impl MemoryStore {
    /// The stored snapshot. A store that was never written to gives the
    /// snapshot without places.
    pub fn read(&self) -> (r: Result<Snapshot, SyncError>)
        ensures
            is_result(r, read_spec(self@)),
    {
        reconstruct(&self.committed)
    }
}

} // verus!
