//! The persisted state of the Resource index as a whole.

use vstd::prelude::*;

use crate::text::copy_optional;

verus! {

/// Whether the Resource index describes the Workspace as it was last seen.
#[derive(Debug, Clone, Copy, PartialEq, Eq, Structural)]
pub enum FreshnessState {
    Current,
    /// A change was seen and the inventory has not been recovered yet.
    Dirty,
}

/// Whether the Resource index has work outstanding.
#[derive(Debug, Clone, Copy, PartialEq, Eq, Structural)]
pub enum ProcessingState {
    Ready,
    Queued,
}

/// The error code of an index that a failed recovery left dirty.
pub const RECONCILE_FAILED_CODE: &'static str = "RECONCILE_FAILED";

/// The `RESOURCE_INDEX` component's row.
#[derive(Debug, PartialEq, Eq)]
pub struct ResourceIndexState {
    pub processing_state: ProcessingState,
    pub freshness_state: FreshnessState,
    /// The Workspace revision that the state was recorded against.
    pub basis_workspace_revision: String,
    /// The generation that last made the index current.
    pub stable_generation_id: Option<i64>,
    pub last_error_code: Option<String>,
}

impl Clone for ResourceIndexState {
    fn clone(&self) -> (copy: Self)
        ensures
            copy == *self,
    {
        ResourceIndexState {
            processing_state: self.processing_state,
            freshness_state: self.freshness_state,
            basis_workspace_revision: self.basis_workspace_revision.clone(),
            stable_generation_id: self.stable_generation_id,
            last_error_code: copy_optional(&self.last_error_code),
        }
    }
}

} // verus!
