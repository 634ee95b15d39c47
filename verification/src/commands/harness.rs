//! The task a workspace's dashboard shows.
use vstd::prelude::*;
use crate::harness::TaskStatus;

verus! {

/// The open harness task of a workspace, as the dashboard shows it.
pub struct HarnessTaskSummary {
    pub id: String,
    pub objective: String,
    pub status: TaskStatus,
    pub completed_steps: Vec<String>,
    pub pending_steps: Vec<String>,
    pub updated_at: String,
}

} // verus!
