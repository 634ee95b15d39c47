//! What the goal monitor reads from the task harness: the state of the tasks
//! and the operations it recently logged.
use vstd::prelude::*;

verus! {

/// Lifecycle state of a harness task.
#[derive(Clone, Copy, PartialEq, Eq, Structural, Debug)]
pub enum TaskStatus {
    Active,
    Verifying,
    Paused,
    Failed,
    Completed,
    CompletedUnverified,
    RolledBack,
}

/// One task as the harness reports it.
pub struct TaskSnapshot {
    pub id: String,
    pub status: TaskStatus,
    /// Milliseconds since the Unix epoch, in decimal.
    pub updated_at: String,
}

/// One logged operation as the harness reports it.
pub struct OperationSnapshot {
    pub task_id: Option<String>,
    /// Milliseconds since the Unix epoch, in decimal.
    pub created_at: String,
}

/// The harness state a goal refresh looks at: the tasks the harness can
/// return by id, and its most recent operations (`None` where the harness
/// could not list them).
pub struct HarnessSnapshot {
    pub tasks: Vec<TaskSnapshot>,
    pub recent_operations: Option<Vec<OperationSnapshot>>,
}

} // verus!
