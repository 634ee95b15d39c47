//! What the desktop commands decide before and after they touch storage:
//! which workspaces a request names, and the shapes their results take.
pub mod access_logs;
pub mod audit;
pub mod harness;
pub mod monitor;
