//! The result of clearing every log.
use vstd::prelude::*;

verus! {

/// How many log files were truncated and audit records deleted.
#[derive(Clone, Copy, PartialEq, Eq, Structural, Debug)]
pub struct ClearLogsResult {
    pub log_files: usize,
    pub audit_records: usize,
}

} // verus!
