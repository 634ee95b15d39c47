//! How a tool result is classified for the audit.
use vstd::prelude::*;
use crate::monitor::model::{opt_view, copy_opt};
use crate::text::{owned, same_text};

verus! {

/// What the classification reads of a tool's structured output: the
/// `ok`, `transport_ok` and `command_ok` flags, `status`, the `error`
/// object's `category`, `code` and `message`, `summary`, `exit_code` and
/// `termination_reason`; a field that is absent or of another JSON type is
/// `None`.
pub struct ToolOutputFields {
    pub ok: Option<bool>,
    pub transport_ok: Option<bool>,
    pub command_ok: Option<bool>,
    pub status: Option<String>,
    pub error_category: Option<String>,
    pub error_code: Option<String>,
    pub error_message: Option<String>,
    pub summary: Option<String>,
    pub exit_code: Option<i64>,
    pub termination_reason: Option<String>,
}

/// How a call is recorded: `success`, `failure` or `rejected`, whether it
/// is an error, and what the output says of the error and the command.
pub struct ResponseMetadata {
    pub status: String,
    pub is_error: bool,
    pub error_code: Option<String>,
    pub error_message: Option<String>,
    pub exit_code: Option<i64>,
    pub termination_reason: Option<String>,
}

/// A `kill_session` that reports its session killed or exited has done
/// its job, whatever the killed command returned.
pub open spec fn session_killed(tool: Seq<char>, o: ToolOutputFields) -> bool {
    tool == "kill_session"@ && (opt_view(o.status) == Some("killed"@) || opt_view(o.status) == Some(
        "exited"@,
    ))
}

/// A call failed when the tool, the transport or (but for a completed
/// session kill) the command reports failure.
pub open spec fn call_failed(tool: Seq<char>, o: ToolOutputFields) -> bool {
    o.ok == Some(false) || o.transport_ok == Some(false) || (!session_killed(tool, o) && o.command_ok
        == Some(false))
}

/// The audit status: errors of the policy, permission or security category
/// are refusals, other errors failures.
pub open spec fn audit_status(tool: Seq<char>, o: ToolOutputFields) -> Seq<char> {
    if !call_failed(tool, o) {
        "success"@
    } else if opt_view(o.error_category) == Some("policy"@) || opt_view(o.error_category) == Some(
        "permission"@,
    ) || opt_view(o.error_category) == Some("security"@) {
        "rejected"@
    } else {
        "failure"@
    }
}

fn opt_is(o: &Option<String>, t: &str) -> (r: bool)
    ensures
        r == (opt_view(*o) == Some(t@)),
{
    match o {
        Some(s) => same_text(s.as_str(), t),
        None => false,
    }
}

/// `r` is how the result `o` of tool `tool` is recorded: its status and
/// error flag, the error code, the error message for errors only (from the
/// error object, else the summary), the exit code and termination reason.
pub open spec fn classifies(tool: Seq<char>, o: ToolOutputFields, r: ResponseMetadata) -> bool {
    &&& r.is_error == call_failed(tool, o)
    &&& r.status@ == audit_status(tool, o)
    &&& opt_view(r.error_code) == opt_view(o.error_code)
    &&& opt_view(r.error_message) == (if call_failed(tool, o) {
        match opt_view(o.error_message) {
            Some(m) => Some(m),
            None => opt_view(o.summary),
        }
    } else {
        None
    })
    &&& r.exit_code == o.exit_code
    &&& opt_view(r.termination_reason) == opt_view(o.termination_reason)
}

/// Classifies a tool result. The error message is kept for errors only,
/// taken from the error object or else from the summary.
pub fn response_metadata(tool_name: &str, output: &ToolOutputFields) -> (r: ResponseMetadata)
    ensures
        classifies(tool_name@, *output, r),
        r.is_error == call_failed(tool_name@, *output),
        r.status@ == audit_status(tool_name@, *output),
        opt_view(r.error_code) == opt_view(output.error_code),
        opt_view(r.error_message) == (if call_failed(tool_name@, *output) {
            match opt_view(output.error_message) {
                Some(m) => Some(m),
                None => opt_view(output.summary),
            }
        } else {
            None
        }),
        r.exit_code == output.exit_code,
        opt_view(r.termination_reason) == opt_view(output.termination_reason),
{
    let killed = same_text(tool_name, "kill_session") && (opt_is(&output.status, "killed")
        || opt_is(&output.status, "exited"));
    let is_error = output.ok == Some(false) || output.transport_ok == Some(false) || (!killed
        && output.command_ok == Some(false));
    let status = if !is_error {
        owned("success")
    } else if opt_is(&output.error_category, "policy") || opt_is(&output.error_category, "permission")
        || opt_is(&output.error_category, "security") {
        owned("rejected")
    } else {
        owned("failure")
    };
    let error_message = if is_error {
        match &output.error_message {
            Some(m) => Some(m.clone()),
            None => copy_opt(&output.summary),
        }
    } else {
        None
    };
    ResponseMetadata {
        status,
        is_error,
        error_code: copy_opt(&output.error_code),
        error_message,
        exit_code: output.exit_code,
        termination_reason: copy_opt(&output.termination_reason),
    }
}

/// A call the tool reports as not ok is an error: a refusal (error category
/// `policy`, `permission` or `security`) is recorded as `rejected`, any
/// other error as `failure`, whatever the tool.
pub proof fn lemma_refusals_are_rejected(tool: Seq<char>, o: ToolOutputFields, r: ResponseMetadata)
    requires
        classifies(tool, o, r),
        o.ok == Some(false) || o.transport_ok == Some(false),
    ensures
        r.is_error,
        opt_view(o.error_category) == Some("policy"@) || opt_view(o.error_category) == Some(
            "permission"@,
        ) || opt_view(o.error_category) == Some("security"@) ==> r.status@ == "rejected"@,
        !(opt_view(o.error_category) == Some("policy"@) || opt_view(o.error_category) == Some(
            "permission"@,
        ) || opt_view(o.error_category) == Some("security"@)) ==> r.status@ == "failure"@,
{
}

/// A call that no flag reports as failed is a success, with no error
/// message, whatever its error category.
pub proof fn lemma_unfailed_is_success(tool: Seq<char>, o: ToolOutputFields, r: ResponseMetadata)
    requires
        classifies(tool, o, r),
        o.ok != Some(false),
        o.transport_ok != Some(false),
        o.command_ok != Some(false),
    ensures
        !r.is_error,
        r.status@ == "success"@,
        r.error_message is None,
{
}

/// A completed session kill is a success even though the killed command
/// failed; one that is still terminating is a failure.
pub proof fn lemma_session_kill_success(o: ToolOutputFields)
    requires
        o.ok != Some(false),
        o.transport_ok != Some(false),
        opt_view(o.status) == Some("killed"@) || opt_view(o.status) == Some("exited"@),
    ensures
        audit_status("kill_session"@, o) == "success"@,
{
}

} // verus!
