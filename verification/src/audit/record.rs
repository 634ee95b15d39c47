//! What the audit stores of one tool call: the captured input and output,
//! the classification of the result, the command shown and the duration.
use vstd::prelude::*;
use vstd::string::StringSliceAdditionalSpecFns;
use crate::audit::classify::{classifies, response_metadata, ResponseMetadata, ToolOutputFields};
use crate::audit::config::{AuditConfig, AuditError};
use crate::audit::detail::{capture_value, captured_as, command_to_keep, CapturedDetail};
use crate::audit::query::{clamped_duration, record_duration};
use crate::monitor::model::opt_view;

verus! {

/// The stored detail of one tool call, apart from its id and the request
/// it came with.
pub struct ToolCallDetail {
    pub input: CapturedDetail,
    pub output: CapturedDetail,
    pub response: ResponseMetadata,
    /// The call's `cmd` argument, where the input text is kept whole.
    pub command: Option<String>,
    /// The call's `reason` argument.
    pub reason: Option<String>,
    pub duration_ms: i64,
}

/// The command a record shows: the call's `cmd` argument, only where its
/// input text is kept, and kept whole.
pub open spec fn kept_command(input: CapturedDetail, cmd: Option<Seq<char>>) -> Option<Seq<char>> {
    if input.text is Some && !input.truncated {
        cmd
    } else {
        None
    }
}

/// What the audit stores of a tool call under `config`, given the call's
/// serialized arguments and output, the fields the classification reads of
/// the output, and its `cmd` and `reason` arguments. Nothing is stored when
/// the tool audit is off; otherwise input and output are captured under the
/// detail limit (a limit below -1 is refused), the result is classified,
/// the command follows the input's capture, and the duration is finish
/// minus start.
pub fn tool_call_detail(
    config: &AuditConfig,
    tool_name: &str,
    input_json: &str,
    output_json: &str,
    output: &ToolOutputFields,
    cmd: Option<String>,
    reason: Option<String>,
    started_at_ms: i64,
    finished_at_ms: i64,
) -> (r: Result<Option<ToolCallDetail>, AuditError>)
    requires
        input_json.spec_bytes().len() <= i64::MAX,
        output_json.spec_bytes().len() <= i64::MAX,
    ensures
        !config.tool_audit_enabled ==> r matches Ok(None),
        config.tool_audit_enabled && config.detail_limit_bytes < -1 ==> (r matches Err(e)
            && e is InvalidDetailLimit),
        config.tool_audit_enabled && config.detail_limit_bytes >= -1 ==> (r matches Ok(Some(d))
            && captured_as(
            input_json@,
            config.detail_limit_bytes as int,
            Ok::<CapturedDetail, AuditError>(d.input),
        ) && captured_as(
            output_json@,
            config.detail_limit_bytes as int,
            Ok::<CapturedDetail, AuditError>(d.output),
        ) && classifies(tool_name@, *output, d.response) && opt_view(d.command) == kept_command(
            d.input,
            opt_view(cmd),
        ) && opt_view(d.reason) == opt_view(reason) && d.duration_ms == clamped_duration(
            started_at_ms,
            finished_at_ms,
        )),
{
    if !config.tool_audit_enabled {
        return Ok(None);
    }
    let input = match capture_value(input_json, config.detail_limit_bytes) {
        Ok(c) => c,
        Err(e) => {
            return Err(e);
        },
    };
    let output_detail = match capture_value(output_json, config.detail_limit_bytes) {
        Ok(c) => c,
        Err(e) => {
            return Err(e);
        },
    };
    let response = response_metadata(tool_name, output);
    let command = command_to_keep(input.text.is_some(), input.truncated, cmd);
    let duration_ms = record_duration(started_at_ms, finished_at_ms);
    Ok(
        Some(
            ToolCallDetail {
                input,
                output: output_detail,
                response,
                command,
                reason,
                duration_ms,
            },
        ),
    )
}

} // verus!
