//! The goal tools offered to ChatGPT: which tool a name selects, what their
//! arguments must be, how failures are reported, and how each tool moves the
//! harness task that backs a goal.
use vstd::prelude::*;
use crate::harness::TaskStatus;
use crate::text::{all_ws, is_blank, owned, push_text, same_text, trim_spec};
use super::model::{GoalError, GoalStatus};
use super::state::{GoalMonitor, has_current, is_newest_current};

verus! {

/// One of the goal tools.
#[derive(Clone, Copy, PartialEq, Eq, Structural, Debug)]
pub enum GoalTool {
    Status,
    Handoff,
    Create,
    Update,
    Pause,
    Resume,
    Block,
    Complete,
    Clear,
}

/// The tool a name selects.
pub open spec fn tool_named(name: Seq<char>) -> Option<GoalTool> {
    if name == "goal_status"@ {
        Some(GoalTool::Status)
    } else if name == "goal_handoff"@ {
        Some(GoalTool::Handoff)
    } else if name == "goal_create"@ {
        Some(GoalTool::Create)
    } else if name == "goal_update"@ {
        Some(GoalTool::Update)
    } else if name == "goal_pause"@ {
        Some(GoalTool::Pause)
    } else if name == "goal_resume"@ {
        Some(GoalTool::Resume)
    } else if name == "goal_block"@ {
        Some(GoalTool::Block)
    } else if name == "goal_complete"@ {
        Some(GoalTool::Complete)
    } else if name == "goal_clear"@ {
        Some(GoalTool::Clear)
    } else {
        None
    }
}

/// Selects the goal tool of a name; `None` for any other name.
pub fn goal_tool(name: &str) -> (r: Option<GoalTool>)
    ensures
        r == tool_named(name@),
{
    if same_text(name, "goal_status") {
        Some(GoalTool::Status)
    } else if same_text(name, "goal_handoff") {
        Some(GoalTool::Handoff)
    } else if same_text(name, "goal_create") {
        Some(GoalTool::Create)
    } else if same_text(name, "goal_update") {
        Some(GoalTool::Update)
    } else if same_text(name, "goal_pause") {
        Some(GoalTool::Pause)
    } else if same_text(name, "goal_resume") {
        Some(GoalTool::Resume)
    } else if same_text(name, "goal_block") {
        Some(GoalTool::Block)
    } else if same_text(name, "goal_complete") {
        Some(GoalTool::Complete)
    } else if same_text(name, "goal_clear") {
        Some(GoalTool::Clear)
    } else {
        None
    }
}

/// The names of the goal tools, in the order they are listed.
pub fn tool_names() -> (r: Vec<&'static str>)
    ensures
        r@.map_values(|n: &'static str| n@) == seq![
            "goal_status"@,
            "goal_handoff"@,
            "goal_create"@,
            "goal_update"@,
            "goal_pause"@,
            "goal_resume"@,
            "goal_block"@,
            "goal_complete"@,
            "goal_clear"@,
        ],
{
    let r: Vec<&'static str> = vec![
        "goal_status",
        "goal_handoff",
        "goal_create",
        "goal_update",
        "goal_pause",
        "goal_resume",
        "goal_block",
        "goal_complete",
        "goal_clear",
    ];
    assert(r@.map_values(|n: &'static str| n@) =~= seq![
        "goal_status"@,
        "goal_handoff"@,
        "goal_create"@,
        "goal_update"@,
        "goal_pause"@,
        "goal_resume"@,
        "goal_block"@,
        "goal_complete"@,
        "goal_clear"@,
    ]);
    r
}

/// Every listed name selects a goal tool.
pub proof fn lemma_listed_names_select_tools()
    ensures
        tool_named("goal_status"@) == Some(GoalTool::Status),
        tool_named("goal_handoff"@) == Some(GoalTool::Handoff),
        tool_named("goal_create"@) == Some(GoalTool::Create),
        tool_named("goal_update"@) == Some(GoalTool::Update),
        tool_named("goal_pause"@) == Some(GoalTool::Pause),
        tool_named("goal_resume"@) == Some(GoalTool::Resume),
        tool_named("goal_block"@) == Some(GoalTool::Block),
        tool_named("goal_complete"@) == Some(GoalTool::Complete),
        tool_named("goal_clear"@) == Some(GoalTool::Clear),
{
    reveal_strlit("goal_status");
    reveal_strlit("goal_handoff");
    reveal_strlit("goal_create");
    reveal_strlit("goal_update");
    reveal_strlit("goal_pause");
    reveal_strlit("goal_resume");
    reveal_strlit("goal_block");
    reveal_strlit("goal_complete");
    reveal_strlit("goal_clear");
    assert("goal_handoff"@[5] != "goal_status"@[5]);
    assert("goal_create"@[5] != "goal_status"@[5]);
    assert("goal_create"@[5] != "goal_handoff"@[5]);
    assert("goal_update"@[5] != "goal_status"@[5]);
    assert("goal_update"@[5] != "goal_handoff"@[5]);
    assert("goal_update"@[5] != "goal_create"@[5]);
    assert("goal_pause"@[5] != "goal_status"@[5]);
    assert("goal_pause"@[5] != "goal_handoff"@[5]);
    assert("goal_pause"@[5] != "goal_create"@[5]);
    assert("goal_pause"@[5] != "goal_update"@[5]);
    assert("goal_resume"@[5] != "goal_status"@[5]);
    assert("goal_resume"@[5] != "goal_handoff"@[5]);
    assert("goal_resume"@[5] != "goal_create"@[5]);
    assert("goal_resume"@[5] != "goal_update"@[5]);
    assert("goal_resume"@[5] != "goal_pause"@[5]);
    assert("goal_block"@[5] != "goal_status"@[5]);
    assert("goal_block"@[5] != "goal_handoff"@[5]);
    assert("goal_block"@[5] != "goal_create"@[5]);
    assert("goal_block"@[5] != "goal_update"@[5]);
    assert("goal_block"@[5] != "goal_pause"@[5]);
    assert("goal_block"@[5] != "goal_resume"@[5]);
    assert("goal_complete"@[5] != "goal_status"@[5]);
    assert("goal_complete"@[5] != "goal_handoff"@[5]);
    assert("goal_complete"@[6] != "goal_create"@[6]);
    assert("goal_complete"@[5] != "goal_update"@[5]);
    assert("goal_complete"@[5] != "goal_pause"@[5]);
    assert("goal_complete"@[5] != "goal_resume"@[5]);
    assert("goal_complete"@[5] != "goal_block"@[5]);
    assert("goal_clear"@[5] != "goal_status"@[5]);
    assert("goal_clear"@[5] != "goal_handoff"@[5]);
    assert("goal_clear"@[6] != "goal_create"@[6]);
    assert("goal_clear"@[5] != "goal_update"@[5]);
    assert("goal_clear"@[5] != "goal_pause"@[5]);
    assert("goal_clear"@[5] != "goal_resume"@[5]);
    assert("goal_clear"@[5] != "goal_block"@[5]);
    assert("goal_clear"@[6] != "goal_complete"@[6]);
}

/// A goal tool's refusal: its code, message and whether a retry can help.
pub struct ToolFailure {
    pub code: &'static str,
    pub message: String,
    pub retryable: bool,
}

/// Refusals that a retry may resolve: another goal is active, or none is.
pub open spec fn retryable_code(code: Seq<char>) -> bool {
    code == "GOAL_ALREADY_ACTIVE"@ || code == "GOAL_REQUIRED"@
}

/// A refusal with the given code and message.
pub fn tool_error(code: &'static str, message: String) -> (r: ToolFailure)
    ensures
        r.code@ == code@,
        r.message@ == message@,
        r.retryable == retryable_code(code@),
{
    let retryable = same_text(code, "GOAL_ALREADY_ACTIVE") || same_text(code, "GOAL_REQUIRED");
    ToolFailure { code, message, retryable }
}

/// Reports a monitor error under its own code and message.
pub fn map_error(e: &GoalError) -> (r: ToolFailure)
    ensures
        r.code@ == e.code_spec(),
        r.message@ == e.message_spec(),
        r.retryable == retryable_code(e.code_spec()),
{
    tool_error(e.code(), e.message())
}

/// The message for an unknown tool name.
pub open spec fn unknown_tool_message() -> Seq<char> {
    "未知 Goal 工具"@
}

/// The refusal of a name that is no goal tool.
pub fn unknown_tool() -> (r: ToolFailure)
    ensures
        r.code@ == "INVALID_ARGUMENT"@,
        r.message@ == unknown_tool_message(),
        !r.retryable,
{
    proof {
        reveal_strlit("INVALID_ARGUMENT");
        reveal_strlit("GOAL_ALREADY_ACTIVE");
        reveal_strlit("GOAL_REQUIRED");
        assert("INVALID_ARGUMENT"@.len() == 16);
        assert(!retryable_code("INVALID_ARGUMENT"@));
    }
    tool_error("INVALID_ARGUMENT", owned("未知 Goal 工具"))
}

/// The refusal of a missing or malformed argument.
pub fn invalid_argument(message: &str) -> (r: ToolFailure)
    ensures
        r.code@ == "INVALID_ARGUMENT"@,
        r.message@ == message@,
        !r.retryable,
{
    proof {
        reveal_strlit("INVALID_ARGUMENT");
        reveal_strlit("GOAL_ALREADY_ACTIVE");
        reveal_strlit("GOAL_REQUIRED");
        assert("INVALID_ARGUMENT"@.len() == 16);
        assert(!retryable_code("INVALID_ARGUMENT"@));
    }
    tool_error("INVALID_ARGUMENT", owned(message))
}

/// The message when a workspace has no goal to act on.
pub open spec fn no_goal_message() -> Seq<char> {
    "当前工作区没有活动 Goal"@
}

/// The goal a tool acts on: the `goal_id` argument when it is not blank,
/// else the workspace's unfinished goal (one updated most recently). With
/// neither, `GOAL_REQUIRED`, which a retry may resolve.
pub fn resolve_goal_id(monitor: &GoalMonitor, goal_id: Option<&str>) -> (r: Result<String, ToolFailure>)
    ensures
        goal_id matches Some(id) && !all_ws(id@) ==> (r matches Ok(s) && s@ == goal_id.unwrap()@),
        !(goal_id matches Some(id) && !all_ws(id@)) && has_current(monitor.records(), monitor.workspace())
            ==> (r matches Ok(s) && exists|g| is_newest_current(monitor.records(), monitor.workspace(), g) && g.id == s@),
        !(goal_id matches Some(id) && !all_ws(id@)) && !has_current(monitor.records(), monitor.workspace())
            ==> (r matches Err(f) && f.code@ == "GOAL_REQUIRED"@ && f.message@ == no_goal_message()
            && f.retryable),
{
    if let Some(id) = goal_id {
        if !is_blank(id) {
            return Ok(owned(id));
        }
    }
    match monitor.current_goal() {
        Ok(Some(g)) => Ok(g.id),
        Ok(None) => {
            proof {
                reveal_strlit("GOAL_REQUIRED");
            }
            Err(tool_error("GOAL_REQUIRED", owned("当前工作区没有活动 Goal")))
        },
        Err(e) => Err(map_error(&e)),
    }
}

/// The stale limit a new goal asks for: 180 seconds unless given, within
/// 30 seconds and a day.
pub fn stale_after_secs_arg(value: Option<u64>) -> (r: u64)
    ensures
        r == ({
            let v = match value {
                Some(v) => v,
                None => 180,
            };
            if v < 30 {
                30
            } else if v > 86400 {
                86400
            } else {
                v
            }
        }),
{
    let v = match value {
        Some(v) => v,
        None => 180,
    };
    if v < 30 {
        30
    } else if v > 86400 {
        86400
    } else {
        v
    }
}

/// How a new goal gets its harness task.
#[derive(Clone, Copy, PartialEq, Eq, Structural, Debug)]
pub enum TaskPlan {
    /// No task is open: start one for the objective.
    Start,
    /// The open task is for this objective: use it as it is.
    Reuse,
    /// The open task is for this objective but paused or failed: make it
    /// active again first.
    Reactivate,
}

/// The message when another task is still open.
pub open spec fn task_conflict_message(open_objective: Seq<char>) -> Seq<char> {
    "当前 Harness Task 仍未结束："@ + open_objective + "。请先完成或处理该 Task，再创建新的 Goal"@
}

/// Decides how a goal for `objective` gets its task, given the workspace's
/// open task (its objective and status). A task for another objective
/// (compared trimmed) refuses the goal.
pub fn goal_task_plan(objective: &str, open_task: Option<(&str, TaskStatus)>) -> (r: Result<
    TaskPlan,
    ToolFailure,
>)
    ensures
        match open_task {
            None => r == Ok::<TaskPlan, ToolFailure>(TaskPlan::Start),
            Some((o, s)) => if trim_spec(o@) != trim_spec(objective@) {
                r matches Err(f) && f.code@ == "GOAL_TASK_CONFLICT"@ && f.message@
                    == task_conflict_message(o@) && !f.retryable
            } else if s == TaskStatus::Paused || s == TaskStatus::Failed {
                r == Ok::<TaskPlan, ToolFailure>(TaskPlan::Reactivate)
            } else {
                r == Ok::<TaskPlan, ToolFailure>(TaskPlan::Reuse)
            },
        },
{
    match open_task {
        None => Ok(TaskPlan::Start),
        Some((open_objective, status)) => {
            let a = crate::text::trim_str(open_objective);
            let b = crate::text::trim_str(objective);
            if !same_text(a.as_str(), b.as_str()) {
                proof {
                    reveal_strlit("GOAL_TASK_CONFLICT");
                    reveal_strlit("GOAL_ALREADY_ACTIVE");
                    reveal_strlit("GOAL_REQUIRED");
                }
                let mut m = owned("当前 Harness Task 仍未结束：");
                push_text(&mut m, open_objective);
                push_text(&mut m, "。请先完成或处理该 Task，再创建新的 Goal");
                return Err(tool_error("GOAL_TASK_CONFLICT", m));
            }
            if status == TaskStatus::Paused || status == TaskStatus::Failed {
                Ok(TaskPlan::Reactivate)
            } else {
                Ok(TaskPlan::Reuse)
            }
        },
    }
}

/// Pausing a goal pauses its active task.
pub fn pause_task_move(status: TaskStatus) -> (r: Option<TaskStatus>)
    ensures
        r == (if status == TaskStatus::Active {
            Some(TaskStatus::Paused)
        } else {
            None::<TaskStatus>
        }),
{
    if status == TaskStatus::Active {
        Some(TaskStatus::Paused)
    } else {
        None
    }
}

/// Resuming a goal reactivates its paused or failed task.
pub fn resume_task_move(status: TaskStatus) -> (r: Option<TaskStatus>)
    ensures
        r == (if status == TaskStatus::Paused || status == TaskStatus::Failed {
            Some(TaskStatus::Active)
        } else {
            None::<TaskStatus>
        }),
{
    if status == TaskStatus::Paused || status == TaskStatus::Failed {
        Some(TaskStatus::Active)
    } else {
        None
    }
}

/// Blocking a goal fails its active or verifying task.
pub fn block_task_move(status: TaskStatus) -> (r: Option<TaskStatus>)
    ensures
        r == (if status == TaskStatus::Active || status == TaskStatus::Verifying {
            Some(TaskStatus::Failed)
        } else {
            None::<TaskStatus>
        }),
{
    if status == TaskStatus::Active || status == TaskStatus::Verifying {
        Some(TaskStatus::Failed)
    } else {
        None
    }
}

/// The reason a goal is blocked with: required and not blank (kept as
/// given).
pub fn block_reason(reason: Option<&str>) -> (r: Result<String, ToolFailure>)
    ensures
        match reason {
            Some(x) => if all_ws(x@) {
                r matches Err(f) && f.code@ == "INVALID_ARGUMENT"@ && f.message@ == "reason 是必填项"@
            } else {
                r matches Ok(s) && s@ == x@
            },
            None => r matches Err(f) && f.code@ == "INVALID_ARGUMENT"@ && f.message@ == "reason 是必填项"@,
        },
{
    match reason {
        Some(x) => {
            if is_blank(x) {
                Err(invalid_argument("reason 是必填项"))
            } else {
                Ok(owned(x))
            }
        },
        None => Err(invalid_argument("reason 是必填项")),
    }
}

/// The message when completion is asked for without verification.
pub open spec fn verification_required_message() -> Seq<char> {
    "Goal 完成前必须完成项目验证并传 verified=true；无法验证时显式传 allow_unverified=true"@
}

/// The message when a goal that is not active is to be completed.
pub open spec fn not_active_message() -> Seq<char> {
    "只有 active Goal 可以完成；请先恢复被暂停或阻塞的 Goal"@
}

/// Checks a completion request: it must be verified or explicitly allowed
/// unverified, and the goal must be active.
pub fn completion_gate(verified: bool, allow_unverified: bool, goal_status: GoalStatus) -> (r: Result<
    (),
    ToolFailure,
>)
    ensures
        !verified && !allow_unverified ==> (r matches Err(f) && f.code@
            == "GOAL_VERIFICATION_REQUIRED"@ && f.message@ == verification_required_message()),
        (verified || allow_unverified) && goal_status != GoalStatus::Active ==> (r matches Err(f)
            && f.code@ == "GOAL_NOT_ACTIVE"@ && f.message@ == not_active_message()),
        (verified || allow_unverified) && goal_status == GoalStatus::Active ==> r is Ok,
{
    if !verified && !allow_unverified {
        return Err(
            tool_error(
                "GOAL_VERIFICATION_REQUIRED",
                owned(
                    "Goal 完成前必须完成项目验证并传 verified=true；无法验证时显式传 allow_unverified=true",
                ),
            ),
        );
    }
    if goal_status != GoalStatus::Active {
        return Err(
            tool_error(
                "GOAL_NOT_ACTIVE",
                owned("只有 active Goal 可以完成；请先恢复被暂停或阻塞的 Goal"),
            ),
        );
    }
    Ok(())
}

/// A task that counts as completed.
pub open spec fn task_done(s: TaskStatus) -> bool {
    s == TaskStatus::Completed || s == TaskStatus::CompletedUnverified
}

/// The message when an unverified completion finds the task unable to end.
pub open spec fn unverified_blocked_message() -> Seq<char> {
    "关联 Harness Task 当前不能完成，请先恢复 Task 并处理失败/暂停状态"@
}

/// The message when a verified completion finds the task unable to end.
pub open spec fn verified_blocked_message() -> Seq<char> {
    "关联 Harness Task 当前不能完成，请先恢复 Task 并完成验证"@
}

/// An unverified completion: an active or verifying task ends as completed
/// without verification; a completed one stays; any other refuses.
pub fn unverified_completion(status: TaskStatus) -> (r: Result<Option<TaskStatus>, ToolFailure>)
    ensures
        status == TaskStatus::Active || status == TaskStatus::Verifying ==> r == Ok::<
            Option<TaskStatus>,
            ToolFailure,
        >(Some(TaskStatus::CompletedUnverified)),
        task_done(status) ==> r == Ok::<Option<TaskStatus>, ToolFailure>(None),
        !(status == TaskStatus::Active || status == TaskStatus::Verifying || task_done(status)) ==> (
        r matches Err(f) && f.code@ == "GOAL_TASK_NOT_COMPLETABLE"@ && f.message@
            == unverified_blocked_message()),
{
    if status == TaskStatus::Active || status == TaskStatus::Verifying {
        Ok(Some(TaskStatus::CompletedUnverified))
    } else if status == TaskStatus::Completed || status == TaskStatus::CompletedUnverified {
        Ok(None)
    } else {
        Err(
            tool_error(
                "GOAL_TASK_NOT_COMPLETABLE",
                owned("关联 Harness Task 当前不能完成，请先恢复 Task 并处理失败/暂停状态"),
            ),
        )
    }
}

/// The first step of a verified completion: an active task moves to
/// verifying.
pub fn verified_completion_start(status: TaskStatus) -> (r: Option<TaskStatus>)
    ensures
        r == (if status == TaskStatus::Active {
            Some(TaskStatus::Verifying)
        } else {
            None::<TaskStatus>
        }),
{
    if status == TaskStatus::Active {
        Some(TaskStatus::Verifying)
    } else {
        None
    }
}

/// The second step, on the task as read again: a verifying task is
/// completed; a completed one stays; any other refuses.
pub fn verified_completion_finish(status: TaskStatus) -> (r: Result<Option<TaskStatus>, ToolFailure>)
    ensures
        status == TaskStatus::Verifying ==> r == Ok::<Option<TaskStatus>, ToolFailure>(
            Some(TaskStatus::Completed),
        ),
        task_done(status) ==> r == Ok::<Option<TaskStatus>, ToolFailure>(None),
        !(status == TaskStatus::Verifying || task_done(status)) ==> (r matches Err(f) && f.code@
            == "GOAL_TASK_NOT_COMPLETABLE"@ && f.message@ == verified_blocked_message()),
{
    if status == TaskStatus::Verifying {
        Ok(Some(TaskStatus::Completed))
    } else if status == TaskStatus::Completed || status == TaskStatus::CompletedUnverified {
        Ok(None)
    } else {
        Err(
            tool_error(
                "GOAL_TASK_NOT_COMPLETABLE",
                owned("关联 Harness Task 当前不能完成，请先恢复 Task 并完成验证"),
            ),
        )
    }
}

/// The status a task has after a move that may not happen.
pub open spec fn after_move(s: TaskStatus, m: Option<TaskStatus>) -> TaskStatus {
    match m {
        Some(t) => t,
        None => s,
    }
}

/// Whatever state the task was in, a completion that is not refused
/// leaves it completed, verified or not; a verified completion of an active
/// task leaves it completed with verification.
pub proof fn lemma_completion_ends_done(status: TaskStatus, allow_unverified: bool)
    ensures
        allow_unverified ==> (match unverified_completion_spec(status) {
            Ok(m) => task_done(after_move(status, m)),
            Err(_) => true,
        }),
        !allow_unverified ==> {
            let mid = after_move(status, verified_start_spec(status));
            match verified_finish_spec(mid) {
                Ok(m) => task_done(after_move(mid, m)) && (status == TaskStatus::Active ==> after_move(
                    mid,
                    m,
                ) == TaskStatus::Completed),
                Err(_) => true,
            }
        },
{
}

/// The moves of [`unverified_completion`], refusals as `Err(())`.
pub open spec fn unverified_completion_spec(s: TaskStatus) -> Result<Option<TaskStatus>, ()> {
    if s == TaskStatus::Active || s == TaskStatus::Verifying {
        Ok(Some(TaskStatus::CompletedUnverified))
    } else if task_done(s) {
        Ok(None)
    } else {
        Err(())
    }
}

/// The move of [`verified_completion_start`].
pub open spec fn verified_start_spec(s: TaskStatus) -> Option<TaskStatus> {
    if s == TaskStatus::Active {
        Some(TaskStatus::Verifying)
    } else {
        None
    }
}

/// The moves of [`verified_completion_finish`], refusals as `Err(())`.
pub open spec fn verified_finish_spec(s: TaskStatus) -> Result<Option<TaskStatus>, ()> {
    if s == TaskStatus::Verifying {
        Ok(Some(TaskStatus::Completed))
    } else if task_done(s) {
        Ok(None)
    } else {
        Err(())
    }
}

/// Where the completion of a goal's task stands: an unverified completion
/// takes one step; a verified one first moves the task to verifying, then,
/// on the task as read again, completes it.
#[derive(Clone, Copy, PartialEq, Eq, Structural, Debug)]
pub enum CompletionStage {
    Unverified,
    VerifyStart,
    VerifyFinish,
}

/// The stage a completion starts in.
pub fn first_completion_stage(allow_unverified: bool) -> (r: CompletionStage)
    ensures
        r == (if allow_unverified {
            CompletionStage::Unverified
        } else {
            CompletionStage::VerifyStart
        }),
{
    if allow_unverified {
        CompletionStage::Unverified
    } else {
        CompletionStage::VerifyStart
    }
}

/// One step of a completion on the task's current status: the move to make,
/// if any, and the stage that follows, `None` when the completion is done.
/// A task that cannot end refuses the completion.
pub fn completion_step(stage: CompletionStage, status: TaskStatus) -> (r: Result<
    (Option<TaskStatus>, Option<CompletionStage>),
    ToolFailure,
>)
    ensures
        stage == CompletionStage::Unverified ==> match unverified_completion_spec(status) {
            Ok(m) => r == Ok::<(Option<TaskStatus>, Option<CompletionStage>), ToolFailure>((m, None)),
            Err(_) => r matches Err(f) && f.code@ == "GOAL_TASK_NOT_COMPLETABLE"@ && f.message@
                == unverified_blocked_message(),
        },
        stage == CompletionStage::VerifyStart ==> r == Ok::<
            (Option<TaskStatus>, Option<CompletionStage>),
            ToolFailure,
        >((verified_start_spec(status), Some(CompletionStage::VerifyFinish))),
        stage == CompletionStage::VerifyFinish ==> match verified_finish_spec(status) {
            Ok(m) => r == Ok::<(Option<TaskStatus>, Option<CompletionStage>), ToolFailure>((m, None)),
            Err(_) => r matches Err(f) && f.code@ == "GOAL_TASK_NOT_COMPLETABLE"@ && f.message@
                == verified_blocked_message(),
        },
{
    match stage {
        CompletionStage::Unverified => match unverified_completion(status) {
            Ok(m) => Ok((m, None)),
            Err(f) => Err(f),
        },
        CompletionStage::VerifyStart => Ok(
            (verified_completion_start(status), Some(CompletionStage::VerifyFinish)),
        ),
        CompletionStage::VerifyFinish => match verified_completion_finish(status) {
            Ok(m) => Ok((m, None)),
            Err(f) => Err(f),
        },
    }
}

/// A handoff is requested only for an active goal that should continue.
pub fn handoff_wanted(status: GoalStatus, should_continue: bool) -> (r: bool)
    ensures
        r == (status == GoalStatus::Active && should_continue),
{
    status == GoalStatus::Active && should_continue
}

} // verus!
