//! The goal monitor: creates goals, moves them through their lifecycle,
//! records progress and judges from the harness's activity whether a goal is
//! running, idle or stalled.
//!
//! Every operation takes the current time (`now_ms`, milliseconds since the
//! Unix epoch) from its caller and writes it as a decimal timestamp.
use vstd::prelude::*;
use crate::order::{str_lt, str_less, lemma_str_lt_asym, lemma_str_lt_neg_trans};
use crate::text::{
    all_ws, decimal, decimal_string, is_blank, owned, trim_spec, trim_str, chars_of, parse_u64,
    parse_unsigned, same_text, push_decimal, push_text, is_lower_hex,
};
use crate::harness::{HarnessSnapshot, OperationSnapshot, TaskSnapshot, TaskStatus};
use super::model::{
    GoalRecord, GoalView, GoalStatus, GoalHealth, GoalError, GOAL_SCHEMA_VERSION, opt_view,
    strs_view, copy_opt, same_strs,
};
use super::store::{
    GoalStore, keyed, unique_keys, views, has_goal, goal_index, lookup, saved, of_workspace,
    newest_first, is_listing, absent_error, damage_of, updated_at_of, comes_before,
    lemma_listing_keeps_store_order, lemma_lookup_after_save, lemma_goal_index_unique,
};

verus! {

broadcast use vstd::seq_lib::group_to_multiset_ensures;

/// Seconds without progress before an active goal counts as idle.
pub const IDLE_AFTER_SECS: u64 = 20;

/// The fixed messages the monitor writes into a goal.
#[derive(Clone, Copy, PartialEq, Eq, Structural, Debug)]
pub enum MonitorNote {
    Started,
    ProgressUpdated,
    Resumed,
    Paused,
    BlockedByDefault,
    Completed,
    FailedByDefault,
    Cleared,
    ActivitySeen,
    TaskCompleted,
    TaskRolledBack,
    TaskPaused,
    TaskFailed,
    Idle,
    Running,
}

impl MonitorNote {
    pub open spec fn text_spec(self) -> Seq<char> {
        match self {
            MonitorNote::Started => "Goal 已启动，等待 Agent 持续推进"@,
            MonitorNote::ProgressUpdated => "Agent 已更新 Goal 进度"@,
            MonitorNote::Resumed => "Goal 已恢复，等待继续推进"@,
            MonitorNote::Paused => "Goal 已暂停"@,
            MonitorNote::BlockedByDefault => "Goal 被阻塞，需要用户处理"@,
            MonitorNote::Completed => "Goal 已完成并停止监控推进"@,
            MonitorNote::FailedByDefault => "Goal 执行失败"@,
            MonitorNote::Cleared => "Goal 已清除"@,
            MonitorNote::ActivitySeen => "检测到 Agent 活动"@,
            MonitorNote::TaskCompleted => "关联 Harness Task 已完成"@,
            MonitorNote::TaskRolledBack => "关联 Harness Task 已回滚，需要重新规划 Goal"@,
            MonitorNote::TaskPaused => "关联 Harness Task 已暂停"@,
            MonitorNote::TaskFailed => "关联 Harness Task 失败，等待恢复或处理"@,
            MonitorNote::Idle => "Agent 当前空闲，Goal 仍未完成"@,
            MonitorNote::Running => "Goal 正在推进"@,
        }
    }

    pub fn text(self) -> (r: String)
        ensures
            r@ == self.text_spec(),
    {
        match self {
            MonitorNote::Started => owned("Goal 已启动，等待 Agent 持续推进"),
            MonitorNote::ProgressUpdated => owned("Agent 已更新 Goal 进度"),
            MonitorNote::Resumed => owned("Goal 已恢复，等待继续推进"),
            MonitorNote::Paused => owned("Goal 已暂停"),
            MonitorNote::BlockedByDefault => owned("Goal 被阻塞，需要用户处理"),
            MonitorNote::Completed => owned("Goal 已完成并停止监控推进"),
            MonitorNote::FailedByDefault => owned("Goal 执行失败"),
            MonitorNote::Cleared => owned("Goal 已清除"),
            MonitorNote::ActivitySeen => owned("检测到 Agent 活动"),
            MonitorNote::TaskCompleted => owned("关联 Harness Task 已完成"),
            MonitorNote::TaskRolledBack => owned("关联 Harness Task 已回滚，需要重新规划 Goal"),
            MonitorNote::TaskPaused => owned("关联 Harness Task 已暂停"),
            MonitorNote::TaskFailed => owned("关联 Harness Task 失败，等待恢复或处理"),
            MonitorNote::Idle => owned("Agent 当前空闲，Goal 仍未完成"),
            MonitorNote::Running => owned("Goal 正在推进"),
        }
    }
}

/// The message written when a continuation handoff is recorded.
pub open spec fn continuation_message(count: u32) -> Seq<char> {
    "ChatGPT 已请求第 "@ + decimal(count as nat) + " 次 Goal 续跑 handoff"@
}

/// The message written when an active goal has made no progress for its
/// stale window.
pub open spec fn stalled_message(stale_after_secs: u64) -> Seq<char> {
    "已超过 "@ + decimal(stale_after_secs as nat) + " 秒没有检测到进展，需要继续推进或人工检查"@
}

/// A timestamp string as milliseconds: its `u64` value, or 0 where it does
/// not parse.
pub open spec fn ms_value(s: Seq<char>) -> nat {
    match parse_unsigned(s, u64::MAX as nat) {
        Some(v) => v,
        None => 0,
    }
}

/// Reads a timestamp string as milliseconds.
pub fn parse_ms(value: &str) -> (r: u64)
    ensures
        r as nat == ms_value(value@),
{
    let v = chars_of(value);
    match parse_u64(v.as_slice()) {
        Some(n) => n,
        None => 0,
    }
}

/// The stale window is kept between 30 seconds and one day.
pub open spec fn clamp_stale(secs: u64) -> u64 {
    if secs < 30 {
        30
    } else if secs > 86_400 {
        86_400
    } else {
        secs
    }
}

/// The goal is stored under workspace `ws` and is not finished.
pub open spec fn current_of(g: GoalView, ws: Seq<char>) -> bool {
    g.workspace_id == ws && !g.status.terminal()
}

/// Workspace `ws` has an unfinished goal.
pub open spec fn has_current(s: Seq<GoalView>, ws: Seq<char>) -> bool {
    exists|i: int| 0 <= i < s.len() && current_of(#[trigger] s[i], ws)
}

/// `s[i]` is the current goal of workspace `ws`: unfinished, updated no
/// earlier than any other unfinished goal of `ws`, and the first in store
/// order of those updated as late.
pub open spec fn current_at(s: Seq<GoalView>, ws: Seq<char>, i: int) -> bool {
    &&& 0 <= i < s.len()
    &&& current_of(s[i], ws)
    &&& forall|k: int|
        0 <= k < s.len() && current_of(#[trigger] s[k], ws) ==> !str_lt(s[i].updated_at, s[k].updated_at)
    &&& forall|k: int|
        0 <= k < i && current_of(#[trigger] s[k], ws) ==> str_lt(s[k].updated_at, s[i].updated_at)
}

/// `g` is the current goal of workspace `ws`: the first in store order of
/// its unfinished goals updated most recently.
pub open spec fn is_newest_current(s: Seq<GoalView>, ws: Seq<char>, g: GoalView) -> bool {
    exists|i: int| #[trigger] current_at(s, ws, i) && s[i] == g
}

/// A workspace has one current goal at most: every operation that takes the
/// current goal (reading it, noting activity on it, refreshing it) takes the
/// same one.
pub proof fn lemma_current_unique(s: Seq<GoalView>, ws: Seq<char>, a: GoalView, b: GoalView)
    requires
        is_newest_current(s, ws, a),
        is_newest_current(s, ws, b),
    ensures
        a == b,
{
    let i = choose|i: int| #[trigger] current_at(s, ws, i) && s[i] == a;
    let j = choose|j: int| #[trigger] current_at(s, ws, j) && s[j] == b;
    if i < j {
        assert(str_lt(s[i].updated_at, s[j].updated_at));
    } else if j < i {
        assert(str_lt(s[j].updated_at, s[i].updated_at));
    }
}

/// The current goal is an unfinished goal of the store, updated no earlier
/// than any other unfinished goal of its workspace.
pub proof fn lemma_current_is_newest(s: Seq<GoalView>, ws: Seq<char>, g: GoalView)
    requires
        is_newest_current(s, ws, g),
    ensures
        s.contains(g),
        current_of(g, ws),
        forall|k: int|
            0 <= k < s.len() && current_of(#[trigger] s[k], ws) ==> !str_lt(g.updated_at, s[k].updated_at),
{
    let i = choose|i: int| #[trigger] current_at(s, ws, i) && s[i] == g;
    assert(s[i] == g);
}

/// Workspace `ws` has at most one unfinished goal.
pub open spec fn single_current(s: Seq<GoalView>, ws: Seq<char>) -> bool {
    forall|i: int, j: int|
        #![trigger s[i], s[j]]
        0 <= i < s.len() && 0 <= j < s.len() && current_of(s[i], ws) && current_of(s[j], ws)
            ==> i == j
}

/// Fields that no operation after creation changes.
pub open spec fn keeps_identity(a: GoalView, b: GoalView) -> bool {
    &&& b.schema_version == a.schema_version
    &&& b.id == a.id
    &&& b.workspace_id == a.workspace_id
    &&& b.profile_id == a.profile_id
    &&& b.task_id == a.task_id
    &&& b.objective == a.objective
    &&& b.auto_continue == a.auto_continue
    &&& b.stale_after_secs == a.stale_after_secs
    &&& b.created_at == a.created_at
}

/// Progress fields that status changes leave alone.
pub open spec fn keeps_progress(a: GoalView, b: GoalView) -> bool {
    &&& b.completed_steps == a.completed_steps
    &&& b.pending_steps == a.pending_steps
    &&& b.note == a.note
    &&& b.last_activity_at == a.last_activity_at
    &&& b.last_progress_at == a.last_progress_at
    &&& b.continuation_count == a.continuation_count
}

/// A goal just created.
pub open spec fn is_fresh_goal(
    g: GoalView,
    id: Seq<char>,
    ws: Seq<char>,
    profile: Option<Seq<char>>,
    task_id: Option<Seq<char>>,
    objective: Seq<char>,
    auto_continue: bool,
    stale_after_secs: u64,
    now_ms: u64,
) -> bool {
    &&& g.schema_version == GOAL_SCHEMA_VERSION
    &&& g.id == id
    &&& g.workspace_id == ws
    &&& g.profile_id == profile
    &&& g.task_id == task_id
    &&& g.objective == trim_spec(objective)
    &&& g.status == GoalStatus::Active
    &&& g.health == GoalHealth::Running
    &&& g.auto_continue == auto_continue
    &&& g.stale_after_secs == clamp_stale(stale_after_secs)
    &&& g.should_continue == auto_continue
    &&& !g.needs_attention
    &&& g.completed_steps == Seq::<Seq<char>>::empty()
    &&& g.pending_steps == Seq::<Seq<char>>::empty()
    &&& g.note is None
    &&& g.blocked_reason is None
    &&& g.monitor_message == MonitorNote::Started.text_spec()
    &&& g.last_activity_at == decimal(now_ms as nat)
    &&& g.last_progress_at == decimal(now_ms as nat)
    &&& g.continuation_count == 0
    &&& g.created_at == decimal(now_ms as nat)
    &&& g.updated_at == decimal(now_ms as nat)
}

/// The health that goes with a status set explicitly.
pub open spec fn status_health(s: GoalStatus) -> GoalHealth {
    match s {
        GoalStatus::Active => GoalHealth::Running,
        GoalStatus::Paused => GoalHealth::Paused,
        GoalStatus::Blocked => GoalHealth::Blocked,
        GoalStatus::Completed => GoalHealth::Completed,
        GoalStatus::Failed => GoalHealth::Failed,
        GoalStatus::Cleared => GoalHealth::Cleared,
    }
}

/// A blocking reason is kept only when it is not blank.
pub open spec fn kept_reason(reason: Option<Seq<char>>) -> Option<Seq<char>> {
    match reason {
        Some(r) => if all_ws(r) {
            None
        } else {
            Some(r)
        },
        None => None,
    }
}

/// `new` is `old` moved to `status` at `now_ms`, with `reason` given.
pub open spec fn status_set(
    old: GoalView,
    new: GoalView,
    status: GoalStatus,
    reason: Option<Seq<char>>,
    now_ms: u64,
) -> bool {
    &&& keeps_identity(old, new)
    &&& keeps_progress(old, new)
    &&& new.status == status
    &&& new.health == status_health(status)
    &&& new.updated_at == decimal(now_ms as nat)
    &&& new.should_continue == (status == GoalStatus::Active && old.auto_continue)
    &&& new.needs_attention == (status == GoalStatus::Blocked || status == GoalStatus::Failed)
    &&& new.blocked_reason == match status {
        GoalStatus::Active => None,
        GoalStatus::Blocked => kept_reason(reason),
        _ => old.blocked_reason,
    }
    &&& new.monitor_message == match status {
        GoalStatus::Active => MonitorNote::Resumed.text_spec(),
        GoalStatus::Paused => MonitorNote::Paused.text_spec(),
        GoalStatus::Blocked => match kept_reason(reason) {
            Some(r) => r,
            None => MonitorNote::BlockedByDefault.text_spec(),
        },
        GoalStatus::Completed => MonitorNote::Completed.text_spec(),
        GoalStatus::Failed => match reason {
            Some(r) => r,
            None => MonitorNote::FailedByDefault.text_spec(),
        },
        GoalStatus::Cleared => MonitorNote::Cleared.text_spec(),
    }
}

/// The progress update changes something: a different step list, or a
/// note that is not blank.
pub open spec fn makes_progress(
    old: GoalView,
    completed: Option<Seq<Seq<char>>>,
    pending: Option<Seq<Seq<char>>>,
    note: Option<Seq<char>>,
) -> bool {
    ||| (completed matches Some(c) && c != old.completed_steps)
    ||| (pending matches Some(p) && p != old.pending_steps)
    ||| (note matches Some(n) && !all_ws(n))
}

/// `new` is `old` after a progress update at `now_ms`.
pub open spec fn progress_updated(
    old: GoalView,
    new: GoalView,
    completed: Option<Seq<Seq<char>>>,
    pending: Option<Seq<Seq<char>>>,
    note: Option<Seq<char>>,
    now_ms: u64,
) -> bool {
    &&& keeps_identity(old, new)
    &&& new.status == old.status
    &&& new.blocked_reason == old.blocked_reason
    &&& new.continuation_count == old.continuation_count
    &&& new.completed_steps == match completed {
        Some(c) => c,
        None => old.completed_steps,
    }
    &&& new.pending_steps == match pending {
        Some(p) => p,
        None => old.pending_steps,
    }
    &&& new.note == match note {
        Some(n) => if all_ws(n) {
            old.note
        } else {
            Some(trim_spec(n))
        },
        None => old.note,
    }
    &&& new.last_activity_at == decimal(now_ms as nat)
    &&& new.last_progress_at == if makes_progress(old, completed, pending, note) {
        decimal(now_ms as nat)
    } else {
        old.last_progress_at
    }
    &&& new.updated_at == decimal(now_ms as nat)
    &&& new.health == GoalHealth::Running
    &&& !new.needs_attention
    &&& new.should_continue == (old.status == GoalStatus::Active && old.auto_continue)
    &&& new.monitor_message == MonitorNote::ProgressUpdated.text_spec()
}

/// `new` is the current goal `old` after agent activity was seen at `now_ms`.
pub open spec fn touched(old: GoalView, new: GoalView, now_ms: u64) -> bool {
    &&& keeps_identity(old, new)
    &&& new.status == old.status
    &&& new.blocked_reason == old.blocked_reason
    &&& new.completed_steps == old.completed_steps
    &&& new.pending_steps == old.pending_steps
    &&& new.note == old.note
    &&& new.last_progress_at == old.last_progress_at
    &&& new.continuation_count == old.continuation_count
    &&& new.last_activity_at == decimal(now_ms as nat)
    &&& new.updated_at == decimal(now_ms as nat)
    &&& if old.status == GoalStatus::Active {
        &&& new.health == GoalHealth::Running
        &&& !new.needs_attention
        &&& new.should_continue == old.auto_continue
        &&& new.monitor_message == MonitorNote::ActivitySeen.text_spec()
    } else {
        &&& new.health == old.health
        &&& new.needs_attention == old.needs_attention
        &&& new.should_continue == old.should_continue
        &&& new.monitor_message == old.monitor_message
    }
}

/// Counts one more continuation handoff, saturating at `u32::MAX`.
pub open spec fn next_count(c: u32) -> u32 {
    if c == u32::MAX {
        c
    } else {
        (c + 1) as u32
    }
}

/// `new` is the active goal `old` after a continuation handoff at `now_ms`.
pub open spec fn continued(old: GoalView, new: GoalView, now_ms: u64) -> bool {
    &&& keeps_identity(old, new)
    &&& new.status == old.status
    &&& new.health == old.health
    &&& new.should_continue == old.should_continue
    &&& new.needs_attention == old.needs_attention
    &&& new.blocked_reason == old.blocked_reason
    &&& new.completed_steps == old.completed_steps
    &&& new.pending_steps == old.pending_steps
    &&& new.note == old.note
    &&& new.last_activity_at == old.last_activity_at
    &&& new.last_progress_at == old.last_progress_at
    &&& new.continuation_count == next_count(old.continuation_count)
    &&& new.updated_at == decimal(now_ms as nat)
    &&& new.monitor_message == continuation_message(new.continuation_count)
}

/// Index of the first harness task with id `id` at or after `k`, or -1.
pub open spec fn task_pos(tasks: Seq<TaskSnapshot>, id: Seq<char>, k: int) -> int
    decreases tasks.len() - k,
{
    if k < 0 || k >= tasks.len() {
        -1
    } else if tasks[k].id@ == id {
        k
    } else {
        task_pos(tasks, id, k + 1)
    }
}

/// The harness task linked to the goal, if the goal names one and the
/// harness has it.
pub open spec fn linked_task(h: HarnessSnapshot, g: GoalView) -> Option<TaskSnapshot> {
    match g.task_id {
        Some(t) => if task_pos(h.tasks@, t, 0) >= 0 {
            Some(h.tasks@[task_pos(h.tasks@, t, 0)])
        } else {
            None
        },
        None => None,
    }
}

/// The operation counts as activity of the goal: the goal names no task, or
/// the operation belongs to the goal's task.
pub open spec fn op_counts(op: OperationSnapshot, task_id: Option<Seq<char>>) -> bool {
    task_id is None || opt_view(op.task_id) == task_id
}

/// The latest activity time over the first `n` operations, starting from
/// `base`.
pub open spec fn ops_latest(
    ops: Seq<OperationSnapshot>,
    task_id: Option<Seq<char>>,
    base: nat,
    n: int,
) -> nat
    decreases n,
{
    if n <= 0 {
        base
    } else {
        let prev = ops_latest(ops, task_id, base, n - 1);
        let op = ops[n - 1];
        if op_counts(op, task_id) && ms_value(op.created_at@) > prev {
            ms_value(op.created_at@)
        } else {
            prev
        }
    }
}

/// The latest activity time the monitor sees for an active goal that its
/// task does not settle: its own last activity, its task's last update and
/// the matching recent operations.
pub open spec fn latest_activity(h: HarnessSnapshot, g: GoalView) -> nat {
    let own = ms_value(g.last_activity_at);
    let base = match linked_task(h, g) {
        Some(t) => if ms_value(t.updated_at@) > own {
            ms_value(t.updated_at@)
        } else {
            own
        },
        None => own,
    };
    match h.recent_operations {
        Some(ops) => ops_latest(ops@, g.task_id, base, ops@.len() as int),
        None => base,
    }
}

/// Health of an active goal idle for `idle_ms`: stalled once the stale
/// window has passed, idle after 20 seconds, running before.
pub open spec fn idle_health(idle_ms: nat, stale_ms: nat) -> GoalHealth {
    if idle_ms >= stale_ms {
        GoalHealth::Stalled
    } else if idle_ms >= IDLE_AFTER_SECS * 1000 {
        GoalHealth::Idle
    } else {
        GoalHealth::Running
    }
}

/// How far an idle goal has escalated: running, idle, stalled.
pub open spec fn escalation(h: GoalHealth) -> int {
    match h {
        GoalHealth::Stalled => 2,
        GoalHealth::Idle => 1,
        _ => 0,
    }
}

/// Without new activity a goal's judgement only escalates as time passes:
/// running, then idle after the idle threshold, then stalled once the stale
/// window has passed; it never returns to a calmer state.
pub proof fn lemma_health_escalates(earlier_idle: nat, later_idle: nat, stale: nat)
    requires
        earlier_idle <= later_idle,
    ensures
        escalation(idle_health(earlier_idle, stale)) <= escalation(idle_health(later_idle, stale)),
        idle_health(later_idle, stale) is Running || idle_health(later_idle, stale) is Idle
            || idle_health(later_idle, stale) is Stalled,
{
}

/// The stale window in milliseconds, saturating at `u64::MAX`.
pub open spec fn stale_ms(secs: u64) -> nat {
    if secs * 1000 > u64::MAX {
        u64::MAX as nat
    } else {
        (secs * 1000) as nat
    }
}

/// Milliseconds between `latest` and `now`, or 0 if `latest` is later.
pub open spec fn idle_ms(now_ms: u64, latest: nat) -> nat {
    if now_ms >= latest {
        (now_ms - latest) as nat
    } else {
        0
    }
}

/// A task in one of these states settles the goal's health by itself.
pub open spec fn settles(status: TaskStatus) -> bool {
    status == TaskStatus::Completed || status == TaskStatus::CompletedUnverified || status
        == TaskStatus::RolledBack || status == TaskStatus::Paused || status == TaskStatus::Failed
}

/// `new` is the active goal `old` after its linked task was seen in the
/// settling state `status`, at `now_ms`.
pub open spec fn settled_by_task(old: GoalView, new: GoalView, status: TaskStatus, now_ms: u64) -> bool {
    &&& keeps_identity(old, new)
    &&& keeps_progress_steps(old, new)
    &&& new.updated_at == decimal(now_ms as nat)
    &&& new.blocked_reason == old.blocked_reason
    &&& new.last_activity_at == old.last_activity_at
    &&& !new.should_continue
    &&& if status == TaskStatus::Completed || status == TaskStatus::CompletedUnverified {
        &&& new.status == GoalStatus::Completed
        &&& new.health == GoalHealth::Completed
        &&& !new.needs_attention
        &&& new.monitor_message == MonitorNote::TaskCompleted.text_spec()
    } else if status == TaskStatus::RolledBack {
        &&& new.status == old.status
        &&& new.health == GoalHealth::Failed
        &&& new.needs_attention
        &&& new.monitor_message == MonitorNote::TaskRolledBack.text_spec()
    } else if status == TaskStatus::Paused {
        &&& new.status == old.status
        &&& new.health == GoalHealth::Paused
        &&& !new.needs_attention
        &&& new.monitor_message == MonitorNote::TaskPaused.text_spec()
    } else {
        &&& new.status == old.status
        &&& new.health == GoalHealth::Blocked
        &&& new.needs_attention
        &&& new.monitor_message == MonitorNote::TaskFailed.text_spec()
    }
}

/// `new` is the active goal `old` judged at `now_ms` from its latest
/// activity time `latest`.
pub open spec fn judged_idle(old: GoalView, new: GoalView, latest: nat, now_ms: u64) -> bool {
    let health = idle_health(idle_ms(now_ms, latest), stale_ms(old.stale_after_secs));
    &&& keeps_identity(old, new)
    &&& keeps_progress_steps(old, new)
    &&& new.updated_at == decimal(now_ms as nat)
    &&& new.blocked_reason == old.blocked_reason
    &&& new.status == old.status
    &&& new.health == health
    &&& new.should_continue == old.auto_continue
    &&& new.needs_attention == (health == GoalHealth::Stalled)
    &&& new.monitor_message == match health {
        GoalHealth::Stalled => stalled_message(old.stale_after_secs),
        GoalHealth::Idle => MonitorNote::Idle.text_spec(),
        _ => MonitorNote::Running.text_spec(),
    }
    &&& new.last_activity_at == if latest > ms_value(old.last_activity_at) {
        decimal(latest)
    } else {
        old.last_activity_at
    }
}

/// `new` is the active goal `old` after a refresh against `h` at `now_ms`:
/// a settling state of its linked task decides, and otherwise the time since
/// its latest activity does.
pub open spec fn refreshed(old: GoalView, new: GoalView, h: HarnessSnapshot, now_ms: u64) -> bool {
    match linked_task(h, old) {
        Some(t) if settles(t.status) => settled_by_task(old, new, t.status, now_ms),
        _ => judged_idle(old, new, latest_activity(h, old), now_ms),
    }
}

/// Step lists, note, progress time and handoff count stay as they are.
pub open spec fn keeps_progress_steps(a: GoalView, b: GoalView) -> bool {
    &&& b.completed_steps == a.completed_steps
    &&& b.pending_steps == a.pending_steps
    &&& b.note == a.note
    &&& b.last_progress_at == a.last_progress_at
    &&& b.continuation_count == a.continuation_count
}

/// Members of a listing are exactly the records of its workspace.
pub proof fn lemma_listing_member(r: Seq<GoalView>, s: Seq<GoalView>, ws: Seq<char>, x: GoalView)
    requires
        is_listing(r, s, ws),
    ensures
        r.contains(x) <==> (s.contains(x) && x.workspace_id == ws),
{
    let p = |g: GoalView| g.workspace_id == ws;
    assert(of_workspace(s, ws) == s.filter(p));
    if r.contains(x) {
        assert(r.to_multiset().count(x) > 0);
        assert(s.filter(p).to_multiset().count(x) > 0);
        assert(s.filter(p).contains(x));
        s.lemma_filter_contains_rev(p, x);
        let k = choose|k: int| 0 <= k < s.filter(p).len() && s.filter(p)[k] == x;
        s.lemma_filter_pred(p, k);
    }
    if s.contains(x) && x.workspace_id == ws {
        let k = choose|k: int| 0 <= k < s.len() && s[k] == x;
        s.lemma_filter_contains(p, k);
        assert(s.filter(p).to_multiset().count(x) > 0);
        assert(r.to_multiset().count(x) > 0);
    }
}

/// The current goal is the first unfinished goal of the workspace's
/// listing (newest first, goals updated at the same time in store order);
/// a workspace without one lists only finished goals.
pub proof fn lemma_current_first_listed(s: Seq<GoalView>, ws: Seq<char>, l: Seq<GoalView>)
    requires
        unique_keys(s),
        is_listing(l, s, ws),
        forall|u: Seq<char>| #[trigger] updated_at_of(l, u) == updated_at_of(of_workspace(s, ws), u),
    ensures
        !has_current(s, ws) ==> forall|q: int| 0 <= q < l.len() ==> (#[trigger] l[q]).status.terminal(),
        forall|g: GoalView|
            #[trigger] is_newest_current(s, ws, g) ==> exists|p: int|
                0 <= p < l.len() && l[p] == g && forall|q: int|
                    0 <= q < p ==> (#[trigger] l[q]).status.terminal(),
{
    assert forall|q: int| !has_current(s, ws) && 0 <= q < l.len() implies (#[trigger] l[q]).status.terminal() by {
        assert(l.contains(l[q]));
        lemma_listing_member(l, s, ws, l[q]);
        let k = choose|k: int| 0 <= k < s.len() && s[k] == l[q];
        assert(!current_of(s[k], ws));
    }
    assert forall|g: GoalView| #[trigger] is_newest_current(s, ws, g) implies exists|p: int|
        0 <= p < l.len() && l[p] == g && forall|q: int| 0 <= q < p ==> (#[trigger] l[q]).status.terminal() by {
        lemma_current_first_listed_one(s, ws, l, g);
    }
}

proof fn lemma_current_first_listed_one(s: Seq<GoalView>, ws: Seq<char>, l: Seq<GoalView>, g: GoalView)
    requires
        unique_keys(s),
        is_listing(l, s, ws),
        forall|u: Seq<char>| #[trigger] updated_at_of(l, u) == updated_at_of(of_workspace(s, ws), u),
        is_newest_current(s, ws, g),
    ensures
        exists|p: int| 0 <= p < l.len() && l[p] == g && forall|q: int| 0 <= q < p ==> (#[trigger] l[q]).status.terminal(),
{
    lemma_current_is_newest(s, ws, g);
    let b = choose|b: int| #[trigger] current_at(s, ws, b) && s[b] == g;
    lemma_listing_member(l, s, ws, g);
    let p = choose|p: int| 0 <= p < l.len() && l[p] == g;
    assert forall|q: int| 0 <= q < p implies (#[trigger] l[q]).status.terminal() by {
        if !l[q].status.terminal() {
            let y = l[q];
            assert(l.contains(y));
            lemma_listing_member(l, s, ws, y);
            let k = choose|k: int| 0 <= k < s.len() && s[k] == y;
            assert(current_of(s[k], ws));
            assert(!str_lt(g.updated_at, s[k].updated_at));
            assert(!str_lt(l[q].updated_at, l[p].updated_at));
            crate::order::lemma_str_lt_total(y.updated_at, g.updated_at);
            assert(y.updated_at == g.updated_at);
            assert(comes_before(l, y, g)) by {
                assert(l[q] == y && l[p] == g);
            }
            lemma_listing_keeps_store_order(l, s, ws, y, g);
            let (i, j) = choose|i: int, j: int| 0 <= i < j < s.len() && #[trigger] s[i] == y && #[trigger] s[j] == g;
            if j != b {
                if j < b {
                    assert(!keyed(s[b], s[j].workspace_id, s[j].id));
                } else {
                    assert(!keyed(s[j], s[b].workspace_id, s[b].id));
                }
            }
            assert(current_of(s[i], ws));
            assert(str_lt(s[i].updated_at, s[b].updated_at));
            lemma_str_lt_asym(g.updated_at, g.updated_at);
        }
    }
}

/// Writing a goal keeps "at most one unfinished goal" when the goal is
/// finished, or when every unfinished goal of its workspace is the one
/// being rewritten.
pub proof fn lemma_save_single_current(s: Seq<GoalView>, g: GoalView, ws: Seq<char>)
    requires
        unique_keys(s),
        single_current(s, ws),
        current_of(g, ws) ==> forall|i: int|
            0 <= i < s.len() && current_of(#[trigger] s[i], ws) ==> keyed(
                s[i],
                g.workspace_id,
                g.id,
            ),
    ensures
        single_current(saved(s, g), ws),
{
    let t = saved(s, g);
    if has_goal(s, g.workspace_id, g.id) {
        let k = goal_index(s, g.workspace_id, g.id);
        assert forall|i: int, j: int| #![trigger t[i], t[j]] 0 <= i < t.len() && 0 <= j < t.len()
            && current_of(t[i], ws) && current_of(t[j], ws) implies i == j by {
            if i != k && j != k {
                assert(t[i] == s[i] && t[j] == s[j]);
            } else if i == k && j != k {
                assert(current_of(s[j], ws));
                assert(keyed(s[j], g.workspace_id, g.id));
                lemma_goal_index_unique(s, g.workspace_id, g.id, j);
            } else if j == k && i != k {
                assert(current_of(s[i], ws));
                assert(keyed(s[i], g.workspace_id, g.id));
                lemma_goal_index_unique(s, g.workspace_id, g.id, i);
            }
        }
    } else {
        assert forall|i: int, j: int| #![trigger t[i], t[j]] 0 <= i < t.len() && 0 <= j < t.len()
            && current_of(t[i], ws) && current_of(t[j], ws) implies i == j by {
            if i < s.len() && j < s.len() {
                assert(t[i] == s[i] && t[j] == s[j]);
            } else if i < s.len() {
                assert(keyed(s[i], g.workspace_id, g.id));
            } else if j < s.len() {
                assert(keyed(s[j], g.workspace_id, g.id));
            }
        }
    }
}


/// Step lists of an optional update, by their characters.
pub open spec fn opt_strs(o: Option<Vec<String>>) -> Option<Seq<Seq<char>>> {
    match o {
        Some(v) => Some(strs_view(v@)),
        None => None,
    }
}

/// The goal names a task and activity is reported for a different one.
pub open spec fn other_task(goal_task: Option<Seq<char>>, task_id: Option<Seq<char>>) -> bool {
    goal_task matches Some(g) && task_id matches Some(t) && g != t
}

/// `uuid::Uuid::new_v4().simple().to_string()`: a new random (version 4)
/// UUID in the "simple" format, 32 lowercase hexadecimal digits. Nothing is
/// claimed of which digits come out.
#[verifier::external_body]
fn new_goal_id() -> (id: String)
    ensures
        id@.len() == 32,
        forall|i: int| 0 <= i < 32 ==> is_lower_hex(#[trigger] id@[i]),
{
    uuid::Uuid::new_v4().simple().to_string()
}

/// Position of the first task with id `id`.
fn find_task(tasks: &Vec<TaskSnapshot>, id: &str) -> (r: Option<usize>)
    ensures
        r matches Some(k) ==> k as int == task_pos(tasks@, id@, 0) && k < tasks@.len(),
        r is None ==> task_pos(tasks@, id@, 0) == -1,
{
    let mut i: usize = 0;
    while i < tasks.len()
        invariant
            i <= tasks@.len(),
            task_pos(tasks@, id@, 0) == task_pos(tasks@, id@, i as int),
        decreases tasks.len() - i,
    {
        if same_text(tasks[i].id.as_str(), id) {
            return Some(i);
        }
        i = i + 1;
    }
    None
}

/// Two optional strings are equal.
fn same_opt(a: &Option<String>, b: &Option<String>) -> (r: bool)
    ensures
        r == (opt_view(*a) == opt_view(*b)),
{
    match (a, b) {
        (Some(x), Some(y)) => same_text(x.as_str(), y.as_str()),
        (None, None) => true,
        _ => false,
    }
}


/// Executable form of [`settles`].
fn task_settles(status: TaskStatus) -> (r: bool)
    ensures
        r == settles(status),
{
    status == TaskStatus::Completed || status == TaskStatus::CompletedUnverified || status
        == TaskStatus::RolledBack || status == TaskStatus::Paused || status == TaskStatus::Failed
}

/// Status of the harness task linked to the goal, if any.
fn linked_task_status(goal: &GoalRecord, harness: &HarnessSnapshot) -> (r: Option<TaskStatus>)
    ensures
        r == match linked_task(*harness, goal@) {
            Some(t) => Some(t.status),
            None => None,
        },
{
    match &goal.task_id {
        Some(tid) => match find_task(&harness.tasks, tid.as_str()) {
            Some(k) => Some(harness.tasks[k].status),
            None => None,
        },
        None => None,
    }
}

/// The latest activity time of the goal seen in the harness.
fn latest_activity_of(goal: &GoalRecord, harness: &HarnessSnapshot) -> (r: u64)
    ensures
        r as nat == latest_activity(*harness, goal@),
{
    let own = parse_ms(goal.last_activity_at.as_str());
    let mut latest = own;
    match &goal.task_id {
        Some(tid) => match find_task(&harness.tasks, tid.as_str()) {
            Some(k) => {
                let updated = parse_ms(harness.tasks[k].updated_at.as_str());
                if updated > latest {
                    latest = updated;
                }
            },
            None => {},
        },
        None => {},
    }
    let ghost base = latest as nat;
    match &harness.recent_operations {
        Some(ops) => {
            let mut i: usize = 0;
            while i < ops.len()
                invariant
                    i <= ops@.len(),
                    latest as nat == ops_latest(ops@, goal@.task_id, base, i as int),
                decreases ops.len() - i,
            {
                let op = &ops[i];
                let counts = goal.task_id.is_none() || same_opt(&op.task_id, &goal.task_id);
                if counts {
                    let created = parse_ms(op.created_at.as_str());
                    if created > latest {
                        latest = created;
                    }
                }
                i = i + 1;
            }
        },
        None => {},
    }
    latest
}

/// Applies the settling task state `status` to the active goal.
fn settle_by_task(goal: GoalRecord, status: TaskStatus, now_ms: u64) -> (r: GoalRecord)
    requires
        settles(status),
    ensures
        settled_by_task(goal@, r@, status, now_ms),
{
    let mut goal = goal;
    goal.should_continue = false;
    if status == TaskStatus::Completed || status == TaskStatus::CompletedUnverified {
        goal.status = GoalStatus::Completed;
        goal.health = GoalHealth::Completed;
        goal.needs_attention = false;
        goal.monitor_message = MonitorNote::TaskCompleted.text();
    } else if status == TaskStatus::RolledBack {
        goal.health = GoalHealth::Failed;
        goal.needs_attention = true;
        goal.monitor_message = MonitorNote::TaskRolledBack.text();
    } else if status == TaskStatus::Paused {
        goal.health = GoalHealth::Paused;
        goal.needs_attention = false;
        goal.monitor_message = MonitorNote::TaskPaused.text();
    } else {
        goal.health = GoalHealth::Blocked;
        goal.needs_attention = true;
        goal.monitor_message = MonitorNote::TaskFailed.text();
    }
    goal.updated_at = decimal_string(now_ms);
    goal
}

/// Judges the active goal from its latest activity time.
fn judge_idle(goal: GoalRecord, latest: u64, now_ms: u64) -> (r: GoalRecord)
    ensures
        judged_idle(goal@, r@, latest as nat, now_ms),
{
    let mut goal = goal;
    let own = parse_ms(goal.last_activity_at.as_str());
    let idle: u64 = if now_ms >= latest {
        now_ms - latest
    } else {
        0
    };
    let stale: u64 = match goal.stale_after_secs.checked_mul(1000) {
        Some(v) => v,
        None => u64::MAX,
    };
    if idle >= stale {
        goal.health = GoalHealth::Stalled;
        goal.needs_attention = true;
        let mut message = owned("已超过 ");
        push_decimal(&mut message, goal.stale_after_secs);
        push_text(&mut message, " 秒没有检测到进展，需要继续推进或人工检查");
        goal.monitor_message = message;
    } else if idle >= IDLE_AFTER_SECS * 1000 {
        goal.health = GoalHealth::Idle;
        goal.needs_attention = false;
        goal.monitor_message = MonitorNote::Idle.text();
    } else {
        goal.health = GoalHealth::Running;
        goal.needs_attention = false;
        goal.monitor_message = MonitorNote::Running.text();
    }
    goal.should_continue = goal.auto_continue;
    if latest > own {
        goal.last_activity_at = decimal_string(latest);
    }
    goal.updated_at = decimal_string(now_ms);
    goal
}

/// Drives the goals of one workspace.
pub struct GoalMonitor {
    workspace_id: String,
    profile_id: Option<String>,
    store: GoalStore,
}

impl GoalMonitor {
    /// The workspace whose goals this monitor drives.
    pub closed spec fn workspace(&self) -> Seq<char> {
        self.workspace_id@
    }

    /// The workspace profile new goals are attributed to.
    pub closed spec fn profile(&self) -> Option<Seq<char>> {
        opt_view(self.profile_id)
    }

    /// The records of the store the monitor works on.
    pub closed spec fn records(&self) -> Seq<GoalView> {
        self.store.records()
    }

    /// What reading a goal file that is not there reports.
    pub closed spec fn missing_text(&self) -> Seq<char> {
        self.store.missing_text()
    }

    /// The damaged goal files of the store the monitor works on.
    pub closed spec fn damaged(&self) -> Seq<(Seq<char>, Seq<char>, Seq<char>)> {
        self.store.damaged()
    }

    pub fn new(workspace_id: String, profile_id: Option<String>, store: GoalStore) -> (m: GoalMonitor)
        ensures
            m.workspace() == workspace_id@,
            m.profile() == opt_view(profile_id),
            m.records() == store.records(),
    {
        GoalMonitor { workspace_id, profile_id, store }
    }

    /// The store, for writing its records out.
    pub fn store(&self) -> (r: &GoalStore)
        ensures
            r.records() == self.records(),
    {
        &self.store
    }

    /// Gives the store back.
    pub fn into_store(self) -> (r: GoalStore)
        ensures
            r.records() == self.records(),
    {
        self.store
    }

    /// The goal stored under `goal_id` for this workspace.
    pub fn goal(&self, goal_id: &str) -> (r: Result<GoalRecord, GoalError>)
        ensures
            match r {
                Ok(g) => lookup(self.records(), self.workspace(), goal_id@) == Some(g@),
                Err(e) => lookup(self.records(), self.workspace(), goal_id@) is None && absent_error(
                    e,
                    damage_of(self.damaged(), self.workspace(), goal_id@),
                    self.missing_text(),
                ),
            },
    {
        self.store.load_goal(self.workspace_id.as_str(), goal_id)
    }

    /// This workspace's goals, most recently updated first.
    pub fn list_goals(&self) -> (r: Result<Vec<GoalRecord>, GoalError>)
        ensures
            r matches Ok(v) && is_listing(views(v@), self.records(), self.workspace()),
            r matches Ok(v) ==> forall|u: Seq<char>|
                #[trigger] updated_at_of(views(v@), u) == updated_at_of(
                    of_workspace(self.records(), self.workspace()),
                    u,
                ),
    {
        Ok(self.store.list_goals(self.workspace_id.as_str()))
    }

    fn current_unlocked(&self) -> (r: Option<GoalRecord>)
        ensures
            unique_keys(self.records()),
            r is None <==> !has_current(self.records(), self.workspace()),
            r matches Some(g) ==> is_newest_current(self.records(), self.workspace(), g@),
    {
        let goals = self.store.goals();
        let ghost s = self.records();
        let ghost ws = self.workspace();
        let mut best: Option<usize> = None;
        let mut i: usize = 0;
        while i < goals.len()
            invariant
                s == views(goals@),
                s == self.records(),
                ws == self.workspace(),
                ws == self.workspace_id@,
                i <= goals@.len(),
                best is None ==> forall|k: int| 0 <= k < i ==> !current_of(#[trigger] s[k], ws),
                best matches Some(b) ==> {
                    &&& b < i
                    &&& current_of(s[b as int], ws)
                    &&& forall|k: int|
                        0 <= k < i && current_of(#[trigger] s[k], ws) ==> !str_lt(
                            s[b as int].updated_at,
                            s[k].updated_at,
                        )
                    &&& forall|k: int|
                        0 <= k < b && current_of(#[trigger] s[k], ws) ==> str_lt(
                            s[k].updated_at,
                            s[b as int].updated_at,
                        )
                },
            decreases goals.len() - i,
        {
            let g = &goals[i];
            assert(s[i as int] == g@);
            if same_text(g.workspace_id.as_str(), self.workspace_id.as_str()) && g.status.is_current() {
                match best {
                    None => {
                        proof {
                            lemma_str_lt_asym(g@.updated_at, g@.updated_at);
                        }
                        best = Some(i);
                    },
                    Some(b) => {
                        let held = &goals[b];
                        assert(s[b as int] == held@);
                        let a = chars_of(held.updated_at.as_str());
                        let c = chars_of(g.updated_at.as_str());
                        if str_less(&a, &c) {
                            proof {
                                lemma_str_lt_asym(g@.updated_at, g@.updated_at);
                                assert forall|k: int|
                                    0 <= k < i + 1 && current_of(#[trigger] s[k], ws) implies !str_lt(
                                    g@.updated_at,
                                    s[k].updated_at,
                                ) by {
                                    if k < i && str_lt(g@.updated_at, s[k].updated_at) {
                                        crate::order::lemma_str_lt_trans(
                                            held@.updated_at,
                                            g@.updated_at,
                                            s[k].updated_at,
                                        );
                                    }
                                }
                                assert forall|k: int|
                                    0 <= k < i && current_of(#[trigger] s[k], ws) implies str_lt(
                                    s[k].updated_at,
                                    g@.updated_at,
                                ) by {
                                    lemma_str_lt_neg_trans(held@.updated_at, s[k].updated_at, g@.updated_at);
                                }
                            }
                            best = Some(i);
                        }
                    },
                }
            }
            i = i + 1;
        }
        match best {
            None => {
                proof {
                    if has_current(s, ws) {
                        let k = choose|k: int| 0 <= k < s.len() && current_of(#[trigger] s[k], ws);
                        assert(!current_of(s[k], ws));
                    }
                }
                None
            },
            Some(b) => {
                let g = goals[b].copy();
                proof {
                    assert(s[b as int] == g@);
                    assert(current_at(s, ws, b as int));
                }
                Some(g)
            },
        }
    }

    /// The workspace's unfinished goal; where the store holds several, one
    /// updated most recently.
    pub fn current_goal(&self) -> (r: Result<Option<GoalRecord>, GoalError>)
        ensures
            r matches Ok(o) && (o is None <==> !has_current(self.records(), self.workspace())) && (
            o matches Some(g) ==> is_newest_current(self.records(), self.workspace(), g@)),
    {
        Ok(self.current_unlocked())
    }

    /// Starts a goal with the given id. Refused when the objective is blank or
    /// the workspace already has an unfinished goal.
    pub fn create_goal_with_id(
        &mut self,
        id: String,
        objective: &str,
        task_id: Option<String>,
        auto_continue: bool,
        stale_after_secs: u64,
        now_ms: u64,
    ) -> (r: Result<GoalRecord, GoalError>)
        ensures
            final(self).workspace() == old(self).workspace(),
            final(self).profile() == old(self).profile(),
            all_ws(objective@) ==> (r matches Err(GoalError::InvalidArgument) && final(self).records()
                == old(self).records()),
            !all_ws(objective@) && has_current(old(self).records(), old(self).workspace()) ==> (
            r matches Err(GoalError::GoalAlreadyActive { existing_id }) && final(self).records()
                == old(self).records() && exists|g: GoalView|
                is_newest_current(old(self).records(), old(self).workspace(), g) && g.id
                    == existing_id@),
            !all_ws(objective@) && !has_current(old(self).records(), old(self).workspace()) ==> (
            r matches Ok(g) && is_fresh_goal(
                g@,
                id@,
                old(self).workspace(),
                old(self).profile(),
                opt_view(task_id),
                objective@,
                auto_continue,
                stale_after_secs,
                now_ms,
            ) && final(self).records() == saved(old(self).records(), g@)),
            single_current(old(self).records(), old(self).workspace()) ==> single_current(
                final(self).records(),
                final(self).workspace(),
            ),
    {
        if is_blank(objective) {
            return Err(GoalError::InvalidArgument);
        }
        match self.current_unlocked() {
            Some(existing) => {
                return Err(GoalError::GoalAlreadyActive { existing_id: existing.id });
            },
            None => {},
        }
        let now = decimal_string(now_ms);
        let stale = if stale_after_secs < 30 {
            30
        } else if stale_after_secs > 86_400 {
            86_400
        } else {
            stale_after_secs
        };
        let goal = GoalRecord {
            schema_version: GOAL_SCHEMA_VERSION,
            id,
            workspace_id: self.workspace_id.clone(),
            profile_id: copy_opt(&self.profile_id),
            task_id,
            objective: trim_str(objective),
            status: GoalStatus::Active,
            health: GoalHealth::Running,
            auto_continue,
            stale_after_secs: stale,
            should_continue: auto_continue,
            needs_attention: false,
            completed_steps: Vec::new(),
            pending_steps: Vec::new(),
            note: None,
            blocked_reason: None,
            monitor_message: MonitorNote::Started.text(),
            last_activity_at: now.clone(),
            last_progress_at: now.clone(),
            continuation_count: 0,
            created_at: now.clone(),
            updated_at: now,
        };
        assert(goal@.completed_steps =~= Seq::<Seq<char>>::empty());
        assert(goal@.pending_steps =~= Seq::<Seq<char>>::empty());
        let copy = goal.copy();
        proof {
            lemma_save_single_current(self.records(), goal@, self.workspace());
        }
        self.store.save_goal(goal);
        Ok(copy)
    }

    /// Moves a goal to `status` when the status table allows it.
    pub fn set_status(&mut self, goal_id: &str, status: GoalStatus, reason: Option<String>, now_ms: u64) -> (r:
        Result<GoalRecord, GoalError>)
        ensures
            final(self).workspace() == old(self).workspace(),
            final(self).profile() == old(self).profile(),
            match lookup(old(self).records(), old(self).workspace(), goal_id@) {
                None => (r matches Err(e) && absent_error(
                        e,
                        damage_of(old(self).damaged(), old(self).workspace(), goal_id@),
                        old(self).missing_text(),
                    ))
                    && final(self).records() == old(self).records(),
                Some(old_goal) => if !old_goal.status.allows(status) {
                    r matches Err(GoalError::InvalidGoalTransition { from, to }) && from
                        == old_goal.status && to == status && final(self).records() == old(self).records()
                } else {
                    r matches Ok(g) && status_set(old_goal, g@, status, opt_view(reason), now_ms)
                        && final(self).records() == saved(old(self).records(), g@)
                },
            },
            single_current(old(self).records(), old(self).workspace()) ==> single_current(
                final(self).records(),
                final(self).workspace(),
            ),
    {
        let loaded = self.store.load_goal(self.workspace_id.as_str(), goal_id);
        let mut goal = match loaded {
            Ok(g) => g,
            Err(e) => {
                return Err(e);
            },
        };
        let ghost old_goal = goal@;
        if !goal.status.can_transition_to(status) {
            return Err(GoalError::InvalidGoalTransition { from: goal.status, to: status });
        }
        let ghost reason_view = opt_view(reason);
        goal.status = status;
        goal.updated_at = decimal_string(now_ms);
        match status {
            GoalStatus::Active => {
                goal.health = GoalHealth::Running;
                goal.blocked_reason = None;
                goal.should_continue = goal.auto_continue;
                goal.needs_attention = false;
                goal.monitor_message = MonitorNote::Resumed.text();
            },
            GoalStatus::Paused => {
                goal.health = GoalHealth::Paused;
                goal.should_continue = false;
                goal.needs_attention = false;
                goal.monitor_message = MonitorNote::Paused.text();
            },
            GoalStatus::Blocked => {
                goal.health = GoalHealth::Blocked;
                goal.blocked_reason = match reason {
                    Some(r) => if is_blank(r.as_str()) {
                        None
                    } else {
                        Some(r)
                    },
                    None => None,
                };
                goal.should_continue = false;
                goal.needs_attention = true;
                goal.monitor_message = match &goal.blocked_reason {
                    Some(r) => r.clone(),
                    None => MonitorNote::BlockedByDefault.text(),
                };
            },
            GoalStatus::Completed => {
                goal.health = GoalHealth::Completed;
                goal.should_continue = false;
                goal.needs_attention = false;
                goal.monitor_message = MonitorNote::Completed.text();
            },
            GoalStatus::Failed => {
                goal.health = GoalHealth::Failed;
                goal.should_continue = false;
                goal.needs_attention = true;
                goal.monitor_message = match reason {
                    Some(r) => r,
                    None => MonitorNote::FailedByDefault.text(),
                };
            },
            GoalStatus::Cleared => {
                goal.health = GoalHealth::Cleared;
                goal.should_continue = false;
                goal.needs_attention = false;
                goal.monitor_message = MonitorNote::Cleared.text();
            },
        }
        let copy = goal.copy();
        proof {
            let s = self.records();
            let ws = self.workspace();
            let k = goal_index(s, ws, goal_id@);
            if current_of(goal@, ws) {
                if old_goal.status.terminal() {
                    assert(status == old_goal.status);
                }
                assert(current_of(s[k], ws));
                if single_current(s, ws) {
                    assert forall|i: int| 0 <= i < s.len() && current_of(#[trigger] s[i], ws) implies keyed(
                        s[i],
                        goal@.workspace_id,
                        goal@.id,
                    ) by {
                        assert(i == k);
                    }
                }
            }
            if single_current(s, ws) {
                lemma_save_single_current(s, goal@, ws);
            }
        }
        self.store.save_goal(goal);
        Ok(copy)
    }
    /// Starts a goal under a fresh random id. Refused when the objective is
    /// blank or the workspace already has an unfinished goal.
    pub fn create_goal(
        &mut self,
        objective: &str,
        task_id: Option<String>,
        auto_continue: bool,
        stale_after_secs: u64,
        now_ms: u64,
    ) -> (r: Result<GoalRecord, GoalError>)
        ensures
            final(self).workspace() == old(self).workspace(),
            final(self).profile() == old(self).profile(),
            all_ws(objective@) ==> (r matches Err(GoalError::InvalidArgument) && final(self).records()
                == old(self).records()),
            !all_ws(objective@) && has_current(old(self).records(), old(self).workspace()) ==> (
            r matches Err(GoalError::GoalAlreadyActive { existing_id }) && final(self).records()
                == old(self).records() && exists|g: GoalView|
                is_newest_current(old(self).records(), old(self).workspace(), g) && g.id
                    == existing_id@),
            !all_ws(objective@) && !has_current(old(self).records(), old(self).workspace()) ==> (
            r matches Ok(g) && g@.id.len() == 32 && (forall|i: int|
                0 <= i < 32 ==> is_lower_hex(#[trigger] g@.id[i])) && is_fresh_goal(
                g@,
                g@.id,
                old(self).workspace(),
                old(self).profile(),
                opt_view(task_id),
                objective@,
                auto_continue,
                stale_after_secs,
                now_ms,
            ) && final(self).records() == saved(old(self).records(), g@)),
            single_current(old(self).records(), old(self).workspace()) ==> single_current(
                final(self).records(),
                final(self).workspace(),
            ),
    {
        let id = new_goal_id();
        let ghost id_view = id@;
        self.create_goal_with_id(id, objective, task_id, auto_continue, stale_after_secs, now_ms)
    }

    /// Records progress on an unfinished goal: replaces the step lists that
    /// are given and keeps a non-blank note (trimmed).
    pub fn update_progress(
        &mut self,
        goal_id: &str,
        completed_steps: Option<Vec<String>>,
        pending_steps: Option<Vec<String>>,
        note: Option<String>,
        now_ms: u64,
    ) -> (r: Result<GoalRecord, GoalError>)
        ensures
            final(self).workspace() == old(self).workspace(),
            final(self).profile() == old(self).profile(),
            match lookup(old(self).records(), old(self).workspace(), goal_id@) {
                None => (r matches Err(e) && absent_error(
                        e,
                        damage_of(old(self).damaged(), old(self).workspace(), goal_id@),
                        old(self).missing_text(),
                    ))
                    && final(self).records() == old(self).records(),
                Some(old_goal) => if old_goal.status.terminal() {
                    r matches Err(GoalError::GoalTerminal) && final(self).records() == old(self).records()
                } else {
                    r matches Ok(g) && progress_updated(
                        old_goal,
                        g@,
                        opt_strs(completed_steps),
                        opt_strs(pending_steps),
                        opt_view(note),
                        now_ms,
                    ) && final(self).records() == saved(old(self).records(), g@)
                },
            },
            single_current(old(self).records(), old(self).workspace()) ==> single_current(
                final(self).records(),
                final(self).workspace(),
            ),
    {
        let loaded = self.store.load_goal(self.workspace_id.as_str(), goal_id);
        let mut goal = match loaded {
            Ok(g) => g,
            Err(e) => {
                return Err(e);
            },
        };
        let ghost old_goal = goal@;
        if goal.status.is_terminal() {
            return Err(GoalError::GoalTerminal);
        }
        let ghost completed_view = opt_strs(completed_steps);
        let ghost pending_view = opt_strs(pending_steps);
        let ghost note_view = opt_view(note);
        let mut progressed = false;
        match completed_steps {
            Some(steps) => {
                if !same_strs(&steps, &goal.completed_steps) {
                    progressed = true;
                }
                goal.completed_steps = steps;
            },
            None => {},
        }
        match pending_steps {
            Some(steps) => {
                if !same_strs(&steps, &goal.pending_steps) {
                    progressed = true;
                }
                goal.pending_steps = steps;
            },
            None => {},
        }
        match note {
            Some(n) => {
                if !is_blank(n.as_str()) {
                    goal.note = Some(trim_str(n.as_str()));
                    progressed = true;
                }
            },
            None => {},
        }
        assert(progressed == makes_progress(old_goal, completed_view, pending_view, note_view));
        let now = decimal_string(now_ms);
        goal.last_activity_at = now.clone();
        if progressed {
            goal.last_progress_at = now.clone();
        }
        goal.updated_at = now;
        goal.health = GoalHealth::Running;
        goal.needs_attention = false;
        goal.should_continue = goal.status == GoalStatus::Active && goal.auto_continue;
        goal.monitor_message = MonitorNote::ProgressUpdated.text();
        let copy = goal.copy();
        proof {
            self.lemma_rewrite_keeps_single_current(goal_id@, goal@);
        }
        self.store.save_goal(goal);
        Ok(copy)
    }

    /// Rewriting a stored goal without reopening it keeps at most one
    /// unfinished goal in the workspace.
    proof fn lemma_rewrite_keeps_single_current(&self, goal_id: Seq<char>, g: GoalView)
        requires
            unique_keys(self.records()),
            lookup(self.records(), self.workspace(), goal_id) matches Some(o) && (!o.status.terminal()
                || g.status.terminal()),
            g.workspace_id == self.workspace(),
            g.id == goal_id,
        ensures
            single_current(self.records(), self.workspace()) ==> single_current(
                saved(self.records(), g),
                self.workspace(),
            ),
    {
        let s = self.records();
        let ws = self.workspace();
        let k = goal_index(s, ws, goal_id);
        if single_current(s, ws) {
            if current_of(g, ws) {
                assert(current_of(s[k], ws));
                assert forall|i: int| 0 <= i < s.len() && current_of(#[trigger] s[i], ws) implies keyed(
                    s[i],
                    g.workspace_id,
                    g.id,
                ) by {
                    assert(i == k);
                }
            }
            lemma_save_single_current(s, g, ws);
        }
    }

    /// Notes agent activity on the workspace's unfinished goal (the most
    /// recently updated one), unless the activity belongs to another task.
    pub fn touch_task(&mut self, task_id: Option<&str>, now_ms: u64) -> (r: Result<(), GoalError>)
        ensures
            r is Ok,
            final(self).workspace() == old(self).workspace(),
            final(self).profile() == old(self).profile(),
            !has_current(old(self).records(), old(self).workspace()) ==> final(self).records() == old(self).records(),
            has_current(old(self).records(), old(self).workspace()) ==> exists|g: GoalView|
                is_newest_current(old(self).records(), old(self).workspace(), g) && if other_task(
                    g.task_id,
                    match task_id {
                        Some(t) => Some(t@),
                        None => None,
                    },
                ) {
                    final(self).records() == old(self).records()
                } else {
                    exists|n: GoalView|
                        touched(g, n, now_ms) && final(self).records() == saved(
                            old(self).records(),
                            n,
                        )
                },
            single_current(old(self).records(), old(self).workspace()) ==> single_current(
                final(self).records(),
                final(self).workspace(),
            ),
    {
        let mut goal = match self.current_unlocked() {
            Some(g) => g,
            None => {
                return Ok(());
            },
        };
        let ghost old_goal = goal@;
        let ghost task_view = match task_id {
            Some(t) => Some(t@),
            None => None,
        };
        let mismatch = match (&goal.task_id, task_id) {
            (Some(gt), Some(t)) => !same_text(gt.as_str(), t),
            _ => false,
        };
        if mismatch {
            assert(other_task(old_goal.task_id, task_view));
            return Ok(());
        }
        let now = decimal_string(now_ms);
        goal.last_activity_at = now.clone();
        goal.updated_at = now;
        if goal.status == GoalStatus::Active {
            goal.health = GoalHealth::Running;
            goal.needs_attention = false;
            goal.should_continue = goal.auto_continue;
            goal.monitor_message = MonitorNote::ActivitySeen.text();
        }
        proof {
            let s = self.records();
            assert(s.contains(old_goal));
            let k = choose|k: int| 0 <= k < s.len() && s[k] == old_goal;
            lemma_goal_index_unique(s, self.workspace(), old_goal.id, k);
            self.lemma_rewrite_keeps_single_current(old_goal.id, goal@);
            assert(touched(old_goal, goal@, now_ms));
        }
        self.store.save_goal(goal);
        Ok(())
    }

    /// Counts a continuation handoff on an active goal; other goals are
    /// returned as they are.
    pub fn record_continuation(&mut self, goal_id: &str, now_ms: u64) -> (r: Result<GoalRecord, GoalError>)
        ensures
            final(self).workspace() == old(self).workspace(),
            final(self).profile() == old(self).profile(),
            match lookup(old(self).records(), old(self).workspace(), goal_id@) {
                None => (r matches Err(e) && absent_error(
                        e,
                        damage_of(old(self).damaged(), old(self).workspace(), goal_id@),
                        old(self).missing_text(),
                    ))
                    && final(self).records() == old(self).records(),
                Some(old_goal) => if old_goal.status != GoalStatus::Active {
                    r matches Ok(g) && g@ == old_goal && final(self).records() == old(self).records()
                } else {
                    r matches Ok(g) && continued(old_goal, g@, now_ms) && final(self).records()
                        == saved(old(self).records(), g@)
                },
            },
            single_current(old(self).records(), old(self).workspace()) ==> single_current(
                final(self).records(),
                final(self).workspace(),
            ),
    {
        let loaded = self.store.load_goal(self.workspace_id.as_str(), goal_id);
        let mut goal = match loaded {
            Ok(g) => g,
            Err(e) => {
                return Err(e);
            },
        };
        if goal.status != GoalStatus::Active {
            return Ok(goal);
        }
        goal.continuation_count = if goal.continuation_count == u32::MAX {
            goal.continuation_count
        } else {
            goal.continuation_count + 1
        };
        goal.updated_at = decimal_string(now_ms);
        let mut message = owned("ChatGPT 已请求第 ");
        push_decimal(&mut message, goal.continuation_count as u64);
        push_text(&mut message, " 次 Goal 续跑 handoff");
        goal.monitor_message = message;
        let copy = goal.copy();
        proof {
            self.lemma_rewrite_keeps_single_current(goal_id@, goal@);
        }
        self.store.save_goal(goal);
        Ok(copy)
    }

    fn refresh_unlocked(&mut self, goal_id: &str, harness: &HarnessSnapshot, now_ms: u64) -> (r:
        Result<GoalRecord, GoalError>)
        ensures
            final(self).workspace() == old(self).workspace(),
            final(self).profile() == old(self).profile(),
            match lookup(old(self).records(), old(self).workspace(), goal_id@) {
                None => (r matches Err(e) && absent_error(
                        e,
                        damage_of(old(self).damaged(), old(self).workspace(), goal_id@),
                        old(self).missing_text(),
                    ))
                    && final(self).records() == old(self).records(),
                Some(old_goal) => if old_goal.status != GoalStatus::Active {
                    r matches Ok(g) && g@ == old_goal && final(self).records() == old(self).records()
                } else {
                    r matches Ok(g) && refreshed(old_goal, g@, *harness, now_ms) && final(self).records() == saved(old(self).records(), g@)
                },
            },
            single_current(old(self).records(), old(self).workspace()) ==> single_current(
                final(self).records(),
                final(self).workspace(),
            ),
    {
        let loaded = self.store.load_goal(self.workspace_id.as_str(), goal_id);
        let goal = match loaded {
            Ok(g) => g,
            Err(e) => {
                return Err(e);
            },
        };
        let ghost old_goal = goal@;
        if goal.status != GoalStatus::Active {
            return Ok(goal);
        }
        let linked = linked_task_status(&goal, harness);
        let updated = match linked {
            Some(status) => if task_settles(status) {
                settle_by_task(goal, status, now_ms)
            } else {
                let latest = latest_activity_of(&goal, harness);
                judge_idle(goal, latest, now_ms)
            },
            None => {
                let latest = latest_activity_of(&goal, harness);
                judge_idle(goal, latest, now_ms)
            },
        };
        let copy = updated.copy();
        proof {
            self.lemma_rewrite_keeps_single_current(goal_id@, updated@);
        }
        self.store.save_goal(updated);
        Ok(copy)
    }

    /// Re-judges an active goal from the harness's activity at `now_ms`;
    /// goals that are not active are returned as they are.
    pub fn refresh_goal(&mut self, goal_id: &str, harness: &HarnessSnapshot, now_ms: u64) -> (r:
        Result<GoalRecord, GoalError>)
        ensures
            final(self).workspace() == old(self).workspace(),
            final(self).profile() == old(self).profile(),
            match lookup(old(self).records(), old(self).workspace(), goal_id@) {
                None => (r matches Err(e) && absent_error(
                        e,
                        damage_of(old(self).damaged(), old(self).workspace(), goal_id@),
                        old(self).missing_text(),
                    ))
                    && final(self).records() == old(self).records(),
                Some(old_goal) => if old_goal.status != GoalStatus::Active {
                    r matches Ok(g) && g@ == old_goal && final(self).records() == old(self).records()
                } else {
                    r matches Ok(g) && refreshed(old_goal, g@, *harness, now_ms) && final(self).records() == saved(old(self).records(), g@)
                },
            },
            single_current(old(self).records(), old(self).workspace()) ==> single_current(
                final(self).records(),
                final(self).workspace(),
            ),
    {
        self.refresh_unlocked(goal_id, harness, now_ms)
    }

    /// Refreshes the workspace's unfinished goal (the most recently updated
    /// one); `None` when it has none.
    pub fn refresh_current(&mut self, harness: &HarnessSnapshot, now_ms: u64) -> (r: Result<
        Option<GoalRecord>,
        GoalError,
    >)
        ensures
            final(self).workspace() == old(self).workspace(),
            final(self).profile() == old(self).profile(),
            !has_current(old(self).records(), old(self).workspace()) ==> (r matches Ok(None)
                && final(self).records() == old(self).records()),
            has_current(old(self).records(), old(self).workspace()) ==> exists|c: GoalView|
                is_newest_current(old(self).records(), old(self).workspace(), c) && if c.status
                    != GoalStatus::Active {
                    r matches Ok(Some(g)) && g@ == c && final(self).records() == old(self).records()
                } else {
                    r matches Ok(Some(g)) && refreshed(c, g@, *harness, now_ms) && final(self).records() == saved(old(self).records(), g@)
                },
            single_current(old(self).records(), old(self).workspace()) ==> single_current(
                final(self).records(),
                final(self).workspace(),
            ),
    {
        let goal = match self.current_unlocked() {
            Some(g) => g,
            None => {
                return Ok(None);
            },
        };
        proof {
            let s = self.records();
            assert(s.contains(goal@));
            let k = choose|k: int| 0 <= k < s.len() && s[k] == goal@;
            lemma_goal_index_unique(s, self.workspace(), goal@.id, k);
        }
        match self.refresh_unlocked(goal.id.as_str(), harness, now_ms) {
            Ok(g) => Ok(Some(g)),
            Err(e) => Err(e),
        }
    }
}

} // verus!
