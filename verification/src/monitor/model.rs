//! Goal records and the lifecycle rules of their status.
use vstd::prelude::*;

verus! {

/// Version of the persisted goal record layout.
pub const GOAL_SCHEMA_VERSION: u32 = 1;

/// Lifecycle status of a goal.
#[derive(Clone, Copy, PartialEq, Eq, Structural, Debug)]
pub enum GoalStatus {
    Active,
    Paused,
    Blocked,
    Completed,
    Failed,
    Cleared,
}

impl GoalStatus {
    /// Completed, failed and cleared goals are finished.
    pub open spec fn terminal(self) -> bool {
        self is Completed || self is Failed || self is Cleared
    }

    /// The transition table: staying put is always allowed; an active goal
    /// may move anywhere; a paused goal may resume or be cleared; a blocked
    /// goal may resume, fail or be cleared; finished goals stay finished.
    pub open spec fn allows(self, next: GoalStatus) -> bool {
        ||| self == next
        ||| self is Active
        ||| (self is Paused && (next is Active || next is Cleared))
        ||| (self is Blocked && (next is Active || next is Failed || next is Cleared))
    }

    /// The variant's name, as `Debug` writes it.
    pub open spec fn name(self) -> Seq<char> {
        match self {
            GoalStatus::Active => "Active"@,
            GoalStatus::Paused => "Paused"@,
            GoalStatus::Blocked => "Blocked"@,
            GoalStatus::Completed => "Completed"@,
            GoalStatus::Failed => "Failed"@,
            GoalStatus::Cleared => "Cleared"@,
        }
    }

    /// The variant's name, as `Debug` writes it.
    pub fn name_str(self) -> (r: &'static str)
        ensures
            r@ == self.name(),
    {
        match self {
            GoalStatus::Active => "Active",
            GoalStatus::Paused => "Paused",
            GoalStatus::Blocked => "Blocked",
            GoalStatus::Completed => "Completed",
            GoalStatus::Failed => "Failed",
            GoalStatus::Cleared => "Cleared",
        }
    }

    pub fn is_terminal(self) -> (r: bool)
        ensures
            r == self.terminal(),
    {
        matches!(self, GoalStatus::Completed | GoalStatus::Failed | GoalStatus::Cleared)
    }

    /// A goal that is not finished is the workspace's current goal.
    pub fn is_current(self) -> (r: bool)
        ensures
            r == !self.terminal(),
    {
        !self.is_terminal()
    }

    pub fn can_transition_to(self, next: GoalStatus) -> (r: bool)
        ensures
            r == self.allows(next),
    {
        self == next || matches!(
            (self, next),
            (
                GoalStatus::Active,
                GoalStatus::Paused | GoalStatus::Blocked | GoalStatus::Completed
                | GoalStatus::Failed | GoalStatus::Cleared,
            ) | (GoalStatus::Paused, GoalStatus::Active | GoalStatus::Cleared) | (
                GoalStatus::Blocked,
                GoalStatus::Active | GoalStatus::Failed | GoalStatus::Cleared,
            )
        )
    }
}

/// Who may move where: every unfinished goal may return to active or be
/// cleared; only an active goal may be paused or completed, and only an
/// active or a blocked one may fail (besides staying where it is).
pub proof fn lemma_status_moves(from: GoalStatus)
    ensures
        !from.terminal() ==> from.allows(GoalStatus::Active),
        !from.terminal() ==> from.allows(GoalStatus::Cleared),
        from.allows(GoalStatus::Paused) <==> (from == GoalStatus::Active || from == GoalStatus::Paused),
        from.allows(GoalStatus::Completed) <==> (from == GoalStatus::Active || from
            == GoalStatus::Completed),
        from.allows(GoalStatus::Failed) <==> (from == GoalStatus::Active || from == GoalStatus::Blocked
            || from == GoalStatus::Failed),
        from.allows(GoalStatus::Blocked) <==> (from == GoalStatus::Active || from == GoalStatus::Blocked),
{
}

/// A finished goal can only "move" to its own status: nothing reopens it.
pub proof fn lemma_terminal_is_final(from: GoalStatus, to: GoalStatus)
    requires
        from.terminal(),
        from.allows(to),
    ensures
        to == from,
{
}

/// From an active goal every status can be reached, and every status can
/// stay where it is.
pub proof fn lemma_active_reaches_all(to: GoalStatus)
    ensures
        GoalStatus::Active.allows(to),
        to.allows(to),
{
}

/// A stored goal without the field continues automatically.
pub fn default_auto_continue() -> (r: bool)
    ensures
        r,
{
    true
}

/// A stored goal without the field goes stale after 180 seconds.
pub fn default_stale_after_secs() -> (r: u64)
    ensures
        r == 180,
{
    180
}

/// Monitor's judgement of how a goal is progressing.
#[derive(Clone, Copy, PartialEq, Eq, Structural, Debug)]
pub enum GoalHealth {
    Running,
    Idle,
    Stalled,
    Paused,
    Blocked,
    Completed,
    Failed,
    Cleared,
}

/// A long-running goal of one workspace. Timestamps are milliseconds since
/// the Unix epoch, written in decimal.
#[derive(Debug)]
pub struct GoalRecord {
    pub schema_version: u32,
    pub id: String,
    pub workspace_id: String,
    pub profile_id: Option<String>,
    pub task_id: Option<String>,
    pub objective: String,
    pub status: GoalStatus,
    pub health: GoalHealth,
    pub auto_continue: bool,
    pub stale_after_secs: u64,
    pub should_continue: bool,
    pub needs_attention: bool,
    pub completed_steps: Vec<String>,
    pub pending_steps: Vec<String>,
    pub note: Option<String>,
    pub blocked_reason: Option<String>,
    pub monitor_message: String,
    pub last_activity_at: String,
    pub last_progress_at: String,
    pub continuation_count: u32,
    pub created_at: String,
    pub updated_at: String,
}

/// The content of a [`GoalRecord`], strings taken as character sequences.
pub struct GoalView {
    pub schema_version: u32,
    pub id: Seq<char>,
    pub workspace_id: Seq<char>,
    pub profile_id: Option<Seq<char>>,
    pub task_id: Option<Seq<char>>,
    pub objective: Seq<char>,
    pub status: GoalStatus,
    pub health: GoalHealth,
    pub auto_continue: bool,
    pub stale_after_secs: u64,
    pub should_continue: bool,
    pub needs_attention: bool,
    pub completed_steps: Seq<Seq<char>>,
    pub pending_steps: Seq<Seq<char>>,
    pub note: Option<Seq<char>>,
    pub blocked_reason: Option<Seq<char>>,
    pub monitor_message: Seq<char>,
    pub last_activity_at: Seq<char>,
    pub last_progress_at: Seq<char>,
    pub continuation_count: u32,
    pub created_at: Seq<char>,
    pub updated_at: Seq<char>,
}

/// An optional string by its characters.
pub open spec fn opt_view(o: Option<String>) -> Option<Seq<char>> {
    match o {
        Some(s) => Some(s@),
        None => None,
    }
}

/// A list of strings by their characters.
pub open spec fn strs_view(v: Seq<String>) -> Seq<Seq<char>> {
    v.map_values(|s: String| s@)
}

impl View for GoalRecord {
    type V = GoalView;

    open spec fn view(&self) -> GoalView {
        GoalView {
            schema_version: self.schema_version,
            id: self.id@,
            workspace_id: self.workspace_id@,
            profile_id: opt_view(self.profile_id),
            task_id: opt_view(self.task_id),
            objective: self.objective@,
            status: self.status,
            health: self.health,
            auto_continue: self.auto_continue,
            stale_after_secs: self.stale_after_secs,
            should_continue: self.should_continue,
            needs_attention: self.needs_attention,
            completed_steps: strs_view(self.completed_steps@),
            pending_steps: strs_view(self.pending_steps@),
            note: opt_view(self.note),
            blocked_reason: opt_view(self.blocked_reason),
            monitor_message: self.monitor_message@,
            last_activity_at: self.last_activity_at@,
            last_progress_at: self.last_progress_at@,
            continuation_count: self.continuation_count,
            created_at: self.created_at@,
            updated_at: self.updated_at@,
        }
    }
}

/// A copy of an optional string.
pub fn copy_opt(o: &Option<String>) -> (r: Option<String>)
    ensures
        opt_view(r) == opt_view(*o),
{
    match o {
        Some(s) => Some(s.clone()),
        None => None,
    }
}

/// A copy of a list of strings.
pub fn copy_strs(v: &Vec<String>) -> (r: Vec<String>)
    ensures
        strs_view(r@) == strs_view(v@),
{
    let mut r: Vec<String> = Vec::new();
    let mut i: usize = 0;
    while i < v.len()
        invariant
            i <= v@.len(),
            strs_view(r@) == strs_view(v@.subrange(0, i as int)),
        decreases v.len() - i,
    {
        let c = v[i].clone();
        assert(c@ == v@[i as int]@);
        let ghost prev = r@;
        r.push(c);
        assert(strs_view(prev) =~= strs_view(v@.subrange(0, i as int)));
        assert(r@ == prev.push(c));
        assert forall|j: int| 0 <= j < i + 1 implies #[trigger] strs_view(r@)[j] == strs_view(
            v@.subrange(0, i + 1),
        )[j] by {
            if j < i {
                assert(strs_view(prev)[j] == strs_view(v@.subrange(0, i as int))[j]);
            } else {
                assert(strs_view(r@)[j] == r@[j]@);
                assert(strs_view(v@.subrange(0, i + 1))[j] == v@.subrange(0, i + 1)[j]@);
            }
        }
        assert(strs_view(r@) =~= strs_view(v@.subrange(0, i + 1)));
        i = i + 1;
    }
    assert(v@.subrange(0, i as int) =~= v@);
    r
}

/// Two lists of strings hold the same strings in the same order.
pub fn same_strs(a: &Vec<String>, b: &Vec<String>) -> (r: bool)
    ensures
        r == (strs_view(a@) == strs_view(b@)),
{
    if a.len() != b.len() {
        assert(strs_view(a@).len() != strs_view(b@).len());
        return false;
    }
    let mut i: usize = 0;
    while i < a.len()
        invariant
            i <= a@.len(),
            a@.len() == b@.len(),
            forall|j: int| 0 <= j < i ==> a@[j]@ == b@[j]@,
        decreases a.len() - i,
    {
        if a[i] != b[i] {
            assert(strs_view(a@)[i as int] != strs_view(b@)[i as int]);
            return false;
        }
        i = i + 1;
    }
    assert(strs_view(a@) =~= strs_view(b@));
    true
}

impl GoalRecord {
    /// A field-for-field copy.
    pub fn copy(&self) -> (r: GoalRecord)
        ensures
            r@ == self@,
    {
        GoalRecord {
            schema_version: self.schema_version,
            id: self.id.clone(),
            workspace_id: self.workspace_id.clone(),
            profile_id: copy_opt(&self.profile_id),
            task_id: copy_opt(&self.task_id),
            objective: self.objective.clone(),
            status: self.status,
            health: self.health,
            auto_continue: self.auto_continue,
            stale_after_secs: self.stale_after_secs,
            should_continue: self.should_continue,
            needs_attention: self.needs_attention,
            completed_steps: copy_strs(&self.completed_steps),
            pending_steps: copy_strs(&self.pending_steps),
            note: copy_opt(&self.note),
            blocked_reason: copy_opt(&self.blocked_reason),
            monitor_message: self.monitor_message.clone(),
            last_activity_at: self.last_activity_at.clone(),
            last_progress_at: self.last_progress_at.clone(),
            continuation_count: self.continuation_count,
            created_at: self.created_at.clone(),
            updated_at: self.updated_at.clone(),
        }
    }
}


/// Why a goal operation was refused.
#[derive(Debug)]
pub enum GoalError {
    /// The objective is empty or blank.
    InvalidArgument,
    /// The workspace already has an unfinished goal.
    GoalAlreadyActive { existing_id: String },
    /// Finished goals take no more progress updates.
    GoalTerminal,
    /// The status table does not allow the move.
    InvalidGoalTransition { from: GoalStatus, to: GoalStatus },
    /// No goal is stored under that id; the message is what reading a file
    /// that is not there reports on this machine.
    NotFound { message: String },
    /// The goal's file under that id does not hold a goal; the message names
    /// the file and what was wrong with it.
    Corrupt { message: String },
}

impl GoalError {
    /// The stable error code reported to tools and the UI.
    pub fn code(&self) -> (r: &'static str)
        ensures
            r@ == self.code_spec(),
    {
        match self {
            GoalError::InvalidArgument => "INVALID_ARGUMENT",
            GoalError::GoalAlreadyActive { .. } => "GOAL_ALREADY_ACTIVE",
            GoalError::GoalTerminal => "GOAL_TERMINAL",
            GoalError::InvalidGoalTransition { .. } => "INVALID_GOAL_TRANSITION",
            GoalError::NotFound { .. } => "STORE_IO_FAILED",
            GoalError::Corrupt { .. } => "STORE_CORRUPT",
        }
    }

    /// The text the error is reported with.
    pub open spec fn message_spec(&self) -> Seq<char> {
        match self {
            GoalError::InvalidArgument => "Goal objective 不能为空"@,
            GoalError::GoalAlreadyActive { existing_id } => "当前工作区已有未结束 Goal "@ + existing_id@,
            GoalError::GoalTerminal => "已结束 Goal 不能继续更新"@,
            GoalError::InvalidGoalTransition { from, to } => "不允许从 "@ + from.name() + " 转换到 "@
                + to.name(),
            GoalError::NotFound { message } => message@,
            GoalError::Corrupt { message } => message@,
        }
    }

    /// The text the error is reported with.
    pub fn message(&self) -> (r: String)
        ensures
            r@ == self.message_spec(),
    {
        match self {
            GoalError::InvalidArgument => crate::text::owned("Goal objective 不能为空"),
            GoalError::GoalAlreadyActive { existing_id } => {
                let mut m = crate::text::owned("当前工作区已有未结束 Goal ");
                crate::text::push_text(&mut m, existing_id.as_str());
                m
            },
            GoalError::GoalTerminal => crate::text::owned("已结束 Goal 不能继续更新"),
            GoalError::InvalidGoalTransition { from, to } => {
                let mut m = crate::text::owned("不允许从 ");
                crate::text::push_text(&mut m, from.name_str());
                crate::text::push_text(&mut m, " 转换到 ");
                crate::text::push_text(&mut m, to.name_str());
                m
            },
            GoalError::NotFound { message } => crate::text::owned(message.as_str()),
            GoalError::Corrupt { message } => crate::text::owned(message.as_str()),
        }
    }

    pub open spec fn code_spec(&self) -> Seq<char> {
        match self {
            GoalError::InvalidArgument => "INVALID_ARGUMENT"@,
            GoalError::GoalAlreadyActive { .. } => "GOAL_ALREADY_ACTIVE"@,
            GoalError::GoalTerminal => "GOAL_TERMINAL"@,
            GoalError::InvalidGoalTransition { .. } => "INVALID_GOAL_TRANSITION"@,
            GoalError::NotFound { .. } => "STORE_IO_FAILED"@,
            GoalError::Corrupt { .. } => "STORE_CORRUPT"@,
        }
    }
}

} // verus!
