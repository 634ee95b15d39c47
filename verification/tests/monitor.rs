use coding_tools_mcp::harness::{HarnessSnapshot, OperationSnapshot, TaskSnapshot, TaskStatus};
use coding_tools_mcp::monitor::model::{GoalError, GoalHealth, GoalStatus};
use coding_tools_mcp::monitor::state::{parse_ms, GoalMonitor};
use coding_tools_mcp::monitor::store::{DamagedGoal, GoalStore};
use coding_tools_mcp::monitor::tools::{
    block_reason, block_task_move, completion_gate, goal_task_plan, goal_tool, handoff_wanted,
    map_error, pause_task_move, resolve_goal_id, resume_task_move, stale_after_secs_arg,
    tool_names, unknown_tool, unverified_completion, verified_completion_finish,
    verified_completion_start, completion_step, first_completion_stage, CompletionStage, GoalTool,
    TaskPlan,
};
use coding_tools_mcp::monitor::ui::{goal_widget_html, GOAL_WIDGET_URI};
use coding_tools_mcp::commands::monitor::{dashboard_order, item};

const T0: u64 = 1_780_000_000_000;
const MISSING: &str = "No such file or directory (os error 2)";

fn monitor() -> GoalMonitor {
    GoalMonitor::new(
        "workspace".to_string(),
        Some("profile".to_string()),
        GoalStore::new("/tmp/goals".to_string(), MISSING.to_string()),
    )
}

fn no_harness() -> HarnessSnapshot {
    HarnessSnapshot { tasks: Vec::new(), recent_operations: None }
}

#[test]
fn goal_lifecycle_is_persistent() {
    let mut monitor = monitor();
    let goal = monitor
        .create_goal("完成长期任务", Some("task-1".into()), true, 60, T0)
        .ok()
        .expect("goal");
    assert_eq!(goal.status, GoalStatus::Active);
    assert!(monitor.current_goal().ok().expect("current").is_some());

    let paused = monitor
        .set_status(&goal.id, GoalStatus::Paused, None, T0 + 1)
        .ok()
        .expect("pause");
    assert_eq!(paused.health, GoalHealth::Paused);
    let resumed = monitor
        .set_status(&goal.id, GoalStatus::Active, None, T0 + 2)
        .ok()
        .expect("resume");
    assert!(resumed.should_continue);
    let completed = monitor
        .set_status(&goal.id, GoalStatus::Completed, None, T0 + 3)
        .ok()
        .expect("complete");
    assert_eq!(completed.health, GoalHealth::Completed);
    assert!(monitor.current_goal().ok().expect("current").is_none());
    let stored = monitor.store().load_goal("workspace", &goal.id).ok().expect("stored");
    assert_eq!(stored.status, GoalStatus::Completed);
}

#[test]
fn a_workspace_has_one_unfinished_goal() {
    let mut monitor = monitor();
    let first = monitor.create_goal("first", None, true, 60, T0).ok().expect("first");
    assert_eq!(first.id.len(), 32);
    assert!(first.id.chars().all(|c| c.is_ascii_hexdigit() && !c.is_ascii_uppercase()));
    assert_eq!(first.stale_after_secs, 60);
    match monitor.create_goal("second", None, true, 60, T0) {
        Err(GoalError::GoalAlreadyActive { existing_id }) => assert_eq!(existing_id, first.id),
        _ => panic!("expected GOAL_ALREADY_ACTIVE"),
    }
    assert!(matches!(monitor.create_goal("   ", None, true, 60, T0), Err(GoalError::InvalidArgument)));
    assert_eq!(monitor.list_goals().ok().expect("list").len(), 1);
}

#[test]
fn finished_goals_stay_finished() {
    let mut monitor = monitor();
    let goal = monitor.create_goal("g", None, false, 10, T0).ok().expect("goal");
    assert_eq!(goal.stale_after_secs, 30);
    assert!(!goal.should_continue);
    monitor.set_status(&goal.id, GoalStatus::Cleared, None, T0).ok().expect("clear");
    match monitor.set_status(&goal.id, GoalStatus::Active, None, T0) {
        Err(GoalError::InvalidGoalTransition { from, to }) => {
            assert_eq!(from, GoalStatus::Cleared);
            assert_eq!(to, GoalStatus::Active);
        }
        _ => panic!("expected INVALID_GOAL_TRANSITION"),
    }
    assert!(matches!(
        monitor.update_progress(&goal.id, None, None, Some("x".into()), T0),
        Err(GoalError::GoalTerminal)
    ));
    match monitor.goal("missing") {
        Err(e) => {
            assert_eq!(e.code(), "STORE_IO_FAILED");
            assert_eq!(e.message(), MISSING);
        }
        Ok(_) => panic!("no such goal"),
    }
    assert!(!GoalStatus::Completed.can_transition_to(GoalStatus::Active));
    assert!(GoalStatus::Blocked.can_transition_to(GoalStatus::Failed));
    assert!(!GoalStatus::Paused.can_transition_to(GoalStatus::Blocked));
}

#[test]
fn progress_and_continuations_are_recorded() {
    let mut monitor = monitor();
    let goal = monitor.create_goal("g", Some("t".into()), true, 60, T0).ok().expect("goal");
    let updated = monitor
        .update_progress(
            &goal.id,
            Some(vec!["a".to_string()]),
            Some(vec!["b".to_string()]),
            Some("  note  ".to_string()),
            T0 + 5,
        )
        .ok()
        .expect("update");
    assert_eq!(updated.completed_steps, vec!["a".to_string()]);
    assert_eq!(updated.pending_steps, vec!["b".to_string()]);
    assert_eq!(updated.note.as_deref(), Some("note"));
    let continued = monitor.record_continuation(&goal.id, T0 + 6).ok().expect("continue");
    assert_eq!(continued.continuation_count, 1);
}

#[test]
fn idle_active_goals_are_noticed() {
    let mut monitor = monitor();
    let goal = monitor.create_goal("g", Some("t".into()), true, 60, T0).ok().expect("goal");
    let harness = HarnessSnapshot {
        tasks: vec![TaskSnapshot { id: "t".into(), status: TaskStatus::Active, updated_at: T0.to_string() }],
        recent_operations: Some(vec![OperationSnapshot { task_id: Some("t".into()), created_at: T0.to_string() }]),
    };
    let fresh = monitor.refresh_goal(&goal.id, &harness, T0 + 1_000).ok().expect("refresh");
    assert_eq!(fresh.health, GoalHealth::Running);
    let stalled = monitor.refresh_goal(&goal.id, &harness, T0 + 3_600_000).ok().expect("refresh");
    assert_eq!(stalled.health, GoalHealth::Stalled);
    assert!(stalled.needs_attention);
    assert!(monitor.refresh_current(&no_harness(), T0).ok().expect("current").is_some());
    assert_eq!(parse_ms("123"), 123);
    assert_eq!(parse_ms("x"), 0);
}

#[test]
fn goal_tools_are_named() {
    assert_eq!(goal_tool("goal_complete"), Some(GoalTool::Complete));
    assert_eq!(goal_tool("goal_nothing"), None);
    assert_eq!(tool_names().len(), 9);
    let failure = unknown_tool();
    assert_eq!(failure.code, "INVALID_ARGUMENT");
    assert_eq!(failure.message, "未知 Goal 工具");
    assert!(!failure.retryable);
}

#[test]
fn goal_ids_resolve_to_the_argument_or_the_current_goal() {
    let mut monitor = monitor();
    let missing = resolve_goal_id(&monitor, Some("  ")).err().expect("no goal");
    assert_eq!(missing.code, "GOAL_REQUIRED");
    assert!(missing.retryable);
    let goal = monitor.create_goal("g", None, true, 60, T0).ok().expect("goal");
    assert_eq!(resolve_goal_id(&monitor, None).ok(), Some(goal.id.clone()));
    assert_eq!(resolve_goal_id(&monitor, Some("other")).ok(), Some("other".to_string()));
    let e = map_error(&GoalError::GoalAlreadyActive { existing_id: "abc".into() });
    assert_eq!(e.code, "GOAL_ALREADY_ACTIVE");
    assert_eq!(e.message, "当前工作区已有未结束 Goal abc");
    assert!(e.retryable);
    let t = map_error(&GoalError::InvalidGoalTransition { from: GoalStatus::Cleared, to: GoalStatus::Active });
    assert_eq!(t.message, "不允许从 Cleared 转换到 Active");
}

#[test]
fn goal_tasks_follow_their_goal() {
    assert_eq!(goal_task_plan("x", None).ok(), Some(TaskPlan::Start));
    assert_eq!(goal_task_plan(" x ", Some(("x", TaskStatus::Paused))).ok(), Some(TaskPlan::Reactivate));
    assert_eq!(goal_task_plan("x", Some(("x", TaskStatus::Verifying))).ok(), Some(TaskPlan::Reuse));
    let conflict = goal_task_plan("x", Some(("y", TaskStatus::Active))).err().expect("conflict");
    assert_eq!(conflict.code, "GOAL_TASK_CONFLICT");
    assert_eq!(conflict.message, "当前 Harness Task 仍未结束：y。请先完成或处理该 Task，再创建新的 Goal");
    assert_eq!(pause_task_move(TaskStatus::Active), Some(TaskStatus::Paused));
    assert_eq!(pause_task_move(TaskStatus::Failed), None);
    assert_eq!(resume_task_move(TaskStatus::Failed), Some(TaskStatus::Active));
    assert_eq!(block_task_move(TaskStatus::Verifying), Some(TaskStatus::Failed));
    assert_eq!(stale_after_secs_arg(None), 180);
    assert_eq!(stale_after_secs_arg(Some(5)), 30);
    assert_eq!(stale_after_secs_arg(Some(100_000)), 86_400);
    assert_eq!(block_reason(Some(" waiting ")).ok(), Some(" waiting ".to_string()));
    assert_eq!(block_reason(Some("  ")).err().expect("blank").message, "reason 是必填项");
    assert!(handoff_wanted(GoalStatus::Active, true));
    assert!(!handoff_wanted(GoalStatus::Paused, true));
}

#[test]
fn completion_needs_verification_and_an_active_goal() {
    let refused = completion_gate(false, false, GoalStatus::Active).err().expect("refused");
    assert_eq!(refused.code, "GOAL_VERIFICATION_REQUIRED");
    assert_eq!(completion_gate(true, false, GoalStatus::Paused).err().expect("paused").code, "GOAL_NOT_ACTIVE");
    assert!(completion_gate(false, true, GoalStatus::Active).is_ok());
    assert_eq!(unverified_completion(TaskStatus::Verifying).ok(), Some(Some(TaskStatus::CompletedUnverified)));
    assert_eq!(unverified_completion(TaskStatus::Completed).ok(), Some(None));
    assert_eq!(unverified_completion(TaskStatus::Paused).err().expect("paused").code, "GOAL_TASK_NOT_COMPLETABLE");
    assert_eq!(verified_completion_start(TaskStatus::Active), Some(TaskStatus::Verifying));
    assert_eq!(verified_completion_finish(TaskStatus::Verifying).ok(), Some(Some(TaskStatus::Completed)));
    assert_eq!(
        verified_completion_finish(TaskStatus::Failed).err().expect("failed").message,
        "关联 Harness Task 当前不能完成，请先恢复 Task 并完成验证"
    );
}

#[test]
fn widget_is_served_under_its_uri() {
    assert_eq!(GOAL_WIDGET_URI, "ui://coding-tools-mcp/goal-status-v1.html");
    assert!(goal_widget_html().starts_with("<!doctype html>"));
    assert!(goal_widget_html().contains("sendFollowUpMessage"));
}

#[test]
fn dashboard_lists_newest_goals_first() {
    let mut a = monitor();
    let ga = a.create_goal("a", None, true, 60, T0).ok().expect("a");
    let mut b = monitor();
    let gb = b.create_goal("b", None, true, 60, T0 + 10).ok().expect("b");
    let items = vec![item("p1", "one", "/one", ga), item("p2", "two", "/two", gb)];
    let ordered = dashboard_order(items);
    assert_eq!(ordered[0].profile_id, "p2");
    assert_eq!(ordered[1].workspace_path, "/one");
}

#[test]
fn dashboard_keeps_goals_updated_together_in_order() {
    let mut items = Vec::new();
    for (k, at) in [(1, T0), (2, T0 + 5), (3, T0), (4, T0), (5, T0 + 5)] {
        let mut m = monitor();
        let g = m.create_goal("g", None, true, 60, at).ok().expect("goal");
        items.push(item(&format!("p{k}"), "w", "/w", g));
    }
    let ordered = dashboard_order(items);
    let ids: Vec<&str> = ordered.iter().map(|i| i.profile_id.as_str()).collect();
    assert_eq!(ids, ["p2", "p5", "p1", "p3", "p4"]);
}

#[test]
fn activity_marks_the_current_goal_running() {
    let mut monitor = monitor();
    let goal = monitor.create_goal("g", Some("t".into()), true, 60, T0).ok().expect("goal");
    monitor.touch_task(Some("other"), T0 + 5).ok().expect("touch");
    assert_eq!(monitor.goal(&goal.id).ok().expect("goal").last_activity_at, T0.to_string());
    monitor.touch_task(Some("t"), T0 + 7).ok().expect("touch");
    let touched = monitor.goal(&goal.id).ok().expect("goal");
    assert_eq!(touched.last_activity_at, (T0 + 7).to_string());
    assert_eq!(touched.health, GoalHealth::Running);
    let store = monitor.into_store();
    assert_eq!(store.goals().len(), 1);
}

#[test]
fn a_damaged_goal_file_reads_as_corrupt_until_rewritten() {
    let mut first = monitor();
    let goal = first.create_goal("g", None, true, 60, T0).ok().expect("goal");
    let damaged = vec![DamagedGoal {
        workspace_id: "workspace".to_string(),
        goal_id: "broken".to_string(),
        message: "/tmp/goals/workspaces/workspace/goals/broken.json: EOF while parsing".to_string(),
    }];
    let store = GoalStore::from_records("/tmp/goals".to_string(), MISSING.to_string(), vec![goal.copy()], damaged);
    match store.load_goal("workspace", "broken") {
        Err(e) => {
            assert_eq!(e.code(), "STORE_CORRUPT");
            assert!(matches!(e, GoalError::Corrupt { .. }));
            assert_eq!(map_error(&e).code, "STORE_CORRUPT");
        }
        Ok(_) => panic!("a damaged file holds no goal"),
    }
    assert!(matches!(store.load_goal("workspace", "missing"), Err(GoalError::NotFound { .. })));
    assert_eq!(store.list_goals("workspace").len(), 1);
    let mut store = store;
    let mut repaired = goal.copy();
    repaired.id = "broken".to_string();
    store.save_goal(repaired);
    assert_eq!(store.load_goal("workspace", "broken").ok().expect("rewritten").id, "broken");
}

#[test]
fn the_current_goal_is_the_first_of_the_newest_in_store_order() {
    let mut m = monitor();
    let g = m.create_goal("g", Some("t".into()), true, 60, T0).ok().expect("goal");
    let mut first = g.copy();
    first.id = "b".to_string();
    let mut second = g.copy();
    second.id = "a".to_string();
    let mut older = g.copy();
    older.id = "c".to_string();
    older.updated_at = (T0 - 5).to_string();
    let store = GoalStore::from_records("/tmp/goals".to_string(), MISSING.to_string(), vec![older, first, second], vec![]);
    let mut m = GoalMonitor::new("workspace".to_string(), None, store);
    let current = m.current_goal().ok().expect("ok").expect("current");
    assert_eq!(current.id, "b");
    m.touch_task(Some("t"), T0 + 9).ok().expect("touch");
    assert_eq!(m.goal("b").ok().expect("b").last_activity_at, (T0 + 9).to_string());
    assert_eq!(m.goal("a").ok().expect("a").last_activity_at, T0.to_string());
    assert_eq!(m.current_goal().ok().expect("ok").expect("current").id, "b");
}

#[test]
fn completions_run_through_their_stages() {
    let stage = first_completion_stage(false);
    assert_eq!(stage, CompletionStage::VerifyStart);
    let (mv, next) = completion_step(stage, TaskStatus::Active).ok().expect("start");
    assert_eq!(mv, Some(TaskStatus::Verifying));
    assert_eq!(next, Some(CompletionStage::VerifyFinish));
    let (mv, next) = completion_step(CompletionStage::VerifyFinish, TaskStatus::Verifying).ok().expect("finish");
    assert_eq!((mv, next), (Some(TaskStatus::Completed), None));
    assert_eq!(
        completion_step(CompletionStage::VerifyFinish, TaskStatus::Paused).err().expect("refused").code,
        "GOAL_TASK_NOT_COMPLETABLE"
    );
    let stage = first_completion_stage(true);
    assert_eq!(
        completion_step(stage, TaskStatus::Active).ok(),
        Some((Some(TaskStatus::CompletedUnverified), None))
    );
    assert_eq!(completion_step(stage, TaskStatus::Completed).ok(), Some((None, None)));
    assert!(completion_step(stage, TaskStatus::Failed).is_err());
}

#[test]
fn listing_keeps_store_order_among_goals_updated_together() {
    let mut m = monitor();
    let g = m.create_goal("g", None, true, 60, T0).ok().expect("goal");
    let mut done = g.copy();
    done.id = "z".to_string();
    done.status = GoalStatus::Completed;
    let mut open = g.copy();
    open.id = "a".to_string();
    let mut newer = g.copy();
    newer.id = "m".to_string();
    newer.status = GoalStatus::Cleared;
    newer.updated_at = (T0 + 1).to_string();
    let store = GoalStore::from_records(
        "/tmp/goals".to_string(),
        MISSING.to_string(),
        vec![done, open, newer],
        vec![],
    );
    let ids: Vec<String> = store.list_goals("workspace").into_iter().map(|g| g.id).collect();
    assert_eq!(ids, ["m", "z", "a"]);
    let m = GoalMonitor::new("workspace".to_string(), None, store);
    assert_eq!(m.current_goal().ok().expect("ok").expect("current").id, "a");
}
