use coding_tools_mcp::mcp::server::{
    initialize_instructions, method_not_found, resource_read_check, route_method,
    session_key_for, unknown_tool_message, McpRoute,
};
use coding_tools_mcp::commands::access_logs::{checked_workspace_id, query_workspace_ids};

#[test]
fn initialize_instructions_define_the_history_persistence_workflow() {
    let instructions = initialize_instructions();
    assert!(instructions.contains("history_session_bootstrap"));
    assert!(instructions.contains("At the start of every new ChatGPT conversation"));
    assert!(instructions.contains("before answering the user's first request"));
    assert!(instructions.contains("required conversation initialization"));
    assert!(instructions.contains("initial_user_input"));
    assert!(instructions.contains("must not create duplicates"));
    assert!(instructions.contains("history_session_checkpoint"));
    assert!(instructions.contains("raw_user_input"));
    assert!(instructions.contains("history_session_search"));
    assert!(instructions.contains("history_session_read"));
    assert!(instructions.contains("follow next_cursor"));
    assert!(instructions.contains("session_key and current_path returned by bootstrap"));
    assert!(instructions.contains("session_key and expected_path"));
    assert!(instructions.contains("After completing each user-requested task"));
    assert!(instructions.contains("before the final response"));
    assert!(instructions.contains("checkpoint returns ok=true"));
    assert!(instructions.contains("not automatic background persistence"));
}

#[test]
fn initialize_instructions_define_the_harness_workflow() {
    let instructions = initialize_instructions();
    assert!(instructions.contains("call harness_status"));
    assert!(instructions.contains("multiple code edits"));
    assert!(instructions.contains("call start_task"));
    assert!(instructions.contains("call update_task"));
    assert!(instructions.contains("finish_task with verified=true"));
    assert!(instructions.contains("simple read-only questions"));
    assert!(instructions.contains("standalone mode"));
}

#[test]
fn initialize_instructions_define_the_goal_monitor_workflow() {
    let instructions = initialize_instructions();
    assert!(instructions.contains("call harness_status and goal_status"));
    assert!(instructions.contains("goal_create"));
    assert!(instructions.contains("goal_update"));
    assert!(instructions.contains("goal_block"));
    assert!(instructions.contains("goal_complete"));
    assert!(instructions.contains("should_continue=true"));
    assert!(instructions.contains("goal_handoff"));
    assert!(instructions.contains("MCP Apps Goal UI"));
    assert!(instructions.contains("never calls an OpenAI model API"));
}

#[test]
fn requests_are_routed_by_method() {
    assert_eq!(route_method("notifications/initialized", true), McpRoute::Ignore);
    assert_eq!(route_method("notifications/initialized", false), McpRoute::NotFound);
    assert_eq!(route_method("tools/call", false), McpRoute::ToolsCall);
    assert_eq!(route_method("resources/read", true), McpRoute::ResourcesRead);
    assert_eq!(route_method("", false), McpRoute::NotFound);
    let e = method_not_found("x/y");
    assert_eq!(e.code, -32601);
    assert_eq!(e.message, "Method not found: x/y");
}

#[test]
fn only_the_goal_widget_can_be_read() {
    assert!(resource_read_check(Some("ui://coding-tools-mcp/goal-status-v1.html")).is_ok());
    let unknown = resource_read_check(Some("ui://x")).err().expect("unknown");
    assert_eq!(unknown.code, -32602);
    assert_eq!(unknown.message, "Unknown resource: ui://x");
    assert_eq!(resource_read_check(None).err().expect("missing").message, "Missing resource uri");
    assert_eq!(unknown_tool_message("nope"), "Unknown tool: nope");
}

#[test]
fn session_keys_go_to_history_tools_only() {
    assert_eq!(
        session_key_for("history_session_bootstrap", Some(" chatgpt-conversation ")).as_deref(),
        Some("chatgpt-conversation")
    );
    assert_eq!(session_key_for("read_file", Some("chatgpt-conversation")), None);
    assert_eq!(session_key_for("history_session_read", Some("   ")), None);
}

#[test]
fn workspace_scope_is_checked() {
    let known = vec!["a".to_string(), "b".to_string()];
    assert_eq!(query_workspace_ids(None, &known).ok(), Some(known.clone()));
    assert_eq!(query_workspace_ids(Some(" b "), &known).ok(), Some(vec!["b".to_string()]));
    assert_eq!(query_workspace_ids(Some("c"), &known).err(), Some("workspace not found: c".to_string()));
    assert_eq!(checked_workspace_id(Some("  "), &known).ok(), Some(None));
}

#[test]
fn log_directories_are_checked_against_known_workspaces() {
    let known = vec!["a".to_string()];
    assert_eq!(
        coding_tools_mcp::commands::access_logs::checked_access_log_directory("/cfg", None, &known).ok(),
        Some("/cfg/logs".to_string())
    );
    assert_eq!(
        coding_tools_mcp::commands::access_logs::checked_access_log_directory("/cfg", Some(" a "), &known).ok(),
        Some("/cfg/logs/a".to_string())
    );
    assert_eq!(
        coding_tools_mcp::commands::access_logs::checked_access_log_directory("/cfg", Some("b"), &known).err(),
        Some("workspace not found: b".to_string())
    );
}
