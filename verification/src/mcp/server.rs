//! The MCP JSON-RPC surface: which handler a request goes to, the server's
//! instructions to ChatGPT, the goal widget resource, and the ChatGPT session
//! key handed to history tools.
use vstd::prelude::*;
use crate::monitor::model::opt_view;
use crate::monitor::ui::GOAL_WIDGET_URI;
use crate::text::{all_ws, chars_of, occurs_at, owned, push_text, same_text, text_at, trim_spec};

verus! {

/// The MCP protocol version the server speaks.
pub const PROTOCOL_VERSION: &'static str = "2025-06-18";

/// How the server tells ChatGPT to use its tools: the conversation archive,
/// the harness task lifecycle and the goal monitor.
pub const SERVER_INSTRUCTIONS: &'static str = "Use these tools only for local coding operations inside the configured workspace. At the start of every new ChatGPT conversation, before answering the user's first request, call history_session_bootstrap exactly once and pass the user's verbatim first request as initial_user_input. Immediately after bootstrap, call harness_status and goal_status. If goal_status returns an active Goal, restore its objective and pending steps before taking new substantial work. When an active Goal has should_continue=true, keep working toward that Goal instead of ending the turn merely because one intermediate step finished; update it with goal_update after meaningful milestones. If progress is impossible without user input or an external dependency, use goal_block with the concrete reason. Only call goal_complete after project-specific verification passes, unless verification truly cannot run and allow_unverified=true is explicit. If the Goal is still active when you are ready to end the current ChatGPT turn, call goal_handoff as your final Goal tool call. Its MCP Apps Goal UI can request a follow-up message from ChatGPT so the web client continues the same Goal without any separate model API key. For a new request that explicitly asks for a long-running/autonomous objective or continued work until a condition is met, call goal_create; it will attach to or create the Harness Task. For ordinary multi-step coding that does not need autonomous continuation, use the Harness Task lifecycle directly. If harness_status reports an active task, use task_context before continuing substantial work. If there is no active task and the user's request requires multiple code edits, command/test iterations, or durable progress tracking, call start_task with a concise objective; simple read-only questions and one-off operations may remain in standalone mode. During a tracked task, call update_task when meaningful milestones or pending steps change. Use project_state, operation_log, git_status, and git_diff to recover context or investigate a baseline mismatch. Before claiming a tracked task is complete, run the relevant project-specific verification. Call finish_task with verified=true only after verification passes; if verification cannot be run, use allow_unverified=true and state the limitation. Treat bootstrap as required conversation initialization: it creates or resumes a lossless Markdown archive and returns bounded current state, not all history. Use history_session_search followed by history_session_read only when exact earlier context is needed. history_session_read returns a bounded UTF-8-safe page; follow next_cursor with the returned content hash until the relevant archive is complete. Repeated successful bootstrap calls in the same conversation resume the same session and must not create duplicates. Preserve session_key and current_path returned by bootstrap, then pass them unchanged as session_key and expected_path to every history_session_checkpoint call. After completing each user-requested task in the conversation, call history_session_checkpoint before the final response and pass that user's verbatim request as raw_user_input. Only state that progress was saved after checkpoint returns ok=true with the same session_key and path. The MCP server never calls an OpenAI model API itself; model reasoning remains in ChatGPT. The Goal UI uses the ChatGPT/MCP Apps follow-up-message bridge when the host supports it. The server cannot access ChatGPT transcript text that was not provided as a tool argument; persistence is not automatic background persistence.";

/// The instructions sent with `initialize`.
pub fn initialize_instructions() -> (r: &'static str)
    ensures
        r@ == SERVER_INSTRUCTIONS@,
{
    SERVER_INSTRUCTIONS
}

/// Where a JSON-RPC request goes.
#[derive(Clone, Copy, PartialEq, Eq, Structural, Debug)]
pub enum McpRoute {
    /// A notification (no id, method `notifications/...`): no reply.
    Ignore,
    Initialize,
    Ping,
    ResourcesList,
    ResourcesRead,
    ToolsList,
    ToolsCall,
    /// Any other method: error -32601.
    NotFound,
}

/// The handler of a method; `id_is_null` when the request has no id.
pub open spec fn route_of(method: Seq<char>, id_is_null: bool) -> McpRoute {
    if id_is_null && occurs_at(method, 0, "notifications/"@) {
        McpRoute::Ignore
    } else if method == "initialize"@ {
        McpRoute::Initialize
    } else if method == "ping"@ {
        McpRoute::Ping
    } else if method == "resources/list"@ {
        McpRoute::ResourcesList
    } else if method == "resources/read"@ {
        McpRoute::ResourcesRead
    } else if method == "tools/list"@ {
        McpRoute::ToolsList
    } else if method == "tools/call"@ {
        McpRoute::ToolsCall
    } else {
        McpRoute::NotFound
    }
}

/// Each protocol method goes to its own handler, whether or not the request
/// has an id, and no other method does; a method outside the protocol is
/// not found, but for a notification without an id, which is ignored.
pub proof fn lemma_methods_route_to_their_handlers(method: Seq<char>, id_is_null: bool)
    ensures
        route_of(method, id_is_null) == McpRoute::Initialize <==> method == "initialize"@,
        route_of(method, id_is_null) == McpRoute::Ping <==> method == "ping"@,
        route_of(method, id_is_null) == McpRoute::ResourcesList <==> method == "resources/list"@,
        route_of(method, id_is_null) == McpRoute::ResourcesRead <==> method == "resources/read"@,
        route_of(method, id_is_null) == McpRoute::ToolsList <==> method == "tools/list"@,
        route_of(method, id_is_null) == McpRoute::ToolsCall <==> method == "tools/call"@,
        route_of(method, id_is_null) == McpRoute::Ignore <==> (id_is_null && occurs_at(
            method,
            0,
            "notifications/"@,
        )),
{
    reveal_strlit("initialize");
    reveal_strlit("ping");
    reveal_strlit("resources/list");
    reveal_strlit("resources/read");
    reveal_strlit("tools/list");
    reveal_strlit("tools/call");
    reveal_strlit("notifications/");
    assert(!occurs_at("initialize"@, 0, "notifications/"@));
    assert(!occurs_at("ping"@, 0, "notifications/"@));
    assert("notifications/"@[0] == 'n');
    assert("resources/list"@[10] != "resources/read"@[10]);
    assert("tools/list"@[6] != "tools/call"@[6]);
    assert("initialize"@[0] != "tools/list"@[0]);
    assert("initialize"@[0] != "tools/call"@[0]);
    assert(!occurs_at("resources/list"@, 0, "notifications/"@)) by {
        assert("resources/list"@[0] == 'r');
        if occurs_at("resources/list"@, 0, "notifications/"@) {
            assert("resources/list"@.subrange(0, 14)[0] == 'r');
        }
    }
    assert(!occurs_at("resources/read"@, 0, "notifications/"@)) by {
        assert("resources/read"@[0] == 'r');
        if occurs_at("resources/read"@, 0, "notifications/"@) {
            assert("resources/read"@.subrange(0, 14)[0] == 'r');
        }
    }
    assert(!occurs_at("tools/list"@, 0, "notifications/"@));
    assert(!occurs_at("tools/call"@, 0, "notifications/"@));
}

/// Routes a request by its method (empty when absent).
pub fn route_method(method: &str, id_is_null: bool) -> (r: McpRoute)
    ensures
        r == route_of(method@, id_is_null),
{
    let v = chars_of(method);
    if id_is_null && text_at(v.as_slice(), 0, "notifications/") {
        McpRoute::Ignore
    } else if same_text(method, "initialize") {
        McpRoute::Initialize
    } else if same_text(method, "ping") {
        McpRoute::Ping
    } else if same_text(method, "resources/list") {
        McpRoute::ResourcesList
    } else if same_text(method, "resources/read") {
        McpRoute::ResourcesRead
    } else if same_text(method, "tools/list") {
        McpRoute::ToolsList
    } else if same_text(method, "tools/call") {
        McpRoute::ToolsCall
    } else {
        McpRoute::NotFound
    }
}

/// A JSON-RPC error: its code and message.
pub struct RpcError {
    pub code: i64,
    pub message: String,
}

/// The error for an unknown method.
pub fn method_not_found(method: &str) -> (r: RpcError)
    ensures
        r.code == -32601,
        r.message@ == "Method not found: "@ + method@,
{
    let mut m = owned("Method not found: ");
    push_text(&mut m, method);
    RpcError { code: -32601, message: m }
}

/// Checks a `resources/read` request: only the goal widget can be read.
pub fn resource_read_check(uri: Option<&str>) -> (r: Result<(), RpcError>)
    ensures
        match uri {
            None => r matches Err(e) && e.code == -32602 && e.message@ == "Missing resource uri"@,
            Some(u) => if u@ == GOAL_WIDGET_URI@ {
                r is Ok
            } else {
                r matches Err(e) && e.code == -32602 && e.message@ == "Unknown resource: "@ + u@
            },
        },
{
    match uri {
        None => Err(RpcError { code: -32602, message: owned("Missing resource uri") }),
        Some(u) => {
            if same_text(u, GOAL_WIDGET_URI) {
                Ok(())
            } else {
                let mut m = owned("Unknown resource: ");
                push_text(&mut m, u);
                Err(RpcError { code: -32602, message: m })
            }
        },
    }
}

/// The error for a tool call without a tool name.
pub fn missing_tool_name() -> (r: RpcError)
    ensures
        r.code == -32602,
        r.message@ == "Missing tool name"@,
{
    RpcError { code: -32602, message: owned("Missing tool name") }
}

/// The message for a tool that is not exposed.
pub fn unknown_tool_message(name: &str) -> (r: String)
    ensures
        r@ == "Unknown tool: "@ + name@,
{
    let mut m = owned("Unknown tool: ");
    push_text(&mut m, name);
    m
}

/// The ChatGPT session key a tool receives as `_host_session_key`: only
/// history tools (`history_session_...`) get it, trimmed, when the host sent
/// a non-blank `openai/session`.
pub open spec fn host_session_key(tool: Seq<char>, session: Option<Seq<char>>) -> Option<Seq<char>> {
    match session {
        Some(s) => if occurs_at(tool, 0, "history_session_"@) && !all_ws(s) {
            Some(trim_spec(s))
        } else {
            None
        },
        None => None,
    }
}

/// Decides which session key, if any, is injected into a tool's arguments.
pub fn session_key_for(tool_name: &str, session: Option<&str>) -> (r: Option<String>)
    ensures
        opt_view(r) == host_session_key(
            tool_name@,
            match session {
                Some(s) => Some(s@),
                None => None,
            },
        ),
{
    match session {
        Some(s) => {
            let t = chars_of(tool_name);
            if text_at(t.as_slice(), 0, "history_session_") && !crate::text::is_blank(s) {
                Some(crate::text::trim_str(s))
            } else {
                None
            }
        },
        None => None,
    }
}

} // verus!
