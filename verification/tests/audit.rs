use coding_tools_mcp::audit::classify::{response_metadata, ToolOutputFields};
use coding_tools_mcp::audit::record::tool_call_detail;
use coding_tools_mcp::audit::config::{
    config_entries, config_from_values, read_bool_config, validate_config, AuditConfig, AuditError,
};
use coding_tools_mcp::audit::detail::{
    capture_value, command_to_keep, current_time_ms, sha256_hex, utf8_prefix_len,
};
use coding_tools_mcp::audit::headers::{
    client_ip_from_headers, header_text, normalize_forwarded_value, request_context_from_headers,
    HeaderList,
};
use coding_tools_mcp::audit::query::{
    append_filters, cleanup_day, listing_statement, record_duration, record_select_sql,
    retention_cutoff, stats_statement, AuditQuery, SqlParam,
};

fn headers(pairs: &[(&str, &str)]) -> HeaderList {
    pairs
        .iter()
        .map(|(name, value)| (name.to_string(), Some(value.to_string())))
        .collect()
}

fn output() -> ToolOutputFields {
    ToolOutputFields {
        ok: None,
        transport_ok: None,
        command_ok: None,
        status: None,
        error_category: None,
        error_code: None,
        error_message: None,
        summary: None,
        exit_code: None,
        termination_reason: None,
    }
}

#[test]
fn forwarded_ipv6_keeps_the_complete_address() {
    assert_eq!(normalize_forwarded_value("[2001:db8::1]:443"), "2001:db8::1");
    assert_eq!(normalize_forwarded_value("2001:db8::2"), "2001:db8::2");
}

#[test]
fn forwarded_values_lose_ports_and_quotes() {
    assert_eq!(normalize_forwarded_value(" \"203.0.113.7:8080\" "), "203.0.113.7");
    assert_eq!(normalize_forwarded_value("203.0.113.7"), "203.0.113.7");
    assert_eq!(normalize_forwarded_value("host:"), "host");
    assert_eq!(normalize_forwarded_value("[::1"), "[::1");
}

#[test]
fn cloudflare_prefers_connecting_ip_over_xff() {
    let h = headers(&[
        ("cf-ray", "1234567890abcdef-SJC"),
        ("cf-connecting-ip", "192.0.2.10"),
        ("x-forwarded-for", "198.51.100.20, 203.0.113.30"),
    ]);
    assert_eq!(client_ip_from_headers(&h).as_deref(), Some("192.0.2.10"));
}

#[test]
fn cloudflare_without_connecting_ip_uses_xff_tail() {
    let h = headers(&[
        ("cf-ray", "1234567890abcdef-SJC"),
        ("x-forwarded-for", "198.51.100.20, 203.0.113.30"),
    ]);
    assert_eq!(client_ip_from_headers(&h).as_deref(), Some("203.0.113.30"));
}

#[test]
fn custom_forwarded_ip_is_not_used_as_a_proxy_header() {
    let h = headers(&[("forwarded_ip", "192.0.2.1")]);
    assert_eq!(client_ip_from_headers(&h), None);
}

#[test]
fn forwarded_header_and_real_ip_are_fallbacks() {
    let h = headers(&[("forwarded", "for=192.0.2.60;proto=http, For=\"[2001:db8:cafe::17]:4711\"")]);
    assert_eq!(client_ip_from_headers(&h).as_deref(), Some("2001:db8:cafe::17"));
    let h = headers(&[("x-forwarded-for", " , "), ("x-real-ip", "198.51.100.9:1234")]);
    assert_eq!(client_ip_from_headers(&h).as_deref(), Some("198.51.100.9"));
    let h: HeaderList = vec![("user-agent".to_string(), None)];
    assert_eq!(header_text(&h, "user-agent"), None);
}

#[test]
fn request_context_takes_the_xff_tail_and_user_agent() {
    let h = headers(&[
        ("forwarded_ip", "192.0.2.1"),
        ("x-forwarded-for", "198.51.100.2, 203.0.113.7"),
        ("user-agent", " audit-test "),
    ]);
    let request = request_context_from_headers(
        &h,
        "mcp".to_string(),
        Some("tools/call".to_string()),
        Some("1".to_string()),
        Some("/mcp".to_string()),
    );
    assert_eq!(request.forwarded_ip.as_deref(), Some("203.0.113.7"));
    assert_eq!(request.user_agent.as_deref(), Some("audit-test"));
    assert_eq!(request.transport, "mcp");
}

#[test]
fn successful_kill_session_is_not_an_audit_failure() {
    let killed = response_metadata(
        "kill_session",
        &ToolOutputFields {
            ok: Some(true),
            transport_ok: Some(true),
            command_ok: Some(false),
            status: Some("killed".to_string()),
            ..output()
        },
    );
    assert_eq!(killed.status, "success");
    assert!(!killed.is_error);

    let terminating = response_metadata(
        "kill_session",
        &ToolOutputFields {
            ok: Some(true),
            transport_ok: Some(true),
            command_ok: Some(false),
            status: Some("terminating".to_string()),
            ..output()
        },
    );
    assert_eq!(terminating.status, "failure");
    assert!(terminating.is_error);
}

#[test]
fn policy_errors_are_rejections() {
    let rejected = response_metadata(
        "exec",
        &ToolOutputFields {
            ok: Some(false),
            error_category: Some("policy".to_string()),
            error_code: Some("PATH_OUTSIDE_WORKSPACE".to_string()),
            error_message: Some("denied".to_string()),
            ..output()
        },
    );
    assert_eq!(rejected.status, "rejected");
    assert_eq!(rejected.error_code.as_deref(), Some("PATH_OUTSIDE_WORKSPACE"));
    assert_eq!(rejected.error_message.as_deref(), Some("denied"));
    let failed = response_metadata(
        "exec",
        &ToolOutputFields {
            command_ok: Some(false),
            summary: Some("exit 2".to_string()),
            exit_code: Some(2),
            ..output()
        },
    );
    assert_eq!(failed.status, "failure");
    assert_eq!(failed.error_message.as_deref(), Some("exit 2"));
    assert_eq!(failed.exit_code, Some(2));
    let ok = response_metadata("exec", &ToolOutputFields { summary: Some("fine".to_string()), ..output() });
    assert_eq!(ok.status, "success");
    assert_eq!(ok.error_message, None);
}

#[test]
fn config_rows_read_back_as_the_same_config() {
    let config = AuditConfig {
        http_log_enabled: false,
        http_log_retention_days: 7,
        tool_audit_enabled: true,
        tool_audit_retention_days: 0,
        detail_limit_bytes: -1,
    };
    let rows = config_entries(&config);
    assert_eq!(rows[0], ("http_log_enabled", "false".to_string()));
    assert_eq!(rows[4], ("detail_limit_bytes", "-1".to_string()));
    let back = config_from_values(&rows[0].1, &rows[1].1, &rows[2].1, &rows[3].1, &rows[4].1)
        .expect("config");
    assert_eq!(back, config);
    assert_eq!(AuditConfig::default().detail_limit_bytes, 262144);
}

#[test]
fn damaged_config_values_are_refused() {
    assert_eq!(read_bool_config("http_log_enabled", "1").ok(), Some(true));
    match read_bool_config("http_log_enabled", "yes") {
        Err(AuditError::InvalidConfig(m)) => assert_eq!(m, "http_log_enabled=yes"),
        _ => panic!("expected invalid config"),
    }
    assert!(matches!(
        config_from_values("true", "30", "true", "30", "-2"),
        Err(AuditError::InvalidDetailLimit)
    ));
    assert!(matches!(
        config_from_values("true", "40000", "true", "30", "0"),
        Err(AuditError::InvalidRetentionDays)
    ));
    let mut config = AuditConfig::default();
    config.tool_audit_retention_days = 36501;
    assert!(matches!(validate_config(&config), Err(AuditError::InvalidRetentionDays)));
    assert_eq!(
        AuditError::InvalidRetentionDays.message(),
        "retention days must be between 0 and 36500"
    );
}

fn text_object(key: &str, value: &str) -> String {
    let mut map = serde_json::Map::new();
    map.insert(key.to_string(), serde_json::Value::String(value.to_string()));
    serde_json::to_string(&serde_json::Value::Object(map)).expect("serialize")
}

#[test]
fn detail_capture_supports_unlimited_and_disabled_modes() {
    let value = text_object("text", "hello 世界");
    let unlimited = capture_value(&value, 0).ok().expect("unlimited detail");
    assert!(!unlimited.truncated);
    assert!(unlimited.text.is_some());

    let disabled = capture_value(&value, -1).ok().expect("disabled detail");
    assert!(!disabled.truncated);
    assert!(disabled.text.is_none());
    assert!(disabled.bytes > 0);
}

#[test]
fn detail_capture_keeps_valid_json_when_truncated() {
    let value = text_object("text", "这是一个很长的文本");
    let captured = capture_value(&value, 8).ok().expect("truncated detail");
    assert!(captured.truncated);
    let stored: serde_json::Value = serde_json::from_str(captured.text.as_deref().unwrap())
        .expect("truncated representation remains JSON");
    assert_eq!(stored["_audit_truncated"], true);
}

#[test]
fn truncated_detail_stops_at_a_character_boundary() {
    let value = "{\"text\":\"这是\"}";
    let captured = capture_value(value, 11).ok().expect("truncated");
    assert!(captured.truncated);
    assert_eq!(captured.bytes, value.len() as i64);
    assert_eq!(captured.sha256, sha256_hex(value.as_bytes()));
    assert_eq!(
        captured.text.as_deref(),
        Some(
            format!(
                "{{\"_audit_truncated\":true,\"original_bytes\":{},\"preview\":\"{{\\\"text\\\":\\\"\",\"sha256\":\"{}\"}}",
                value.len(),
                sha256_hex(value.as_bytes())
            )
            .as_str()
        )
    );
    let whole = capture_value(value, 100).ok().expect("whole");
    assert_eq!(whole.text.as_deref(), Some(value));
    assert!(!whole.truncated);
    assert!(matches!(capture_value(value, -2), Err(AuditError::InvalidDetailLimit)));
    assert_eq!(utf8_prefix_len(value.as_bytes(), 10), 9);
    assert_eq!(utf8_prefix_len(value.as_bytes(), 12), 12);
}

#[test]
fn sha256_is_lowercase_hex() {
    assert_eq!(
        sha256_hex(b"abc"),
        "ba7816bf8f01cfea414140de5dae2223b00361a396177a9cb410ff61f20015ad"
    );
}

#[test]
fn command_follows_input_detail() {
    assert_eq!(command_to_keep(true, false, Some("ls".to_string())).as_deref(), Some("ls"));
    assert_eq!(command_to_keep(true, true, Some("ls".to_string())), None);
    assert_eq!(command_to_keep(false, false, Some("ls".to_string())), None);
}

#[test]
fn listing_statement_binds_filters_before_limit() {
    let query = AuditQuery {
        successful: Some(false),
        tool_name: Some("exec".to_string()),
        from_ms: Some(5),
        limit: Some(5000),
        ..AuditQuery::default()
    };
    let (sql, params) = listing_statement(&query);
    assert!(sql.starts_with("SELECT id, record_type"));
    assert!(sql.contains("NULL, NULL"));
    assert!(sql.ends_with(
        " WHERE 1 = 1 AND started_at_ms >= ? AND tool_name = ? AND status <> 'success' ORDER BY started_at_ms DESC LIMIT ? OFFSET ?"
    ));
    assert_eq!(params.len(), 4);
    assert!(matches!(params[0], SqlParam::Integer(5)));
    assert!(matches!(&params[1], SqlParam::Text(t) if t == "exec"));
    assert!(matches!(params[2], SqlParam::Integer(1000)));
    assert!(matches!(params[3], SqlParam::Integer(0)));
    assert!(record_select_sql(true).contains("input_json, output_json"));
    let (stats_sql, stats_params) = stats_statement(&AuditQuery::default());
    assert!(stats_sql.ends_with("WHERE record_type = 'tool'"));
    assert!(stats_params.is_empty());
    let mut sql = String::new();
    let mut values = Vec::new();
    append_filters(&mut sql, &mut values, &AuditQuery { workspace_id: Some("w".into()), ..AuditQuery::default() });
    assert_eq!(sql, " AND workspace_id = ?");
}

#[test]
fn retention_arithmetic() {
    assert_eq!(retention_cutoff(0, 1000), None);
    assert_eq!(retention_cutoff(1, 86_400_000 * 3), Some(86_400_000 * 2));
    assert_eq!(retention_cutoff(36500, i64::MIN + 5), Some(i64::MIN));
    assert_eq!(cleanup_day(86_400_000 * 2 + 5), 2);
    assert_eq!(cleanup_day(-1), -1);
    assert_eq!(cleanup_day(-86_400_000), -1);
    assert_eq!(record_duration(10, 4), -6);
    assert_eq!(record_duration(i64::MIN, i64::MAX), i64::MAX);
    assert!(current_time_ms() > 1_600_000_000_000);
}

#[test]
fn truncated_previews_are_written_as_json_strings() {
    let value = "a\"\\\u{1}\nbbbbbbbbbb";
    let captured = capture_value(value, 5).ok().expect("truncated");
    assert!(captured.truncated);
    let text = captured.text.expect("envelope");
    assert!(text.contains(",\"preview\":\"a\\\"\\\\\\u0001\\n\",\"sha256\""));
    let stored: serde_json::Value = serde_json::from_str(&text).expect("JSON");
    assert_eq!(stored["preview"], "a\"\\\u{1}\n");
    assert_eq!(stored["original_bytes"], value.len() as u64);
}

#[test]
fn tool_call_detail_follows_the_audit_settings() {
    let cmd = Some("ls -la".to_string());
    let input = "{\"cmd\":\"ls -la\",\"reason\":\"look\"}";
    let mut config = AuditConfig::default();
    let whole = tool_call_detail(&config, "exec", input, "{}", &output(), cmd.clone(), Some("look".into()), 100, 130)
        .ok()
        .expect("ok")
        .expect("stored");
    assert_eq!(whole.command.as_deref(), Some("ls -la"));
    assert_eq!(whole.reason.as_deref(), Some("look"));
    assert_eq!(whole.duration_ms, 30);
    assert_eq!(whole.input.bytes, input.len() as i64);
    assert_eq!(whole.response.status, "success");

    config.detail_limit_bytes = 8;
    let cut = tool_call_detail(&config, "exec", input, "{}", &output(), cmd.clone(), None, 100, 90)
        .ok()
        .expect("ok")
        .expect("stored");
    assert!(cut.input.truncated);
    assert_eq!(cut.command, None);
    assert_eq!(cut.duration_ms, -10);

    config.detail_limit_bytes = -1;
    let none = tool_call_detail(&config, "exec", input, "{}", &output(), cmd.clone(), None, 0, 0)
        .ok()
        .expect("ok")
        .expect("stored");
    assert!(none.input.text.is_none());
    assert_eq!(none.command, None);

    config.tool_audit_enabled = false;
    assert!(matches!(tool_call_detail(&config, "exec", input, "{}", &output(), cmd.clone(), None, 0, 0), Ok(None)));
    config.tool_audit_enabled = true;
    config.detail_limit_bytes = -5;
    assert!(matches!(
        tool_call_detail(&config, "exec", input, "{}", &output(), cmd, None, 0, 0),
        Err(AuditError::InvalidDetailLimit)
    ));
}

#[test]
fn command_follows_input_detail_retention() {
    let ok_output = ToolOutputFields { ok: Some(true), ..output() };
    let mut config = AuditConfig::default();
    config.detail_limit_bytes = -1;
    let metadata_only = tool_call_detail(
        &config,
        "exec_command",
        "{\"cmd\":\"echo secret\"}",
        "{\"ok\":true}",
        &ok_output,
        Some("echo secret".to_string()),
        None,
        1_000,
        1_001,
    )
    .ok()
    .expect("record")
    .expect("record id");
    assert!(metadata_only.input.text.is_none());
    assert!(metadata_only.command.is_none());

    config.detail_limit_bytes = 8;
    let truncated = tool_call_detail(
        &config,
        "exec_command",
        "{\"cmd\":\"echo a-command-longer-than-the-limit\"}",
        "{\"ok\":true}",
        &ok_output,
        Some("echo a-command-longer-than-the-limit".to_string()),
        None,
        1_002,
        1_003,
    )
    .ok()
    .expect("record")
    .expect("record id");
    assert!(truncated.input.truncated);
    assert!(truncated.command.is_none());
}
