use coding_tools_mcp::access_log::{
    escape_log_value, file_date_may_overlap, format_combined_line, matches_success_filter,
    parse_access_log_line, parse_access_log_name, query_access_logs, record_limit,
    retention_removes, split_combined_line, trim_access_records, update_access_stats,
    validate_profile_id, workspace_log_directory, access_log_directory, AccessLogFile,
    AccessLogQuery, AccessLogSource, AccessLogStats, access_log_file_name, plan_append, response_size,
    AppendPlan, MaintenanceState, merge_access_logs,
};
use chrono::Datelike;

#[test]
fn combined_line_matches_nginx_shape() {
    let line = format_combined_line(
        "203.0.113.8",
        "10/Sep/2026:14:22:31 +0800",
        "GET",
        "/.env?probe=1",
        "HTTP/1.1",
        404,
        67,
        "-",
        "curl/8.7.1",
    );
    assert_eq!(
        line,
        "203.0.113.8 - - [10/Sep/2026:14:22:31 +0800] \"GET /.env?probe=1 HTTP/1.1\" 404 67 \"-\" \"curl/8.7.1\""
    );
}

#[test]
fn unsafe_bytes_are_escaped_without_breaking_the_line() {
    assert_eq!(escape_log_value("a\"b\\c\n"), "a\\x22b\\x5Cc\\x0A");
}

#[test]
fn escaped_values_stay_on_one_safe_line() {
    let escaped = escape_log_value("tab\there \"quoted\" 世界\r\n");
    assert!(escaped.chars().all(|c| (' '..='~').contains(&c) && c != '"'));
    assert_eq!(escaped, "tab\\x09here \\x22quoted\\x22 \\xE4\\xB8\\x96\\xE7\\x95\\x8C\\x0D\\x0A");
}

fn day(y: i32, m: u32, d: u32) -> i32 {
    chrono::NaiveDate::from_ymd_opt(y, m, d).expect("date").num_days_from_ce()
}

#[test]
fn daily_retention_keeps_requested_number_of_dates() {
    let today = day(2026, 9, 10);
    let names = [
        "mcp-access-2026-09-08.log",
        "mcp-access-2026-09-09.log",
        "mcp-access-2026-09-10.log",
        "stdout.log",
    ];
    let removed: Vec<&str> = names
        .iter()
        .copied()
        .filter(|name| retention_removes(name, Some("mcp"), 2, today))
        .collect();
    assert_eq!(removed.len(), 1);
    assert_eq!(removed, vec!["mcp-access-2026-09-08.log"]);
    assert!(!retention_removes("mcp-access-2026-09-09.log", Some("mcp"), 2, today));
    assert!(!retention_removes("stdout.log", Some("mcp"), 2, today));
}

#[test]
fn retention_keeps_other_services_and_zero_keeps_everything() {
    let today = day(2026, 9, 10);
    assert!(!retention_removes("actions-access-2020-01-01.log", Some("mcp"), 2, today));
    assert!(retention_removes("actions-access-2020-01-01.log", None, 2, today));
    assert!(!retention_removes("mcp-access-2020-01-01.log", Some("mcp"), 0, today));
    assert!(!retention_removes("mcp-access-2026-09-10.log", Some("mcp"), 1, today));
    assert!(retention_removes("mcp-access-2026-09-09.log", Some("mcp"), 1, today));
}

#[test]
fn parser_ignores_non_access_logs() {
    assert!(parse_access_log_name("stderr.log").is_none());
    assert!(parse_access_log_name("mcp-access-2026-09-10.log").is_some());
}

#[test]
fn log_names_give_service_and_day() {
    assert_eq!(
        parse_access_log_name("actions-access-2026-09-10.log"),
        Some(("actions", day(2026, 9, 10)))
    );
    assert_eq!(parse_access_log_name("mcp-access-2026-13-10.log"), None);
    assert_eq!(parse_access_log_name("mcp-access-2026-09-10.txt"), None);
}

#[test]
fn combined_lines_parse_back() {
    let line = format_combined_line(
        "192.0.2.1",
        "10/Sep/2026:10:00:00 +0800",
        "GET",
        "/status",
        "HTTP/1.1",
        503,
        42,
        "-",
        "agent \"x\"",
    );
    let fields = split_combined_line(&line).expect("fields");
    assert_eq!(fields.timestamp, "10/Sep/2026:10:00:00 +0800");
    assert_eq!(fields.status, 503);
    assert_eq!(fields.response_bytes, 42);
    let record = parse_access_log_line("ws", "mcp", line.clone()).expect("record");
    assert_eq!(record.timestamp_ms, 1_789_005_600_000);
    assert_eq!(record.status, 503);
    assert_eq!(record.response_bytes, 42);
    assert_eq!(record.raw, line);
    assert!(parse_access_log_line("ws", "mcp", "garbage".to_string()).is_none());
    assert!(parse_access_log_line(
        "ws",
        "mcp",
        "1.2.3.4 - - [bad time] \"GET / HTTP/1.1\" 200 1 \"-\" \"-\"".to_string()
    )
    .is_none());
}

#[test]
fn success_filter_and_stats_follow_status_classes() {
    assert!(matches_success_filter(302, Some(true)));
    assert!(!matches_success_filter(404, Some(true)));
    assert!(matches_success_filter(500, Some(false)));
    assert!(!matches_success_filter(200, Some(false)));
    assert!(matches_success_filter(99, None));
    let mut stats = AccessLogStats::default();
    let line = format_combined_line("a", "10/Sep/2026:10:00:00 +0800", "GET", "/", "HTTP/1.1", 404, 10, "-", "-");
    let record = parse_access_log_line("ws", "mcp", line).expect("record");
    update_access_stats(&mut stats, &record);
    assert_eq!(stats.total_requests, 1);
    assert_eq!(stats.status_4xx, 1);
    assert_eq!(stats.response_bytes, 10);
    stats.response_bytes = u64::MAX;
    update_access_stats(&mut stats, &record);
    assert_eq!(stats.response_bytes, u64::MAX);
}

#[test]
fn record_limit_is_clamped() {
    assert_eq!(record_limit(None), 100);
    assert_eq!(record_limit(Some(0)), 1);
    assert_eq!(record_limit(Some(5000)), 1000);
    assert_eq!(record_limit(Some(7)), 7);
}

#[test]
fn workspace_ids_are_single_path_components() {
    assert!(validate_profile_id("workspace-a").is_ok());
    assert!(validate_profile_id("workspace-a/").is_ok());
    assert!(validate_profile_id("../workspace-b").is_err());
    assert!(validate_profile_id("a/b").is_err());
    assert!(validate_profile_id("/etc").is_err());
    assert!(validate_profile_id("..").is_err());
    assert!(validate_profile_id(".").is_err());
    assert!(validate_profile_id("").is_err());
    assert_eq!(
        workspace_log_directory("/data/logs", "workspace-a").unwrap(),
        "/data/logs/workspace-a"
    );
    assert_eq!(
        access_log_directory("/config", Some("ws")).unwrap(),
        "/config/logs/ws"
    );
    assert_eq!(access_log_directory("/config/", None).unwrap(), "/config/logs");
    assert_eq!(
        access_log_directory("/config", Some("../x")).unwrap_err(),
        "invalid workspace id for log directory"
    );
}

fn line(ip: &str, time: &str, method: &str, uri: &str, status: u16, bytes: u64, agent: &str) -> String {
    format_combined_line(ip, time, method, uri, "HTTP/1.1", status, bytes, "-", agent)
}

fn source(workspace: &str, name: &str, lines: Vec<String>) -> AccessLogSource {
    AccessLogSource {
        workspace_id: workspace.to_string(),
        files: vec![AccessLogFile { name: name.to_string(), lines }],
    }
}

#[test]
fn access_log_query_merges_workspaces_and_keeps_full_stats() {
    let first = line("192.0.2.1", "10/Sep/2026:10:00:00 +0800", "GET", "/.env", 404, 0, "scanner");
    let second = line("192.0.2.2", "10/Sep/2026:10:01:00 +0800", "POST", "/mcp", 200, 120, "client-a");
    let third = line(
        "192.0.2.3",
        "10/Sep/2026:10:02:00 +0800",
        "POST",
        "/actions/read_file",
        200,
        80,
        "client-b",
    );
    let sources = vec![
        source("workspace-a", "mcp-access-2026-09-10.log", vec![first, second]),
        source("workspace-b", "actions-access-2026-09-10.log", vec![third]),
    ];
    let result = query_access_logs(&sources, &AccessLogQuery::default()).expect("query logs");
    assert_eq!(result.stats.total_requests, 3);
    assert_eq!(result.stats.status_2xx, 2);
    assert_eq!(result.stats.status_4xx, 1);
    assert_eq!(result.stats.response_bytes, 200);
    assert_eq!(result.records.len(), 3);
    assert_eq!(result.records[0].workspace_id, "workspace-b");
    assert!(result.records[0].raw.contains("POST /actions/read_file"));
}

#[test]
fn access_log_query_keeps_the_latest_hundred_same_second_records() {
    let mut lines = Vec::new();
    for index in 0..150 {
        lines.push(line(
            "192.0.2.1",
            "10/Sep/2026:10:00:00 +0800",
            "GET",
            &format!("/scanner/{index}?padding={}", "x".repeat(64)),
            404,
            0,
            "security-scanner",
        ));
    }
    let sources = vec![source("workspace-a", "mcp-access-2026-09-10.log", lines)];
    let result = query_access_logs(&sources, &AccessLogQuery::default()).expect("query logs");
    assert_eq!(result.stats.total_requests, 150);
    assert_eq!(result.records.len(), 100);
    assert!(result.records[0].raw.contains("/scanner/149?"));
    assert!(result.records[99].raw.contains("/scanner/50?"));

    let expanded = query_access_logs(
        &sources,
        &AccessLogQuery {
            limit: Some(200),
            ..AccessLogQuery::default()
        },
    )
    .expect("query expanded logs");
    assert_eq!(expanded.records.len(), 150);
    assert!(expanded.records[149].raw.contains("/scanner/0?"));
}

#[test]
fn access_log_query_filters_status_before_limit() {
    let mut lines = Vec::new();
    for (second, status) in [(0, 404), (1, 500), (2, 200), (3, 302)] {
        lines.push(line(
            "192.0.2.1",
            &format!("10/Sep/2026:10:00:{second:02} +0800"),
            "GET",
            &format!("/status/{status}"),
            status,
            0,
            "test-client",
        ));
    }
    let sources = vec![source("workspace-a", "mcp-access-2026-09-10.log", lines)];
    let failures = query_access_logs(
        &sources,
        &AccessLogQuery {
            successful: Some(false),
            limit: Some(1),
            ..AccessLogQuery::default()
        },
    )
    .expect("query failures");
    assert_eq!(failures.stats.total_requests, 4);
    assert_eq!(failures.records.len(), 1);
    assert_eq!(failures.records[0].status, 500);

    let successes = query_access_logs(
        &sources,
        &AccessLogQuery {
            successful: Some(true),
            ..AccessLogQuery::default()
        },
    )
    .expect("query successes");
    assert_eq!(successes.stats.total_requests, 4);
    assert_eq!(successes.records.len(), 2);
    assert_eq!(successes.records[0].status, 302);
    assert_eq!(successes.records[1].status, 200);
}

#[test]
fn unknown_services_are_refused() {
    let query = AccessLogQuery {
        service: Some("stdout".to_string()),
        ..AccessLogQuery::default()
    };
    let error = query_access_logs(&Vec::new(), &query).err().expect("refused");
    assert_eq!(error, "unknown access log service: stdout");
}

#[test]
fn time_range_is_half_open() {
    let lines = vec![
        line("a", "10/Sep/2026:10:00:00 +0800", "GET", "/a", 200, 1, "-"),
        line("a", "10/Sep/2026:10:00:01 +0800", "GET", "/b", 200, 1, "-"),
    ];
    let sources = vec![source("w", "mcp-access-2026-09-10.log", lines)];
    let result = query_access_logs(
        &sources,
        &AccessLogQuery {
            from_ms: Some(1_789_005_600_000),
            to_ms: Some(1_789_005_601_000),
            ..AccessLogQuery::default()
        },
    )
    .expect("query");
    assert_eq!(result.stats.total_requests, 1);
    assert!(result.records[0].raw.contains("/a "));
}

#[test]
fn trimming_keeps_the_newest_records() {
    let mut records = Vec::new();
    for (i, time) in ["10/Sep/2026:10:00:05 +0800", "10/Sep/2026:10:00:01 +0800", "10/Sep/2026:10:00:09 +0800"]
        .iter()
        .enumerate()
    {
        let mut r = parse_access_log_line("w", "mcp", line("a", time, "GET", "/", 200, 0, "-")).expect("record");
        r.file_order = i as u64;
        records.push(r);
    }
    trim_access_records(&mut records, 2);
    assert_eq!(records.len(), 2);
    assert!(records[0].raw.contains(":09 "));
    assert!(records[1].raw.contains(":05 "));
}

#[test]
fn unbounded_queries_take_every_day() {
    assert!(file_date_may_overlap(day(2026, 9, 10), &AccessLogQuery::default()));
}

#[test]
fn ranges_covering_the_utc_day_take_it_in_any_zone() {
    let d = day(2026, 9, 10);
    let utc_start = (d as i64 - 719_163) * 86_400_000;
    assert_eq!(
        utc_start,
        chrono::NaiveDate::from_ymd_opt(2026, 9, 10).unwrap().and_hms_opt(0, 0, 0).unwrap().and_utc().timestamp_millis()
    );
    let query = AccessLogQuery {
        from_ms: Some(utc_start),
        to_ms: Some(utc_start + 86_400_000),
        ..AccessLogQuery::default()
    };
    assert!(file_date_may_overlap(d, &query));
    let far = AccessLogQuery {
        from_ms: Some(utc_start + 10 * 86_400_000),
        to_ms: Some(utc_start + 11 * 86_400_000),
        ..AccessLogQuery::default()
    };
    assert!(!file_date_may_overlap(d, &far));
}

#[test]
fn daily_files_are_named_by_service_and_date() {
    assert_eq!(
        access_log_file_name("mcp", day(2026, 9, 10)).as_deref(),
        Some("mcp-access-2026-09-10.log")
    );
    assert_eq!(
        access_log_file_name("actions", day(2024, 2, 29)).as_deref(),
        Some("actions-access-2024-02-29.log")
    );
    assert_eq!(access_log_file_name("mcp", i32::MAX), None);
}

#[test]
fn appends_rotate_by_day_and_clean_up_once() {
    let today = day(2026, 9, 10);
    let mut state = MaintenanceState::new();
    let plan = plan_append(&mut state, today, 30);
    assert_eq!(plan, AppendPlan { close_file: true, run_cleanup: true, open_file: true });
    let plan = plan_append(&mut state, today, 30);
    assert_eq!(plan, AppendPlan { close_file: false, run_cleanup: false, open_file: false });
    let plan = plan_append(&mut state, today, 7);
    assert_eq!(plan, AppendPlan { close_file: false, run_cleanup: true, open_file: false });
    let plan = plan_append(&mut state, today + 1, 7);
    assert_eq!(plan, AppendPlan { close_file: true, run_cleanup: true, open_file: true });
    assert_eq!(state.open_file_date, Some(today + 1));
    assert!(state.file_open);
}

#[test]
fn response_size_prefers_the_content_length_header() {
    assert_eq!(response_size(Some("67"), Some(5)), Some(67));
    assert_eq!(response_size(Some("+12"), None), Some(12));
    assert_eq!(response_size(Some("abc"), Some(5)), Some(5));
    assert_eq!(response_size(Some("18446744073709551616"), None), None);
    assert_eq!(response_size(None, Some(9)), Some(9));
    assert_eq!(response_size(None, None), None);
}

#[test]
fn merges_scan_exactly_the_kept_days() {
    let first = line("192.0.2.1", "10/Sep/2026:10:00:00 +0800", "GET", "/a", 200, 10, "c");
    let second = line("192.0.2.1", "11/Sep/2026:10:00:00 +0800", "GET", "/b", 500, 20, "c");
    let sources = vec![AccessLogSource {
        workspace_id: "w".to_string(),
        files: vec![
            AccessLogFile { name: "mcp-access-2026-09-10.log".to_string(), lines: vec![first] },
            AccessLogFile { name: "mcp-access-2026-09-11.log".to_string(), lines: vec![second] },
            AccessLogFile { name: "notes.txt".to_string(), lines: vec!["x".to_string()] },
        ],
    }];
    let query = AccessLogQuery::default();
    let both = merge_access_logs(&sources, &query, &vec![vec![true, true, true]]).expect("merge");
    assert_eq!(both.stats.total_requests, 2);
    let second_only = merge_access_logs(&sources, &query, &vec![vec![false, true, true]]).expect("merge");
    assert_eq!(second_only.stats.total_requests, 1);
    assert_eq!(second_only.stats.status_5xx, 1);
    let none = merge_access_logs(&sources, &query, &vec![]).expect("merge");
    assert_eq!(none.stats.total_requests, 0);
    assert!(none.records.is_empty());

    let d = day(2026, 9, 10);
    let utc_start = (d as i64 - 719_163) * 86_400_000;
    let bounded = AccessLogQuery {
        from_ms: Some(utc_start - 86_400_000),
        to_ms: Some(utc_start + 3 * 86_400_000),
        ..AccessLogQuery::default()
    };
    let all = query_access_logs(&sources, &bounded).expect("query");
    assert_eq!(all.stats.total_requests, 2);
}
