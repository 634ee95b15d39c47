use coding_tools_mcp::tunnel::openai::{
    early_exit_message, find_client_entry, log_tail_start, release_asset_name,
    release_download_url, tunnel_client_binary_name, tunnel_launch, valid_tunnel_id,
};

#[test]
fn validates_openai_tunnel_id() {
    assert!(valid_tunnel_id("tunnel_0123456789abcdef0123456789abcdef"));
    assert!(!valid_tunnel_id("tunnel_ABCDEF"));
    assert!(!valid_tunnel_id("tunnel_0123"));
}

#[test]
fn tunnel_ids_ignore_surrounding_whitespace_only() {
    assert!(valid_tunnel_id("  tunnel_0123456789abcdef0123456789abcdef\n"));
    assert!(!valid_tunnel_id("tunnel_0123456789abcdef0123456789abcdeF"));
    assert!(!valid_tunnel_id("tunnel-0123456789abcdef0123456789abcdef"));
    assert!(!valid_tunnel_id("tunnel_0123456789abcdef0123456789abcdef0"));
}

#[test]
fn release_assets_follow_the_platform() {
    assert_eq!(
        release_asset_name("linux", "x86_64").unwrap(),
        "tunnel-client-v0.0.14-linux-amd64.zip"
    );
    assert_eq!(
        release_asset_name("macos", "aarch64").unwrap(),
        "tunnel-client-v0.0.14-darwin-arm64.zip"
    );
    assert_eq!(
        release_asset_name("freebsd", "x86_64").unwrap_err(),
        "当前平台暂不支持自动下载 OpenAI tunnel-client。"
    );
    assert_eq!(
        release_asset_name("windows", "riscv64").unwrap_err(),
        "当前 CPU 架构暂不支持自动下载 OpenAI tunnel-client。"
    );
    assert_eq!(
        release_download_url("a.zip"),
        "https://github.com/openai/tunnel-client/releases/download/v0.0.14/a.zip"
    );
    assert_eq!(tunnel_client_binary_name(true), "tunnel-client.exe");
    assert_eq!(tunnel_client_binary_name(false), "tunnel-client");
}

#[test]
fn archive_entry_is_found_by_suffix() {
    let names = vec![
        "README.md".to_string(),
        "dist\\tunnel-client.exe".to_string(),
        "tunnel-client".to_string(),
    ];
    assert_eq!(find_client_entry(&names, "tunnel-client.exe"), Some(1));
    assert_eq!(find_client_entry(&names, "tunnel-client"), Some(2));
    assert_eq!(find_client_entry(&names, "other"), None);
}

#[test]
fn launch_checks_id_and_key() {
    let launch = tunnel_launch(8765, " tunnel_0123456789abcdef0123456789abcdef ", " key ")
        .ok()
        .expect("launch");
    assert_eq!(launch.api_key, "key");
    assert_eq!(launch.args[2], "tunnel_0123456789abcdef0123456789abcdef");
    assert_eq!(launch.args[6], "http://127.0.0.1:8765/mcp");
    assert_eq!(launch.args.len(), 13);
    assert_eq!(
        tunnel_launch(1, "tunnel_x", "key").err(),
        Some("OpenAI Tunnel ID 格式无效，应为 tunnel_ 加 32 位小写十六进制字符。")
    );
    assert_eq!(
        tunnel_launch(1, "tunnel_0123456789abcdef0123456789abcdef", "  ").err(),
        Some("OpenAI Tunnel 需要 Runtime API Key（CONTROL_PLANE_API_KEY）。")
    );
}

#[test]
fn early_exit_reports_status_and_log() {
    assert_eq!(
        early_exit_message("exit status: 1", ""),
        "OpenAI tunnel-client 启动后立即退出（exit status: 1）。"
    );
    assert_eq!(
        early_exit_message("exit status: 1", "auth failed"),
        "OpenAI tunnel-client 启动后立即退出（exit status: 1）。\nauth failed"
    );
    assert_eq!(log_tail_start(10_000), 5904);
    assert_eq!(log_tail_start(10), 0);
}
