//! The OpenAI tunnel client: which release asset to fetch, how its archive
//! entry is found, and the command line that starts it.
use vstd::prelude::*;
use crate::text::{
    chars_of, trim_bounds, trim_spec, is_lower_hex, occurs_at, text_at, owned, push_text,
    push_decimal, decimal, push_range, all_ws, is_blank,
};
use crate::monitor::model::strs_view;

verus! {

/// The tunnel-client release this application installs.
pub const OPENAI_TUNNEL_VERSION: &'static str = "v0.0.14";

/// A tunnel id: `tunnel_` and 32 lowercase hexadecimal digits, around
/// which whitespace is ignored.
pub open spec fn is_tunnel_id(v: Seq<char>) -> bool {
    let t = trim_spec(v);
    &&& t.len() == 39
    &&& t.subrange(0, 7) == "tunnel_"@
    &&& forall|i: int| 7 <= i < 39 ==> is_lower_hex(#[trigger] t[i])
}

/// Checks the shape of an OpenAI tunnel id.
pub fn valid_tunnel_id(value: &str) -> (r: bool)
    ensures
        r == is_tunnel_id(value@),
{
    let v = chars_of(value);
    let (a, b) = trim_bounds(v.as_slice());
    let ghost t = v@.subrange(a as int, b as int);
    proof {
        reveal_strlit("tunnel_");
    }
    if b - a != 39 {
        return false;
    }
    if !text_at(v.as_slice(), a, "tunnel_") {
        proof {
            assert(t.subrange(0, 7) =~= v@.subrange(a as int, a + 7));
        }
        return false;
    }
    let mut i: usize = a + 7;
    while i < b
        invariant
            a + 7 <= i <= b,
            b == a + 39,
            b <= v@.len(),
            t == v@.subrange(a as int, b as int),
            t == trim_spec(value@),
            forall|j: int| 7 <= j < i - a ==> is_lower_hex(#[trigger] t[j]),
        decreases b - i,
    {
        let c = v[i];
        if !(('0' <= c && c <= '9') || ('a' <= c && c <= 'f')) {
            assert(t[i - a] == c);
            return false;
        }
        assert(t[i - a] == c);
        i = i + 1;
    }
    proof {
        assert(t.subrange(0, 7) =~= v@.subrange(a as int, a + 7));
    }
    true
}

/// The executable's file name on Windows (`windows`) or elsewhere.
pub open spec fn binary_name(windows: bool) -> Seq<char> {
    if windows {
        "tunnel-client.exe"@
    } else {
        "tunnel-client"@
    }
}

/// File name of the tunnel client executable.
pub fn tunnel_client_binary_name(windows: bool) -> (r: &'static str)
    ensures
        r@ == binary_name(windows),
{
    if windows {
        "tunnel-client.exe"
    } else {
        "tunnel-client"
    }
}

/// The release's name for an operating system (as `std::env::consts::OS`
/// names it), if it ships one.
pub open spec fn release_platform(os: Seq<char>) -> Option<Seq<char>> {
    if os == "windows"@ {
        Some("windows"@)
    } else if os == "macos"@ {
        Some("darwin"@)
    } else if os == "linux"@ {
        Some("linux"@)
    } else {
        None
    }
}

/// The release's name for a CPU architecture (as
/// `std::env::consts::ARCH` names it), if it ships one.
pub open spec fn release_arch(arch: Seq<char>) -> Option<Seq<char>> {
    if arch == "x86_64"@ {
        Some("amd64"@)
    } else if arch == "aarch64"@ {
        Some("arm64"@)
    } else {
        None
    }
}

/// Releases exist for Windows, macOS and Linux only; each is released under
/// the operating system's own name, but macOS, which is released as
/// `darwin`.
pub proof fn lemma_release_platform_names(os: Seq<char>)
    ensures
        release_platform(os) is Some <==> (os == "windows"@ || os == "macos"@ || os == "linux"@),
        release_platform(os) matches Some(p) ==> p == (if os == "macos"@ {
            "darwin"@
        } else {
            os
        }),
{
    reveal_strlit("windows");
    reveal_strlit("macos");
    reveal_strlit("linux");
    reveal_strlit("darwin");
}

/// Releases exist for x86-64 and 64-bit ARM only, named `amd64` and `arm64`.
pub proof fn lemma_release_arch_names(arch: Seq<char>)
    ensures
        release_arch(arch) is Some <==> (arch == "x86_64"@ || arch == "aarch64"@),
        arch == "x86_64"@ ==> release_arch(arch) == Some("amd64"@),
        arch == "aarch64"@ ==> release_arch(arch) == Some("arm64"@),
{
    reveal_strlit("x86_64");
    reveal_strlit("aarch64");
    reveal_strlit("amd64");
    reveal_strlit("arm64");
    assert("x86_64"@.len() == 6 && "aarch64"@.len() == 7);
}

/// Refusal for an operating system without a release build.
pub open spec fn unsupported_platform_message() -> Seq<char> {
    "当前平台暂不支持自动下载 OpenAI tunnel-client。"@
}

/// Refusal for an architecture without a release build.
pub open spec fn unsupported_arch_message() -> Seq<char> {
    "当前 CPU 架构暂不支持自动下载 OpenAI tunnel-client。"@
}

/// The archive name of the release for a platform and architecture.
pub open spec fn asset_name(platform: Seq<char>, arch: Seq<char>) -> Seq<char> {
    "tunnel-client-"@ + OPENAI_TUNNEL_VERSION@ + "-"@ + platform + "-"@ + arch + ".zip"@
}

/// Name of the release archive to download for `os` and `arch`.
pub fn release_asset_name(os: &str, arch: &str) -> (r: Result<String, &'static str>)
    ensures
        match (release_platform(os@), release_arch(arch@)) {
            (None, _) => r matches Err(e) && e@ == unsupported_platform_message(),
            (Some(_), None) => r matches Err(e) && e@ == unsupported_arch_message(),
            (Some(p), Some(a)) => r matches Ok(s) && s@ == asset_name(p, a),
        },
{
    let platform: &str = if crate::text::same_text(os, "windows") {
        "windows"
    } else if crate::text::same_text(os, "macos") {
        "darwin"
    } else if crate::text::same_text(os, "linux") {
        "linux"
    } else {
        return Err("当前平台暂不支持自动下载 OpenAI tunnel-client。");
    };
    let arch_name: &str = if crate::text::same_text(arch, "x86_64") {
        "amd64"
    } else if crate::text::same_text(arch, "aarch64") {
        "arm64"
    } else {
        return Err("当前 CPU 架构暂不支持自动下载 OpenAI tunnel-client。");
    };
    let mut out = owned("tunnel-client-");
    push_text(&mut out, OPENAI_TUNNEL_VERSION);
    push_text(&mut out, "-");
    push_text(&mut out, platform);
    push_text(&mut out, "-");
    push_text(&mut out, arch_name);
    push_text(&mut out, ".zip");
    Ok(out)
}

/// Where the release archive is downloaded from.
pub fn release_download_url(asset: &str) -> (r: String)
    ensures
        r@ == "https://github.com/openai/tunnel-client/releases/download/"@ + OPENAI_TUNNEL_VERSION@
            + "/"@ + asset@,
{
    let mut out = owned("https://github.com/openai/tunnel-client/releases/download/");
    push_text(&mut out, OPENAI_TUNNEL_VERSION);
    push_text(&mut out, "/");
    push_text(&mut out, asset);
    out
}

/// An archive entry name with Windows separators written as `/`.
pub open spec fn slashed(name: Seq<char>) -> Seq<char> {
    name.map_values(|c: char| if c == '\\' { '/' } else { c })
}

/// `name` ends with `suffix`.
pub open spec fn ends_with(name: Seq<char>, suffix: Seq<char>) -> bool {
    suffix.len() <= name.len() && name.subrange(name.len() - suffix.len(), name.len() as int)
        == suffix
}

/// Whether an archive entry is the client executable.
fn is_client_entry(name: &str, binary: &str) -> (r: bool)
    ensures
        r == ends_with(slashed(name@), binary@),
{
    let v = chars_of(name);
    let mut w: Vec<char> = Vec::new();
    let mut i: usize = 0;
    while i < v.len()
        invariant
            i <= v@.len(),
            w@ == slashed(v@.subrange(0, i as int)),
        decreases v.len() - i,
    {
        let c = v[i];
        w.push(if c == '\\' { '/' } else { c });
        assert(slashed(v@.subrange(0, i + 1)) =~= slashed(v@.subrange(0, i as int)).push(
            if c == '\\' { '/' } else { c },
        ));
        i = i + 1;
    }
    assert(v@.subrange(0, i as int) =~= v@);
    let b = chars_of(binary);
    if b.len() > w.len() {
        return false;
    }
    let r = text_at(w.as_slice(), w.len() - b.len(), binary);
    r
}

/// Index of the first archive entry that is the client executable.
pub fn find_client_entry(names: &Vec<String>, binary: &str) -> (r: Option<usize>)
    ensures
        match r {
            Some(i) => i < names@.len() && ends_with(slashed(names@[i as int]@), binary@) && forall|
                j: int,
            | 0 <= j < i ==> !ends_with(slashed(#[trigger] names@[j]@), binary@),
            None => forall|j: int|
                0 <= j < names@.len() ==> !ends_with(slashed(#[trigger] names@[j]@), binary@),
        },
{
    let mut i: usize = 0;
    while i < names.len()
        invariant
            i <= names@.len(),
            forall|j: int| 0 <= j < i ==> !ends_with(slashed(#[trigger] names@[j]@), binary@),
        decreases names.len() - i,
    {
        if is_client_entry(names[i].as_str(), binary) {
            return Some(i);
        }
        i = i + 1;
    }
    None
}

/// Refusal for a malformed tunnel id.
pub open spec fn invalid_tunnel_id_message() -> Seq<char> {
    "OpenAI Tunnel ID 格式无效，应为 tunnel_ 加 32 位小写十六进制字符。"@
}

/// Refusal for a missing runtime API key.
pub open spec fn missing_api_key_message() -> Seq<char> {
    "OpenAI Tunnel 需要 Runtime API Key（CONTROL_PLANE_API_KEY）。"@
}

/// What starts the tunnel client: its arguments, and the API key it reads
/// from the `CONTROL_PLANE_API_KEY` environment variable.
pub struct TunnelLaunch {
    pub args: Vec<String>,
    pub api_key: String,
}

/// The client's arguments for a tunnel id and the local MCP port.
pub open spec fn launch_args(tunnel_id: Seq<char>, port: u16) -> Seq<Seq<char>> {
    seq![
        "run"@,
        "--control-plane.tunnel-id"@,
        tunnel_id,
        "--control-plane.api-key"@,
        "env:CONTROL_PLANE_API_KEY"@,
        "--mcp.server-url"@,
        "http://127.0.0.1:"@ + decimal(port as nat) + "/mcp"@,
        "--health.listen-addr"@,
        "127.0.0.1:0"@,
        "--log.level"@,
        "info"@,
        "--log.format"@,
        "struct-text"@,
    ]
}

/// Checks the tunnel id and API key and builds the client's command line:
/// the trimmed id, the key (trimmed) passed through the environment, and the
/// MCP endpoint on the loopback port `local_port`.
pub fn tunnel_launch(local_port: u16, tunnel_id: &str, api_key: &str) -> (r: Result<
    TunnelLaunch,
    &'static str,
>)
    ensures
        !is_tunnel_id(tunnel_id@) ==> (r matches Err(e) && e@ == invalid_tunnel_id_message()),
        is_tunnel_id(tunnel_id@) && all_ws(api_key@) ==> (r matches Err(e) && e@
            == missing_api_key_message()),
        is_tunnel_id(tunnel_id@) && !all_ws(api_key@) ==> (r matches Ok(l) && strs_view(l.args@)
            == launch_args(trim_spec(tunnel_id@), local_port) && l.api_key@ == trim_spec(api_key@)),
{
    if !valid_tunnel_id(tunnel_id) {
        return Err("OpenAI Tunnel ID 格式无效，应为 tunnel_ 加 32 位小写十六进制字符。");
    }
    if is_blank(api_key) {
        return Err("OpenAI Tunnel 需要 Runtime API Key（CONTROL_PLANE_API_KEY）。");
    }
    let id = crate::text::trim_str(tunnel_id);
    let key = crate::text::trim_str(api_key);
    let mut url = owned("http://127.0.0.1:");
    push_decimal(&mut url, local_port as u64);
    push_text(&mut url, "/mcp");
    let mut args: Vec<String> = Vec::new();
    args.push(owned("run"));
    args.push(owned("--control-plane.tunnel-id"));
    args.push(id);
    args.push(owned("--control-plane.api-key"));
    args.push(owned("env:CONTROL_PLANE_API_KEY"));
    args.push(owned("--mcp.server-url"));
    args.push(url);
    args.push(owned("--health.listen-addr"));
    args.push(owned("127.0.0.1:0"));
    args.push(owned("--log.level"));
    args.push(owned("info"));
    args.push(owned("--log.format"));
    args.push(owned("struct-text"));
    assert(strs_view(args@) =~= launch_args(trim_spec(tunnel_id@), local_port));
    Ok(TunnelLaunch { args, api_key: key })
}

/// The error for a client that exited right after it was started: its
/// exit status, then the tail of its log on a line of its own, if any.
pub fn early_exit_message(status: &str, detail: &str) -> (r: String)
    ensures
        r@ == "OpenAI tunnel-client 启动后立即退出（"@ + status@ + "）。"@ + (if detail@.len() == 0 {
            Seq::empty()
        } else {
            "\n"@
        }) + detail@,
{
    let mut out = owned("OpenAI tunnel-client 启动后立即退出（");
    push_text(&mut out, status);
    push_text(&mut out, "）。");
    let d = chars_of(detail);
    if d.len() > 0 {
        push_text(&mut out, "\n");
    }
    push_text(&mut out, detail);
    proof {
        if d.len() == 0 {
            assert(out@ =~= "OpenAI tunnel-client 启动后立即退出（"@ + status@ + "）。"@ + Seq::<char>::empty()
                + detail@);
        }
    }
    out
}

/// The last 4096 bytes of a log of `size` bytes start here.
pub fn log_tail_start(size: u64) -> (r: u64)
    ensures
        r == if size > 4096 { size - 4096 } else { 0 },
{
    size.saturating_sub(4096)
}

} // verus!
