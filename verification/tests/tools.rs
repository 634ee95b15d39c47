use coding_tools_mcp::tools::command_line::{split_command, split_windows_command};
use coding_tools_mcp::tools::exec_paths::{
    argument_paths_of, external_path_checks, looks_absolute, workdir_kind, WorkdirKind,
};

#[test]
fn windows_paths_quotes_and_empty_arguments_round_trip() {
    assert_eq!(
        split_windows_command(r#"D:\env\python.exe "D:\project files\test.py" "" C:\plain\path"#)
            .unwrap(),
        [
            r"D:\env\python.exe",
            r"D:\project files\test.py",
            "",
            r"C:\plain\path"
        ]
    );
    assert_eq!(
        split_windows_command(
            r#""C:\Program Files\Python\python.exe" -c "print('ok')" "C:\folder\\" "a\"b""#
        )
        .unwrap(),
        [
            r"C:\Program Files\Python\python.exe",
            "-c",
            "print('ok')",
            "C:\\folder\\",
            "a\"b"
        ]
    );
    assert!(split_windows_command("python \"unfinished").is_err());
}

#[test]
fn windows_rules_double_quotes_inside_quotes() {
    assert_eq!(split_windows_command(r#""a""b" c"#).unwrap(), [r#"a"b"#, "c"]);
    assert_eq!(split_windows_command("  ").unwrap(), Vec::<String>::new());
    assert_eq!(
        split_windows_command("x \"open").unwrap_err(),
        "Unclosed double quote in Windows command"
    );
}

#[test]
fn posix_rules_come_from_shell_words() {
    assert_eq!(
        split_command("echo 'a b' \"c d\" e\\ f", false).unwrap(),
        ["echo", "a b", "c d", "e f"]
    );
    assert_eq!(split_command("echo 'open", false).unwrap_err(), "Invalid command syntax");
    assert_eq!(split_command(r#"run "x y""#, true).unwrap(), ["run", "x y"]);
}

#[test]
fn absolute_paths_are_recognised() {
    assert!(looks_absolute("/etc"));
    assert!(looks_absolute("C:/Windows"));
    assert!(!looks_absolute("C:Windows"));
    assert!(!looks_absolute("etc/passwd"));
}

fn strings(v: &[&str]) -> Vec<String> {
    v.iter().map(|s| s.to_string()).collect()
}

#[test]
fn external_paths_in_arguments() {
    assert_eq!(argument_paths_of("../secret"), None);
    assert_eq!(argument_paths_of("..\\secret"), None);
    assert_eq!(argument_paths_of("/etc/passwd"), Some(strings(&["/etc/passwd"])));
    assert_eq!(argument_paths_of("C:\\Windows\\win.ini"), Some(strings(&["C:/Windows/win.ini"])));
    assert_eq!(argument_paths_of("--file=/etc/passwd"), Some(strings(&["/etc/passwd"])));
    assert_eq!(argument_paths_of("open('/etc/passwd')"), Some(strings(&["/etc/passwd"])));
    assert_eq!(
        argument_paths_of("cp \"/a b\" rel /c"),
        Some(strings(&["/a b", "/c"]))
    );
    assert_eq!(argument_paths_of("src/main.rs"), Some(vec![]));
    assert_eq!(external_path_checks(&strings(&["-n", "main.rs"])), Some(vec![]));
    assert_eq!(external_path_checks(&strings(&["-n", "../x"])), None);
    assert_eq!(external_path_checks(&strings(&["/a", "../x", "/b"])), None);
    assert_eq!(
        external_path_checks(&strings(&["/a", "x=/b", "y"])),
        Some(strings(&["/a", "/b"]))
    );
}

#[test]
fn working_directories_are_classified() {
    assert_eq!(workdir_kind("a/../b"), WorkdirKind::Escapes);
    assert_eq!(workdir_kind("/srv/app"), WorkdirKind::Absolute);
    assert_eq!(workdir_kind("src"), WorkdirKind::Relative);
    assert_eq!(workdir_kind("a/..b"), WorkdirKind::Relative);
}

#[test]
fn windows_commands_without_quotes_split_at_whitespace() {
    let line = "tool a\\b  c\\\\d\t e\\";
    let expected: Vec<String> = line.split_whitespace().map(String::from).collect();
    assert_eq!(split_command(line, true).unwrap(), expected);
    assert_eq!(expected, ["tool", "a\\b", "c\\\\d", "e\\"]);
}
