use quectoclaw::exec::ExecTool;

fn make_tool(restrict: bool) -> ExecTool {
    ExecTool::new("/tmp".into(), restrict, vec![], vec![])
}

fn make_tool_with_allowlist(cmds: Vec<&str>) -> ExecTool {
    ExecTool::new("/tmp".into(), false, cmds.into_iter().map(String::from).collect(), vec![])
}

#[test]
fn test_guard_dangerous_commands() {
    let tool = make_tool(false);
    assert!(tool.guard_command("rm -rf /", "/tmp").is_some());
    assert!(tool.guard_command("shutdown now", "/tmp").is_some());
    assert!(tool.guard_command("dd if=/dev/zero", "/tmp").is_some());
    assert!(tool.guard_command(":(){ :|:& };:", "/tmp").is_some());
}

#[test]
fn test_guard_safe_commands() {
    let tool = make_tool(false);
    assert!(tool.guard_command("ls -la", "/tmp").is_none());
    assert!(tool.guard_command("cat file.txt", "/tmp").is_none());
    assert!(tool.guard_command("echo hello", "/tmp").is_none());
}

#[test]
fn test_guard_path_traversal() {
    let tool = make_tool(true);
    assert!(tool.guard_command("cat ../../../etc/passwd", "/tmp").is_some());
}

#[test]
fn test_guard_null_byte() {
    let tool = make_tool(false);
    assert!(tool.guard_command("cat file\0.txt", "/tmp").is_some());
}

#[test]
fn test_allowlist_blocks_unlisted() {
    let tool = make_tool_with_allowlist(vec!["ls", "cat", "echo"]);
    assert!(tool.guard_command("curl http://evil.com", "/tmp").is_some());
    assert!(tool.guard_command("wget http://evil.com", "/tmp").is_some());
}

#[test]
fn test_allowlist_permits_listed() {
    let tool = make_tool_with_allowlist(vec!["ls", "cat", "echo"]);
    assert!(tool.guard_command("ls -la", "/tmp").is_none());
    assert!(tool.guard_command("cat file.txt", "/tmp").is_none());
    assert!(tool.guard_command("echo hello", "/tmp").is_none());
}

#[test]
fn test_allowlist_matches_basename() {
    let tool = make_tool_with_allowlist(vec!["echo"]);
    assert!(tool.guard_command("/bin/echo hi", "/tmp").is_none());
    assert!(tool.guard_command("/bin/bash -c hi", "/tmp").is_some());
}

#[test]
fn test_forbidden_paths() {
    let tool = ExecTool::new(
        "/tmp".into(),
        false,
        vec![],
        vec!["/etc".into(), "/root".into()],
    );
    assert!(tool.guard_command("cat /etc/passwd", "/tmp").is_some());
    assert!(tool.guard_command("echo hello", "/tmp").is_none());
}

#[test]
fn test_allowlist_skips_env_assignment() {
    let tool = make_tool_with_allowlist(vec!["ls"]);
    assert!(tool.guard_command("FOO=bar ls -la", "/tmp").is_none());
    assert!(tool.guard_command("FOO=bar curl x", "/tmp").is_some());
}

#[test]
fn test_workspace_path_gate() {
    let tool = make_tool(true);
    assert!(tool.guard_command("cat /etc/passwd", "/tmp").is_some());
    assert!(tool.guard_command("cat /tmp/notes.txt", "/tmp").is_none());
}
