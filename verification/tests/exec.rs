use repo_guard::exec::{
    check_repo_call, execute_response, fallback_search_call, glob_call, head_hash_call,
    head_hash_result, log_call, log_result, search_call, shell_call, ExecuteResponse,
    ProcessOutput, ToolError,
};
use repo_guard::policy::CommandDenied;

fn output(stdout: &[u8], stderr: &[u8], code: Option<i32>) -> ProcessOutput {
    ProcessOutput { stdout: stdout.to_vec(), stderr: stderr.to_vec(), code }
}

#[test]
fn head_hash_has_no_line_ending() {
    let hash = "0123456789abcdef0123456789abcdef01234567";
    let out = output(format!("{}\n", hash).as_bytes(), b"", Some(0));
    let got = head_hash_result(out).unwrap();
    assert_eq!(got, hash);
    assert_eq!(got.len(), 40);
    assert!(got.chars().all(|c| c.is_ascii_hexdigit()));
}

#[test]
fn failed_hash_query_reports_the_error_stream() {
    let e = head_hash_result(output(b"", b"fatal: not a git repository\n", Some(128))).unwrap_err();
    assert_eq!(
        e,
        ToolError::Failed {
            tool: "git rev-parse".to_string(),
            stderr: "fatal: not a git repository\n".to_string()
        }
    );
    assert_eq!(e.message(), "git rev-parse failed: fatal: not a git repository\n");
}

#[test]
fn log_is_returned_as_printed() {
    assert_eq!(log_result(output("a\n1\t2\tf\u{e9}\n".as_bytes(), b"", Some(0))).unwrap(), "a\n1\t2\tfé\n");
}

#[test]
fn log_that_is_not_utf8_is_an_error() {
    let e = log_result(output(&[0x61, 0xff, 0x62], b"", Some(0))).unwrap_err();
    assert!(matches!(e, ToolError::InvalidUtf8 { .. }));
    assert!(e.message().starts_with("Invalid UTF-8 in git output: "));
}

#[test]
fn failed_log_reports_the_error_stream() {
    let e = log_result(output(b"partial", &[0x62, 0xff], Some(1))).unwrap_err();
    assert_eq!(e.message(), "git log failed: b\u{fffd}");
    let e = log_result(output(b"partial", b"killed", None)).unwrap_err();
    assert_eq!(e.message(), "git log failed: killed");
}

#[test]
fn launch_failure_has_its_own_message() {
    let e = ToolError::Launch { tool: "git log".to_string(), detail: "not found".to_string() };
    assert_eq!(e.message(), "Failed to execute git log: not found");
}

#[test]
fn response_keeps_a_nonzero_exit_code() {
    let r = execute_response(&output(b"out", b"err", Some(2)));
    assert_eq!(
        r,
        ExecuteResponse { stdout: "out".to_string(), stderr: "err".to_string(), exit_code: 2 }
    );
}

#[test]
fn response_without_exit_code_has_the_sentinel() {
    assert_eq!(execute_response(&output(b"", b"", None)).exit_code, -1);
}

#[test]
fn invalid_bytes_are_replaced_in_a_response() {
    let r = execute_response(&output(&[0x68, 0x69, 0xff], &[0xc3, 0x28], Some(0)));
    assert_eq!(r.stdout, "hi\u{fffd}");
    assert_eq!(r.stderr, "\u{fffd}(");
    let out = output(&[0xf0, 0x9f, 0x98, 0x80], b"", Some(0));
    assert_eq!(out.stdout_text(), "😀");
    assert_eq!(out.stderr_text(), "");
    assert!(out.success());
}

#[test]
fn fixed_calls() {
    let c = check_repo_call();
    assert_eq!(c.program, "git");
    assert_eq!(c.args, vec!["rev-parse", "--is-inside-work-tree"]);
    let c = head_hash_call();
    assert_eq!(c.program, "git");
    assert_eq!(c.args, vec!["rev-parse", "HEAD"]);
}

#[test]
fn log_call_keeps_each_argument_a_word() {
    let extra = vec!["-n".to_string(), "5; rm -rf /".to_string()];
    let c = log_call("--pretty=%H", &extra);
    assert_eq!(c.program, "git");
    assert_eq!(c.args, vec!["log", "--pretty=%H", "--numstat", "-n", "5; rm -rf /"]);
    assert_eq!(log_call("%h", &vec![]).args, vec!["log", "%h", "--numstat"]);
}

#[test]
fn search_calls() {
    let c = search_call("needle", Some("*.rs"), "/repo/src");
    assert_eq!(c.program, "rg");
    assert_eq!(
        c.args,
        vec![
            "--no-heading", "--line-number", "--max-count", "50", "--max-filesize", "1M",
            "--fixed-strings", "needle", "--glob", "*.rs", "/repo/src",
        ]
    );
    let c = search_call("needle", None, "/repo");
    assert_eq!(
        c.args,
        vec![
            "--no-heading", "--line-number", "--max-count", "50", "--max-filesize", "1M",
            "--fixed-strings", "needle", "/repo",
        ]
    );
    let c = fallback_search_call("needle", "/repo");
    assert_eq!(c.program, "grep");
    assert_eq!(c.args, vec!["-rHnF", "needle", "/repo"]);
}

#[test]
fn glob_call_excludes_tool_directories() {
    let c = glob_call("*.toml", "/repo");
    assert_eq!(c.program, "find");
    assert_eq!(
        c.args,
        vec![
            "/repo", "-type", "f", "-name", "*.toml", "-not", "-path", "*/node_modules/*", "-not",
            "-path", "*/.git/*", "-not", "-path", "*/target/*", "-maxdepth", "10",
        ]
    );
}

#[test]
fn shell_call_is_gated_by_the_policy() {
    let c = shell_call("  git status ").unwrap();
    assert_eq!(c.program, "bash");
    assert_eq!(c.args, vec!["-c", "  git status "]);
    assert_eq!(
        shell_call("git push"),
        Err(CommandDenied::Forbidden { fragment: "git push".to_string() })
    );
    assert_eq!(
        shell_call("curl x"),
        Err(CommandDenied::NotInAllowList { shown: "curl x".to_string() })
    );
}
