use repo_guard::policy::{validate_command, CommandDenied};

fn forbidden(fragment: &str) -> Result<(), CommandDenied> {
    Err(CommandDenied::Forbidden { fragment: fragment.to_string() })
}

fn not_allowed(shown: &str) -> Result<(), CommandDenied> {
    Err(CommandDenied::NotInAllowList { shown: shown.to_string() })
}

#[test]
fn search_command_is_allowed() {
    assert_eq!(validate_command("rg foo"), Ok(()));
}

#[test]
fn deletion_is_not_in_the_allow_list() {
    assert_eq!(validate_command("rm -rf /"), not_allowed("rm -rf /"));
}

#[test]
fn checkout_is_forbidden_although_git_is_admitted() {
    assert_eq!(validate_command("git checkout ."), forbidden("git checkout"));
}

#[test]
fn redirection_is_forbidden() {
    assert_eq!(validate_command("sed -i 's/a/b/' f.txt > out.txt"), forbidden(">"));
}

#[test]
fn bare_commands_are_allowed() {
    assert_eq!(validate_command("git"), Ok(()));
    assert_eq!(validate_command("ls"), Ok(()));
    assert_eq!(validate_command("pwd"), Ok(()));
}

#[test]
fn bare_command_with_arguments_needs_an_admitted_tool() {
    assert_eq!(validate_command("pwd -L"), not_allowed("pwd -L"));
    assert_eq!(validate_command("ls -la"), Ok(()));
}

#[test]
fn surrounding_whitespace_is_ignored() {
    assert_eq!(validate_command("  \t ls \n"), Ok(()));
    assert_eq!(validate_command("\u{3000}git status\u{a0}"), Ok(()));
    assert_eq!(validate_command("  rm x  "), not_allowed("rm x"));
}

#[test]
fn tab_parts_tool_from_arguments() {
    assert_eq!(validate_command("git\tstatus"), Ok(()));
    assert_eq!(validate_command("grep\t-n x"), Ok(()));
}

#[test]
fn tool_name_must_end_at_a_separator() {
    assert_eq!(validate_command("gitx status"), not_allowed("gitx status"));
    assert_eq!(validate_command("rg"), not_allowed("rg"));
    assert_eq!(validate_command(""), not_allowed(""));
}

#[test]
fn every_admitted_tool_is_allowed() {
    for tool in [
        "git", "rg", "grep", "find", "wc", "head", "tail", "cat", "ls", "stat", "file", "sort",
        "uniq", "awk", "sed", "echo",
    ] {
        assert_eq!(validate_command(&format!("{} x", tool)), Ok(()));
        assert_eq!(validate_command(&format!("{}\tx", tool)), Ok(()));
    }
}

#[test]
fn refusal_shows_at_most_fifty_characters() {
    let long = "x".repeat(80);
    assert_eq!(validate_command(&long), not_allowed(&"x".repeat(50)));
    let exact = "y".repeat(50);
    assert_eq!(validate_command(&exact), not_allowed(&exact));
    let wide = "é".repeat(60);
    assert_eq!(validate_command(&wide), not_allowed(&"é".repeat(50)));
}

#[test]
fn each_forbidden_fragment_is_named() {
    assert_eq!(validate_command("cat a | rm b"), forbidden("rm"));
    assert_eq!(validate_command("echo a; rm\tb"), forbidden("rm"));
    assert_eq!(validate_command("find . -exec rmdir {}"), forbidden("rmdir"));
    assert_eq!(validate_command("echo mv a b"), forbidden("mv"));
    assert_eq!(validate_command("echo cp a b"), forbidden("cp"));
    assert_eq!(validate_command("echo hi >> log"), forbidden(">"));
    assert_eq!(validate_command("echo a | rm"), forbidden("| rm"));
    assert_eq!(validate_command("echo a; rm"), forbidden("; rm"));
    assert_eq!(validate_command("git push origin"), forbidden("git push"));
    assert_eq!(validate_command("git reset --hard"), forbidden("git reset --hard"));
    assert_eq!(validate_command("git clean -fd"), forbidden("git clean"));
    assert_eq!(validate_command("git stash drop"), forbidden("git stash drop"));
    assert_eq!(validate_command("find . -exec chmod 1"), forbidden("chmod"));
    assert_eq!(validate_command("find . -exec chown 1"), forbidden("chown"));
    assert_eq!(validate_command("echo sudo"), forbidden("sudo"));
}

#[test]
fn first_fragment_in_the_list_is_the_one_named() {
    assert_eq!(validate_command("echo sudo chmod"), forbidden("chmod"));
    assert_eq!(validate_command("git push; rm x"), forbidden("rm"));
}

#[test]
fn fragment_inside_an_argument_is_forbidden_too() {
    assert_eq!(validate_command("git log --grep chmod"), forbidden("chmod"));
}

#[test]
fn soft_reset_is_allowed() {
    assert_eq!(validate_command("git reset --soft HEAD"), Ok(()));
    assert_eq!(validate_command("git stash list"), Ok(()));
}

#[test]
fn classification_is_repeatable() {
    for c in ["rg foo", "rm -rf /", "git checkout .", "  ls  "] {
        assert_eq!(validate_command(c), validate_command(c));
    }
}

#[test]
fn refusal_messages() {
    let e = validate_command("rm -rf /").unwrap_err();
    assert_eq!(e.message(), "Command not allowed: rm -rf /");
    let e = validate_command("git checkout .").unwrap_err();
    assert_eq!(e.message(), "Forbidden operation in command: git checkout");
}
