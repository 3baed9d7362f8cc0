//! What to run for each operation, and what a finished process amounts to.
//! Running the process is the caller's part: this module names the program
//! and its arguments as separate words, and reads the output.

use crate::policy::{denial, validate_command, CommandDenied};
use crate::text::{
    chars_of, is_space, lemma_trimmed_edges, string_of, texts_view, trim_chars, trimmed,
};
use vstd::prelude::*;
use vstd::string::*;
use vstd::utf8::{decode_utf8, valid_utf8};

verus! {

/// The exit code that stands for a process that gave none.
pub const NO_EXIT_CODE: i32 = -1;

/// The text that `String::from_utf8_lossy` of std makes of `bytes`: valid
/// UTF-8 decoded, each invalid sequence replaced by the replacement
/// character.
pub uninterp spec fn lossy_text(bytes: Seq<u8>) -> Seq<char>;

/// `String::from_utf8_lossy` of std: decodes bytes, replacing what is not
/// valid UTF-8. The result is a function of the bytes alone.
#[verifier::external_body]
fn decode_lossy(bytes: &Vec<u8>) -> (text: String)
    ensures
        text@ == lossy_text(bytes@),
{
    String::from_utf8_lossy(bytes).into_owned()
}

/// `String::from_utf8` of std: the text that the bytes encode where they
/// are valid UTF-8, else the words of the error.
#[verifier::external_body]
fn decode_strict(bytes: Vec<u8>) -> (text: Result<String, String>)
    ensures
        match text {
            Ok(s) => valid_utf8(bytes@) && s@ == decode_utf8(bytes@),
            Err(_) => !valid_utf8(bytes@),
        },
{
    match String::from_utf8(bytes) {
        Ok(s) => Ok(s),
        Err(e) => Err(format!("{}", e)),
    }
}

/// A program and its arguments, as contracts see it.
pub struct CallView {
    pub program: Seq<char>,
    pub args: Seq<Seq<char>>,
}

/// A program to run and its arguments, each a word of its own: no shell
/// reads them.
#[derive(Debug, Clone, PartialEq, Eq)]
pub struct ToolCall {
    pub program: String,
    pub args: Vec<String>,
}

impl View for ToolCall {
    type V = CallView;

    open spec fn view(&self) -> CallView {
        CallView { program: self.program@, args: texts_view(self.args@) }
    }
}

/// What a finished process left behind.
#[derive(Debug, Clone, PartialEq, Eq)]
pub struct ProcessOutput {
    pub stdout: Vec<u8>,
    pub stderr: Vec<u8>,
    /// The exit code, where the process gave one.
    pub code: Option<i32>,
}

/// The result of a command, as contracts see it.
pub struct ResponseView {
    pub stdout: Seq<char>,
    pub stderr: Seq<char>,
    pub exit_code: i32,
}

/// The result of a command that was run: a process that ended with an error
/// code is a result too.
#[derive(Debug, Clone, PartialEq, Eq)]
pub struct ExecuteResponse {
    pub stdout: String,
    pub stderr: String,
    pub exit_code: i32,
}

impl View for ExecuteResponse {
    type V = ResponseView;

    open spec fn view(&self) -> ResponseView {
        ResponseView { stdout: self.stdout@, stderr: self.stderr@, exit_code: self.exit_code }
    }
}

/// Why a tool gave no result, as contracts see it.
pub enum Failure {
    Launch(Seq<char>, Seq<char>),
    Failed(Seq<char>, Seq<char>),
    InvalidUtf8(Seq<char>),
}

/// Why a tool gave no result.
#[derive(Debug, Clone, PartialEq, Eq)]
pub enum ToolError {
    /// The program could not be started.
    Launch { tool: String, detail: String },
    /// The program ended with an error code; holds what it wrote to its
    /// error stream.
    Failed { tool: String, stderr: String },
    /// The program's output is not valid UTF-8.
    InvalidUtf8 { detail: String },
}

impl View for ToolError {
    type V = Failure;

    open spec fn view(&self) -> Failure {
        match self {
            ToolError::Launch { tool, detail } => Failure::Launch(tool@, detail@),
            ToolError::Failed { tool, stderr } => Failure::Failed(tool@, stderr@),
            ToolError::InvalidUtf8 { detail } => Failure::InvalidUtf8(detail@),
        }
    }
}

/// The text of a failure.
pub open spec fn failure_text(f: Failure) -> Seq<char> {
    match f {
        Failure::Launch(tool, detail) => "Failed to execute "@ + tool + ": "@ + detail,
        Failure::Failed(tool, stderr) => tool + " failed: "@ + stderr,
        Failure::InvalidUtf8(detail) => "Invalid UTF-8 in git output: "@ + detail,
    }
}

impl ToolError {
    /// The failure as a sentence for the caller.
    pub fn message(&self) -> (text: String)
        ensures
            text@ == failure_text(self@),
    {
        match self {
            ToolError::Launch { tool, detail } => {
                let mut text = String::from_str("Failed to execute ");
                text.append(tool.as_str());
                text.append(": ");
                text.append(detail.as_str());
                text
            },
            ToolError::Failed { tool, stderr } => {
                let mut text = String::from_str(tool.as_str());
                text.append(" failed: ");
                text.append(stderr.as_str());
                text
            },
            ToolError::InvalidUtf8 { detail } => {
                let mut text = String::from_str("Invalid UTF-8 in git output: ");
                text.append(detail.as_str());
                text
            },
        }
    }
}

impl ProcessOutput {
    /// Whether the process ended with the exit code 0.
    pub open spec fn succeeded(&self) -> bool {
        self.code == Some(0i32)
    }

    /// Whether the process ended with the exit code 0.
    pub fn success(&self) -> (ok: bool)
        ensures
            ok == self.succeeded(),
    {
        match self.code {
            Some(c) => c == 0,
            None => false,
        }
    }

    /// What the process wrote to its output, as text.
    pub fn stdout_text(&self) -> (text: String)
        ensures
            text@ == lossy_text(self.stdout@),
    {
        decode_lossy(&self.stdout)
    }

    /// What the process wrote to its error stream, as text.
    pub fn stderr_text(&self) -> (text: String)
        ensures
            text@ == lossy_text(self.stderr@),
    {
        decode_lossy(&self.stderr)
    }
}

/// The arguments of the version-control log: the format, the request for
/// the numbers of changed lines, then the caller's own arguments.
pub open spec fn log_args(format: Seq<char>, extra: Seq<Seq<char>>) -> Seq<Seq<char>> {
    seq!["log"@, format, "--numstat"@] + extra
}

/// The arguments of the search: lines with their numbers, at most 50
/// matches in a file, no file over one megabyte, the pattern taken as it
/// is written, the files that `glob` admits, below `target`.
pub open spec fn search_args(pattern: Seq<char>, glob: Option<Seq<char>>, target: Seq<char>) -> Seq<
    Seq<char>,
> {
    let head = seq![
        "--no-heading"@,
        "--line-number"@,
        "--max-count"@,
        "50"@,
        "--max-filesize"@,
        "1M"@,
        "--fixed-strings"@,
        pattern,
    ];
    match glob {
        Some(g) => head + seq!["--glob"@, g, target],
        None => head + seq![target],
    }
}

/// The arguments of the scan for files named like `pattern` below `target`.
pub open spec fn glob_args(pattern: Seq<char>, target: Seq<char>) -> Seq<Seq<char>> {
    seq![
        target,
        "-type"@,
        "f"@,
        "-name"@,
        pattern,
        "-not"@,
        "-path"@,
        "*/node_modules/*"@,
        "-not"@,
        "-path"@,
        "*/.git/*"@,
        "-not"@,
        "-path"@,
        "*/target/*"@,
        "-maxdepth"@,
        "10"@,
    ]
}

/// Appends the text `s` to `out`.
fn push_text(out: &mut Vec<String>, s: &str)
    ensures
        texts_view(final(out)@) == texts_view(old(out)@).push(s@),
{
    out.push(String::from_str(s));
    proof {
        assert(texts_view(out@) =~= texts_view(old(out)@).push(s@));
    }
}

/// The call that asks whether a directory is inside a work tree.
pub fn check_repo_call() -> (call: ToolCall)
    ensures
        call@ == (CallView {
            program: "git"@,
            args: seq!["rev-parse"@, "--is-inside-work-tree"@],
        }),
{
    let mut args: Vec<String> = Vec::new();
    proof {
        assert(texts_view(args@) =~= Seq::<Seq<char>>::empty());
    }
    push_text(&mut args, "rev-parse");
    push_text(&mut args, "--is-inside-work-tree");
    proof {
        assert(texts_view(args@) =~= seq!["rev-parse"@, "--is-inside-work-tree"@]);
    }
    ToolCall { program: String::from_str("git"), args }
}

/// The call that asks for the hash of the newest commit.
pub fn head_hash_call() -> (call: ToolCall)
    ensures
        call@ == (CallView { program: "git"@, args: seq!["rev-parse"@, "HEAD"@] }),
{
    let mut args: Vec<String> = Vec::new();
    proof {
        assert(texts_view(args@) =~= Seq::<Seq<char>>::empty());
    }
    push_text(&mut args, "rev-parse");
    push_text(&mut args, "HEAD");
    proof {
        assert(texts_view(args@) =~= seq!["rev-parse"@, "HEAD"@]);
    }
    ToolCall { program: String::from_str("git"), args }
}

/// The call that prints the log in the format `format`, with the caller's
/// arguments `extra` at the end, each a word of its own.
pub fn log_call(format: &str, extra: &Vec<String>) -> (call: ToolCall)
    ensures
        call@ == (CallView { program: "git"@, args: log_args(format@, texts_view(extra@)) }),
{
    let mut args: Vec<String> = Vec::new();
    proof {
        assert(texts_view(args@) =~= Seq::<Seq<char>>::empty());
    }
    push_text(&mut args, "log");
    push_text(&mut args, format);
    push_text(&mut args, "--numstat");
    let mut i: usize = 0;
    proof {
        assert(texts_view(args@) =~= seq!["log"@, format@, "--numstat"@] + texts_view(extra@).take(
            0,
        ));
    }
    while i < extra.len()
        invariant
            i <= extra.len(),
            texts_view(args@) == seq!["log"@, format@, "--numstat"@] + texts_view(extra@).take(
                i as int,
            ),
        decreases extra.len() - i,
    {
        push_text(&mut args, extra[i].as_str());
        i += 1;
        proof {
            assert(texts_view(args@) =~= seq!["log"@, format@, "--numstat"@] + texts_view(
                extra@,
            ).take(i as int));
        }
    }
    proof {
        assert(texts_view(extra@).take(extra@.len() as int) =~= texts_view(extra@));
    }
    ToolCall { program: String::from_str("git"), args }
}

/// The call that searches for `pattern` below `target`.
pub fn search_call(pattern: &str, glob: Option<&str>, target: &str) -> (call: ToolCall)
    ensures
        call@ == (CallView {
            program: "rg"@,
            args: search_args(
                pattern@,
                match glob {
                    Some(g) => Some(g@),
                    None => None,
                },
                target@,
            ),
        }),
{
    let mut args: Vec<String> = Vec::new();
    proof {
        assert(texts_view(args@) =~= Seq::<Seq<char>>::empty());
    }
    push_text(&mut args, "--no-heading");
    push_text(&mut args, "--line-number");
    push_text(&mut args, "--max-count");
    push_text(&mut args, "50");
    push_text(&mut args, "--max-filesize");
    push_text(&mut args, "1M");
    push_text(&mut args, "--fixed-strings");
    push_text(&mut args, pattern);
    let ghost head = texts_view(args@);
    proof {
        assert(head =~= seq![
            "--no-heading"@,
            "--line-number"@,
            "--max-count"@,
            "50"@,
            "--max-filesize"@,
            "1M"@,
            "--fixed-strings"@,
            pattern@,
        ]);
    }
    match glob {
        Some(g) => {
            push_text(&mut args, "--glob");
            push_text(&mut args, g);
            push_text(&mut args, target);
            proof {
                assert(texts_view(args@) =~= head + seq!["--glob"@, g@, target@]);
            }
        },
        None => {
            push_text(&mut args, target);
            proof {
                assert(texts_view(args@) =~= head + seq![target@]);
            }
        },
    }
    ToolCall { program: String::from_str("rg"), args }
}

/// The call that searches for `pattern` below `target` where the first
/// search tool cannot be started.
pub fn fallback_search_call(pattern: &str, target: &str) -> (call: ToolCall)
    ensures
        call@ == (CallView { program: "grep"@, args: seq!["-rHnF"@, pattern@, target@] }),
{
    let mut args: Vec<String> = Vec::new();
    proof {
        assert(texts_view(args@) =~= Seq::<Seq<char>>::empty());
    }
    push_text(&mut args, "-rHnF");
    push_text(&mut args, pattern);
    push_text(&mut args, target);
    proof {
        assert(texts_view(args@) =~= seq!["-rHnF"@, pattern@, target@]);
    }
    ToolCall { program: String::from_str("grep"), args }
}

/// The call that scans for files named like `pattern` below `target`.
pub fn glob_call(pattern: &str, target: &str) -> (call: ToolCall)
    ensures
        call@ == (CallView { program: "find"@, args: glob_args(pattern@, target@) }),
{
    let mut args: Vec<String> = Vec::new();
    proof {
        assert(texts_view(args@) =~= Seq::<Seq<char>>::empty());
    }
    push_text(&mut args, target);
    push_text(&mut args, "-type");
    push_text(&mut args, "f");
    push_text(&mut args, "-name");
    push_text(&mut args, pattern);
    push_text(&mut args, "-not");
    push_text(&mut args, "-path");
    push_text(&mut args, "*/node_modules/*");
    push_text(&mut args, "-not");
    push_text(&mut args, "-path");
    push_text(&mut args, "*/.git/*");
    push_text(&mut args, "-not");
    push_text(&mut args, "-path");
    push_text(&mut args, "*/target/*");
    push_text(&mut args, "-maxdepth");
    push_text(&mut args, "10");
    proof {
        assert(texts_view(args@) =~= glob_args(pattern@, target@));
    }
    ToolCall { program: String::from_str("find"), args }
}

/// The call that runs the shell command `command`, where the policy allows
/// the command; else the policy's refusal, and nothing is to be run.
pub fn shell_call(command: &str) -> (call: Result<ToolCall, CommandDenied>)
    ensures
        match call {
            Ok(c) => denial(command@) is None && c@ == (CallView {
                program: "bash"@,
                args: seq!["-c"@, command@],
            }),
            Err(e) => denial(command@) == Some(e@),
        },
{
    match validate_command(command) {
        Ok(_) => {
            let mut args: Vec<String> = Vec::new();
            proof {
                assert(texts_view(args@) =~= Seq::<Seq<char>>::empty());
            }
            push_text(&mut args, "-c");
            push_text(&mut args, command);
            proof {
                assert(texts_view(args@) =~= seq!["-c"@, command@]);
            }
            Ok(ToolCall { program: String::from_str("bash"), args })
        },
        Err(e) => Err(e),
    }
}

/// The result of a shell command that ran: what it wrote, as text, and its
/// exit code, or `NO_EXIT_CODE` where it gave none.
pub fn execute_response(output: &ProcessOutput) -> (response: ExecuteResponse)
    ensures
        response@ == (ResponseView {
            stdout: lossy_text(output.stdout@),
            stderr: lossy_text(output.stderr@),
            exit_code: match output.code {
                Some(c) => c,
                None => NO_EXIT_CODE,
            },
        }),
{
    ExecuteResponse {
        stdout: decode_lossy(&output.stdout),
        stderr: decode_lossy(&output.stderr),
        exit_code: match output.code {
            Some(c) => c,
            None => NO_EXIT_CODE,
        },
    }
}

/// What a query of the tool `tool` amounts to. Where the process did not
/// succeed, it is the failure with what the process wrote to its error
/// stream. Where it did, it is the decoded output `stdout`, or the failure
/// to decode it.
pub fn text_result(tool: &str, succeeded: bool, stdout: Result<String, String>, stderr: String) -> (text:
    Result<String, ToolError>)
    ensures
        match text {
            Ok(s) => succeeded && stdout == Ok::<String, String>(s),
            Err(e) => if !succeeded {
                e@ == Failure::Failed(tool@, stderr@)
            } else {
                stdout is Err && e@ == Failure::InvalidUtf8(stdout->Err_0@)
            },
        },
{
    if !succeeded {
        return Err(ToolError::Failed { tool: String::from_str(tool), stderr });
    }
    match stdout {
        Ok(s) => Ok(s),
        Err(detail) => Err(ToolError::InvalidUtf8 { detail }),
    }
}

/// The log that the version-control tool printed: its output where it
/// succeeded and the output is valid UTF-8, else the failure.
pub fn log_result(output: ProcessOutput) -> (log: Result<String, ToolError>)
    ensures
        match log {
            Ok(s) => output.succeeded() && valid_utf8(output.stdout@) && s@ == decode_utf8(
                output.stdout@,
            ),
            Err(e) => if !output.succeeded() {
                e@ == Failure::Failed("git log"@, lossy_text(output.stderr@))
            } else {
                !valid_utf8(output.stdout@) && e@ is InvalidUtf8
            },
        },
{
    let succeeded = output.success();
    let stderr = decode_lossy(&output.stderr);
    text_result("git log", succeeded, decode_strict(output.stdout), stderr)
}

/// The hash of the newest commit, as the version-control tool printed it,
/// without the whitespace around it; or the failure.
pub fn head_hash_result(output: ProcessOutput) -> (hash: Result<String, ToolError>)
    ensures
        match hash {
            Ok(s) => output.succeeded() && valid_utf8(output.stdout@) && s@ == trimmed(
                decode_utf8(output.stdout@),
            ) && (s@.len() > 0 ==> !is_space(s@[0]) && !is_space(s@.last())),
            Err(e) => if !output.succeeded() {
                e@ == Failure::Failed("git rev-parse"@, lossy_text(output.stderr@))
            } else {
                !valid_utf8(output.stdout@) && e@ is InvalidUtf8
            },
        },
{
    let succeeded = output.success();
    let stderr = decode_lossy(&output.stderr);
    match text_result("git rev-parse", succeeded, decode_strict(output.stdout), stderr) {
        Ok(s) => {
            proof {
                lemma_trimmed_edges(s@);
            }
            Ok(string_of(&trim_chars(&chars_of(s.as_str()))))
        },
        Err(e) => Err(e),
    }
}

} // verus!
