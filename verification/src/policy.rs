//! The policy for shell commands: a command must start with a tool that only
//! reads, and may hold no fragment of a destructive operation.

use crate::text::{
    chars_of, contains, contains_chars, has_prefix, lemma_trimmed_twice, same_chars, slice_chars,
    starts_with, string_of, trim_chars, trimmed,
};
use vstd::prelude::*;
use vstd::string::*;

verus! {

/// How many tools the policy admits.
pub const TOOL_COUNT: usize = 16;

/// How many fragments the policy forbids.
pub const FRAGMENT_COUNT: usize = 17;

/// How many characters of a refused command are shown in the refusal.
pub const SHOWN_CHARS: usize = 50;

/// The name of the `k`-th admitted tool.
pub open spec fn tool_name(k: int) -> Seq<char> {
    if k == 0 {
        "git"@
    } else if k == 1 {
        "rg"@
    } else if k == 2 {
        "grep"@
    } else if k == 3 {
        "find"@
    } else if k == 4 {
        "wc"@
    } else if k == 5 {
        "head"@
    } else if k == 6 {
        "tail"@
    } else if k == 7 {
        "cat"@
    } else if k == 8 {
        "ls"@
    } else if k == 9 {
        "stat"@
    } else if k == 10 {
        "file"@
    } else if k == 11 {
        "sort"@
    } else if k == 12 {
        "uniq"@
    } else if k == 13 {
        "awk"@
    } else if k == 14 {
        "sed"@
    } else {
        "echo"@
    }
}

/// The `k`-th forbidden fragment.
pub open spec fn forbidden_fragment(k: int) -> Seq<char> {
    if k == 0 {
        "rm "@
    } else if k == 1 {
        "rm\t"@
    } else if k == 2 {
        "rmdir"@
    } else if k == 3 {
        "mv "@
    } else if k == 4 {
        "cp "@
    } else if k == 5 {
        "> "@
    } else if k == 6 {
        ">> "@
    } else if k == 7 {
        "| rm"@
    } else if k == 8 {
        "; rm"@
    } else if k == 9 {
        "git push"@
    } else if k == 10 {
        "git reset --hard"@
    } else if k == 11 {
        "git checkout"@
    } else if k == 12 {
        "git clean"@
    } else if k == 13 {
        "git stash drop"@
    } else if k == 14 {
        "chmod"@
    } else if k == 15 {
        "chown"@
    } else {
        "sudo"@
    }
}

/// Whether `c` parts a tool's name from its arguments.
pub open spec fn is_separator(c: char) -> bool {
    c == ' ' || c == '\t'
}

/// Whether `t` is the tool `name` followed by a separator.
pub open spec fn invokes(t: Seq<char>, name: Seq<char>) -> bool {
    has_prefix(t, name) && t.len() > name.len() && is_separator(t[name.len() as int])
}

/// Whether `t` is a command that is admitted without arguments.
pub open spec fn is_bare_command(t: Seq<char>) -> bool {
    t == "git"@ || t == "ls"@ || t == "pwd"@
}

/// Whether the trimmed command `t` starts with an admitted tool.
pub open spec fn is_admitted(t: Seq<char>) -> bool {
    is_bare_command(t) || exists|k: int| 0 <= k < TOOL_COUNT && invokes(t, tool_name(k))
}

/// The index of the first forbidden fragment, from `from` on, that `t` holds,
/// or `FRAGMENT_COUNT` where it holds none of them.
pub open spec fn first_forbidden(t: Seq<char>, from: int) -> int
    decreases FRAGMENT_COUNT - from,
{
    if from >= FRAGMENT_COUNT {
        FRAGMENT_COUNT as int
    } else if contains(t, forbidden_fragment(from)) {
        from
    } else {
        first_forbidden(t, from + 1)
    }
}

/// Why a command is refused, as contracts see it.
pub enum Denial {
    /// The command does not start with an admitted tool; holds the start of
    /// the command.
    NotInAllowList(Seq<char>),
    /// The command holds a forbidden fragment; holds the fragment, trimmed.
    Forbidden(Seq<char>),
}

/// The start of `t` that a refusal shows.
pub open spec fn shown_part(t: Seq<char>) -> Seq<char> {
    if t.len() <= SHOWN_CHARS {
        t
    } else {
        t.take(SHOWN_CHARS as int)
    }
}

/// The policy: `None` where `command` is allowed, else the reason.
pub open spec fn denial(command: Seq<char>) -> Option<Denial> {
    let t = trimmed(command);
    if !is_admitted(t) {
        Some(Denial::NotInAllowList(shown_part(t)))
    } else if first_forbidden(t, 0) < FRAGMENT_COUNT {
        Some(Denial::Forbidden(trimmed(forbidden_fragment(first_forbidden(t, 0)))))
    } else {
        None
    }
}

/// Why a command was refused.
#[derive(Debug, Clone, PartialEq, Eq)]
pub enum CommandDenied {
    /// The command does not start with an admitted tool.
    NotInAllowList { shown: String },
    /// The command holds a forbidden fragment.
    Forbidden { fragment: String },
}

impl View for CommandDenied {
    type V = Denial;

    open spec fn view(&self) -> Denial {
        match self {
            CommandDenied::NotInAllowList { shown } => Denial::NotInAllowList(shown@),
            CommandDenied::Forbidden { fragment } => Denial::Forbidden(fragment@),
        }
    }
}

/// The text of a refusal.
pub open spec fn denial_text(d: Denial) -> Seq<char> {
    match d {
        Denial::NotInAllowList(shown) => "Command not allowed: "@ + shown,
        Denial::Forbidden(fragment) => "Forbidden operation in command: "@ + fragment,
    }
}

impl CommandDenied {
    /// The refusal as a sentence for the caller.
    pub fn message(&self) -> (text: String)
        ensures
            text@ == denial_text(self@),
    {
        match self {
            CommandDenied::NotInAllowList { shown } => {
                let mut text = String::from_str("Command not allowed: ");
                text.append(shown.as_str());
                text
            },
            CommandDenied::Forbidden { fragment } => {
                let mut text = String::from_str("Forbidden operation in command: ");
                text.append(fragment.as_str());
                text
            },
        }
    }
}

/// The name of the `k`-th admitted tool.
fn tool(k: usize) -> (name: &'static str)
    requires
        k < TOOL_COUNT,
    ensures
        name@ == tool_name(k as int),
{
    if k == 0 {
        "git"
    } else if k == 1 {
        "rg"
    } else if k == 2 {
        "grep"
    } else if k == 3 {
        "find"
    } else if k == 4 {
        "wc"
    } else if k == 5 {
        "head"
    } else if k == 6 {
        "tail"
    } else if k == 7 {
        "cat"
    } else if k == 8 {
        "ls"
    } else if k == 9 {
        "stat"
    } else if k == 10 {
        "file"
    } else if k == 11 {
        "sort"
    } else if k == 12 {
        "uniq"
    } else if k == 13 {
        "awk"
    } else if k == 14 {
        "sed"
    } else {
        "echo"
    }
}

/// The `k`-th forbidden fragment.
fn fragment(k: usize) -> (text: &'static str)
    requires
        k < FRAGMENT_COUNT,
    ensures
        text@ == forbidden_fragment(k as int),
{
    if k == 0 {
        "rm "
    } else if k == 1 {
        "rm\t"
    } else if k == 2 {
        "rmdir"
    } else if k == 3 {
        "mv "
    } else if k == 4 {
        "cp "
    } else if k == 5 {
        "> "
    } else if k == 6 {
        ">> "
    } else if k == 7 {
        "| rm"
    } else if k == 8 {
        "; rm"
    } else if k == 9 {
        "git push"
    } else if k == 10 {
        "git reset --hard"
    } else if k == 11 {
        "git checkout"
    } else if k == 12 {
        "git clean"
    } else if k == 13 {
        "git stash drop"
    } else if k == 14 {
        "chmod"
    } else if k == 15 {
        "chown"
    } else {
        "sudo"
    }
}

/// Whether the trimmed command `t` starts with an admitted tool.
pub fn starts_with_admitted_tool(t: &Vec<char>) -> (admitted: bool)
    ensures
        admitted == is_admitted(t@),
{
    let git = chars_of("git");
    let ls = chars_of("ls");
    let pwd = chars_of("pwd");
    if same_chars(t, &git) || same_chars(t, &ls) || same_chars(t, &pwd) {
        return true;
    }
    let mut k: usize = 0;
    while k < TOOL_COUNT
        invariant
            k <= TOOL_COUNT,
            !is_bare_command(t@),
            forall|j: int| 0 <= j < k ==> !invokes(t@, tool_name(j)),
        decreases TOOL_COUNT - k,
    {
        let name = chars_of(tool(k));
        if starts_with(t, &name) && t.len() > name.len() {
            let c = t[name.len()];
            if c == ' ' || c == '\t' {
                return true;
            }
        }
        k += 1;
    }
    false
}

/// The index of the first forbidden fragment that `t` holds, if any.
pub fn find_forbidden(t: &Vec<char>) -> (found: Option<usize>)
    ensures
        match found {
            Some(k) => k < FRAGMENT_COUNT && k == first_forbidden(t@, 0),
            None => first_forbidden(t@, 0) == FRAGMENT_COUNT,
        },
{
    let mut k: usize = 0;
    while k < FRAGMENT_COUNT
        invariant
            k <= FRAGMENT_COUNT,
            first_forbidden(t@, 0) == first_forbidden(t@, k as int),
        decreases FRAGMENT_COUNT - k,
    {
        let text = chars_of(fragment(k));
        if contains_chars(t, &text) {
            return Some(k);
        }
        k += 1;
    }
    None
}

/// Decides whether the shell command `command` may run: `Ok` where the
/// policy allows it, else the reason.
pub fn validate_command(command: &str) -> (verdict: Result<(), CommandDenied>)
    ensures
        match verdict {
            Ok(_) => denial(command@) is None,
            Err(e) => denial(command@) == Some(e@),
        },
{
    let t = trim_chars(&chars_of(command));
    if !starts_with_admitted_tool(&t) {
        let n: usize = if t.len() <= SHOWN_CHARS {
            t.len()
        } else {
            SHOWN_CHARS
        };
        let shown = slice_chars(&t, 0, n);
        proof {
            assert(shown@ =~= shown_part(t@));
        }
        return Err(CommandDenied::NotInAllowList { shown: string_of(&shown) });
    }
    match find_forbidden(&t) {
        Some(k) => {
            let text = trim_chars(&chars_of(fragment(k)));
            Err(CommandDenied::Forbidden { fragment: string_of(&text) })
        },
        None => Ok(()),
    }
}

/// The verdict on a command depends on nothing but the command without its
/// leading and trailing whitespace.
pub proof fn lemma_denial_of_trimmed(a: Seq<char>, b: Seq<char>)
    requires
        trimmed(a) == trimmed(b),
    ensures
        denial(a) == denial(b),
{
}

/// A command and the same command without the whitespace around it get the
/// same verdict.
pub proof fn lemma_denial_ignores_outer_space(command: Seq<char>)
    ensures
        denial(trimmed(command)) == denial(command),
{
    lemma_trimmed_twice(command);
}

/// A fragment that `t` holds is found at its index or before it.
pub proof fn lemma_first_forbidden_bound(t: Seq<char>, from: int, k: int)
    requires
        0 <= from <= k < FRAGMENT_COUNT,
        contains(t, forbidden_fragment(k)),
    ensures
        from <= first_forbidden(t, from) <= k,
    decreases k - from,
{
    if from < k && !contains(t, forbidden_fragment(from)) {
        lemma_first_forbidden_bound(t, from + 1, k);
    }
}

/// A command that holds a forbidden fragment is refused, whatever tool it
/// starts with.
pub proof fn lemma_forbidden_fragment_is_refused(command: Seq<char>, k: int)
    requires
        0 <= k < FRAGMENT_COUNT,
        contains(trimmed(command), forbidden_fragment(k)),
    ensures
        denial(command) is Some,
{
    lemma_first_forbidden_bound(trimmed(command), 0, k);
}

/// A command that is allowed starts with an admitted tool and holds none of
/// the forbidden fragments.
pub proof fn lemma_allowed_command(command: Seq<char>, k: int)
    requires
        denial(command) is None,
        0 <= k < FRAGMENT_COUNT,
    ensures
        is_admitted(trimmed(command)),
        !contains(trimmed(command), forbidden_fragment(k)),
{
    if contains(trimmed(command), forbidden_fragment(k)) {
        lemma_first_forbidden_bound(trimmed(command), 0, k);
    }
}

} // verus!
