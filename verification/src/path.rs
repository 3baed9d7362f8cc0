//! Confinement of paths to a root directory. Paths are texts in resolved
//! form: absolute, with `/` between their segments, without `.` and `..`
//! segments, without doubled separators and without one at the end. The
//! caller resolves a path against the file system; this module decides.

use crate::text::{
    append_chars, chars_of, has_prefix, same_chars, slice_chars, starts_with, string_of,
};
use vstd::prelude::*;
use vstd::string::*;

verus! {

/// Whether `target` is `base` or lies below it: `base` is a prefix of
/// `target` that ends where a segment of `target` ends.
pub open spec fn within(base: Seq<char>, target: Seq<char>) -> bool {
    ||| base.len() == 0
    ||| target == base
    ||| (has_prefix(target, base) && target.len() > base.len() && (base.last() == '/'
        || target[base.len() as int] == '/'))
}

/// What is left of `target` after `base` and the separator behind it, where
/// `target` is within `base`.
pub open spec fn below(base: Seq<char>, target: Seq<char>) -> Option<Seq<char>> {
    if !within(base, target) {
        None
    } else if base.len() == 0 {
        Some(target)
    } else if target == base {
        Some(Seq::empty())
    } else if base.last() == '/' {
        Some(target.skip(base.len() as int))
    } else {
        Some(target.skip(base.len() as int + 1))
    }
}

/// The path `rel` taken from the directory `base`: `rel` itself where it is
/// absolute or `base` is empty, else `base`, a separator unless `base` ends
/// with one, and `rel`.
pub open spec fn joined_path(base: Seq<char>, rel: Seq<char>) -> Seq<char> {
    if (rel.len() > 0 && rel[0] == '/') || base.len() == 0 {
        rel
    } else if base.last() == '/' {
        base + rel
    } else {
        base + seq!['/'] + rel
    }
}

/// The characters of `path` after its last separator.
pub open spec fn last_segment(path: Seq<char>) -> Seq<char>
    decreases path.len(),
{
    if path.len() == 0 || path.last() == '/' {
        Seq::empty()
    } else {
        last_segment(path.drop_last()).push(path.last())
    }
}

/// The name of the file that `path` leads to: its last segment, unless that
/// is empty or the parent directory.
pub open spec fn file_name_of(path: Seq<char>) -> Option<Seq<char>> {
    let name = last_segment(path);
    if name.len() == 0 || name == ".."@ {
        None
    } else {
        Some(name)
    }
}

/// Why a path was refused, as contracts see it.
pub enum Refusal {
    /// The root itself could not be resolved; holds the resolver's words.
    InvalidRoot(Seq<char>),
    /// The path could not be resolved; holds the path and the resolver's words.
    NotFound(Seq<char>, Seq<char>),
    /// The path resolves to a place outside the root; holds the path.
    Traversal(Seq<char>),
}

/// Why a path was refused.
#[derive(Debug, Clone, PartialEq, Eq)]
pub enum PathError {
    /// The root itself could not be resolved.
    InvalidRoot { detail: String },
    /// The path could not be resolved: it does not exist or cannot be read.
    NotFound { path: String, detail: String },
    /// The path resolves to a place outside the root.
    Traversal { path: String },
}

impl View for PathError {
    type V = Refusal;

    open spec fn view(&self) -> Refusal {
        match self {
            PathError::InvalidRoot { detail } => Refusal::InvalidRoot(detail@),
            PathError::NotFound { path, detail } => Refusal::NotFound(path@, detail@),
            PathError::Traversal { path } => Refusal::Traversal(path@),
        }
    }
}

/// The text of a refusal.
pub open spec fn refusal_text(r: Refusal) -> Seq<char> {
    match r {
        Refusal::InvalidRoot(detail) => "Invalid repo path: "@ + detail,
        Refusal::NotFound(path, detail) => "Invalid file path '"@ + path + "': "@ + detail,
        Refusal::Traversal(path) => "Path traversal denied: "@ + path,
    }
}

impl PathError {
    /// The refusal as a sentence for the caller.
    pub fn message(&self) -> (text: String)
        ensures
            text@ == refusal_text(self@),
    {
        match self {
            PathError::InvalidRoot { detail } => {
                let mut text = String::from_str("Invalid repo path: ");
                text.append(detail.as_str());
                text
            },
            PathError::NotFound { path, detail } => {
                let mut text = String::from_str("Invalid file path '");
                text.append(path.as_str());
                text.append("': ");
                text.append(detail.as_str());
                text
            },
            PathError::Traversal { path } => {
                let mut text = String::from_str("Path traversal denied: ");
                text.append(path.as_str());
                text
            },
        }
    }
}

/// A resolved path together with the resolved root that it lies within.
#[derive(Debug, PartialEq, Eq)]
pub struct ConfinedPath {
    root: String,
    path: String,
}

impl ConfinedPath {
    /// The root, as characters.
    pub closed spec fn root_view(&self) -> Seq<char> {
        self.root@
    }

    /// The path, as characters.
    pub closed spec fn path_view(&self) -> Seq<char> {
        self.path@
    }

    #[verifier::type_invariant]
    spec fn confined(&self) -> bool {
        within(self.root@, self.path@)
    }

    /// The resolved root.
    pub fn root(&self) -> (root: &str)
        ensures
            root@ == self.root_view(),
    {
        self.root.as_str()
    }

    /// The resolved path, which lies within the root.
    pub fn as_str(&self) -> (path: &str)
        ensures
            path@ == self.path_view(),
            within(self.root_view(), self.path_view()),
    {
        proof {
            use_type_invariant(self);
        }
        self.path.as_str()
    }

    /// The path from the root, for display.
    pub fn relative(&self) -> (rel: String)
        ensures
            Some(rel@) == below(self.root_view(), self.path_view()),
    {
        proof {
            use_type_invariant(self);
        }
        match strip_base(self.root.as_str(), self.path.as_str()) {
            Some(rel) => rel,
            None => String::new(),
        }
    }
}

/// What the guard answers, given what the resolver said of the root and of
/// the path `file_path` taken from the root.
pub open spec fn confinement(
    root: Result<Seq<char>, Seq<char>>,
    target: Result<Seq<char>, Seq<char>>,
    file_path: Seq<char>,
) -> Result<(Seq<char>, Seq<char>), Refusal> {
    match root {
        Err(detail) => Err(Refusal::InvalidRoot(detail)),
        Ok(base) => match target {
            Err(detail) => Err(Refusal::NotFound(file_path, detail)),
            Ok(resolved) => if within(base, resolved) {
                Ok((base, resolved))
            } else {
                Err(Refusal::Traversal(file_path))
            },
        },
    }
}

/// The views of the two sides of a resolver's answer.
pub open spec fn answer_view(answer: Result<String, String>) -> Result<Seq<char>, Seq<char>> {
    match answer {
        Ok(path) => Ok(path@),
        Err(detail) => Err(detail@),
    }
}

/// Whether `target` is `base` or lies below it.
pub fn is_within(base: &Vec<char>, target: &Vec<char>) -> (inside: bool)
    ensures
        inside == within(base@, target@),
{
    if base.len() == 0 || same_chars(target, base) {
        return true;
    }
    if !starts_with(target, base) || target.len() <= base.len() {
        return false;
    }
    base[base.len() - 1] == '/' || target[base.len()] == '/'
}

/// The path `rel` taken from the directory `base`.
pub fn join_path(base: &str, rel: &str) -> (path: String)
    ensures
        path@ == joined_path(base@, rel@),
{
    let b = chars_of(base);
    let r = chars_of(rel);
    if (r.len() > 0 && r[0] == '/') || b.len() == 0 {
        return string_of(&r);
    }
    let mut out: Vec<char> = Vec::new();
    append_chars(&mut out, &b);
    if b[b.len() - 1] != '/' {
        out.push('/');
    }
    append_chars(&mut out, &r);
    proof {
        assert(out@ =~= joined_path(base@, rel@));
    }
    string_of(&out)
}

/// What is left of `target` after `base`, where `target` is within `base`.
pub fn strip_base(base: &str, target: &str) -> (rest: Option<String>)
    ensures
        match rest {
            Some(r) => below(base@, target@) == Some(r@),
            None => below(base@, target@) is None,
        },
{
    let b = chars_of(base);
    let t = chars_of(target);
    if !is_within(&b, &t) {
        return None;
    }
    if b.len() == 0 {
        return Some(string_of(&t));
    }
    if same_chars(&t, &b) {
        return Some(String::new());
    }
    assert(t.len() > b.len());
    let from: usize = if b[b.len() - 1] == '/' {
        b.len()
    } else {
        b.len() + 1
    };
    let rest = slice_chars(&t, from, t.len());
    Some(string_of(&rest))
}

/// The name of the file that `path` leads to.
pub fn file_name(path: &str) -> (name: Option<String>)
    ensures
        match name {
            Some(n) => file_name_of(path@) == Some(n@),
            None => file_name_of(path@) is None,
        },
{
    let p = chars_of(path);
    let mut j: usize = p.len();
    proof {
        assert(p@.take(j as int) =~= p@);
        assert(p@.subrange(j as int, p@.len() as int) =~= Seq::<char>::empty());
        assert(last_segment(p@) + Seq::<char>::empty() =~= last_segment(p@));
    }
    while j > 0 && p[j - 1] != '/'
        invariant
            j <= p.len(),
            last_segment(p@) == last_segment(p@.take(j as int)) + p@.subrange(
                j as int,
                p@.len() as int,
            ),
        decreases j,
    {
        proof {
            let head = p@.take(j as int);
            assert(head.drop_last() =~= p@.take(j - 1));
            assert(last_segment(head) == last_segment(p@.take(j - 1)).push(p@[j - 1]));
            assert(last_segment(p@.take(j - 1)).push(p@[j - 1]) + p@.subrange(
                j as int,
                p@.len() as int,
            ) =~= last_segment(p@.take(j - 1)) + p@.subrange(j - 1, p@.len() as int));
        }
        j -= 1;
    }
    let name = slice_chars(&p, j, p.len());
    proof {
        assert(last_segment(p@.take(j as int)) =~= Seq::<char>::empty());
        assert(name@ =~= last_segment(p@));
    }
    let parent = chars_of("..");
    if name.len() == 0 || same_chars(&name, &parent) {
        None
    } else {
        Some(string_of(&name))
    }
}

/// Confines the path `file_path` to a root. `root` is what the resolver said
/// of the root, `target` what it said of `file_path` taken from the resolved
/// root: the resolved path, or its words on why there is none. The answer is
/// the confined path where both were resolved and the second lies within the
/// first, else the refusal.
pub fn resolve_safe_path(
    root: Result<String, String>,
    target: Result<String, String>,
    file_path: &str,
) -> (confined: Result<ConfinedPath, PathError>)
    ensures
        match confined {
            Ok(c) => confinement(answer_view(root), answer_view(target), file_path@) == Ok::<
                (Seq<char>, Seq<char>),
                Refusal,
            >((c.root_view(), c.path_view())),
            Err(e) => confinement(answer_view(root), answer_view(target), file_path@) == Err::<
                (Seq<char>, Seq<char>),
                Refusal,
            >(e@),
        },
{
    let base = match root {
        Ok(base) => base,
        Err(detail) => {
            return Err(PathError::InvalidRoot { detail });
        },
    };
    let resolved = match target {
        Ok(resolved) => resolved,
        Err(detail) => {
            return Err(PathError::NotFound { path: String::from_str(file_path), detail });
        },
    };
    if !is_within(&chars_of(base.as_str()), &chars_of(resolved.as_str())) {
        return Err(PathError::Traversal { path: String::from_str(file_path) });
    }
    Ok(ConfinedPath { root: base, path: resolved })
}

/// A path that was resolved to a place within the resolved root is
/// confined, to that place.
pub proof fn lemma_confines_what_stays_within(
    base: Seq<char>,
    resolved: Seq<char>,
    file_path: Seq<char>,
)
    requires
        within(base, resolved),
    ensures
        confinement(Ok(base), Ok(resolved), file_path) == Ok::<(Seq<char>, Seq<char>), Refusal>(
            (base, resolved),
        ),
{
}

/// A path that was resolved to a place outside the resolved root is refused
/// as a traversal.
pub proof fn lemma_refuses_what_escapes(base: Seq<char>, resolved: Seq<char>, file_path: Seq<char>)
    requires
        !within(base, resolved),
    ensures
        confinement(Ok(base), Ok(resolved), file_path) == Err::<(Seq<char>, Seq<char>), Refusal>(
            Refusal::Traversal(file_path),
        ),
{
}

/// Whatever is confined lies within the root that the resolver gave.
pub proof fn lemma_confined_lies_within(
    root: Result<Seq<char>, Seq<char>>,
    target: Result<Seq<char>, Seq<char>>,
    file_path: Seq<char>,
)
    requires
        confinement(root, target, file_path) is Ok,
    ensures
        root is Ok,
        target is Ok,
        confinement(root, target, file_path)->Ok_0 == (root->Ok_0, target->Ok_0),
        within(root->Ok_0, target->Ok_0),
{
}

/// A path whose text starts with the root's text, but goes on inside a
/// segment, is outside the root.
pub proof fn lemma_longer_name_is_outside(base: Seq<char>, target: Seq<char>)
    requires
        base.len() > 0,
        base.last() != '/',
        has_prefix(target, base),
        target.len() > base.len(),
        target[base.len() as int] != '/',
    ensures
        !within(base, target),
{
}

/// What is taken from a root that ends with no separator lies within it, and
/// what is left of it after the root is the relative path again.
pub proof fn lemma_joined_is_within(base: Seq<char>, rel: Seq<char>)
    requires
        base.len() > 0,
        base.last() != '/',
        rel.len() > 0,
        rel[0] != '/',
    ensures
        within(base, joined_path(base, rel)),
        below(base, joined_path(base, rel)) == Some(rel),
{
    let j = joined_path(base, rel);
    assert(j.subrange(0, base.len() as int) =~= base);
    assert(j.skip(base.len() as int + 1) =~= rel);
}

/// What is left of a path after its root leads back to the path when it is
/// taken from the root.
pub proof fn lemma_below_joins_back(base: Seq<char>, target: Seq<char>)
    requires
        base.len() > 0,
        base.last() != '/',
        within(base, target),
        target != base,
        target.len() > base.len() + 1 ==> target[base.len() as int + 1] != '/',
    ensures
        below(base, target) is Some,
        joined_path(base, below(base, target)->0) == target,
{
    let rest = target.skip(base.len() as int + 1);
    assert(target.subrange(0, base.len() as int) == base);
    assert(base + seq!['/'] + rest =~= target);
}

/// The guard's answer depends on nothing but what it is given.
pub proof fn lemma_confinement_repeatable(
    root: Result<Seq<char>, Seq<char>>,
    target: Result<Seq<char>, Seq<char>>,
    file_path: Seq<char>,
    root_again: Result<Seq<char>, Seq<char>>,
    target_again: Result<Seq<char>, Seq<char>>,
    file_path_again: Seq<char>,
)
    requires
        root == root_again,
        target == target_again,
        file_path == file_path_again,
    ensures
        confinement(root, target, file_path) == confinement(
            root_again,
            target_again,
            file_path_again,
        ),
{
}

/// Being within is transitive.
pub proof fn lemma_within_transitive(a: Seq<char>, b: Seq<char>, c: Seq<char>)
    requires
        within(a, b),
        within(b, c),
    ensures
        within(a, c),
{
    if a.len() > 0 && b != a && c != b && b.len() > 0 {
        assert(c.subrange(0, b.len() as int) == b);
        assert(b.subrange(0, a.len() as int) == a);
        assert(c.subrange(0, a.len() as int) =~= a);
        assert(c[a.len() as int] == b[a.len() as int]);
    }
}

} // verus!
