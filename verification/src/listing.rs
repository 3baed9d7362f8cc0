//! Entries of a directory listing: hidden entries and the directories of
//! tools are left out, directories come before files, and each group is
//! ordered by name.

use crate::path::{below, file_name, file_name_of, join_path, joined_path, strip_base};
use crate::text::{
    chars_of, lines_of, rows_view, same_chars, split_lines, string_of, texts_view,
};
use vstd::prelude::*;

verus! {

/// An entry as the directory gives it, as contracts see it.
pub struct RawView {
    pub name: Seq<char>,
    pub is_dir: bool,
    pub size: u64,
}

/// An entry of a listing, as contracts see it.
pub struct EntryView {
    pub name: Seq<char>,
    pub path: Seq<char>,
    pub is_dir: bool,
    pub size: u64,
}

/// An entry as the directory gives it.
#[derive(Debug, Clone, PartialEq, Eq)]
pub struct RawEntry {
    pub name: String,
    pub is_dir: bool,
    pub size: u64,
}

/// An entry of a listing.
#[derive(Debug, Clone, PartialEq, Eq)]
pub struct FileInfo {
    /// The name of the entry in its directory.
    pub name: String,
    /// The path of the entry from the root.
    pub path: String,
    /// Whether the entry is a directory.
    pub is_dir: bool,
    /// The size of the entry in bytes.
    pub size: u64,
}

impl View for RawEntry {
    type V = RawView;

    open spec fn view(&self) -> RawView {
        RawView { name: self.name@, is_dir: self.is_dir, size: self.size }
    }
}

impl View for FileInfo {
    type V = EntryView;

    open spec fn view(&self) -> EntryView {
        EntryView { name: self.name@, path: self.path@, is_dir: self.is_dir, size: self.size }
    }
}

/// The views of raw entries.
pub open spec fn raws_view(raws: Seq<RawEntry>) -> Seq<RawView> {
    Seq::new(raws.len(), |i: int| raws[i]@)
}

/// The views of entries.
pub open spec fn entries_view(entries: Seq<FileInfo>) -> Seq<EntryView> {
    Seq::new(entries.len(), |i: int| entries[i]@)
}

/// Whether a listing leaves the name out: names that start with a dot, and
/// the directories of dependencies and of build output.
pub open spec fn is_left_out(name: Seq<char>) -> bool {
    (name.len() > 0 && name[0] == '.') || name == "node_modules"@ || name == "target"@
}

/// Whether the name `a` comes before the name `b`: at the first place where
/// they differ `a` has the lesser character, or `a` ends there and `b` does
/// not.
pub open spec fn name_before(a: Seq<char>, b: Seq<char>) -> bool
    decreases a.len(),
{
    if b.len() == 0 {
        false
    } else if a.len() == 0 {
        true
    } else if a[0] != b[0] {
        a[0] < b[0]
    } else {
        name_before(a.drop_first(), b.drop_first())
    }
}

/// Whether the entry `a` comes before the entry `b`: a directory before a
/// file, and within a kind by name.
pub open spec fn comes_before(a: EntryView, b: EntryView) -> bool {
    (a.is_dir && !b.is_dir) || (a.is_dir == b.is_dir && name_before(a.name, b.name))
}

/// Whether no entry of `s` comes before one that stands before it.
pub open spec fn ordered(s: Seq<EntryView>) -> bool {
    forall|i: int, j: int| 0 <= i < j < s.len() ==> !comes_before(#[trigger] s[j], #[trigger] s[i])
}

/// Where `e` goes into `s`: before the first entry that `e` comes before.
pub open spec fn insert_position(s: Seq<EntryView>, e: EntryView) -> nat
    decreases s.len(),
{
    if s.len() == 0 || comes_before(e, s[0]) {
        0
    } else {
        1 + insert_position(s.drop_first(), e)
    }
}

/// The entry of the listing of the directory `dir` for the raw entry `raw`.
pub open spec fn entry_for(dir: Seq<char>, raw: RawView) -> EntryView {
    EntryView {
        name: raw.name,
        path: joined_path(dir, raw.name),
        is_dir: raw.is_dir,
        size: raw.size,
    }
}

/// The entries for the raw entries that are not left out, in their order.
pub open spec fn visible(dir: Seq<char>, raws: Seq<RawView>) -> Seq<EntryView>
    decreases raws.len(),
{
    if raws.len() == 0 {
        Seq::empty()
    } else if is_left_out(raws.last().name) {
        visible(dir, raws.drop_last())
    } else {
        visible(dir, raws.drop_last()).push(entry_for(dir, raws.last()))
    }
}

/// The listing of the directory `dir` with the raw entries `raws`: the
/// entries that are not left out, each put where it belongs among those
/// before it. Entries of one kind and name keep the order they came in.
pub open spec fn listing_of(dir: Seq<char>, raws: Seq<RawView>) -> Seq<EntryView>
    decreases raws.len(),
{
    if raws.len() == 0 {
        Seq::empty()
    } else {
        let head = listing_of(dir, raws.drop_last());
        if is_left_out(raws.last().name) {
            head
        } else {
            let e = entry_for(dir, raws.last());
            head.insert(insert_position(head, e) as int, e)
        }
    }
}

/// The lines that are not empty, in their order.
pub open spec fn filled(lines: Seq<Seq<char>>) -> Seq<Seq<char>>
    decreases lines.len(),
{
    if lines.len() == 0 {
        Seq::empty()
    } else if lines.last().len() == 0 {
        filled(lines.drop_last())
    } else {
        filled(lines.drop_last()).push(lines.last())
    }
}

/// The entry for a file that a scan found. `resolved` is its resolved path
/// and `size` its size, where they could be had. There is an entry where
/// both could, the path lies within `base`, and it has a file name.
pub open spec fn found_entry(resolved: Option<Seq<char>>, base: Seq<char>, size: Option<u64>) -> Option<
    EntryView,
> {
    if resolved is Some && size is Some && below(base, resolved->0) is Some && file_name_of(
        resolved->0,
    ) is Some {
        Some(
            EntryView {
                name: file_name_of(resolved->0)->0,
                path: below(base, resolved->0)->0,
                is_dir: false,
                size: size->0,
            },
        )
    } else {
        None
    }
}

/// No name comes before itself.
pub proof fn lemma_name_before_irreflexive(a: Seq<char>)
    ensures
        !name_before(a, a),
    decreases a.len(),
{
    if a.len() > 0 {
        lemma_name_before_irreflexive(a.drop_first());
    }
}

/// A name that comes before a second, which comes before a third, comes
/// before the third.
pub proof fn lemma_name_before_transitive(a: Seq<char>, b: Seq<char>, c: Seq<char>)
    requires
        name_before(a, b),
        name_before(b, c),
    ensures
        name_before(a, c),
    decreases a.len(),
{
    if a.len() > 0 && a[0] == b[0] && b[0] == c[0] {
        lemma_name_before_transitive(a.drop_first(), b.drop_first(), c.drop_first());
    }
}

/// Of two different names one comes before the other.
pub proof fn lemma_name_before_total(a: Seq<char>, b: Seq<char>)
    requires
        a != b,
    ensures
        name_before(a, b) || name_before(b, a),
    decreases a.len(),
{
    if a.len() > 0 && b.len() > 0 && a[0] == b[0] {
        if a.drop_first() == b.drop_first() {
            assert(a =~= seq![a[0]] + a.drop_first());
            assert(b =~= seq![b[0]] + b.drop_first());
        }
        lemma_name_before_total(a.drop_first(), b.drop_first());
    } else if a.len() == 0 && b.len() == 0 {
        assert(a =~= b);
    }
}

/// The order of entries is transitive.
pub proof fn lemma_comes_before_transitive(a: EntryView, b: EntryView, c: EntryView)
    requires
        comes_before(a, b),
        comes_before(b, c),
    ensures
        comes_before(a, c),
{
    if a.is_dir == b.is_dir && b.is_dir == c.is_dir {
        lemma_name_before_transitive(a.name, b.name, c.name);
    }
}

/// What the insert position promises: it is a position of `s`, `e` comes
/// before none of the entries in front of it, and before the entry at it.
pub proof fn lemma_insert_position(s: Seq<EntryView>, e: EntryView)
    ensures
        insert_position(s, e) <= s.len(),
        forall|i: int| 0 <= i < insert_position(s, e) ==> !comes_before(e, #[trigger] s[i]),
        insert_position(s, e) < s.len() ==> comes_before(e, s[insert_position(s, e) as int]),
    decreases s.len(),
{
    if s.len() > 0 && !comes_before(e, s[0]) {
        let rest = s.drop_first();
        lemma_insert_position(rest, e);
        assert forall|i: int| 0 <= i < insert_position(s, e) implies !comes_before(
            e,
            #[trigger] s[i],
        ) by {
            if i > 0 {
                assert(s[i] == rest[i - 1]);
            }
        }
    }
}

/// An ordered listing stays ordered when an entry goes in at its position.
pub proof fn lemma_insert_keeps_order(s: Seq<EntryView>, e: EntryView)
    requires
        ordered(s),
    ensures
        ordered(s.insert(insert_position(s, e) as int, e)),
{
    let p = insert_position(s, e) as int;
    lemma_insert_position(s, e);
    let t = s.insert(p, e);
    assert forall|i: int, j: int| 0 <= i < j < t.len() implies !comes_before(
        #[trigger] t[j],
        #[trigger] t[i],
    ) by {
        if i == p {
            let x = s[j - 1];
            assert(t[j] == x);
            if comes_before(x, e) {
                lemma_comes_before_transitive(x, e, s[p]);
                lemma_name_before_irreflexive(x.name);
                if j - 1 > p {
                    assert(!comes_before(s[j - 1], s[p]));
                }
            }
        } else if j == p {
            assert(t[i] == s[i]);
        } else {
            let i0 = if i < p {
                i
            } else {
                i - 1
            };
            let j0 = if j < p {
                j
            } else {
                j - 1
            };
            assert(t[i] == s[i0]);
            assert(t[j] == s[j0]);
            assert(!comes_before(s[j0], s[i0]));
        }
    }
}

/// A listing is ordered: no entry comes before one that stands before it.
pub proof fn lemma_listing_ordered(dir: Seq<char>, raws: Seq<RawView>)
    ensures
        ordered(listing_of(dir, raws)),
    decreases raws.len(),
{
    if raws.len() > 0 {
        lemma_listing_ordered(dir, raws.drop_last());
        if !is_left_out(raws.last().name) {
            lemma_insert_keeps_order(
                listing_of(dir, raws.drop_last()),
                entry_for(dir, raws.last()),
            );
        }
    }
}

/// In a listing all directories stand before all files, and of two entries
/// of one kind with different names the one with the lesser name stands
/// first.
pub proof fn lemma_listing_groups(dir: Seq<char>, raws: Seq<RawView>, i: int, j: int)
    requires
        0 <= i < j < listing_of(dir, raws).len(),
    ensures
        listing_of(dir, raws)[j].is_dir ==> listing_of(dir, raws)[i].is_dir,
        listing_of(dir, raws)[i].is_dir == listing_of(dir, raws)[j].is_dir && listing_of(
            dir,
            raws,
        )[i].name != listing_of(dir, raws)[j].name ==> name_before(
            listing_of(dir, raws)[i].name,
            listing_of(dir, raws)[j].name,
        ),
{
    let l = listing_of(dir, raws);
    lemma_listing_ordered(dir, raws);
    assert(!comes_before(l[j], l[i]));
    if l[i].name != l[j].name {
        lemma_name_before_total(l[i].name, l[j].name);
    }
}

/// Every entry of a listing stands for one of the raw entries, which is not
/// left out, and has its path below the listed directory.
pub proof fn lemma_listing_entries(dir: Seq<char>, raws: Seq<RawView>, i: int)
    requires
        0 <= i < listing_of(dir, raws).len(),
    ensures
        !is_left_out(listing_of(dir, raws)[i].name),
        listing_of(dir, raws)[i].path == joined_path(dir, listing_of(dir, raws)[i].name),
        exists|k: int| 0 <= k < raws.len() && listing_of(dir, raws)[i] == entry_for(dir, #[trigger] raws[k]),
    decreases raws.len(),
{
    let head = listing_of(dir, raws.drop_last());
    if is_left_out(raws.last().name) {
        lemma_listing_entries(dir, raws.drop_last(), i);
        let k = choose|k: int|
            0 <= k < raws.drop_last().len() && head[i] == entry_for(
                dir,
                #[trigger] raws.drop_last()[k],
            );
        assert(raws[k] == raws.drop_last()[k]);
    } else {
        let e = entry_for(dir, raws.last());
        let p = insert_position(head, e) as int;
        lemma_insert_position(head, e);
        if i == p {
            assert(raws[raws.len() - 1] == raws.last());
        } else {
            let i0 = if i < p {
                i
            } else {
                i - 1
            };
            lemma_listing_entries(dir, raws.drop_last(), i0);
            let k = choose|k: int|
                0 <= k < raws.drop_last().len() && head[i0] == entry_for(
                    dir,
                    #[trigger] raws.drop_last()[k],
                );
            assert(raws[k] == raws.drop_last()[k]);
        }
    }
}

/// A listing holds the entries that are not left out, each as often as it
/// was given, and no others.
pub proof fn lemma_listing_holds_visible(dir: Seq<char>, raws: Seq<RawView>)
    ensures
        listing_of(dir, raws).to_multiset() == visible(dir, raws).to_multiset(),
    decreases raws.len(),
{
    if raws.len() > 0 {
        lemma_listing_holds_visible(dir, raws.drop_last());
        if !is_left_out(raws.last().name) {
            let head = listing_of(dir, raws.drop_last());
            let e = entry_for(dir, raws.last());
            lemma_insert_position(head, e);
            vstd::seq_lib::to_multiset_insert(head, insert_position(head, e) as int, e);
            vstd::seq_lib::to_multiset_build(visible(dir, raws.drop_last()), e);
        }
    }
}

/// Whether the name `a` comes before the name `b`.
pub fn name_comes_before(a: &Vec<char>, b: &Vec<char>) -> (before: bool)
    ensures
        before == name_before(a@, b@),
{
    let mut i: usize = 0;
    proof {
        assert(a@.skip(0) =~= a@);
        assert(b@.skip(0) =~= b@);
    }
    while i < a.len() && i < b.len() && a[i] == b[i]
        invariant
            i <= a.len(),
            i <= b.len(),
            name_before(a@, b@) == name_before(a@.skip(i as int), b@.skip(i as int)),
        decreases a.len() - i,
    {
        proof {
            assert(a@.skip(i as int).drop_first() =~= a@.skip(i + 1));
            assert(b@.skip(i as int).drop_first() =~= b@.skip(i + 1));
        }
        i += 1;
    }
    if i >= b.len() {
        false
    } else if i >= a.len() {
        true
    } else {
        a[i] < b[i]
    }
}

/// Whether a listing leaves the name out.
pub fn leaves_out(name: &Vec<char>) -> (out: bool)
    ensures
        out == is_left_out(name@),
{
    if name.len() > 0 && name[0] == '.' {
        return true;
    }
    let deps = chars_of("node_modules");
    let build = chars_of("target");
    same_chars(name, &deps) || same_chars(name, &build)
}

/// The listing of the directory `dir`, given the entries that the directory
/// holds: without those that a listing leaves out, directories first, each
/// group ordered by name, each entry with its path below `dir`.
pub fn parse_listing(raws: &Vec<RawEntry>, dir: &str) -> (entries: Vec<FileInfo>)
    ensures
        entries_view(entries@) == listing_of(dir@, raws_view(raws@)),
        ordered(entries_view(entries@)),
{
    let ghost all = raws_view(raws@);
    let mut out: Vec<FileInfo> = Vec::new();
    let mut i: usize = 0;
    proof {
        assert(all.take(0) =~= Seq::<RawView>::empty());
        assert(entries_view(out@) =~= listing_of(dir@, all.take(0)));
    }
    while i < raws.len()
        invariant
            i <= raws.len(),
            all == raws_view(raws@),
            entries_view(out@) == listing_of(dir@, all.take(i as int)),
        decreases raws.len() - i,
    {
        let raw = &raws[i];
        let name = chars_of(raw.name.as_str());
        proof {
            let next = all.take(i + 1);
            assert(next.drop_last() =~= all.take(i as int));
            assert(next.last() == raw@);
        }
        if !leaves_out(&name) {
            let ghost head = entries_view(out@);
            let ghost e = entry_for(dir@, raw@);
            let mut p: usize = 0;
            proof {
                assert(head.skip(0) =~= head);
            }
            while p < out.len() && !(raw.is_dir && !out[p].is_dir) && !(raw.is_dir == out[p].is_dir
                && name_comes_before(&name, &chars_of(out[p].name.as_str())))
                invariant
                    p <= out.len(),
                    head == entries_view(out@),
                    e.name == name@,
                    e.is_dir == raw.is_dir,
                    insert_position(head, e) == p + insert_position(head.skip(p as int), e),
                decreases out.len() - p,
            {
                proof {
                    assert(head.skip(p as int)[0] == out@[p as int]@);
                    assert(head.skip(p as int).drop_first() =~= head.skip(p + 1));
                }
                p += 1;
            }
            proof {
                if p < out.len() {
                    assert(head.skip(p as int)[0] == out@[p as int]@);
                }
            }
            let info = FileInfo {
                name: string_of(&name),
                path: join_path(dir, raw.name.as_str()),
                is_dir: raw.is_dir,
                size: raw.size,
            };
            out.insert(p, info);
            proof {
                assert(entries_view(out@) =~= head.insert(p as int, e));
            }
        }
        i += 1;
    }
    proof {
        assert(all.take(all.len() as int) =~= all);
        lemma_listing_ordered(dir@, all);
    }
    out
}

/// The paths that a scan for files printed: the lines of its output that
/// are not empty, in their order.
pub fn glob_lines(raw: &str) -> (paths: Vec<String>)
    ensures
        texts_view(paths@) == filled(lines_of(raw@)),
{
    let lines = split_lines(&chars_of(raw));
    let ghost all = lines_of(raw@);
    let mut out: Vec<String> = Vec::new();
    let mut i: usize = 0;
    proof {
        assert(all.take(0) =~= Seq::<Seq<char>>::empty());
        assert(texts_view(out@) =~= filled(all.take(0)));
    }
    while i < lines.len()
        invariant
            i <= lines.len(),
            rows_view(lines@) == all,
            texts_view(out@) == filled(all.take(i as int)),
        decreases lines.len() - i,
    {
        let ghost before = texts_view(out@);
        proof {
            let next = all.take(i + 1);
            assert(next.drop_last() =~= all.take(i as int));
            assert(next.last() == lines@[i as int]@);
        }
        if lines[i].len() > 0 {
            out.push(string_of(&lines[i]));
            proof {
                assert(texts_view(out@) =~= before.push(lines@[i as int]@));
            }
        }
        i += 1;
    }
    proof {
        assert(all.take(all.len() as int) =~= all);
    }
    out
}

/// The entry for a file that a scan found, or none where the file is to be
/// left out of the result. `resolved` is the file's resolved path and `size`
/// its size, each where it could be had.
pub fn glob_entry(resolved: Option<&str>, base: &str, size: Option<u64>) -> (entry: Option<FileInfo>)
    ensures
        match entry {
            Some(e) => found_entry(
                match resolved {
                    Some(r) => Some(r@),
                    None => None,
                },
                base@,
                size,
            ) == Some(e@),
            None => found_entry(
                match resolved {
                    Some(r) => Some(r@),
                    None => None,
                },
                base@,
                size,
            ) is None,
        },
{
    let full = match resolved {
        Some(r) => r,
        None => {
            return None;
        },
    };
    let path = match strip_base(base, full) {
        Some(rel) => rel,
        None => {
            return None;
        },
    };
    let bytes = match size {
        Some(s) => s,
        None => {
            return None;
        },
    };
    match file_name(full) {
        Some(name) => Some(FileInfo { name, path, is_dir: false, size: bytes }),
        None => None,
    }
}

} // verus!
