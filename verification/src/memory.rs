//! Project memory files: `<project-dir>/memory/*.md`, where the project dir
//! is the one holding the session's transcript.
//!
//! The caller walks and reads the folders; this module orders the files,
//! decides which paths may be deleted, and rewrites the `MEMORY.md` index
//! after a deletion.
use vstd::prelude::*;

use crate::paths::{extension_of, file_name_of, parent_of, path_starts_with, spec_extension,
    spec_file_name, spec_parent, spec_path_starts_with};
use crate::text::{
    append_chars, char_lt, chars_lt, chars_of, contains, contains_chars, join_lines,
    lemma_char_lt_asymmetric, lemma_char_lt_irreflexive, lemma_char_lt_total,
    lemma_char_lt_transitive, lines_of, split_lines, str_eq, string_of, views,
};

verus! {

/// One memory file of a project, as shown in the panel.
pub struct MemoryFile {
    /// Project folder name (encoded), used to group the display.
    pub project: String,
    pub name: String,
    pub path: String,
    pub content: String,
}

/// The link target that names a file in an index line: `(<name>)`.
pub open spec fn link_target(name: Seq<char>) -> Seq<char> {
    seq!['('] + name + seq![')']
}

/// The lines of `ls` that do not contain `t`, in order.
pub open spec fn lines_without(ls: Seq<Seq<char>>, t: Seq<char>) -> Seq<Seq<char>>
    decreases ls.len(),
{
    if ls.len() == 0 {
        seq![]
    } else {
        let p = lines_without(ls.drop_last(), t);
        if contains(ls.last(), t) {
            p
        } else {
            p.push(ls.last())
        }
    }
}

/// The index text without the lines linking to `name`: the remaining lines
/// joined by `\n`, with a final `\n`.
pub open spec fn dropped_index(index: Seq<char>, name: Seq<char>) -> Seq<char> {
    join_lines(lines_without(lines_of(index), link_target(name))) + seq!['\n']
}

/// Removes from a `MEMORY.md` index the lines whose markdown link targets
/// the deleted file — the lines containing `(<name>)`, the link-target part
/// of `- [Title](<name>) — hook`. A plain mention of the name, or a longer
/// name ending in it, is not a link to it and stays.
pub fn drop_index_lines(index: &str, name: &str) -> (r: String)
    ensures
        r@ == dropped_index(index@, name@),
{
    let text = chars_of(index);
    let ls = split_lines(text.as_slice());
    let mut target: Vec<char> = Vec::new();
    target.push('(');
    let nc = chars_of(name);
    append_chars(&mut target, nc.as_slice());
    target.push(')');
    assert(target@ =~= link_target(name@));
    let ghost t = target@;
    let mut kept: Vec<Vec<char>> = Vec::new();
    let mut k: usize = 0;
    assert(views(ls@).take(0) =~= Seq::<Seq<char>>::empty());
    while k < ls.len()
        invariant
            k <= ls@.len(),
            views(ls@) == lines_of(index@),
            target@ == t,
            t == link_target(name@),
            views(kept@) == lines_without(views(ls@).take(k as int), t),
        decreases ls@.len() - k,
    {
        assert(views(ls@).take(k + 1).drop_last() =~= views(ls@).take(k as int));
        assert(views(ls@).take(k + 1).last() == ls@[k as int]@);
        if !contains_chars(ls[k].as_slice(), target.as_slice()) {
            let ghost before = views(kept@);
            let line = crate::text::sub_chars(ls[k].as_slice(), 0, ls[k].len());
            assert(line@ =~= ls@[k as int]@);
            kept.push(line);
            assert(views(kept@) =~= before.push(ls@[k as int]@));
        }
        k = k + 1;
    }
    assert(views(ls@).take(ls@.len() as int) =~= views(ls@));
    let mut out: Vec<char> = Vec::new();
    let mut j: usize = 0;
    assert(views(kept@).take(0) =~= Seq::<Seq<char>>::empty());
    while j < kept.len()
        invariant
            j <= kept@.len(),
            out@ == join_lines(views(kept@).take(j as int)),
        decreases kept@.len() - j,
    {
        let ghost before = out@;
        assert(views(kept@).take(j + 1).drop_last() =~= views(kept@).take(j as int));
        assert(views(kept@).take(j + 1).last() == kept@[j as int]@);
        if j > 0 {
            out.push('\n');
        }
        append_chars(&mut out, kept[j].as_slice());
        if j == 0 {
            assert(views(kept@).take(1) =~= seq![kept@[0]@]);
            assert(out@ =~= kept@[0]@);
        } else {
            assert(out@ =~= before + seq!['\n'] + kept@[j as int]@);
        }
        j = j + 1;
    }
    assert(views(kept@).take(kept@.len() as int) =~= views(kept@));
    out.push('\n');
    string_of(out.as_slice())
}

/// The name a memory file sorts by: its file name (empty when it has none).
pub open spec fn mem_name(p: Seq<char>) -> Seq<char> {
    match spec_file_name(p) {
        Some(n) => n,
        None => seq![],
    }
}

/// The sort names of a list of paths.
pub open spec fn mem_names(paths: Seq<String>) -> Seq<Seq<char>> {
    paths.map_values(|p: String| mem_name(p@))
}

/// Name `a` sorts before name `b`: `MEMORY.md` first, then alphabetical.
pub open spec fn mem_key_lt(a: Seq<char>, b: Seq<char>) -> bool {
    (a == "MEMORY.md"@ && b != "MEMORY.md"@) || ((a == "MEMORY.md"@) == (b == "MEMORY.md"@)
        && char_lt(a, b))
}

/// File `i` is listed before file `j`: by name, then in the given order.
pub open spec fn mem_before(names: Seq<Seq<char>>, i: int, j: int) -> bool {
    mem_key_lt(names[i], names[j]) || (names[i] == names[j] && i < j)
}

proof fn lemma_mem_before_order(names: Seq<Seq<char>>, a: int, b: int, c: int)
    ensures
        !mem_before(names, a, a),
        mem_before(names, a, b) ==> !mem_before(names, b, a),
        a != b ==> mem_before(names, a, b) || mem_before(names, b, a),
        mem_before(names, a, b) && mem_before(names, b, c) ==> mem_before(names, a, c),
{
    lemma_char_lt_irreflexive(names[a]);
    lemma_char_lt_irreflexive(names[b]);
    if names[a] != names[b] {
        lemma_char_lt_total(names[a], names[b]);
    }
    if char_lt(names[a], names[b]) {
        lemma_char_lt_asymmetric(names[a], names[b]);
    }
    if char_lt(names[a], names[b]) && char_lt(names[b], names[c]) {
        lemma_char_lt_transitive(names[a], names[b], names[c]);
    }
}

proof fn lemma_mem_insert_sorted(names: Seq<Seq<char>>, out: Seq<usize>, p: int, x: usize)
    requires
        0 <= p <= out.len(),
        forall|q: int| 0 <= q < out.len() ==> #[trigger] out[q] != x,
        forall|a: int, b: int|
            0 <= a < b < out.len() ==> mem_before(names, #[trigger] out[a] as int, #[trigger] out[b] as int),
        forall|q: int| 0 <= q < p ==> !mem_before(names, x as int, #[trigger] out[q] as int),
        p < out.len() ==> mem_before(names, x as int, out[p] as int),
    ensures
        forall|a: int, b: int|
            0 <= a < b < out.insert(p, x).len() ==> mem_before(
                names,
                #[trigger] out.insert(p, x)[a] as int,
                #[trigger] out.insert(p, x)[b] as int,
            ),
{
    out.insert_ensures(p, x);
    let n = out.insert(p, x);
    assert forall|a: int, b: int| 0 <= a < b < n.len() implies mem_before(
        names,
        #[trigger] n[a] as int,
        #[trigger] n[b] as int,
    ) by {
        if b < p {
            assert(n[a] == out[a] && n[b] == out[b]);
        } else if b == p {
            assert(n[a] == out[a]);
            lemma_mem_before_order(names, x as int, out[a] as int, x as int);
        } else if a > p {
            assert(n[a] == out[a - 1] && n[b] == out[b - 1]);
        } else if a == p {
            assert(n[b] == out[b - 1]);
            if b - 1 > p {
                assert(mem_before(names, out[p] as int, out[b - 1] as int));
                lemma_mem_before_order(names, x as int, out[p] as int, out[b - 1] as int);
            }
        } else {
            assert(n[a] == out[a] && n[b] == out[b - 1]);
        }
    }
}

/// In the display order the index comes first: nothing but another
/// `MEMORY.md` is listed before a `MEMORY.md`, and any other file listed
/// before a file sorts before it alphabetically (or has the same name).
pub proof fn lemma_index_listed_first(names: Seq<Seq<char>>, order: Seq<usize>, j: int, k: int)
    requires
        forall|a: int, b: int|
            0 <= a < b < order.len() ==> mem_before(names, #[trigger] order[a] as int, #[trigger] order[b] as int),
        0 <= j < k < order.len(),
    ensures
        names[order[k] as int] == "MEMORY.md"@ ==> names[order[j] as int] == "MEMORY.md"@,
        names[order[j] as int] != "MEMORY.md"@ ==> char_lt(names[order[j] as int], names[order[k] as int])
            || names[order[j] as int] == names[order[k] as int],
{
    assert(mem_before(names, order[j] as int, order[k] as int));
}

fn is_memory_index(n: &Vec<char>) -> (b: bool)
    ensures
        b == (n@ == "MEMORY.md"@),
{
    let m = chars_of("MEMORY.md");
    crate::text::chars_eq(n.as_slice(), m.as_slice())
}

fn before_exec(keys: &Vec<Vec<char>>, flags: &Vec<bool>, a: usize, b: usize, Ghost(names): Ghost<Seq<Seq<char>>>) -> (r: bool)
    requires
        a < keys@.len(),
        b < keys@.len(),
        keys@.len() == flags@.len(),
        keys@.len() == names.len(),
        forall|t: int| 0 <= t < keys@.len() ==> (#[trigger] keys@[t])@ == names[t],
        forall|t: int| 0 <= t < keys@.len() ==> #[trigger] flags@[t] == (names[t] == "MEMORY.md"@),
    ensures
        r == mem_before(names, a as int, b as int),
{
    let fa = flags[a];
    let fb = flags[b];
    (fa && !fb) || (fa == fb && chars_lt(keys[a].as_slice(), keys[b].as_slice())) || (a < b
        && crate::text::chars_eq(keys[a].as_slice(), keys[b].as_slice()))
}

/// Display order of a project's memory files: `MEMORY.md` first, then
/// alphabetical by file name; files of equal name keep their given order.
/// Returns the indices of `paths` in that order.
pub fn memory_order(paths: &[String]) -> (r: Vec<usize>)
    ensures
        r@.len() == paths@.len(),
        forall|k: int| 0 <= k < r@.len() ==> #[trigger] r@[k] < paths@.len(),
        forall|i: usize| i < paths@.len() ==> #[trigger] r@.contains(i),
        forall|k: int, l: int|
            0 <= k < l < r@.len() ==> mem_before(
                mem_names(paths@),
                #[trigger] r@[k] as int,
                #[trigger] r@[l] as int,
            ),
{
    let ghost names = mem_names(paths@);
    let mut keys: Vec<Vec<char>> = Vec::new();
    let mut flags: Vec<bool> = Vec::new();
    let mut i: usize = 0;
    while i < paths.len()
        invariant
            i <= paths@.len(),
            names == mem_names(paths@),
            keys@.len() == i,
            flags@.len() == i,
            forall|t: int| 0 <= t < i ==> (#[trigger] keys@[t])@ == names[t],
            forall|t: int| 0 <= t < i ==> #[trigger] flags@[t] == (names[t] == "MEMORY.md"@),
        decreases paths@.len() - i,
    {
        let n: Vec<char> = match file_name_of(paths[i].as_str()) {
            Some(f) => chars_of(f.as_str()),
            None => Vec::new(),
        };
        assert(n@ =~= names[i as int]);
        let f = is_memory_index(&n);
        keys.push(n);
        flags.push(f);
        i = i + 1;
    }
    let mut out: Vec<usize> = Vec::new();
    let mut k: usize = 0;
    while k < paths.len()
        invariant
            k <= paths@.len(),
            names == mem_names(paths@),
            names.len() == paths@.len(),
            keys@.len() == paths@.len(),
            flags@.len() == paths@.len(),
            forall|t: int| 0 <= t < paths@.len() ==> (#[trigger] keys@[t])@ == names[t],
            forall|t: int| 0 <= t < paths@.len() ==> #[trigger] flags@[t] == (names[t] == "MEMORY.md"@),
            out@.len() == k,
            forall|q: int| 0 <= q < out@.len() ==> #[trigger] out@[q] < k,
            forall|t: usize| t < k ==> #[trigger] out@.contains(t),
            forall|a: int, b: int|
                0 <= a < b < out@.len() ==> mem_before(names, #[trigger] out@[a] as int, #[trigger] out@[b] as int),
        decreases paths@.len() - k,
    {
        let mut p: usize = 0;
        while p < out.len() && !before_exec(&keys, &flags, k, out[p], Ghost(names))
            invariant
                p <= out@.len(),
                k < paths@.len(),
                names.len() == paths@.len(),
                keys@.len() == paths@.len(),
                flags@.len() == paths@.len(),
                forall|t: int| 0 <= t < paths@.len() ==> (#[trigger] keys@[t])@ == names[t],
                forall|t: int| 0 <= t < paths@.len() ==> #[trigger] flags@[t] == (names[t] == "MEMORY.md"@),
                forall|q: int| 0 <= q < out@.len() ==> #[trigger] out@[q] < k,
                forall|q: int| 0 <= q < p ==> !mem_before(names, k as int, #[trigger] out@[q] as int),
            decreases out@.len() - p,
        {
            p = p + 1;
        }
        let ghost old_out = out@;
        proof {
            lemma_mem_insert_sorted(names, old_out, p as int, k);
        }
        out.insert(p, k);
        proof {
            assert forall|t: usize| t < k + 1 implies #[trigger] out@.contains(t) by {
                crate::context::lemma_insert_contains(old_out, p as int, k, t);
            }
            old_out.insert_ensures(p as int, k);
            assert forall|q: int| 0 <= q < out@.len() implies #[trigger] out@[q] < k + 1 by {
                if q < p {
                    assert(out@[q] == old_out[q]);
                } else if q > p {
                    assert(out@[q] == old_out[q - 1]);
                }
            }
        }
        k = k + 1;
    }
    out
}

/// Whether a path names a markdown file (`.md` extension).
pub fn is_md_file(path: &str) -> (b: bool)
    ensures
        b == (spec_extension(path@) == Some("md"@)),
{
    match extension_of(path) {
        Some(e) => str_eq(e.as_str(), "md"),
        None => false,
    }
}

/// Whether a memory file's resolved path stays inside the (resolved) memory
/// folder: symbolic links pointing elsewhere are not followed.
pub fn stays_in_dir(canon: &str, canon_dir: &str) -> (b: bool)
    ensures
        b == spec_path_starts_with(canon@, canon_dir@),
{
    path_starts_with(canon, canon_dir)
}

/// Why a memory file could not be deleted.
pub enum DeleteError {
    /// The path does not resolve to an existing file.
    NotFound,
    /// The file is not a `.md` file.
    NotMemoryFile,
    /// There is no home directory.
    NoHome,
    /// The projects folder does not resolve.
    ProjectsDirNotFound,
    /// The path has no parent folder or no file name.
    InvalidPath,
    /// The file is not in a `memory` folder under the projects folder.
    OutsideMemory,
    /// Removing the file failed, with the system's message.
    Failed(String),
}

/// The message shown for a deletion error.
pub open spec fn delete_message(e: DeleteError) -> Seq<char> {
    match e {
        DeleteError::NotFound => "file not found"@,
        DeleteError::NotMemoryFile => "not a memory file"@,
        DeleteError::NoHome => "no home directory"@,
        DeleteError::ProjectsDirNotFound => "projects dir not found"@,
        DeleteError::InvalidPath => "invalid path"@,
        DeleteError::OutsideMemory => "path is outside the memory directories"@,
        DeleteError::Failed(m) => "delete failed: "@ + m@,
    }
}

impl DeleteError {
    /// The message shown for this error.
    pub fn message(&self) -> (r: String)
        ensures
            r@ == delete_message(*self),
    {
        match self {
            DeleteError::NotFound => String::from_str("file not found"),
            DeleteError::NotMemoryFile => String::from_str("not a memory file"),
            DeleteError::NoHome => String::from_str("no home directory"),
            DeleteError::ProjectsDirNotFound => String::from_str("projects dir not found"),
            DeleteError::InvalidPath => String::from_str("invalid path"),
            DeleteError::OutsideMemory => String::from_str(
                "path is outside the memory directories",
            ),
            DeleteError::Failed(m) => String::from_str("delete failed: ").concat(m.as_str()),
        }
    }
}

/// The outcome of checking a resolved path `canon` against the resolved
/// projects folder `root`: the file's name when it may be deleted.
pub open spec fn delete_check(canon: Seq<char>, root: Seq<char>) -> Result<Seq<char>, DeleteError> {
    match spec_parent(canon) {
        None => Err(DeleteError::InvalidPath),
        Some(parent) => if !spec_path_starts_with(canon, root) || spec_file_name(parent) != Some(
            "memory"@,
        ) {
            Err(DeleteError::OutsideMemory)
        } else {
            match spec_file_name(canon) {
                Some(n) => Ok(n),
                None => Err(DeleteError::InvalidPath),
            }
        },
    }
}

/// Checks that a resolved `.md` path lies in a `memory` folder under the
/// resolved projects folder `root`; gives the file's name.
pub fn check_memory_delete(canon: &str, root: &str) -> (r: Result<String, DeleteError>)
    ensures
        match (r, delete_check(canon@, root@)) {
            (Ok(n), Ok(m)) => n@ == m,
            (Err(DeleteError::InvalidPath), Err(DeleteError::InvalidPath)) => true,
            (Err(DeleteError::OutsideMemory), Err(DeleteError::OutsideMemory)) => true,
            _ => false,
        },
{
    match parent_of(canon) {
        None => Err(DeleteError::InvalidPath),
        Some(parent) => {
            let in_memory = match file_name_of(parent.as_str()) {
                Some(n) => str_eq(n.as_str(), "memory"),
                None => false,
            };
            if !path_starts_with(canon, root) || !in_memory {
                Err(DeleteError::OutsideMemory)
            } else {
                match file_name_of(canon) {
                    Some(n) => Ok(n),
                    None => Err(DeleteError::InvalidPath),
                }
            }
        },
    }
}

/// Whether deleting the file named `name` calls for rewriting the index
/// next to it: always, except for the index itself.
pub fn updates_index(name: &str) -> (b: bool)
    ensures
        b == (name@ != "MEMORY.md"@),
{
    !str_eq(name, "MEMORY.md")
}

} // verus!
