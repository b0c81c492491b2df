//! Outcomes: classifies each session's quota spend by the fate of its edits.
//!
//! A commit carries every uncommitted change to the files it touches, so for
//! each Edit/Write tool call (file + timestamp) the first commit touching
//! that file afterwards is the one that shipped it. A session is classified
//! by the majority fate of its edits:
//!
//! - edits landed in commits reachable from main, not reverted → shipped
//! - edits in commits not (yet) on main                        → pending
//! - edits whose commits were later reverted                   → reverted
//! - no later commit touches those files                       → abandoned
//! - session outside any git repository                        → non_repo
//!
//! Sessions in a repository but without edits fall back to a coarse temporal
//! rule: commits in `[first_ts, last_ts + 1h]`.
//!
//! Git itself is run by the caller (read-only subcommands only); this module
//! decides which queries to make and reads their output.
use vstd::prelude::*;

use crate::paths::{opt_view, spec_strip_prefix, strip_path_prefix};
use crate::scan::{EditV, SessionSpan, SpanV};
use crate::text::{
    chars_of, find_char, find_from, lemma_split_char_nonempty, lines_of, matches_at, occurs_at,
    chars_eq, parse_i64, parse_i64_spec, split_char, split_chars, split_lines, starts_with, starts_with_chars,
    list_contains, str_eq, str_views, string_of, sub_chars, trim, trim_chars, views,
};

verus! {

/// Margin added before the window when reading git logs, so commits and
/// reverts slightly older than the window are still seen.
pub const LOG_MARGIN_SECS: i64 = 604800;

/// Temporal-fallback margin after a session's last activity.
pub const FALLBACK_MARGIN_SECS: i64 = 3600;

/// What became of an edit (or a session's work).
#[derive(Clone, Copy, PartialEq, Eq, Structural, Debug)]
pub enum Fate {
    Shipped,
    Pending,
    Reverted,
    Abandoned,
}

/// Fates ordered from worst to best: Abandoned < Reverted < Pending < Shipped.
pub open spec fn rank(f: Fate) -> int {
    match f {
        Fate::Abandoned => 0,
        Fate::Reverted => 1,
        Fate::Pending => 2,
        Fate::Shipped => 3,
    }
}

/// One commit of the log: its time, whether it is reachable from the main
/// branch, and whether a later commit reverts it.
#[derive(Clone, Copy, PartialEq, Eq, Structural, Debug)]
pub struct CommitInfo {
    pub ts: i64,
    pub in_main: bool,
    pub reverted: bool,
}

/// The fate of an edit shipped by commit `c`.
pub open spec fn commit_fate(c: CommitInfo) -> Fate {
    if !c.in_main {
        Fate::Pending
    } else if c.reverted {
        Fate::Reverted
    } else {
        Fate::Shipped
    }
}

fn commit_fate_exec(c: CommitInfo) -> (f: Fate)
    ensures
        f == commit_fate(c),
{
    match (c.in_main, c.reverted) {
        (true, true) => Fate::Reverted,
        (true, false) => Fate::Shipped,
        (false, _) => Fate::Pending,
    }
}

/// Whether `c` is an ASCII hexadecimal digit.
pub open spec fn is_hex(c: char) -> bool {
    ('0' <= c && c <= '9') || ('a' <= c && c <= 'f') || ('A' <= c && c <= 'F')
}

/// The hexadecimal digits of `s` from position `i` on, up to the first
/// other character.
pub open spec fn hex_run(s: Seq<char>, i: int) -> Seq<char>
    decreases s.len() - i,
{
    if i < 0 || i >= s.len() || !is_hex(s[i]) {
        seq![]
    } else {
        seq![s[i]] + hex_run(s, i + 1)
    }
}

/// The marker git writes in a revert's message.
pub open spec fn revert_marker() -> Seq<char> {
    "This reverts commit "@
}

/// Revert targets found from position `i` on: after each (non-overlapping)
/// marker, the hexadecimal run that follows it, when at least 7 long.
pub open spec fn targets_from(s: Seq<char>, i: int) -> Seq<Seq<char>>
    decreases s.len() - i,
{
    if i < 0 || i >= s.len() {
        seq![]
    } else if occurs_at(s, revert_marker(), i) && revert_marker().len() > 0 {
        let h = hex_run(s, i + revert_marker().len());
        let rest = targets_from(s, i + revert_marker().len());
        if h.len() >= 7 {
            seq![h] + rest
        } else {
            rest
        }
    } else {
        targets_from(s, i + 1)
    }
}

fn is_hex_exec(c: char) -> (b: bool)
    ensures
        b == is_hex(c),
{
    ('0' <= c && c <= '9') || ('a' <= c && c <= 'f') || ('A' <= c && c <= 'F')
}

fn hex_run_exec(s: &[char], i: usize) -> (r: Vec<char>)
    requires
        i <= s@.len(),
    ensures
        r@ == hex_run(s@, i as int),
{
    let mut j = i;
    let mut out: Vec<char> = Vec::new();
    while j < s.len() && is_hex_exec(s[j])
        invariant
            i <= j <= s@.len(),
            hex_run(s@, i as int) == out@ + hex_run(s@, j as int),
        decreases s@.len() - j,
    {
        out.push(s[j]);
        assert(hex_run(s@, j as int) == seq![s@[j as int]] + hex_run(s@, j + 1));
        assert(out@ + hex_run(s@, j + 1) =~= (out@.drop_last()) + (seq![s@[j as int]] + hex_run(
            s@,
            j + 1,
        )));
        j = j + 1;
    }
    assert(hex_run(s@, j as int) =~= Seq::<char>::empty());
    assert(out@ + Seq::<char>::empty() =~= out@);
    out
}

fn targets_in(s: &[char]) -> (r: Vec<Vec<char>>)
    ensures
        views(r@) == targets_from(s@, 0),
{
    let marker = chars_of("This reverts commit ");
    proof {
        reveal_strlit("This reverts commit ");
    }
    let mlen = marker.len();
    let mut found: Vec<Vec<char>> = Vec::new();
    // Positions are visited left to right; the targets are collected in order.
    let mut i: usize = 0;
    while i < s.len()
        invariant
            marker@ == revert_marker(),
            mlen == marker@.len(),
            mlen == 20,
            i <= s@.len() + mlen,
            views(found@) + targets_from(s@, i as int) == targets_from(s@, 0),
        decreases s@.len() + mlen - i,
    {
        if matches_at(s, marker.as_slice(), i) {
            let h = hex_run_exec(s, i + mlen);
            let ghost before = views(found@);
            if h.len() >= 7 {
                let ghost hv = h@;
                found.push(h);
                assert(views(found@) =~= before.push(hv));
                assert(before.push(hv) + targets_from(s@, i + mlen) =~= before + (seq![hv]
                    + targets_from(s@, i + mlen)));
            }
            i = i + mlen;
        } else {
            i = i + 1;
        }
    }
    assert(targets_from(s@, i as int) =~= Seq::<Seq<char>>::empty());
    assert(views(found@) + Seq::<Seq<char>>::empty() =~= views(found@));
    found
}

/// Extracts the SHAs targeted by "This reverts commit <sha>" lines.
pub fn revert_targets(body: &str) -> (r: Vec<String>)
    ensures
        r@.map_values(|t: String| t@) == targets_from(body@, 0),
{
    let s = chars_of(body);
    let found = targets_in(s.as_slice());
    let mut out: Vec<String> = Vec::new();
    let mut k: usize = 0;
    while k < found.len()
        invariant
            k <= found@.len(),
            out@.map_values(|t: String| t@) == views(found@).take(k as int),
        decreases found@.len() - k,
    {
        let ghost before = out@.map_values(|t: String| t@);
        let st = string_of(found[k].as_slice());
        assert(st@ == views(found@)[k as int]);
        out.push(st);
        assert(out@.map_values(|t: String| t@) =~= before.push(st@));
        assert(views(found@).take(k + 1) =~= views(found@).take(k as int).push(st@));
        k = k + 1;
    }
    assert(views(found@).take(found@.len() as int) =~= views(found@));
    out
}

/// Separator git writes before each commit (`%x1e` in the log format).
pub const COMMIT_SEP: char = '\x1e';

/// Separator between a commit's hash, time and message (`%x1f`).
pub const FIELD_SEP: char = '\x1f';

/// End of a commit's message (`%x1d`); the touched files follow.
pub const BODY_END: char = '\x1d';

/// The `k`-th piece, or nothing when there are fewer pieces.
pub open spec fn seg(parts: Seq<Seq<char>>, k: int) -> Seq<char> {
    if 0 <= k < parts.len() {
        parts[k]
    } else {
        seq![]
    }
}

/// The fields of one commit record.
pub open spec fn fields_of(ch: Seq<char>) -> Seq<Seq<char>> {
    split_char(ch, FIELD_SEP)
}

/// A commit record's hash: its first field, trimmed.
pub open spec fn chunk_sha(ch: Seq<char>) -> Seq<char> {
    trim(seg(fields_of(ch), 0))
}

/// A commit record's time: its second field as an integer, 0 when absent or
/// not a number.
pub open spec fn chunk_ts(ch: Seq<char>) -> i64 {
    match parse_i64_spec(trim(seg(fields_of(ch), 1))) {
        Some(v) => v,
        None => 0,
    }
}

/// A commit record's third field: the message, the body terminator and the
/// touched files.
pub open spec fn chunk_rest(ch: Seq<char>) -> Seq<char> {
    seg(fields_of(ch), 2)
}

/// A commit record's message: its third field up to the body terminator.
pub open spec fn chunk_body(ch: Seq<char>) -> Seq<char> {
    let r = chunk_rest(ch);
    match find_from(r, BODY_END, 0) {
        Some(k) => r.take(k),
        None => r,
    }
}

/// The trimmed, non-empty lines among `ls`, in order.
pub open spec fn kept_lines(ls: Seq<Seq<char>>) -> Seq<Seq<char>>
    decreases ls.len(),
{
    if ls.len() == 0 {
        seq![]
    } else {
        let p = kept_lines(ls.drop_last());
        let t = trim(ls.last());
        if t.len() > 0 {
            p.push(t)
        } else {
            p
        }
    }
}

/// The files a commit record lists after its body terminator.
pub open spec fn chunk_files(ch: Seq<char>) -> Seq<Seq<char>> {
    let r = chunk_rest(ch);
    match find_from(r, BODY_END, 0) {
        Some(k) => kept_lines(lines_of(r.skip(k + 1))),
        None => seq![],
    }
}

/// The commit records of a log: the pieces after each commit separator.
pub open spec fn log_chunks(out: Seq<char>) -> Seq<Seq<char>> {
    split_char(out, COMMIT_SEP).drop_first()
}

/// All revert targets named in the messages of `chunks`, in order.
pub open spec fn targets_of(chunks: Seq<Seq<char>>) -> Seq<Seq<char>>
    decreases chunks.len(),
{
    if chunks.len() == 0 {
        seq![]
    } else {
        targets_of(chunks.drop_last()) + targets_from(chunk_body(chunks.last()), 0)
    }
}

/// Whether a commit is reverted: some revert target is a prefix of its hash
/// (revert messages may carry abbreviated hashes).
pub open spec fn reverted_by(sha: Seq<char>, targets: Seq<Seq<char>>) -> bool {
    exists|j: int| 0 <= j < targets.len() && starts_with(sha, #[trigger] targets[j])
}

/// The commit a record describes, given the hashes reachable from main and
/// every revert target of the log.
pub open spec fn parsed_commit(ch: Seq<char>, main: Seq<Seq<char>>, targets: Seq<Seq<char>>) -> CommitInfo {
    CommitInfo {
        ts: chunk_ts(ch),
        in_main: main.contains(chunk_sha(ch)),
        reverted: reverted_by(chunk_sha(ch), targets),
    }
}

fn kept_lines_exec(text: &[char]) -> (r: Vec<String>)
    ensures
        str_views(r@) == kept_lines(lines_of(text@)),
{
    let ls = split_lines(text);
    let mut out: Vec<String> = Vec::new();
    let mut k: usize = 0;
    assert(views(ls@).take(0) =~= Seq::<Seq<char>>::empty());
    while k < ls.len()
        invariant
            k <= ls@.len(),
            views(ls@) == lines_of(text@),
            str_views(out@) == kept_lines(views(ls@).take(k as int)),
        decreases ls@.len() - k,
    {
        let t = trim_chars(ls[k].as_slice());
        assert(views(ls@).take(k + 1).drop_last() =~= views(ls@).take(k as int));
        assert(views(ls@).take(k + 1).last() == ls@[k as int]@);
        if t.len() > 0 {
            let ghost before = str_views(out@);
            let st = string_of(t.as_slice());
            out.push(st);
            assert(str_views(out@) =~= before.push(t@));
        }
        k = k + 1;
    }
    assert(views(ls@).take(ls@.len() as int) =~= views(ls@));
    out
}

/// One commit record, read: hash, time, message and touched files.
fn parse_chunk(ch: &[char]) -> (r: (Vec<char>, i64, Vec<char>, Vec<String>))
    ensures
        r.0@ == chunk_sha(ch@),
        r.1 == chunk_ts(ch@),
        r.2@ == chunk_body(ch@),
        str_views(r.3@) == chunk_files(ch@),
{
    let parts = split_chars(ch, FIELD_SEP);
    proof {
        lemma_split_char_nonempty(ch@, FIELD_SEP);
    }
    let sha = trim_chars(parts[0].as_slice());
    let ts: i64 = if parts.len() > 1 {
        let t = trim_chars(parts[1].as_slice());
        match parse_i64(t.as_slice()) {
            Some(v) => v,
            None => 0,
        }
    } else {
        assert(seg(fields_of(ch@), 1) =~= Seq::<char>::empty());
        assert(trim(Seq::<char>::empty()) =~= Seq::<char>::empty());
        0
    };
    let rest: Vec<char> = if parts.len() > 2 {
        sub_chars(parts[2].as_slice(), 0, parts[2].len())
    } else {
        Vec::new()
    };
    assert(rest@ =~= chunk_rest(ch@));
    match find_char(rest.as_slice(), BODY_END) {
        Some(k) => {
            let body = sub_chars(rest.as_slice(), 0, k);
            let tail = sub_chars(rest.as_slice(), k + 1, rest.len());
            assert(tail@ =~= rest@.skip(k + 1));
            assert(body@ =~= rest@.take(k as int));
            let files = kept_lines_exec(tail.as_slice());
            (sha, ts, body, files)
        },
        None => {
            let files: Vec<String> = Vec::new();
            assert(str_views(files@) =~= Seq::<Seq<char>>::empty());
            (sha, ts, rest, files)
        },
    }
}

/// Everything needed to resolve edit fates in one repository, read from
/// the two `git log` passes (all branches, and main only).
pub struct RepoLog {
    pub commits: Vec<CommitInfo>,
    /// The repository-relative files each commit touches, by commit index.
    pub files: Vec<Vec<String>>,
}

/// Abstract value of a [`RepoLog`].
pub struct RepoLogV {
    pub commits: Seq<CommitInfo>,
    pub files: Seq<Seq<Seq<char>>>,
}

impl View for RepoLog {
    type V = RepoLogV;

    open spec fn view(&self) -> RepoLogV {
        RepoLogV {
            commits: self.commits@,
            files: self.files@.map_values(|f: Vec<String>| str_views(f@)),
        }
    }
}

/// Whether `x` is one of `list`.
fn listed_in(list: &[Vec<char>], x: &[char]) -> (b: bool)
    ensures
        b == views(list@).contains(x@),
{
    let mut k: usize = 0;
    while k < list.len()
        invariant
            k <= list@.len(),
            forall|t: int| 0 <= t < k ==> views(list@)[t] != x@,
        decreases list@.len() - k,
    {
        if chars_eq(list[k].as_slice(), x) {
            assert(views(list@)[k as int] == x@);
            return true;
        }
        k = k + 1;
    }
    false
}

/// Whether some target is a prefix of `sha`.
fn reverted_by_any(sha: &[char], targets: &[Vec<char>]) -> (b: bool)
    ensures
        b == reverted_by(sha@, views(targets@)),
{
    let mut k: usize = 0;
    while k < targets.len()
        invariant
            k <= targets@.len(),
            forall|t: int| 0 <= t < k ==> !starts_with(sha@, #[trigger] views(targets@)[t]),
        decreases targets@.len() - k,
    {
        if starts_with_chars(sha, targets[k].as_slice()) {
            assert(starts_with(sha@, views(targets@)[k as int]));
            return true;
        }
        k = k + 1;
    }
    false
}

/// The log read from the output of `git log --all --name-only`, given the
/// hashes reachable from main.
pub open spec fn parsed_log(out: Seq<char>, mains: Seq<Seq<char>>) -> RepoLogV {
    let chunks = log_chunks(out);
    RepoLogV {
        commits: Seq::new(
            chunks.len(),
            |i: int| parsed_commit(chunks[i], mains, targets_of(chunks)),
        ),
        files: Seq::new(chunks.len(), |i: int| chunk_files(chunks[i])),
    }
}

/// Reads the output of `git log --all --name-only` in the record layout of
/// [`all_log_args`] into commits and their touched files. `main_shas` are
/// the hashes reachable from the main branch; a commit is reverted when some
/// revert message of the log names a prefix of its hash.
pub fn parse_repo_log(out: &str, main_shas: &[String]) -> (r: RepoLog)
    ensures
        r@.commits.len() == log_chunks(out@).len(),
        r@.files.len() == log_chunks(out@).len(),
        forall|i: int|
            0 <= i < log_chunks(out@).len() ==> r@.commits[i] == parsed_commit(
                #[trigger] log_chunks(out@)[i],
                str_views(main_shas@),
                targets_of(log_chunks(out@)),
            ),
        forall|i: int|
            0 <= i < log_chunks(out@).len() ==> r@.files[i] == chunk_files(
                #[trigger] log_chunks(out@)[i],
            ),
        r@ == parsed_log(out@, str_views(main_shas@)),
{
    let s = chars_of(out);
    let pieces = split_chars(s.as_slice(), COMMIT_SEP);
    proof {
        lemma_split_char_nonempty(out@, COMMIT_SEP);
    }
    let ghost chunks = log_chunks(out@);
    assert(chunks =~= views(pieces@).drop_first());
    let mut mains: Vec<Vec<char>> = Vec::new();
    let mut m: usize = 0;
    while m < main_shas.len()
        invariant
            m <= main_shas@.len(),
            views(mains@) == str_views(main_shas@).take(m as int),
        decreases main_shas@.len() - m,
    {
        let ghost before = views(mains@);
        let cs = chars_of(main_shas[m].as_str());
        let ghost cv = cs@;
        mains.push(cs);
        assert(views(mains@) =~= before.push(cv));
        assert(str_views(main_shas@).take(m + 1) =~= str_views(main_shas@).take(m as int).push(cv));
        m = m + 1;
    }
    assert(str_views(main_shas@).take(main_shas@.len() as int) =~= str_views(main_shas@));
    let mut shas: Vec<Vec<char>> = Vec::new();
    let mut commits: Vec<CommitInfo> = Vec::new();
    let mut files: Vec<Vec<String>> = Vec::new();
    let mut targets: Vec<Vec<char>> = Vec::new();
    let mut i: usize = 1;
    assert(chunks.take(0) =~= Seq::<Seq<char>>::empty());
    while i < pieces.len()
        invariant
            1 <= i <= pieces@.len(),
            chunks == views(pieces@).drop_first(),
            views(mains@) == str_views(main_shas@),
            shas@.len() == i - 1,
            commits@.len() == i - 1,
            files@.len() == i - 1,
            forall|j: int| 0 <= j < i - 1 ==> (#[trigger] shas@[j])@ == chunk_sha(chunks[j]),
            forall|j: int|
                0 <= j < i - 1 ==> #[trigger] commits@[j] == (CommitInfo {
                    ts: chunk_ts(chunks[j]),
                    in_main: str_views(main_shas@).contains(chunk_sha(chunks[j])),
                    reverted: false,
                }),
            forall|j: int|
                0 <= j < i - 1 ==> str_views((#[trigger] files@[j])@) == chunk_files(chunks[j]),
            views(targets@) == targets_of(chunks.take(i - 1)),
        decreases pieces@.len() - i,
    {
        let ghost ch = chunks[i - 1];
        assert(pieces@[i as int]@ == ch);
        let (sha, ts, body, fl) = parse_chunk(pieces[i].as_slice());
        let found = targets_in(body.as_slice());
        let ghost tbefore = views(targets@);
        let mut k: usize = 0;
        while k < found.len()
            invariant
                k <= found@.len(),
                views(targets@) == tbefore + views(found@).take(k as int),
            decreases found@.len() - k,
        {
            let ghost tb = views(targets@);
            let piece = sub_chars(found[k].as_slice(), 0, found[k].len());
            assert(piece@ =~= views(found@)[k as int]);
            targets.push(piece);
            assert(views(targets@) =~= tb.push(views(found@)[k as int]));
            assert(views(found@).take(k + 1) =~= views(found@).take(k as int).push(
                views(found@)[k as int],
            ));
            k = k + 1;
        }
        assert(views(found@).take(found@.len() as int) =~= views(found@));
        assert(chunks.take(i as int).drop_last() =~= chunks.take(i - 1));
        assert(chunks.take(i as int).last() == ch);
        let in_main = listed_in(mains.as_slice(), sha.as_slice());
        let ghost (s0, c0, f0) = (shas@, commits@, files@);
        let ghost (sv, flv) = (sha@, str_views(fl@));
        commits.push(CommitInfo { ts, in_main, reverted: false });
        shas.push(sha);
        files.push(fl);
        assert forall|j: int| 0 <= j < i implies (#[trigger] shas@[j])@ == chunk_sha(chunks[j]) by {
            if j < i - 1 {
                assert(shas@[j] == s0[j]);
            }
        }
        assert forall|j: int| 0 <= j < i implies #[trigger] commits@[j] == (CommitInfo {
            ts: chunk_ts(chunks[j]),
            in_main: str_views(main_shas@).contains(chunk_sha(chunks[j])),
            reverted: false,
        }) by {
            if j < i - 1 {
                assert(commits@[j] == c0[j]);
            }
        }
        assert forall|j: int| 0 <= j < i implies str_views((#[trigger] files@[j])@) == chunk_files(
            chunks[j],
        ) by {
            if j < i - 1 {
                assert(files@[j] == f0[j]);
            } else {
                assert(str_views(files@[j]@) == flv);
            }
        }
        i = i + 1;
    }
    assert(chunks.take(chunks.len() as int) =~= chunks);
    let mut marked: Vec<CommitInfo> = Vec::new();
    let mut k: usize = 0;
    while k < commits.len()
        invariant
            k <= commits@.len(),
            commits@.len() == chunks.len(),
            shas@.len() == chunks.len(),
            files@.len() == chunks.len(),
            forall|j: int|
                0 <= j < chunks.len() ==> str_views((#[trigger] files@[j])@) == chunk_files(
                    chunks[j],
                ),
            views(targets@) == targets_of(chunks),
            marked@.len() == k,
            forall|j: int| 0 <= j < chunks.len() ==> (#[trigger] shas@[j])@ == chunk_sha(chunks[j]),
            forall|j: int|
                0 <= j < chunks.len() ==> #[trigger] commits@[j] == (CommitInfo {
                    ts: chunk_ts(chunks[j]),
                    in_main: str_views(main_shas@).contains(chunk_sha(chunks[j])),
                    reverted: false,
                }),
            forall|j: int|
                0 <= j < k ==> #[trigger] marked@[j] == parsed_commit(
                    chunks[j],
                    str_views(main_shas@),
                    targets_of(chunks),
                ),
        decreases commits@.len() - k,
    {
        let rv = reverted_by_any(shas[k].as_slice(), targets.as_slice());
        let c = commits[k];
        marked.push(CommitInfo { ts: c.ts, in_main: c.in_main, reverted: rv });
        k = k + 1;
    }
    let r = RepoLog { commits: marked, files };
    assert forall|i: int| 0 <= i < chunks.len() implies r@.files[i] == chunk_files(
        #[trigger] chunks[i],
    ) by {
        assert(r@.files[i] == str_views(files@[i]@));
        assert(str_views(files@[i]@) == chunk_files(chunks[i]));
    }
    assert(r@.commits =~= parsed_log(out@, str_views(main_shas@)).commits);
    assert(r@.files =~= parsed_log(out@, str_views(main_shas@)).files);
    r
}

/// Commit `i` touches `path` and was made at or after `ts`.
pub open spec fn candidate(log: RepoLogV, path: Seq<char>, ts: i64, i: int) -> bool {
    &&& 0 <= i < log.commits.len()
    &&& i < log.files.len()
    &&& log.files[i].contains(path)
    &&& log.commits[i].ts >= ts
}

/// Commit `i` is the first commit touching `path` at or after `ts`: the
/// earliest such commit, and among commits made at that same time, the one
/// that comes first in the log.
pub open spec fn is_first_after(log: RepoLogV, path: Seq<char>, ts: i64, i: int) -> bool {
    &&& candidate(log, path, ts, i)
    &&& forall|j: int|
        #![trigger candidate(log, path, ts, j)]
        candidate(log, path, ts, j) ==> log.commits[i].ts < log.commits[j].ts || (
        log.commits[i].ts == log.commits[j].ts && i <= j)
}

/// The fate of an edit of `path` made at `ts`: that of the first commit
/// touching the file afterwards, or abandoned when there is none.
pub open spec fn edit_fate_spec(log: RepoLogV, path: Seq<char>, ts: i64) -> Fate {
    if exists|i: int| candidate(log, path, ts, i) {
        commit_fate(log.commits[choose|i: int| is_first_after(log, path, ts, i)])
    } else {
        Fate::Abandoned
    }
}

/// Commit `i` was made between `first_ts` and an hour after `last_ts`.
pub open spec fn in_active(log: RepoLogV, i: int, first_ts: i64, last_ts: i64) -> bool {
    0 <= i < log.commits.len() && first_ts <= log.commits[i].ts && log.commits[i].ts <= last_ts
        + FALLBACK_MARGIN_SECS
}

/// Some commit made while the session was active has fate `f`.
pub open spec fn active_fate(log: RepoLogV, first_ts: i64, last_ts: i64, f: Fate) -> bool {
    exists|i: int| in_active(log, i, first_ts, last_ts) && commit_fate(#[trigger] log.commits[i]) == f
}

/// The best fate among the commits made while the session was active.
pub open spec fn temporal_spec(log: RepoLogV, first_ts: i64, last_ts: i64) -> Fate {
    if active_fate(log, first_ts, last_ts, Fate::Shipped) {
        Fate::Shipped
    } else if active_fate(log, first_ts, last_ts, Fate::Pending) {
        Fate::Pending
    } else if active_fate(log, first_ts, last_ts, Fate::Reverted) {
        Fate::Reverted
    } else {
        Fate::Abandoned
    }
}

proof fn lemma_first_after_unique(log: RepoLogV, path: Seq<char>, ts: i64, a: int, b: int)
    requires
        is_first_after(log, path, ts, a),
        is_first_after(log, path, ts, b),
    ensures
        a == b,
{
    assert(candidate(log, path, ts, a));
    assert(candidate(log, path, ts, b));
}

impl RepoLog {
    /// Fate of one edit: the first commit touching the file after the edit.
    pub fn edit_fate(&self, rel_path: &str, ts: i64) -> (f: Fate)
        ensures
            f == edit_fate_spec(self@, rel_path@, ts),
    {
        let n = if self.commits.len() < self.files.len() {
            self.commits.len()
        } else {
            self.files.len()
        };
        let ghost log = self@;
        let mut best: Option<usize> = None;
        let mut i: usize = 0;
        while i < n
            invariant
                log == self@,
                n <= self.commits@.len(),
                n <= self.files@.len(),
                n == self.commits@.len() || n == self.files@.len(),
                i <= n,
                match best {
                    None => forall|j: int| 0 <= j < i ==> !candidate(log, rel_path@, ts, j),
                    Some(b) => b < i && candidate(log, rel_path@, ts, b as int) && forall|j: int|
                        #![trigger candidate(log, rel_path@, ts, j)]
                        0 <= j < i && candidate(log, rel_path@, ts, j) ==> log.commits[b as int].ts
                            < log.commits[j].ts || (log.commits[b as int].ts
                            == log.commits[j].ts && b <= j),
                },
            decreases n - i,
        {
            let c = self.commits[i];
            assert(log.files[i as int] == str_views(self.files@[i as int]@));
            if c.ts >= ts && list_contains(self.files[i].as_slice(), rel_path) {
                assert(candidate(log, rel_path@, ts, i as int));
                match best {
                    None => {
                        best = Some(i);
                    },
                    Some(b) => {
                        if c.ts < self.commits[b].ts {
                            best = Some(i);
                        }
                    },
                }
            } else {
                assert(!candidate(log, rel_path@, ts, i as int));
            }
            i = i + 1;
        }
        match best {
            None => {
                assert(!exists|j: int| candidate(log, rel_path@, ts, j));
                Fate::Abandoned
            },
            Some(b) => {
                assert(is_first_after(log, rel_path@, ts, b as int));
                proof {
                    let w = choose|k: int| is_first_after(log, rel_path@, ts, k);
                    lemma_first_after_unique(log, rel_path@, ts, w, b as int);
                }
                commit_fate_exec(self.commits[b])
            },
        }
    }

    /// Coarse fallback for sessions without edits: the best status among
    /// commits made while the session was active (up to an hour after).
    pub fn temporal_fate(&self, first_ts: i64, last_ts: i64) -> (f: Fate)
        requires
            last_ts <= i64::MAX - FALLBACK_MARGIN_SECS,
        ensures
            f == temporal_spec(self@, first_ts, last_ts),
    {
        let upper = last_ts + FALLBACK_MARGIN_SECS;
        let ghost log = self@;
        let mut best = Fate::Abandoned;
        let mut i: usize = 0;
        while i < self.commits.len()
            invariant
                log == self@,
                upper == last_ts + FALLBACK_MARGIN_SECS,
                i <= self.commits@.len(),
                forall|j: int|
                    0 <= j < i && in_active(log, j, first_ts, last_ts) ==> rank(
                        commit_fate(#[trigger] log.commits[j]),
                    ) <= rank(best),
                best == Fate::Abandoned || exists|j: int|
                    0 <= j < i && in_active(log, j, first_ts, last_ts) && commit_fate(
                        #[trigger] log.commits[j],
                    ) == best,
            decreases self.commits@.len() - i,
        {
            let c = self.commits[i];
            if first_ts <= c.ts && c.ts <= upper {
                assert(in_active(log, i as int, first_ts, last_ts));
                let fate = commit_fate_exec(c);
                let better = match (best, fate) {
                    (_, Fate::Shipped) | (Fate::Shipped, _) => Fate::Shipped,
                    (_, Fate::Pending) | (Fate::Pending, _) => Fate::Pending,
                    (_, Fate::Reverted) | (Fate::Reverted, _) => Fate::Reverted,
                    _ => Fate::Abandoned,
                };
                best = better;
            }
            i = i + 1;
        }
        proof {
            if active_fate(log, first_ts, last_ts, Fate::Shipped) {
                let j = choose|j: int|
                    in_active(log, j, first_ts, last_ts) && commit_fate(#[trigger] log.commits[j])
                        == Fate::Shipped;
                assert(rank(commit_fate(log.commits[j])) <= rank(best));
            } else if active_fate(log, first_ts, last_ts, Fate::Pending) {
                let j = choose|j: int|
                    in_active(log, j, first_ts, last_ts) && commit_fate(#[trigger] log.commits[j])
                        == Fate::Pending;
                assert(rank(commit_fate(log.commits[j])) <= rank(best));
            } else if active_fate(log, first_ts, last_ts, Fate::Reverted) {
                let j = choose|j: int|
                    in_active(log, j, first_ts, last_ts) && commit_fate(#[trigger] log.commits[j])
                        == Fate::Reverted;
                assert(rank(commit_fate(log.commits[j])) <= rank(best));
            }
        }
        best
    }
}

/// `s` with every `\\` turned into `/`.
pub open spec fn slashes(s: Seq<char>) -> Seq<char> {
    s.map_values(|c: char| if c == '\\' { '/' } else { c })
}

fn to_slashes(s: &str) -> (r: String)
    ensures
        r@ == slashes(s@),
{
    let cs = chars_of(s);
    let mut out: Vec<char> = Vec::new();
    let mut k: usize = 0;
    while k < cs.len()
        invariant
            k <= cs@.len(),
            cs@ == s@,
            out@ == slashes(s@).take(k as int),
        decreases cs@.len() - k,
    {
        let c = cs[k];
        if c == '\\' {
            out.push('/');
        } else {
            out.push(c);
        }
        assert(out@ =~= slashes(s@).take(k + 1));
        k = k + 1;
    }
    assert(slashes(s@).take(cs@.len() as int) =~= slashes(s@));
    string_of(out.as_slice())
}

/// An edited path relative to the repository root, with `/` separators;
/// nothing for a path outside the repository.
pub open spec fn rel_path(path: Seq<char>, root: Seq<char>) -> Option<Seq<char>> {
    match spec_strip_prefix(path, root) {
        Some(r) => Some(slashes(r)),
        None => None,
    }
}

/// The fates of the edits made inside the repository, in order.
pub open spec fn edit_fates(log: RepoLogV, edits: Seq<EditV>, root: Seq<char>) -> Seq<Fate>
    decreases edits.len(),
{
    if edits.len() == 0 {
        seq![]
    } else {
        let p = edit_fates(log, edits.drop_last(), root);
        match rel_path(edits.last().path, root) {
            Some(r) => p.push(edit_fate_spec(log, r, edits.last().ts)),
            None => p,
        }
    }
}

/// How many of `fs` are `f`.
pub open spec fn count_fate(fs: Seq<Fate>, f: Fate) -> nat
    decreases fs.len(),
{
    if fs.len() == 0 {
        0
    } else {
        count_fate(fs.drop_last(), f) + if fs.last() == f {
            1nat
        } else {
            0nat
        }
    }
}

/// The most frequent fate of `fs`; a tie goes to the better fate
/// (Shipped > Pending > Reverted > Abandoned).
pub open spec fn majority(fs: Seq<Fate>) -> Fate {
    let a = count_fate(fs, Fate::Abandoned);
    let r = count_fate(fs, Fate::Reverted);
    let p = count_fate(fs, Fate::Pending);
    let s = count_fate(fs, Fate::Shipped);
    let (b1, c1) = if r >= a {
        (Fate::Reverted, r)
    } else {
        (Fate::Abandoned, a)
    };
    let (b2, c2) = if p >= c1 {
        (Fate::Pending, p)
    } else {
        (b1, c1)
    };
    if s >= c2 {
        Fate::Shipped
    } else {
        b2
    }
}

/// A session's fate in a repository: the majority fate of its edits inside
/// the repository, or the temporal fallback when it made none there.
pub open spec fn classify_spec(log: RepoLogV, span: SpanV, root: Seq<char>) -> Fate {
    let fs = edit_fates(log, span.edits, root);
    if fs.len() == 0 {
        temporal_spec(log, span.first_ts, span.last_ts)
    } else {
        majority(fs)
    }
}

/// The majority fate is a plurality: no fate is more frequent, and a fate
/// as frequent is never better.
pub proof fn lemma_majority_is_plurality(fs: Seq<Fate>, f: Fate)
    ensures
        count_fate(fs, majority(fs)) >= count_fate(fs, f),
        count_fate(fs, f) == count_fate(fs, majority(fs)) ==> rank(f) <= rank(majority(fs)),
{
}

proof fn lemma_count_len(fs: Seq<Fate>)
    ensures
        count_fate(fs, Fate::Abandoned) + count_fate(fs, Fate::Reverted) + count_fate(
            fs,
            Fate::Pending,
        ) + count_fate(fs, Fate::Shipped) == fs.len(),
    decreases fs.len(),
{
    if fs.len() > 0 {
        lemma_count_len(fs.drop_last());
    }
}

/// Majority fate of a session's edits inside its repository; ties break
/// toward the better outcome (Shipped > Pending > Reverted > Abandoned).
pub fn classify_span(span: &SessionSpan, repo_root: &str, log: &RepoLog) -> (f: Fate)
    requires
        edit_fates(log@, span@.edits, repo_root@).len() == 0 ==> span.last_ts <= i64::MAX
            - FALLBACK_MARGIN_SECS,
    ensures
        f == classify_spec(log@, span@, repo_root@),
{
    let ghost edits = span@.edits;
    let mut na: usize = 0;
    let mut nr: usize = 0;
    let mut np: usize = 0;
    let mut ns: usize = 0;
    let mut k: usize = 0;
    assert(edits.take(0) =~= Seq::<EditV>::empty());
    while k < span.edits.len()
        invariant
            edits == span@.edits,
            edits.len() == span.edits@.len(),
            k <= span.edits@.len(),
            na + nr + np + ns <= k,
            na == count_fate(edit_fates(log@, edits.take(k as int), repo_root@), Fate::Abandoned),
            nr == count_fate(edit_fates(log@, edits.take(k as int), repo_root@), Fate::Reverted),
            np == count_fate(edit_fates(log@, edits.take(k as int), repo_root@), Fate::Pending),
            ns == count_fate(edit_fates(log@, edits.take(k as int), repo_root@), Fate::Shipped),
        decreases span.edits@.len() - k,
    {
        let e = &span.edits[k];
        assert(edits.take(k + 1).drop_last() =~= edits.take(k as int));
        assert(edits.take(k + 1).last() == e@);
        let ghost prev = edit_fates(log@, edits.take(k as int), repo_root@);
        match strip_path_prefix(e.path.as_str(), repo_root) {
            None => {
                assert(edit_fates(log@, edits.take(k + 1), repo_root@) == prev);
            },
            Some(rel) => {
                let rel = to_slashes(rel.as_str());
                let fate = log.edit_fate(rel.as_str(), e.ts);
                assert(edit_fates(log@, edits.take(k + 1), repo_root@) == prev.push(fate));
                assert(prev.push(fate).drop_last() =~= prev);
                assert(prev.push(fate).last() == fate);
                match fate {
                    Fate::Abandoned => {
                        na = na + 1;
                    },
                    Fate::Reverted => {
                        nr = nr + 1;
                    },
                    Fate::Pending => {
                        np = np + 1;
                    },
                    Fate::Shipped => {
                        ns = ns + 1;
                    },
                }
            },
        }
        k = k + 1;
    }
    assert(edits.take(edits.len() as int) =~= edits);
    proof {
        lemma_count_len(edit_fates(log@, edits, repo_root@));
    }
    if na + nr + np + ns == 0 {
        return log.temporal_fate(span.first_ts, span.last_ts);
    }
    let mut best = Fate::Abandoned;
    let mut bc = na;
    if nr >= bc {
        best = Fate::Reverted;
        bc = nr;
    }
    if np >= bc {
        best = Fate::Pending;
        bc = np;
    }
    if ns >= bc {
        best = Fate::Shipped;
    }
    best
}

/// What became of a session's quota spend.
#[derive(Clone, Copy, PartialEq, Eq, Structural, Debug, Hash)]
pub enum OutcomeKind {
    Shipped,
    Pending,
    Reverted,
    Abandoned,
    NonRepo,
}

/// The outcome of a session whose fate in its repository is `f`.
pub open spec fn kind_of_fate(f: Fate) -> OutcomeKind {
    match f {
        Fate::Shipped => OutcomeKind::Shipped,
        Fate::Pending => OutcomeKind::Pending,
        Fate::Reverted => OutcomeKind::Reverted,
        Fate::Abandoned => OutcomeKind::Abandoned,
    }
}

/// The report's name for an outcome.
pub open spec fn kind_label(k: OutcomeKind) -> Seq<char> {
    match k {
        OutcomeKind::Shipped => "shipped"@,
        OutcomeKind::Pending => "pending"@,
        OutcomeKind::Reverted => "reverted"@,
        OutcomeKind::Abandoned => "abandoned"@,
        OutcomeKind::NonRepo => "non_repo"@,
    }
}

impl OutcomeKind {
    /// The report's name for this outcome.
    pub fn label(&self) -> (r: String)
        ensures
            r@ == kind_label(*self),
    {
        match self {
            OutcomeKind::Shipped => String::from_str("shipped"),
            OutcomeKind::Pending => String::from_str("pending"),
            OutcomeKind::Reverted => String::from_str("reverted"),
            OutcomeKind::Abandoned => String::from_str("abandoned"),
            OutcomeKind::NonRepo => String::from_str("non_repo"),
        }
    }
}

/// The report's categories, in the order it lists them.
pub fn report_kinds() -> (r: Vec<OutcomeKind>)
    ensures
        r@ == seq![
            OutcomeKind::Shipped,
            OutcomeKind::Pending,
            OutcomeKind::Reverted,
            OutcomeKind::Abandoned,
            OutcomeKind::NonRepo,
        ],
{
    let mut r: Vec<OutcomeKind> = Vec::new();
    r.push(OutcomeKind::Shipped);
    r.push(OutcomeKind::Pending);
    r.push(OutcomeKind::Reverted);
    r.push(OutcomeKind::Abandoned);
    r.push(OutcomeKind::NonRepo);
    assert(r@ =~= seq![
        OutcomeKind::Shipped,
        OutcomeKind::Pending,
        OutcomeKind::Reverted,
        OutcomeKind::Abandoned,
        OutcomeKind::NonRepo,
    ]);
    r
}

/// A session's outcome: non-repository when its working directory is in no
/// git repository (`root` is none) or the repository's log could not be read
/// (`log` is none); otherwise its fate there.
pub open spec fn span_kind_spec(span: SpanV, root: Option<Seq<char>>, log: Option<RepoLogV>) -> OutcomeKind {
    match root {
        None => OutcomeKind::NonRepo,
        Some(r) => match log {
            None => OutcomeKind::NonRepo,
            Some(l) => kind_of_fate(classify_spec(l, span, r)),
        },
    }
}

/// Classifies one session, given its repository root (if any) and that
/// repository's log (if it could be read).
pub fn span_kind(span: &SessionSpan, root: Option<&str>, log: Option<&RepoLog>) -> (k: OutcomeKind)
    requires
        root matches Some(r) ==> log matches Some(l) ==> edit_fates(l@, span@.edits, r@).len()
            == 0 ==> span.last_ts <= i64::MAX - FALLBACK_MARGIN_SECS,
    ensures
        k == span_kind_spec(
            span@,
            match root {
                Some(r) => Some(r@),
                None => None,
            },
            match log {
                Some(l) => Some(l@),
                None => None,
            },
        ),
{
    match root {
        None => OutcomeKind::NonRepo,
        Some(r) => match log {
            None => OutcomeKind::NonRepo,
            Some(l) => match classify_span(span, r, l) {
                Fate::Shipped => OutcomeKind::Shipped,
                Fate::Pending => OutcomeKind::Pending,
                Fate::Reverted => OutcomeKind::Reverted,
                Fate::Abandoned => OutcomeKind::Abandoned,
            },
        },
    }
}

/// A session classified in its repository is reported under its own fate:
/// as shipped, pending, reverted or abandoned exactly when its fate is
/// that, and never as outside a repository, so distinct fates never share
/// a report kind. The report's name for it is the fate's own name.
pub proof fn lemma_span_kind_names_fate(span: SpanV, root: Seq<char>, log: RepoLogV)
    ensures
        (span_kind_spec(span, Some(root), Some(log)) == OutcomeKind::Shipped) == (classify_spec(
            log,
            span,
            root,
        ) == Fate::Shipped),
        (span_kind_spec(span, Some(root), Some(log)) == OutcomeKind::Pending) == (classify_spec(
            log,
            span,
            root,
        ) == Fate::Pending),
        (span_kind_spec(span, Some(root), Some(log)) == OutcomeKind::Reverted) == (classify_spec(
            log,
            span,
            root,
        ) == Fate::Reverted),
        (span_kind_spec(span, Some(root), Some(log)) == OutcomeKind::Abandoned) == (classify_spec(
            log,
            span,
            root,
        ) == Fate::Abandoned),
        span_kind_spec(span, Some(root), Some(log)) != OutcomeKind::NonRepo,
        kind_label(span_kind_spec(span, Some(root), Some(log))) == match classify_spec(
            log,
            span,
            root,
        ) {
            Fate::Shipped => "shipped"@,
            Fate::Pending => "pending"@,
            Fate::Reverted => "reverted"@,
            Fate::Abandoned => "abandoned"@,
        },
{
}

/// Distinct fates are reported under distinct kinds.
pub proof fn lemma_fate_kinds_distinct(f: Fate, g: Fate)
    ensures
        kind_of_fate(f) == kind_of_fate(g) ==> f == g,
{
}

/// Whether some edit lies inside the repository.
pub open spec fn has_repo_edit(edits: Seq<EditV>, root: Seq<char>) -> bool {
    exists|i: int| 0 <= i < edits.len() && (#[trigger] rel_path(edits[i].path, root)) is Some
}

proof fn lemma_edit_fates_empty(log: RepoLogV, edits: Seq<EditV>, root: Seq<char>)
    ensures
        (edit_fates(log, edits, root).len() == 0) == !has_repo_edit(edits, root),
    decreases edits.len(),
{
    if edits.len() > 0 {
        lemma_edit_fates_empty(log, edits.drop_last(), root);
        let last = edits.len() - 1;
        if has_repo_edit(edits.drop_last(), root) {
            let i = choose|i: int|
                0 <= i < edits.drop_last().len() && (#[trigger] rel_path(
                    edits.drop_last()[i].path,
                    root,
                )) is Some;
            assert(rel_path(edits[i].path, root) is Some);
        }
        if has_repo_edit(edits, root) {
            let i = choose|i: int|
                0 <= i < edits.len() && (#[trigger] rel_path(edits[i].path, root)) is Some;
            if i < last {
                assert(edits.drop_last()[i] == edits[i]);
                assert(has_repo_edit(edits.drop_last(), root));
            }
        }
        assert(edits.last() == edits[last]);
    }
}

/// Classifies one session like [`span_kind`], for any span: none exactly
/// when classifying would need the time fallback (no edit inside the
/// repository) and the session's last activity is within an hour of the
/// largest time, where the fallback window cannot be formed.
pub fn span_kind_checked(span: &SessionSpan, root: Option<&str>, log: Option<&RepoLog>) -> (r: Option<OutcomeKind>)
    ensures
        match r {
            Some(k) => k == span_kind_spec(
                span@,
                match root {
                    Some(t) => Some(t@),
                    None => None,
                },
                match log {
                    Some(l) => Some(l@),
                    None => None,
                },
            ),
            None => root matches Some(t) && log is Some && !has_repo_edit(span@.edits, t@)
                && span.last_ts > i64::MAX - FALLBACK_MARGIN_SECS,
        },
        r is None ==> (root matches Some(t) && log is Some && !has_repo_edit(span@.edits, t@)),
        (root matches Some(t) && log is Some && !has_repo_edit(span@.edits, t@) && span.last_ts
            > i64::MAX - FALLBACK_MARGIN_SECS) ==> r is None,
{
    match (root, log) {
        (Some(t), Some(l)) => {
            if span.last_ts > i64::MAX - FALLBACK_MARGIN_SECS {
                let ghost edits = span@.edits;
                let mut k: usize = 0;
                while k < span.edits.len()
                    invariant
                        root == Some(t),
                        log == Some(l),
                        k <= span.edits@.len(),
                        edits == span@.edits,
                        edits.len() == span.edits@.len(),
                        forall|j: int| 0 <= j < k ==> (#[trigger] rel_path(edits[j].path, t@)) is None,
                    decreases span.edits@.len() - k,
                {
                    assert(edits[k as int] == span.edits@[k as int]@);
                    match strip_path_prefix(span.edits[k].path.as_str(), t) {
                        Some(_) => {
                            assert(rel_path(edits[k as int].path, t@) is Some);
                            proof {
                                lemma_edit_fates_empty(l@, edits, t@);
                            }
                            return Some(span_kind(span, root, log));
                        },
                        None => {},
                    }
                    k = k + 1;
                }
                return None;
            }
            Some(span_kind(span, root, log))
        },
        _ => Some(span_kind(span, root, log)),
    }
}

/// How far before the report's window the git logs are read, so commits
/// and reverts slightly older than the window are still seen.
pub fn log_since(window_start: i64) -> (r: i64)
    requires
        window_start >= i64::MIN + LOG_MARGIN_SECS,
    ensures
        r == window_start - LOG_MARGIN_SECS,
{
    window_start - LOG_MARGIN_SECS
}

/// Whether a git invocation only reads: its subcommand is `rev-parse`,
/// `symbolic-ref` or `log`. Nothing that touches the working tree, refs or
/// configuration is ever asked for.
pub open spec fn read_only(args: Seq<Seq<char>>) -> bool {
    args.len() > 0 && (args[0] == "rev-parse"@ || args[0] == "symbolic-ref"@ || args[0] == "log"@)
}

/// Arguments asking for the repository root of a working directory.
pub open spec fn toplevel_args_spec() -> Seq<Seq<char>> {
    seq!["rev-parse"@, "--show-toplevel"@]
}

/// Arguments asking where the remote's default branch points.
pub open spec fn origin_head_args() -> Seq<Seq<char>> {
    seq!["symbolic-ref"@, "refs/remotes/origin/HEAD"@]
}

/// Arguments asking whether a ref exists.
pub open spec fn verify_args(r: Seq<char>) -> Seq<Seq<char>> {
    seq!["rev-parse"@, "--verify"@, "--quiet"@, r]
}

/// Arguments listing the hashes reachable from `main` since `since_arg`.
pub open spec fn main_log_args_spec(main: Seq<char>, since_arg: Seq<char>) -> Seq<Seq<char>> {
    seq!["log"@, main, since_arg, "--format=%H"@]
}

/// Arguments listing every commit of every branch since `since_arg`, in the
/// record layout [`parse_repo_log`] reads, with the files each one touches.
pub open spec fn all_log_args_spec(since_arg: Seq<char>) -> Seq<Seq<char>> {
    seq!["log"@, "--all"@, since_arg, "--name-only"@, "--format=%x1e%H%x1f%ct%x1f%B%x1d"@]
}

fn two(a: &str, b: &str) -> (r: Vec<String>)
    ensures
        str_views(r@) == seq![a@, b@],
{
    let mut r: Vec<String> = Vec::new();
    r.push(String::from_str(a));
    r.push(String::from_str(b));
    assert(str_views(r@) =~= seq![a@, b@]);
    r
}

fn four(a: &str, b: &str, c: &str, d: &str) -> (r: Vec<String>)
    ensures
        str_views(r@) == seq![a@, b@, c@, d@],
{
    let mut r: Vec<String> = Vec::new();
    r.push(String::from_str(a));
    r.push(String::from_str(b));
    r.push(String::from_str(c));
    r.push(String::from_str(d));
    assert(str_views(r@) =~= seq![a@, b@, c@, d@]);
    r
}

/// `git rev-parse --show-toplevel`: the repository root of a directory.
pub fn toplevel_args() -> (r: Vec<String>)
    ensures
        str_views(r@) == toplevel_args_spec(),
        read_only(str_views(r@)),
{
    two("rev-parse", "--show-toplevel")
}

/// Repository root for a working directory, from the output of
/// [`toplevel_args`] (none when git failed: not inside a repository).
pub fn toplevel(out: Option<&str>) -> (r: Option<String>)
    ensures
        match out {
            Some(o) => r matches Some(t) && t@ == trim(o@),
            None => r is None,
        },
{
    match out {
        Some(o) => {
            let cs = chars_of(o);
            let t = trim_chars(cs.as_slice());
            Some(string_of(t.as_slice()))
        },
        None => None,
    }
}

/// `git log <main> <since> --format=%H`: hashes reachable from main.
pub fn main_log_args(main: &str, since_arg: &str) -> (r: Vec<String>)
    ensures
        str_views(r@) == main_log_args_spec(main@, since_arg@),
        read_only(str_views(r@)),
{
    four("log", main, since_arg, "--format=%H")
}

/// `git log --all <since> --name-only` in the record layout of
/// [`parse_repo_log`].
pub fn all_log_args(since_arg: &str) -> (r: Vec<String>)
    ensures
        str_views(r@) == all_log_args_spec(since_arg@),
        read_only(str_views(r@)),
{
    let mut r: Vec<String> = Vec::new();
    r.push(String::from_str("log"));
    r.push(String::from_str("--all"));
    r.push(String::from_str(since_arg));
    r.push(String::from_str("--name-only"));
    r.push(String::from_str("--format=%x1e%H%x1f%ct%x1f%B%x1d"));
    assert(str_views(r@) =~= all_log_args_spec(since_arg@));
    r
}

/// The hashes listed one per line (output of [`main_log_args`]), trimmed.
pub open spec fn sha_lines(out: Seq<char>) -> Seq<Seq<char>> {
    lines_of(out).map_values(|l: Seq<char>| trim(l))
}

/// Reads the output of [`main_log_args`].
pub fn parse_sha_lines(out: &str) -> (r: Vec<String>)
    ensures
        str_views(r@) == sha_lines(out@),
{
    let cs = chars_of(out);
    let ls = split_lines(cs.as_slice());
    let mut r: Vec<String> = Vec::new();
    let mut k: usize = 0;
    while k < ls.len()
        invariant
            k <= ls@.len(),
            views(ls@) == lines_of(out@),
            str_views(r@) == sha_lines(out@).take(k as int),
        decreases ls@.len() - k,
    {
        let ghost before = str_views(r@);
        let t = trim_chars(ls[k].as_slice());
        assert(t@ == sha_lines(out@)[k as int]);
        let st = string_of(t.as_slice());
        r.push(st);
        assert(str_views(r@) =~= before.push(st@));
        assert(sha_lines(out@).take(k + 1) =~= sha_lines(out@).take(k as int).push(st@));
        k = k + 1;
    }
    assert(sha_lines(out@).take(ls@.len() as int) =~= sha_lines(out@));
    r
}

/// What chrono writes for the Unix time `ts` as an RFC 3339 UTC date-time
/// (`DateTime::from_timestamp(ts, 0)`, then `to_rfc3339`); `None` when the
/// time is outside chrono's range.
pub uninterp spec fn spec_rfc3339_utc(ts: i64) -> Option<Seq<char>>;

/// `chrono::DateTime::from_timestamp(ts, 0)` rendered by `to_rfc3339`. The
/// contract names the result; the calendar arithmetic is not restated.
#[verifier::external_body]
fn rfc3339_utc(ts: i64) -> (r: Option<String>)
    ensures
        opt_view(r) == spec_rfc3339_utc(ts),
{
    chrono::DateTime::from_timestamp(ts, 0).map(|d| d.to_rfc3339())
}

/// The `--since=` argument for a horizon given in Unix seconds; none when
/// chrono cannot represent that time.
pub fn since_arg(since: i64) -> (r: Option<String>)
    ensures
        match spec_rfc3339_utc(since) {
            Some(t) => r matches Some(a) && a@ == "--since="@ + t,
            None => r is None,
        },
{
    match rfc3339_utc(since) {
        Some(t) => {
            let a = String::from_str("--since=").concat(t.as_str());
            Some(a)
        },
        None => None,
    }
}

/// Where the search for the repository's main branch stands: the remote's
/// default branch if a remote exists (whatever it is called), else a local
/// `main`, else `master`.
pub enum MainRefState {
    Start,
    /// Asked where `origin/HEAD` points.
    OriginHead,
    /// Asked whether a local branch of the remote default's name exists.
    Local(String),
    /// Asked whether `main` exists.
    Main,
    /// Asked whether `master` exists.
    Master,
}

/// Abstract value of a [`MainRefState`].
pub enum MainRefStateV {
    Start,
    OriginHead,
    Local(Seq<char>),
    Main,
    Master,
}

impl View for MainRefState {
    type V = MainRefStateV;

    open spec fn view(&self) -> MainRefStateV {
        match self {
            MainRefState::Start => MainRefStateV::Start,
            MainRefState::OriginHead => MainRefStateV::OriginHead,
            MainRefState::Local(s) => MainRefStateV::Local(s@),
            MainRefState::Main => MainRefStateV::Main,
            MainRefState::Master => MainRefStateV::Master,
        }
    }
}

/// The next move of the search: run git with these arguments and come back
/// with its output (none when git failed), or the answer.
pub enum MainRefStep {
    Ask(MainRefState, Vec<String>),
    Found(Option<String>),
}

/// Abstract value of a [`MainRefStep`].
pub enum MainRefStepV {
    Ask(MainRefStateV, Seq<Seq<char>>),
    Found(Option<Seq<char>>),
}

impl View for MainRefStep {
    type V = MainRefStepV;

    open spec fn view(&self) -> MainRefStepV {
        match self {
            MainRefStep::Ask(s, a) => MainRefStepV::Ask(s@, str_views(a@)),
            MainRefStep::Found(r) => MainRefStepV::Found(opt_view(*r)),
        }
    }
}

/// The branch name in `origin/HEAD`'s target, if it is a remote branch.
pub open spec fn origin_branch(head: Seq<char>) -> Option<Seq<char>> {
    let h = trim(head);
    if starts_with(h, "refs/remotes/origin/"@) {
        Some(h.skip("refs/remotes/origin/"@.len() as int))
    } else {
        None
    }
}

/// One move of the main-branch search, given git's reply to the last
/// question.
pub open spec fn main_ref_next(st: MainRefStateV, reply: Option<Seq<char>>) -> MainRefStepV {
    match st {
        MainRefStateV::Start => MainRefStepV::Ask(MainRefStateV::OriginHead, origin_head_args()),
        MainRefStateV::OriginHead => match reply {
            Some(h) => match origin_branch(h) {
                Some(short) => MainRefStepV::Ask(MainRefStateV::Local(short), verify_args(short)),
                None => MainRefStepV::Ask(MainRefStateV::Main, verify_args("main"@)),
            },
            None => MainRefStepV::Ask(MainRefStateV::Main, verify_args("main"@)),
        },
        MainRefStateV::Local(short) => if reply is Some {
            MainRefStepV::Found(Some(short))
        } else {
            MainRefStepV::Found(Some("origin/"@ + short))
        },
        MainRefStateV::Main => if reply is Some {
            MainRefStepV::Found(Some("main"@))
        } else {
            MainRefStepV::Ask(MainRefStateV::Master, verify_args("master"@))
        },
        MainRefStateV::Master => if reply is Some {
            MainRefStepV::Found(Some("master"@))
        } else {
            MainRefStepV::Found(None)
        },
    }
}

/// Name of the repository's main branch, one git question at a time:
/// prefer the local branch of the remote's default (it sees unpushed
/// commits), else the remote-tracking ref; without a remote default, local
/// `main`, else `master`. Start from [`MainRefState::Start`] with no reply.
pub fn main_ref(state: MainRefState, reply: Option<&str>) -> (r: MainRefStep)
    ensures
        r@ == main_ref_next(
            state@,
            match reply {
                Some(t) => Some(t@),
                None => None,
            },
        ),
        r matches MainRefStep::Ask(_, args) ==> read_only(str_views(args@)),
{
    match state {
        MainRefState::Start => MainRefStep::Ask(
            MainRefState::OriginHead,
            two("symbolic-ref", "refs/remotes/origin/HEAD"),
        ),
        MainRefState::OriginHead => {
            let short: Option<Vec<char>> = match reply {
                Some(h) => {
                    let cs = chars_of(h);
                    let t = trim_chars(cs.as_slice());
                    let p = chars_of("refs/remotes/origin/");
                    if starts_with_chars(t.as_slice(), p.as_slice()) {
                        Some(sub_chars(t.as_slice(), p.len(), t.len()))
                    } else {
                        None
                    }
                },
                None => None,
            };
            match short {
                Some(b) => {
                    let name = string_of(b.as_slice());
                    let args = four("rev-parse", "--verify", "--quiet", name.as_str());
                    MainRefStep::Ask(MainRefState::Local(name), args)
                },
                None => MainRefStep::Ask(
                    MainRefState::Main,
                    four("rev-parse", "--verify", "--quiet", "main"),
                ),
            }
        },
        MainRefState::Local(short) => {
            if reply.is_some() {
                MainRefStep::Found(Some(short))
            } else {
                let full = String::from_str("origin/").concat(short.as_str());
                MainRefStep::Found(Some(full))
            }
        },
        MainRefState::Main => {
            if reply.is_some() {
                MainRefStep::Found(Some(String::from_str("main")))
            } else {
                MainRefStep::Ask(MainRefState::Master, four("rev-parse", "--verify", "--quiet", "master"))
            }
        },
        MainRefState::Master => {
            if reply.is_some() {
                MainRefStep::Found(Some(String::from_str("master")))
            } else {
                MainRefStep::Found(None)
            }
        },
    }
}

/// The main branch git's answers lead to, given where `origin/HEAD` points
/// (none without a remote default) and which refs exist.
pub open spec fn main_ref_spec(head: Option<Seq<char>>, has_ref: spec_fn(Seq<char>) -> bool) -> Option<Seq<char>> {
    let short = match head {
        Some(h) => origin_branch(h),
        None => None,
    };
    match short {
        Some(b) => if has_ref(b) {
            Some(b)
        } else {
            Some("origin/"@ + b)
        },
        None => if has_ref("main"@) {
            Some("main"@)
        } else if has_ref("master"@) {
            Some("master"@)
        } else {
            None
        },
    }
}

/// Git's reply to a question of the search, for a repository whose
/// `origin/HEAD` points at `head` and whose existing refs are `has_ref`.
pub open spec fn git_reply(args: Seq<Seq<char>>, head: Option<Seq<char>>, has_ref: spec_fn(Seq<char>) -> bool) -> Option<Seq<char>> {
    if args == origin_head_args() {
        head
    } else if args.len() == 4 && has_ref(args[3]) {
        Some(seq![])
    } else {
        None
    }
}

/// Runs the search for at most `fuel` moves against such a repository.
pub open spec fn drive_main_ref(
    st: MainRefStateV,
    reply: Option<Seq<char>>,
    head: Option<Seq<char>>,
    has_ref: spec_fn(Seq<char>) -> bool,
    fuel: nat,
) -> Option<Option<Seq<char>>>
    decreases fuel,
{
    if fuel == 0 {
        None
    } else {
        match main_ref_next(st, reply) {
            MainRefStepV::Found(r) => Some(r),
            MainRefStepV::Ask(next, args) => drive_main_ref(
                next,
                git_reply(args, head, has_ref),
                head,
                has_ref,
                (fuel - 1) as nat,
            ),
        }
    }
}

/// The search ends within four questions, with the remote's default branch
/// when there is one (its local branch if that exists), else `main`, else
/// `master`.
pub proof fn lemma_main_ref_search(head: Option<Seq<char>>, has_ref: spec_fn(Seq<char>) -> bool)
    ensures
        drive_main_ref(MainRefStateV::Start, None, head, has_ref, 4) == Some(
            main_ref_spec(head, has_ref),
        ),
{
    reveal_with_fuel(drive_main_ref, 5);
    assert(origin_head_args().len() == 2);
    assert(verify_args("main"@).len() == 4);
    assert(verify_args("master"@).len() == 4);
    assert(verify_args("main"@)[3] == "main"@);
    assert(verify_args("master"@)[3] == "master"@);
    match head {
        Some(h) => match origin_branch(h) {
            Some(b) => {
                assert(verify_args(b).len() == 4);
                assert(verify_args(b)[3] == b);
            },
            None => {},
        },
        None => {},
    }
}

/// Where reading a repository's log stands.
pub enum LoadState {
    /// Searching for the main branch.
    FindMain(MainRefState),
    /// Asked for the hashes reachable from main (with this `--since=`).
    MainLog(String),
    /// Asked for every commit (with this `--since=`), main's hashes known.
    AllLog(String, Vec<String>),
}

/// Abstract value of a [`LoadState`].
pub enum LoadStateV {
    FindMain(MainRefStateV),
    MainLog(Seq<char>),
    AllLog(Seq<char>, Seq<Seq<char>>),
}

impl View for LoadState {
    type V = LoadStateV;

    open spec fn view(&self) -> LoadStateV {
        match self {
            LoadState::FindMain(m) => LoadStateV::FindMain(m@),
            LoadState::MainLog(a) => LoadStateV::MainLog(a@),
            LoadState::AllLog(a, v) => LoadStateV::AllLog(a@, str_views(v@)),
        }
    }
}

/// Reading one repository's log from `since` (Unix seconds) on.
pub struct RepoLoad {
    pub since: i64,
    pub state: LoadState,
}

/// Abstract value of a [`RepoLoad`].
pub struct RepoLoadV {
    pub since: i64,
    pub state: LoadStateV,
}

impl View for RepoLoad {
    type V = RepoLoadV;

    open spec fn view(&self) -> RepoLoadV {
        RepoLoadV { since: self.since, state: self.state@ }
    }
}

/// The next move: run git with these arguments and come back with its
/// output (none when git failed), or the log (none when it cannot be read).
pub enum LoadStep {
    Ask(RepoLoad, Vec<String>),
    Done(Option<RepoLog>),
}

/// Abstract value of a [`LoadStep`].
pub enum LoadStepV {
    Ask(RepoLoadV, Seq<Seq<char>>),
    Done(Option<RepoLogV>),
}

impl View for LoadStep {
    type V = LoadStepV;

    open spec fn view(&self) -> LoadStepV {
        match self {
            LoadStep::Ask(l, a) => LoadStepV::Ask(l@, str_views(a@)),
            LoadStep::Done(r) => LoadStepV::Done(
                match r {
                    Some(l) => Some(l@),
                    None => None,
                },
            ),
        }
    }
}

/// The `--since=` argument for `since`, as [`since_arg`] makes it.
pub open spec fn since_arg_spec(since: i64) -> Option<Seq<char>> {
    match spec_rfc3339_utc(since) {
        Some(t) => Some("--since="@ + t),
        None => None,
    }
}

/// One move of reading a repository's log, given git's reply to the last
/// question: find the main branch, then (with a main branch) the hashes
/// reachable from it, then every commit; the log cannot be read when the
/// horizon has no date or the last query fails.
pub open spec fn load_next(ld: RepoLoadV, reply: Option<Seq<char>>) -> LoadStepV {
    match ld.state {
        LoadStateV::FindMain(ms) => match main_ref_next(ms, reply) {
            MainRefStepV::Ask(next, args) => LoadStepV::Ask(
                RepoLoadV { since: ld.since, state: LoadStateV::FindMain(next) },
                args,
            ),
            MainRefStepV::Found(main) => match since_arg_spec(ld.since) {
                None => LoadStepV::Done(None),
                Some(a) => match main {
                    Some(m) => LoadStepV::Ask(
                        RepoLoadV { since: ld.since, state: LoadStateV::MainLog(a) },
                        main_log_args_spec(m, a),
                    ),
                    None => LoadStepV::Ask(
                        RepoLoadV { since: ld.since, state: LoadStateV::AllLog(a, seq![]) },
                        all_log_args_spec(a),
                    ),
                },
            },
        },
        LoadStateV::MainLog(a) => LoadStepV::Ask(
            RepoLoadV {
                since: ld.since,
                state: LoadStateV::AllLog(
                    a,
                    match reply {
                        Some(o) => sha_lines(o),
                        None => seq![],
                    },
                ),
            },
            all_log_args_spec(a),
        ),
        LoadStateV::AllLog(_, mains) => LoadStepV::Done(
            match reply {
                Some(o) => Some(parsed_log(o, mains)),
                None => None,
            },
        ),
    }
}

/// Starts reading a repository's log from `since`: the first git question.
pub fn load_repo_start(since: i64) -> (r: LoadStep)
    ensures
        r@ == load_next(
            RepoLoadV { since, state: LoadStateV::FindMain(MainRefStateV::Start) },
            None,
        ),
        r matches LoadStep::Ask(_, args) ==> read_only(str_views(args@)),
{
    load_repo(RepoLoad { since, state: LoadState::FindMain(MainRefState::Start) }, None)
}

/// One move of reading a repository's log (see [`load_next`]); git is run by
/// the caller, read-only subcommands only.
pub fn load_repo(load: RepoLoad, reply: Option<&str>) -> (r: LoadStep)
    ensures
        r@ == load_next(
            load@,
            match reply {
                Some(t) => Some(t@),
                None => None,
            },
        ),
        r matches LoadStep::Ask(_, args) ==> read_only(str_views(args@)),
{
    let since = load.since;
    match load.state {
        LoadState::FindMain(ms) => match main_ref(ms, reply) {
            MainRefStep::Ask(next, args) => LoadStep::Ask(
                RepoLoad { since, state: LoadState::FindMain(next) },
                args,
            ),
            MainRefStep::Found(main) => match since_arg(since) {
                None => LoadStep::Done(None),
                Some(a) => match main {
                    Some(m) => {
                        let args = main_log_args(m.as_str(), a.as_str());
                        LoadStep::Ask(RepoLoad { since, state: LoadState::MainLog(a) }, args)
                    },
                    None => {
                        let args = all_log_args(a.as_str());
                        let none: Vec<String> = Vec::new();
                        assert(str_views(none@) =~= Seq::<Seq<char>>::empty());
                        LoadStep::Ask(RepoLoad { since, state: LoadState::AllLog(a, none) }, args)
                    },
                },
            },
        },
        LoadState::MainLog(a) => {
            let shas = match reply {
                Some(o) => parse_sha_lines(o),
                None => {
                    let none: Vec<String> = Vec::new();
                    assert(str_views(none@) =~= Seq::<Seq<char>>::empty());
                    none
                },
            };
            let args = all_log_args(a.as_str());
            LoadStep::Ask(RepoLoad { since, state: LoadState::AllLog(a, shas) }, args)
        },
        LoadState::AllLog(_, mains) => match reply {
            Some(o) => LoadStep::Done(Some(parse_repo_log(o, mains.as_slice()))),
            None => LoadStep::Done(None),
        },
    }
}

/// How long a computed outcome report is reused, in seconds (classifying
/// runs git in every repository, far too heavy for the refresh poll).
pub const OUTCOME_TTL_SECS: i64 = 300;

/// Whether a report computed at `computed_at` is still fresh at `now`.
pub fn report_fresh(now: i64, computed_at: i64) -> (b: bool)
    requires
        i64::MIN <= now - computed_at <= i64::MAX,
    ensures
        b == (now - computed_at < OUTCOME_TTL_SECS),
{
    now - computed_at < OUTCOME_TTL_SECS
}

/// The report's window: the current week when the weekly reset is known
/// (its end clamped to `now`), else the last seven days.
pub fn report_window(week: Option<(i64, i64)>, now: i64) -> (r: (i64, i64))
    requires
        now >= i64::MIN + 604800,
    ensures
        r == match week {
            Some((s, e)) => (s, if e < now {
                e
            } else {
                now
            }),
            None => ((now - 604800) as i64, now),
        },
{
    match week {
        Some((s, e)) => (s, if e < now {
            e
        } else {
            now
        }),
        None => (now - 604800, now),
    }
}

/// Whether a span belongs to the project whose working directory is `cwd`.
pub fn span_in_cwd(span: &SessionSpan, cwd: &str) -> (b: bool)
    ensures
        b == (span@.cwd == Some(cwd@)),
{
    match &span.cwd {
        Some(c) => str_eq(c.as_str(), cwd),
        None => false,
    }
}

} // verus!
