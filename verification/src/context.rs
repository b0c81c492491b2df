//! Open agent sessions and how full their context window is.
//!
//! Active sessions are described by `<data-dir>/sessions/<pid>.json` (the agent's data folder); the
//! caller reads those files and checks which processes are alive. This
//! module decides which sessions to show, which transcript each one
//! displays, its status, and how duplicates collapse.
use vstd::prelude::*;

use crate::paths::{extension_of, opt_view, spec_extension};
use crate::scan::{encoded_cwd, first_named, latest_of, ScanCache};
use crate::text::{list_contains, str_eq, str_views};

verus! {

/// A session is shown "active" when its last activity is more recent than
/// this many seconds.
pub const ACTIVE_THRESHOLD_SECS: i64 = 120;

/// Whether an open session is worth surfacing: it must have consumed
/// something, i.e. its transcript holds at least one assistant turn
/// (non-zero context). A fresh tab that has only run local slash-commands
/// has no context and is hidden, like a session with no transcript at all.
pub fn session_has_activity(context_tokens: u64) -> (b: bool)
    ensures
        b == (context_tokens > 0),
{
    context_tokens > 0
}

/// The status shown for a session: the session file's value when present,
/// else "active" or "idle" from the last activity, else none.
pub open spec fn status_spec(file_status: Option<Seq<char>>, updated_at: Option<i64>, now: i64) -> Option<Seq<char>> {
    match file_status {
        Some(s) => Some(s),
        None => match updated_at {
            Some(t) => Some(
                if now - t < ACTIVE_THRESHOLD_SECS {
                    "active"@
                } else {
                    "idle"@
                },
            ),
            None => None,
        },
    }
}

/// Status fallback: keep the session file's value when present (CLI
/// sessions write one), otherwise classify from the last-activity timestamp
/// (VSCode sessions often lack both).
pub fn status_from(file_status: Option<String>, updated_at: Option<i64>, now: i64) -> (r: Option<String>)
    requires
        file_status is None ==> (updated_at matches Some(t) ==> i64::MIN <= now - t <= i64::MAX),
    ensures
        opt_view(r) == status_spec(opt_view(file_status), updated_at, now),
{
    match file_status {
        Some(s) => Some(s),
        None => match updated_at {
            Some(t) => {
                if now - t < ACTIVE_THRESHOLD_SECS {
                    Some(String::from_str("active"))
                } else {
                    Some(String::from_str("idle"))
                }
            },
            None => None,
        },
    }
}

/// Whether a session file describes a user-facing session: its `kind` is
/// "interactive", or absent (older agent versions do not write it).
pub fn is_interactive(kind: Option<&str>) -> (b: bool)
    ensures
        b == match kind {
            Some(k) => k@ == "interactive"@,
            None => true,
        },
{
    match kind {
        Some(k) => str_eq(k, "interactive"),
        None => true,
    }
}

/// Whether a directory entry is a session file (`.json` extension).
pub fn is_session_file(path: &str) -> (b: bool)
    ensures
        b == (spec_extension(path@) == Some("json"@)),
{
    match extension_of(path) {
        Some(e) => str_eq(e.as_str(), "json"),
        None => false,
    }
}

/// The transcript a session displays: its own, found by session id; else
/// the most recent one of its working directory, unless another live session
/// owns that one; else none.
pub open spec fn resolved_transcript(
    cache: ScanCache,
    session_id: Seq<char>,
    cwd: Seq<char>,
    owned: Seq<Seq<char>>,
) -> Option<Seq<char>> {
    match first_named(cache.entries(), session_id + ".jsonl"@) {
        Some(p) => Some(p),
        None => match latest_of(cache.entries(), encoded_cwd(cwd)) {
            Some(p) => if owned.contains(p) {
                None
            } else {
                Some(p)
            },
            None => None,
        },
    }
}

/// Resolves the transcript a session should display: its own (matched by
/// session id), else the cwd's most recent one (resumed sessions keep
/// writing to the original conversation's file) — unless another live
/// session owns that one, in which case a fresh empty tab must not mirror
/// its sibling's conversation. `owned` lists the transcripts the live
/// sessions own by id.
pub fn resolve_transcript(cache: &ScanCache, session_id: &str, cwd: &str, owned: &[String]) -> (r: Option<String>)
    ensures
        opt_view(r) == resolved_transcript(*cache, session_id@, cwd@, str_views(owned@)),
{
    match cache.jsonl_for_session(session_id) {
        Some(p) => Some(p),
        None => match cache.latest_jsonl_for_cwd(cwd) {
            Some(p) => {
                if list_contains(owned, p.as_str()) {
                    None
                } else {
                    Some(p)
                }
            },
            None => None,
        },
    }
}

/// `ms / 1000` in Rust's integer division (rounding toward zero).
pub open spec fn millis_to_secs(ms: i64) -> int {
    if ms >= 0 {
        ms as int / 1000
    } else {
        -((-(ms as int)) / 1000)
    }
}

/// Last activity of a session, Unix seconds: the session file's
/// `updatedAt` (milliseconds) when present, else the transcript's mtime.
pub fn last_activity(updated_ms: Option<i64>, mtime: Option<i64>) -> (r: Option<i64>)
    ensures
        r == match updated_ms {
            Some(ms) => Some(millis_to_secs(ms) as i64),
            None => mtime,
        },
{
    match updated_ms {
        Some(ms) => {
            if ms >= 0 {
                Some(ms / 1000)
            } else {
                let m: i128 = 0i128 - (ms as i128);
                let q: i128 = m / 1000;
                Some((0i128 - q) as i64)
            }
        },
        None => mtime,
    }
}

/// Session ids and context sizes of the listed sessions.
pub open spec fn id_tokens(v: Seq<(String, u64)>) -> Seq<(Seq<char>, u64)> {
    v.map_values(|p: (String, u64)| (p.0@, p.1))
}

/// Entry `i` is the one kept for its session id: the first entry with the
/// largest context among those sharing its id.
pub open spec fn kept_for_id(es: Seq<(Seq<char>, u64)>, i: int) -> bool {
    &&& 0 <= i < es.len()
    &&& forall|j: int|
        0 <= j < es.len() && (#[trigger] es[j]).0 == es[i].0 ==> es[j].1 <= es[i].1 && (j < i
            ==> es[j].1 < es[i].1)
}

/// Entry `a` is listed before entry `b`: larger context first, then the
/// earlier entry first.
pub open spec fn listed_before(es: Seq<(Seq<char>, u64)>, a: int, b: int) -> bool {
    es[a].1 > es[b].1 || (es[a].1 == es[b].1 && a < b)
}

fn is_kept(v: &[(String, u64)], i: usize) -> (b: bool)
    requires
        i < v@.len(),
    ensures
        b == kept_for_id(id_tokens(v@), i as int),
{
    let ghost es = id_tokens(v@);
    let mut j: usize = 0;
    while j < v.len()
        invariant
            i < v@.len(),
            j <= v@.len(),
            es == id_tokens(v@),
            forall|t: int|
                0 <= t < j && (#[trigger] es[t]).0 == es[i as int].0 ==> es[t].1 <= es[i as int].1
                    && (t < i ==> es[t].1 < es[i as int].1),
        decreases v@.len() - j,
    {
        assert(es[j as int] == (v@[j as int].0@, v@[j as int].1));
        assert(es[i as int] == (v@[i as int].0@, v@[i as int].1));
        if str_eq(v[j].0.as_str(), v[i].0.as_str()) {
            if v[j].1 > v[i].1 || (j < i && v[j].1 == v[i].1) {
                assert(es[j as int].0 == es[i as int].0);
                return false;
            }
        }
        j = j + 1;
    }
    true
}

pub(crate) proof fn lemma_insert_contains(s: Seq<usize>, p: int, x: usize, y: usize)
    requires
        0 <= p <= s.len(),
    ensures
        s.insert(p, x).contains(y) == (s.contains(y) || y == x),
{
    s.insert_ensures(p, x);
    if s.contains(y) {
        let q = choose|q: int| 0 <= q < s.len() && s[q] == y;
        if q < p {
            assert(s.insert(p, x)[q] == y);
        } else {
            assert(s.insert(p, x)[q + 1] == y);
        }
    }
    if y == x {
        assert(s.insert(p, x)[p] == y);
    }
    if s.insert(p, x).contains(y) {
        let q = choose|q: int| 0 <= q < s.insert(p, x).len() && s.insert(p, x)[q] == y;
        if q < p {
            assert(s[q] == y);
        } else if q > p {
            assert(s[q - 1] == y);
        }
    }
}

proof fn lemma_insert_sorted(es: Seq<(Seq<char>, u64)>, out: Seq<usize>, p: int, x: usize)
    requires
        0 <= p <= out.len(),
        x < es.len(),
        forall|q: int| 0 <= q < out.len() ==> #[trigger] out[q] < es.len() && out[q] != x,
        forall|a: int, b: int|
            0 <= a < b < out.len() ==> listed_before(es, #[trigger] out[a] as int, #[trigger] out[b] as int),
        forall|q: int| 0 <= q < p ==> !listed_before(es, x as int, #[trigger] out[q] as int),
        p < out.len() ==> listed_before(es, x as int, out[p] as int),
    ensures
        forall|a: int, b: int|
            0 <= a < b < out.insert(p, x).len() ==> listed_before(
                es,
                #[trigger] out.insert(p, x)[a] as int,
                #[trigger] out.insert(p, x)[b] as int,
            ),
{
    out.insert_ensures(p, x);
    let n = out.insert(p, x);
    assert forall|a: int, b: int| 0 <= a < b < n.len() implies listed_before(
        es,
        #[trigger] n[a] as int,
        #[trigger] n[b] as int,
    ) by {
        if b < p {
            assert(n[a] == out[a] && n[b] == out[b]);
        } else if b == p {
            assert(n[a] == out[a]);
            assert(!listed_before(es, x as int, out[a] as int));
        } else if a > p {
            assert(n[a] == out[a - 1] && n[b] == out[b - 1]);
        } else if a == p {
            assert(n[b] == out[b - 1]);
            if b - 1 > p {
                assert(listed_before(es, out[p] as int, out[b - 1] as int));
            }
        } else {
            assert(n[a] == out[a] && n[b] == out[b - 1]);
        }
    }
}

/// Collapses sessions listed several times under one id (a resumed session
/// runs under several processes) to the entry with the most context — the
/// first such entry — and orders the survivors by context, largest first
/// (earlier entries first among equal ones). Distinct sessions in one
/// working directory stay separate. Input: (session id, context tokens) per
/// entry; output: the indices of the entries kept, in display order.
pub fn dedup_sessions(sessions: &[(String, u64)]) -> (r: Vec<usize>)
    ensures
        forall|k: int| 0 <= k < r@.len() ==> kept_for_id(id_tokens(sessions@), #[trigger] r@[k] as int),
        forall|i: int| kept_for_id(id_tokens(sessions@), i) ==> r@.contains(i as usize),
        forall|k: int, l: int|
            0 <= k < l < r@.len() ==> listed_before(
                id_tokens(sessions@),
                #[trigger] r@[k] as int,
                #[trigger] r@[l] as int,
            ),
{
    let ghost es = id_tokens(sessions@);
    let mut kept: Vec<usize> = Vec::new();
    let mut i: usize = 0;
    while i < sessions.len()
        invariant
            i <= sessions@.len(),
            es == id_tokens(sessions@),
            forall|k: int|
                0 <= k < kept@.len() ==> kept_for_id(es, #[trigger] kept@[k] as int) && kept@[k] < i,
            forall|a: int, b: int| 0 <= a < b < kept@.len() ==> #[trigger] kept@[a] < #[trigger] kept@[b],
            forall|t: int| 0 <= t < i && kept_for_id(es, t) ==> kept@.contains(t as usize),
        decreases sessions@.len() - i,
    {
        if is_kept(sessions, i) {
            let ghost before = kept@;
            kept.push(i);
            assert(kept@[before.len() as int] == i);
            assert forall|t: int| 0 <= t < i + 1 && kept_for_id(es, t) implies kept@.contains(
                t as usize,
            ) by {
                if t == i {
                    assert(kept@[before.len() as int] == t);
                } else {
                    let q = choose|q: int| 0 <= q < before.len() && before[q] == t as usize;
                    assert(kept@[q] == t);
                }
            }
        }
        i = i + 1;
    }
    let mut out: Vec<usize> = Vec::new();
    let mut k: usize = 0;
    while k < kept.len()
        invariant
            k <= kept@.len(),
            es == id_tokens(sessions@),
            es.len() == sessions@.len(),
            forall|q: int| 0 <= q < kept@.len() ==> kept_for_id(es, #[trigger] kept@[q] as int),
            forall|t: int| 0 <= t < sessions@.len() && kept_for_id(es, t) ==> kept@.contains(t as usize),
            forall|a: int, b: int| 0 <= a < b < kept@.len() ==> #[trigger] kept@[a] < #[trigger] kept@[b],
            forall|t: int| 0 <= t < k ==> out@.contains(#[trigger] kept@[t]),
            forall|q: int| 0 <= q < out@.len() ==> kept@.take(k as int).contains(#[trigger] out@[q]),
            forall|a: int, b: int|
                0 <= a < b < out@.len() ==> listed_before(es, #[trigger] out@[a] as int, #[trigger] out@[b] as int),
        decreases kept@.len() - k,
    {
        let x = kept[k];
        assert(kept_for_id(es, x as int));
        assert forall|q: int| 0 <= q < out@.len() implies #[trigger] out@[q] < es.len() && out@[q] != x by {
            assert(kept@.take(k as int).contains(out@[q]));
            let t = choose|t: int| 0 <= t < k && kept@.take(k as int)[t] == out@[q];
            assert(kept@[t] == out@[q]);
            assert(kept_for_id(es, kept@[t] as int));
        }
        let mut p: usize = 0;
        while p < out.len() && !(sessions[x].1 > sessions[out[p]].1 || (sessions[x].1
            == sessions[out[p]].1 && x < out[p]))
            invariant
                p <= out@.len(),
                x < sessions@.len(),
                es == id_tokens(sessions@),
                forall|q: int| 0 <= q < out@.len() ==> #[trigger] out@[q] < es.len() && out@[q] != x,
                forall|q: int| 0 <= q < p ==> !listed_before(es, x as int, #[trigger] out@[q] as int),
            decreases out@.len() - p,
        {
            p = p + 1;
        }
        let ghost old_out = out@;
        proof {
            lemma_insert_sorted(es, old_out, p as int, x);
        }
        out.insert(p, x);
        proof {
            assert forall|t: int| 0 <= t < k + 1 implies out@.contains(#[trigger] kept@[t]) by {
                lemma_insert_contains(old_out, p as int, x, kept@[t]);
            }
            assert forall|q: int| 0 <= q < out@.len() implies kept@.take(k + 1).contains(
                #[trigger] out@[q],
            ) by {
                lemma_insert_contains(old_out, p as int, x, out@[q]);
                if out@[q] == x {
                    assert(kept@.take(k + 1)[k as int] == x);
                } else {
                    assert(old_out.contains(out@[q]));
                    let q2 = choose|q2: int| 0 <= q2 < old_out.len() && old_out[q2] == out@[q];
                    assert(kept@.take(k as int).contains(old_out[q2]));
                    let t = choose|t: int| 0 <= t < k && kept@.take(k as int)[t] == old_out[q2];
                    assert(kept@.take(k + 1)[t] == out@[q]);
                }
            }
        }
        k = k + 1;
    }
    proof {
        assert forall|q: int| 0 <= q < out@.len() implies kept_for_id(es, #[trigger] out@[q] as int) by {
            let t = choose|t: int| 0 <= t < k && kept@.take(k as int)[t] == out@[q];
            assert(kept@[t] == out@[q]);
        }
        assert forall|i: int| kept_for_id(es, i) implies out@.contains(i as usize) by {
            assert(kept@.contains(i as usize));
            let t = choose|t: int| 0 <= t < kept@.len() && kept@[t] == i as usize;
            assert(out@.contains(kept@[t]));
        }
    }
    out
}

/// After deduplication every session id is shown once: two kept entries
/// never share an id.
pub proof fn lemma_one_entry_per_session(es: Seq<(Seq<char>, u64)>, a: int, b: int)
    requires
        kept_for_id(es, a),
        kept_for_id(es, b),
        a != b,
    ensures
        es[a].0 != es[b].0,
{
    if es[a].0 == es[b].0 {
        assert(es[b].1 <= es[a].1);
        assert(es[a].1 <= es[b].1);
    }
}

} // verus!
