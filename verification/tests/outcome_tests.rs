use cctide::outcome::{
    all_log_args, classify_span, load_repo, load_repo_start, log_since, main_ref, main_log_args,
    parse_repo_log, parse_sha_lines, report_fresh, report_kinds, report_window, revert_targets,
    since_arg, span_in_cwd, span_kind, span_kind_checked, toplevel, toplevel_args, CommitInfo, Fate, LoadState,
    LoadStep, MainRefState, MainRefStep, OutcomeKind, RepoLog,
};
use cctide::scan::{EditRec, SessionSpan};

#[test]
fn revert_targets_parses_sha_lines() {
    let body =
        "Revert \"feat\"\n\nThis reverts commit 0123456789abcdef0123456789abcdef01234567.\n";
    assert_eq!(
        revert_targets(body),
        vec!["0123456789abcdef0123456789abcdef01234567".to_string()]
    );
    // Word "revert" alone never matches.
    assert!(revert_targets("revert the thing").is_empty());
    // Too-short hex is rejected.
    assert!(revert_targets("This reverts commit 0123.").is_empty());
}

#[test]
fn revert_targets_reads_every_marker_and_abbreviated_hashes() {
    let body = "This reverts commit abcdef1.\nThis reverts commit ABCDEF0123 and more";
    assert_eq!(revert_targets(body), vec!["abcdef1".to_string(), "ABCDEF0123".to_string()]);
}

fn span(cwd: Option<&str>, first_ts: i64, last_ts: i64, edits: Vec<EditRec>) -> SessionSpan {
    SessionSpan { cwd: cwd.map(|c| c.to_string()), first_ts, last_ts, points: vec![], edits }
}

fn e(file: &str, ts: i64) -> EditRec {
    EditRec { path: format!("/repo/{file}"), ts }
}

#[test]
fn classify_majority_and_tie_break() {
    // commit 0: in main, clean; commit 1: never reached main.
    let log = RepoLog {
        commits: vec![
            CommitInfo { ts: 200, in_main: true, reverted: false },
            CommitInfo { ts: 200, in_main: false, reverted: false },
        ],
        files: vec![vec!["shipped.rs".to_string()], vec!["pending.rs".to_string()]],
    };
    let mk = |edits: Vec<EditRec>| span(Some("/repo"), 100, 150, edits);
    // Majority wins: 2 pending vs 1 shipped → Pending.
    let s = mk(vec![e("pending.rs", 100), e("pending.rs", 100), e("shipped.rs", 100)]);
    assert_eq!(classify_span(&s, "/repo", &log), Fate::Pending);
    // Tie breaks toward the better outcome: 1 shipped vs 1 abandoned → Shipped.
    let s = mk(vec![e("shipped.rs", 100), e("never-committed.rs", 100)]);
    assert_eq!(classify_span(&s, "/repo", &log), Fate::Shipped);
}

fn sample_log() -> String {
    // Three commits, newest first as git prints them: a revert of the
    // second, the second, and a first one on another branch.
    format!(
        "\x1e{c}\x1f300\x1fRevert \"bad\"\n\nThis reverts commit {b7}.\n\x1d\n\n\x1e{b}\x1f200\x1fbad\n\x1d\n\na.rs\nsrc/b.rs\n\x1e{a}\x1f100\x1finit\n\x1d\n\na.rs\n",
        c = "c".repeat(40),
        b = "b".repeat(40),
        b7 = "b".repeat(7),
        a = "a".repeat(40),
    )
}

#[test]
fn parse_repo_log_reads_commits_files_and_reverts() {
    let mains = vec!["c".repeat(40), "b".repeat(40)];
    let log = parse_repo_log(&sample_log(), &mains);
    assert_eq!(
        log.commits,
        vec![
            CommitInfo { ts: 300, in_main: true, reverted: false },
            CommitInfo { ts: 200, in_main: true, reverted: true },
            CommitInfo { ts: 100, in_main: false, reverted: false },
        ]
    );
    assert_eq!(
        log.files,
        vec![vec![], vec!["a.rs".to_string(), "src/b.rs".to_string()], vec!["a.rs".to_string()]]
    );
}

#[test]
fn parse_repo_log_of_empty_output_has_no_commits() {
    let log = parse_repo_log("", &[]);
    assert!(log.commits.is_empty());
    assert!(log.files.is_empty());
}

#[test]
fn parse_repo_log_defaults_a_bad_time_to_zero() {
    let log = parse_repo_log("\x1eabc\x1fnot-a-time\x1fmsg", &[]);
    assert_eq!(log.commits, vec![CommitInfo { ts: 0, in_main: false, reverted: false }]);
    assert_eq!(log.files, vec![Vec::<String>::new()]);
}

#[test]
fn edit_fate_takes_the_first_commit_after_the_edit() {
    let log = parse_repo_log(&sample_log(), &["c".repeat(40), "b".repeat(40)]);
    // a.rs: commits at 100 (not on main) and 200 (reverted).
    assert_eq!(log.edit_fate("a.rs", 50), Fate::Pending);
    assert_eq!(log.edit_fate("a.rs", 150), Fate::Reverted);
    assert_eq!(log.edit_fate("a.rs", 250), Fate::Abandoned);
    assert_eq!(log.edit_fate("src/b.rs", 200), Fate::Reverted);
    assert_eq!(log.edit_fate("missing.rs", 0), Fate::Abandoned);
}

#[test]
fn edit_fate_breaks_time_ties_by_log_order() {
    let log = RepoLog {
        commits: vec![
            CommitInfo { ts: 10, in_main: false, reverted: false },
            CommitInfo { ts: 10, in_main: true, reverted: false },
        ],
        files: vec![vec!["f".to_string()], vec!["f".to_string()]],
    };
    assert_eq!(log.edit_fate("f", 5), Fate::Pending);
}

#[test]
fn temporal_fate_is_the_best_commit_while_active() {
    let log = RepoLog {
        commits: vec![
            CommitInfo { ts: 100, in_main: true, reverted: true },
            CommitInfo { ts: 4000, in_main: false, reverted: false },
            CommitInfo { ts: 9000, in_main: true, reverted: false },
        ],
        files: vec![vec![], vec![], vec![]],
    };
    assert_eq!(log.temporal_fate(100, 100), Fate::Reverted);
    // The window runs an hour past the last activity.
    assert_eq!(log.temporal_fate(100, 500), Fate::Pending);
    assert_eq!(log.temporal_fate(5000, 5500), Fate::Shipped);
    assert_eq!(log.temporal_fate(10_000, 11_000), Fate::Abandoned);
}

#[test]
fn edits_outside_the_repository_fall_back_to_time() {
    let log = RepoLog {
        commits: vec![CommitInfo { ts: 120, in_main: true, reverted: false }],
        files: vec![vec!["a.rs".to_string()]],
    };
    let s = span(
        Some("/repo"),
        100,
        200,
        vec![EditRec { path: "/elsewhere/memory.md".to_string(), ts: 150 }],
    );
    assert_eq!(classify_span(&s, "/repo", &log), Fate::Shipped);
}

#[test]
fn span_kind_without_repository_is_non_repo() {
    let s = span(None, 0, 10, vec![]);
    assert_eq!(span_kind(&s, None, None), OutcomeKind::NonRepo);
    let log = RepoLog { commits: vec![], files: vec![] };
    assert_eq!(span_kind(&s, Some("/r"), None), OutcomeKind::NonRepo);
    assert_eq!(span_kind(&s, Some("/r"), Some(&log)), OutcomeKind::Abandoned);
}

#[test]
fn report_lists_five_kinds_in_order() {
    let labels: Vec<String> = report_kinds().iter().map(|k| k.label()).collect();
    assert_eq!(labels, vec!["shipped", "pending", "reverted", "abandoned", "non_repo"]);
}

#[test]
fn toplevel_trims_git_output() {
    assert_eq!(toplevel(Some("/home/u/repo\n")), Some("/home/u/repo".to_string()));
    assert_eq!(toplevel(None), None);
}

#[test]
fn git_queries_only_read() {
    let readers = ["rev-parse", "symbolic-ref", "log"];
    let all = [toplevel_args(), main_log_args("main", "--since=x"), all_log_args("--since=x")];
    for args in all.iter() {
        assert!(readers.contains(&args[0].as_str()));
    }
    assert_eq!(
        all_log_args("--since=x"),
        vec!["log", "--all", "--since=x", "--name-only", "--format=%x1e%H%x1f%ct%x1f%B%x1d"]
    );
}

/// Drives the main-branch search against canned git answers.
fn search(origin_head: Option<&str>, refs: &[&str]) -> Option<String> {
    let mut state = MainRefState::Start;
    let mut reply: Option<String> = None;
    for _ in 0..5 {
        match main_ref(state, reply.as_deref()) {
            MainRefStep::Found(r) => return r,
            MainRefStep::Ask(next, args) => {
                reply = if args[0] == "symbolic-ref" {
                    origin_head.map(|s| s.to_string())
                } else if refs.contains(&args[3].as_str()) {
                    Some(String::new())
                } else {
                    None
                };
                state = next;
            }
        }
    }
    panic!("the search did not end");
}

#[test]
fn main_ref_prefers_the_remote_default_branch() {
    assert_eq!(search(Some("refs/remotes/origin/trunk\n"), &["trunk", "main"]), Some("trunk".to_string()));
    assert_eq!(search(Some("refs/remotes/origin/trunk\n"), &["main"]), Some("origin/trunk".to_string()));
    assert_eq!(search(None, &["main", "master"]), Some("main".to_string()));
    assert_eq!(search(None, &["master"]), Some("master".to_string()));
    assert_eq!(search(Some("garbage"), &[]), None);
}

#[test]
fn loading_a_repository_asks_in_order() {
    let step = load_repo_start(86_400);
    let (load, args) = match step {
        LoadStep::Ask(l, a) => (l, a),
        LoadStep::Done(_) => panic!("expected a question"),
    };
    assert_eq!(args, vec!["symbolic-ref", "refs/remotes/origin/HEAD"]);
    // No remote default; `main` exists.
    let (load, args) = match load_repo(load, None) {
        LoadStep::Ask(l, a) => (l, a),
        LoadStep::Done(_) => panic!("expected a question"),
    };
    assert_eq!(args, vec!["rev-parse", "--verify", "--quiet", "main"]);
    let (load, args) = match load_repo(load, Some("abc\n")) {
        LoadStep::Ask(l, a) => (l, a),
        LoadStep::Done(_) => panic!("expected a question"),
    };
    assert_eq!(args, vec!["log", "main", "--since=1970-01-02T00:00:00+00:00", "--format=%H"]);
    let main_out = format!("{}\n", "b".repeat(40));
    let (load, args) = match load_repo(load, Some(&main_out)) {
        LoadStep::Ask(l, a) => (l, a),
        LoadStep::Done(_) => panic!("expected a question"),
    };
    assert!(matches!(load.state, LoadState::AllLog(_, _)));
    assert_eq!(args[0], "log");
    match load_repo(load, Some(&sample_log())) {
        LoadStep::Done(Some(log)) => {
            assert_eq!(log.commits.len(), 3);
            assert!(log.commits[1].in_main && log.commits[1].reverted);
            assert!(!log.commits[0].in_main);
        }
        _ => panic!("expected the log"),
    }
}

#[test]
fn a_failed_log_query_gives_no_log() {
    let load = match load_repo_start(0) {
        LoadStep::Ask(l, _) => l,
        LoadStep::Done(_) => panic!("expected a question"),
    };
    let load = match load_repo(load, None) {
        LoadStep::Ask(l, _) => l,
        LoadStep::Done(_) => panic!("expected a question"),
    };
    let load = match load_repo(load, None) {
        LoadStep::Ask(l, _) => l,
        LoadStep::Done(_) => panic!("expected a question"),
    };
    // Neither main nor master: straight to the full log.
    let load = match load_repo(load, None) {
        LoadStep::Ask(l, a) => {
            assert_eq!(a[1], "--all");
            l
        }
        LoadStep::Done(_) => panic!("expected a question"),
    };
    assert!(matches!(load_repo(load, None), LoadStep::Done(None)));
}

#[test]
fn since_argument_is_rfc3339_utc() {
    assert_eq!(since_arg(0), Some("--since=1970-01-01T00:00:00+00:00".to_string()));
    assert_eq!(since_arg(i64::MAX), None);
}

#[test]
fn sha_lines_are_trimmed() {
    assert_eq!(parse_sha_lines("a1 \r\n b2\n"), vec!["a1".to_string(), "b2".to_string()]);
}

#[test]
fn window_and_freshness() {
    assert_eq!(log_since(1_000_000), 1_000_000 - 604_800);
    assert_eq!(report_window(Some((10, 50)), 20), (10, 20));
    assert_eq!(report_window(None, 1_000_000), (1_000_000 - 604_800, 1_000_000));
    assert!(report_fresh(1_299, 1_000));
    assert!(!report_fresh(1_300, 1_000));
}

#[test]
fn spans_filter_by_working_directory() {
    assert!(span_in_cwd(&span(Some("/p"), 0, 0, vec![]), "/p"));
    assert!(!span_in_cwd(&span(Some("/p"), 0, 0, vec![]), "/q"));
    assert!(!span_in_cwd(&span(None, 0, 0, vec![]), "/p"));
}

#[test]
fn checked_classification_refuses_only_an_unformable_fallback() {
    let log = RepoLog { commits: vec![], files: vec![] };
    let late = span(Some("/repo"), 0, i64::MAX, vec![]);
    assert_eq!(span_kind_checked(&late, Some("/repo"), Some(&log)), None);
    // With an edit inside the repository no fallback is needed.
    let edited = span(Some("/repo"), 0, i64::MAX, vec![e("a.rs", 5)]);
    assert_eq!(span_kind_checked(&edited, Some("/repo"), Some(&log)), Some(OutcomeKind::Abandoned));
    assert_eq!(span_kind_checked(&late, None, None), Some(OutcomeKind::NonRepo));
    let normal = span(Some("/repo"), 0, 10, vec![]);
    assert_eq!(span_kind_checked(&normal, Some("/repo"), Some(&log)), Some(OutcomeKind::Abandoned));
}
