use cctide::context::{
    dedup_sessions, is_interactive, is_session_file, last_activity, resolve_transcript,
    session_has_activity, status_from, ACTIVE_THRESHOLD_SECS,
};
use cctide::scan::{encode_cwd, CachedFile, LastCtx, ScanCache};

fn entries(v: &[(&str, u64)]) -> Vec<(String, u64)> {
    v.iter().map(|(id, t)| (id.to_string(), *t)).collect()
}

#[test]
fn dedup_by_session_id_keeps_richest() {
    // Same session id twice (resumed session) → collapsed to richest context.
    let s = entries(&[("a", 50_000), ("a", 120_000)]);
    let kept = dedup_sessions(&s);
    assert_eq!(kept.len(), 1);
    assert_eq!(s[kept[0]].1, 120_000);
}

#[test]
fn same_cwd_distinct_sessions_kept_separate() {
    // Two interactive sessions in the same project have distinct ids → both shown.
    let kept = dedup_sessions(&entries(&[("tab1", 80_000), ("tab2", 10_000)]));
    assert_eq!(kept.len(), 2, "independent sessions in same cwd kept");
}

#[test]
fn different_cwds_kept_separate() {
    let kept = dedup_sessions(&entries(&[("a", 50_000), ("b", 10_000)]));
    assert_eq!(kept.len(), 2);
}

#[test]
fn sort_by_context_tokens_descending() {
    let s = entries(&[("low", 10_000), ("high", 150_000), ("mid", 50_000)]);
    let order = dedup_sessions(&s);
    assert_eq!(s[order[0]].0, "high");
    assert_eq!(s[order[1]].0, "mid");
    assert_eq!(s[order[2]].0, "low");
}

#[test]
fn dedup_keeps_first_of_equal_context() {
    let s = entries(&[("x", 10), ("y", 30), ("x", 10), ("y", 5)]);
    assert_eq!(dedup_sessions(&s), vec![1, 0]);
}

#[test]
fn dedup_ties_keep_input_order() {
    let s = entries(&[("b", 7), ("a", 7), ("c", 9)]);
    assert_eq!(dedup_sessions(&s), vec![2, 0, 1]);
}

#[test]
fn dedup_of_nothing_is_empty() {
    assert!(dedup_sessions(&[]).is_empty());
}

/// Cache with transcripts under `/proj`'s project folder: `own.jsonl`
/// (mtime 100) and `other.jsonl` (mtime 200, the most recent).
fn two_transcript_cache() -> (ScanCache, String, String) {
    let mut cache = ScanCache::new();
    let dir = format!("/root/.agent/projects/{}", encode_cwd("/proj"));
    let own = format!("{dir}/own.jsonl");
    let other = format!("{dir}/other.jsonl");
    let mut f = CachedFile::empty();
    f.mtime = 100;
    cache.store_file(own.clone(), f);
    let mut g = CachedFile::empty();
    g.mtime = 200;
    cache.store_file(other.clone(), g);
    (cache, own, other)
}

#[test]
fn resolve_prefers_own_transcript_over_newer_sibling() {
    let (cache, own, _) = two_transcript_cache();
    let got = resolve_transcript(&cache, "own", "/proj", &[]);
    assert_eq!(got, Some(own));
}

#[test]
fn resolve_borrows_latest_unowned_cwd_transcript() {
    let (cache, _, other) = two_transcript_cache();
    let got = resolve_transcript(&cache, "resumed-id", "/proj", &[]);
    assert_eq!(got, Some(other));
}

#[test]
fn resolve_never_borrows_a_transcript_owned_by_a_live_session() {
    let (cache, _, other) = two_transcript_cache();
    let got = resolve_transcript(&cache, "fresh-tab", "/proj", &[other]);
    assert_eq!(got, None);
}

#[test]
fn resolve_none_for_unknown_cwd() {
    let (cache, _, _) = two_transcript_cache();
    let got = resolve_transcript(&cache, "any", "/elsewhere", &[]);
    assert_eq!(got, None);
}

#[test]
fn status_from_keeps_file_value() {
    let s = status_from(Some("idle".to_string()), Some(1_000_000), 1_000_010);
    assert_eq!(s.as_deref(), Some("idle"));
}

#[test]
fn status_from_recent_activity_is_active() {
    let s = status_from(None, Some(1_000_000), 1_000_000 + ACTIVE_THRESHOLD_SECS - 1);
    assert_eq!(s.as_deref(), Some("active"));
}

#[test]
fn status_from_old_activity_is_idle() {
    let s = status_from(None, Some(1_000_000), 1_000_000 + ACTIVE_THRESHOLD_SECS);
    assert_eq!(s.as_deref(), Some("idle"));
}

#[test]
fn status_from_nothing_is_none() {
    assert_eq!(status_from(None, None, 1_000_000), None);
}

#[test]
fn zero_context_session_is_hidden() {
    // A fresh tab with no assistant turn (context 0) is not surfaced…
    assert!(!session_has_activity(0));
    // …but any real consumption makes it visible.
    assert!(session_has_activity(1));
    assert!(session_has_activity(150_000));
}

#[test]
fn only_interactive_or_unspecified_kinds_are_shown() {
    assert!(is_interactive(None));
    assert!(is_interactive(Some("interactive")));
    assert!(!is_interactive(Some("background")));
    assert!(!is_interactive(Some("")));
}

#[test]
fn session_files_are_json() {
    assert!(is_session_file("/home/u/.agent/sessions/123.json"));
    assert!(!is_session_file("/home/u/.agent/sessions/123.json.tmp"));
    assert!(!is_session_file("/home/u/.agent/sessions/README"));
}

#[test]
fn last_activity_prefers_session_file_milliseconds() {
    assert_eq!(last_activity(Some(1_700_000_123_456), Some(5)), Some(1_700_000_123));
    assert_eq!(last_activity(None, Some(42)), Some(42));
    assert_eq!(last_activity(None, None), None);
    // Rust's integer division rounds toward zero.
    assert_eq!(last_activity(Some(-1_500), None), Some(-1));
}

#[test]
fn resolved_transcript_feeds_path_getters() {
    let mut cache = ScanCache::new();
    let dir = format!("/root/.agent/projects/{}", encode_cwd("/w"));
    let mut f = CachedFile::empty();
    f.mtime = 7;
    f.last_ctx = Some(LastCtx { model: "model-opus-4-8".to_string(), context_tokens: 1234 });
    cache.store_file(format!("{dir}/s.jsonl"), f);
    let t = resolve_transcript(&cache, "s", "/w", &[]).unwrap();
    assert_eq!(cache.last_ctx_for(&t).unwrap().context_tokens, 1234);
    assert_eq!(cache.mtime_for(&t), Some(7));
}
