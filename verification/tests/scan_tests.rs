use cctide::json::Json;
use cctide::scan::{
    encode_cwd, first_user_prompt, fnv1a, parse_transcript, read_usage_turn, record_time,
    CachedFile, EditRec, LastCtx, Point, ScanCache,
};

fn pt(ts: i64, key: u64) -> Point {
    Point {
        ts,
        input_tokens: 0,
        output_tokens: 0,
        cache_5m: 0,
        cache_1h: 0,
        model: "model-sonnet-4-6".to_string(),
        key,
    }
}

fn file_with(points: Vec<Point>) -> CachedFile {
    let mut f = CachedFile::empty();
    f.points = points;
    f
}

#[test]
fn dedup_by_key() {
    // Two points with the same key in different files → counted only once.
    let mut cache = ScanCache::new();
    cache.store_file("file1".to_string(), file_with(vec![pt(1000, 42)]));
    cache.store_file("file2".to_string(), file_with(vec![pt(2000, 42)]));
    cache.rebuild_points();
    let pts = cache.all_points();
    assert_eq!(pts.len(), 1);
    assert_eq!(pts[0].ts, 1000);
}

#[test]
fn encode_cwd_replaces_non_alphanumeric() {
    assert_eq!(encode_cwd("/Users/alice/my project"), "-Users-alice-my-project");
}

#[test]
fn encode_cwd_preserves_alphanumeric() {
    assert_eq!(encode_cwd("abc123"), "abc123");
}

#[test]
fn encode_cwd_is_idempotent() {
    let once = encode_cwd("/tmp/é x_y");
    assert_eq!(encode_cwd(&once), once);
    assert_eq!(once, "-tmp-é-x-y");
}

#[test]
fn fnv1a_deterministic() {
    assert_eq!(fnv1a("hello|world"), fnv1a("hello|world"));
}

#[test]
fn fnv1a_different_inputs_differ() {
    assert_ne!(fnv1a("abc|def"), fnv1a("def|abc"));
    assert_ne!(fnv1a("msg1|req1"), fnv1a("msg2|req1"));
}

#[test]
fn fnv1a_empty_string_is_offset_basis() {
    assert_eq!(fnv1a(""), 0xcbf29ce484222325);
}

#[test]
fn fnv1a_known_value() {
    // FNV-1a 64 of "a".
    assert_eq!(fnv1a("a"), 0xaf63dc4c8601ec8c);
}

#[test]
fn rebuild_points_dedup_across_files() {
    let mut cache = ScanCache::new();
    let mut f1 = file_with(vec![pt(1000, 1), pt(1100, 2)]);
    f1.mtime = 100;
    f1.size = 1000;
    let mut f2 = file_with(vec![pt(2000, 2), pt(2100, 3)]);
    f2.mtime = 200;
    f2.size = 2000;
    cache.store_file("file1".to_string(), f1);
    cache.store_file("file2".to_string(), f2);
    cache.rebuild_points();
    let pts = cache.all_points();
    // Three unique keys: 1, 2, 3; key 2 is one of its two candidates.
    assert_eq!(pts.len(), 3);
    let key2: Vec<&Point> = pts.iter().filter(|p| p.key == 2).collect();
    assert_eq!(key2.len(), 1);
    assert!(key2[0].ts == 1100 || key2[0].ts == 2000);
}

#[test]
fn latest_jsonl_for_cwd_picks_most_recent() {
    let mut cache = ScanCache::new();
    let cwd = "/home/user/proj";
    let encoded_cwd = encode_cwd(cwd);
    for (name, mtime) in [("old", 100), ("new", 200)] {
        let mut f = CachedFile::empty();
        f.mtime = mtime;
        f.size = 500;
        f.last_ctx = Some(LastCtx { model: "opus".to_string(), context_tokens: 50_000 });
        cache.store_file(format!("/root/.agent/projects/{encoded_cwd}/{name}.jsonl"), f);
    }
    let path = cache.latest_jsonl_for_cwd(cwd);
    assert!(path.is_some());
    let path = path.unwrap();
    assert!(path.contains("new.jsonl"));
    // The resolved path feeds the path-based getters.
    assert_eq!(cache.last_ctx_for(&path).unwrap().context_tokens, 50_000);
    assert_eq!(cache.mtime_for(&path), Some(200));
}

#[test]
fn latest_jsonl_for_cwd_none_for_unknown_project() {
    let cache = ScanCache::new();
    assert!(cache.latest_jsonl_for_cwd("/nowhere").is_none());
}

#[test]
fn jsonl_for_session_finds_by_filename() {
    let mut cache = ScanCache::new();
    let session_id = "abc123";
    let mut f = CachedFile::empty();
    f.mtime = 100;
    f.size = 500;
    cache.store_file(format!("/root/.agent/projects/proj1/{session_id}.jsonl"), f);
    let mut g = CachedFile::empty();
    g.mtime = 100;
    g.size = 500;
    cache.store_file("/root/.agent/projects/proj2/other.jsonl".to_string(), g);
    let path = cache.jsonl_for_session(session_id);
    assert!(path.is_some());
    assert!(path.unwrap().contains(session_id));
}

#[test]
fn project_dir_for_cwd_finds_by_encoded_name() {
    let mut cache = ScanCache::new();
    let cwd = "/Users/alice/my project/src";
    let encoded = encode_cwd(cwd);
    let project_dir = format!("/root/.agent/projects/{encoded}");
    let mut f = CachedFile::empty();
    f.mtime = 100;
    f.size = 500;
    cache.store_file(format!("{project_dir}/session1.jsonl"), f);
    let found = cache.project_dir_for_cwd(cwd);
    assert!(found.is_some());
    assert!(found.unwrap().contains(&encoded));
}

#[test]
fn points_in_file_keeps_the_window_only() {
    let mut cache = ScanCache::new();
    let path = "/root/.agent/projects/proj/sess1.jsonl";
    cache.store_file(path.to_string(), file_with(vec![pt(1_000, 1), pt(2_000, 2), pt(9_000, 3)]));
    let inside: Vec<i64> = cache.points_in_file(path, 1_000, 5_000).iter().map(|p| p.ts).collect();
    assert_eq!(inside, vec![1_000, 2_000]);
    assert!(cache.points_in_file("/none.jsonl", 0, 10_000).is_empty());
}

#[test]
fn first_user_prompt_takes_first_text_message() {
    let text: String = [
        r#"{"type":"user","message":{"content":"hello there"}}"#,
        "\n",
        r#"{"type":"assistant","message":{"usage":{}}}"#,
        "\n",
        r#"{"type":"user","message":{"content":"second"}}"#,
    ]
        .concat();
    assert_eq!(first_user_prompt(&text).as_deref(), Some("hello there"));
}

#[test]
fn first_user_prompt_from_text_blocks() {
    let text = r#"{"type":"user","message":{"content":[{"type":"text","text":"from array"}]}}"#;
    assert_eq!(first_user_prompt(&text).as_deref(), Some("from array"));
}

#[test]
fn first_user_prompt_skips_tool_results_and_commands() {
    let text: String = [
        r#"{"type":"user","message":{"content":[{"type":"tool_result","content":"x"}]}}"#,
        "\n",
        r#"{"type":"user","message":{"content":"<command-name>/m</command-name>"}}"#,
        "\n",
        r#"{"type":"user","message":{"content":"/clear"}}"#,
        "\n",
        r#"{"type":"user","message":{"content":"real prompt"}}"#,
    ]
        .concat();
    assert_eq!(first_user_prompt(&text).as_deref(), Some("real prompt"));
}

#[test]
fn first_user_prompt_truncates_to_35_with_ellipsis() {
    let long = "x".repeat(100);
    let text = format!(r#"{{"type":"user","message":{{"content":"{long}"}}}}"#);
    let t = first_user_prompt(&text).unwrap();
    assert_eq!(t.chars().count(), 35);
    assert!(t.ends_with("..."));
}

#[test]
fn first_user_prompt_none_without_prompt() {
    let text = r#"{"type":"assistant","message":{"usage":{}}}"#;
    assert_eq!(first_user_prompt(&text), None);
}

#[test]
fn first_user_prompt_takes_first_line_of_multiline_content() {
    let text = "{\"type\":\"user\",\"message\":{\"content\":\"line one\\nline two\\nline three\"}}";
    let t = first_user_prompt(&text).unwrap();
    assert_eq!(t, "line one");
}

#[test]
fn parse_file_extracts_cwd_and_edits() {
    let text: String = [
        r#"{"type":"user","cwd":"/home/u/proj","message":{"content":"do it"}}"#,
        "\n",
        r#"{"type":"assistant","timestamp":"2026-06-01T10:00:00Z","requestId":"r1","message":{"id":"m1","model":"model-sonnet-4-6","usage":{"input_tokens":1,"output_tokens":1},"content":[{"type":"tool_use","name":"Edit","input":{"file_path":"/home/u/proj/src/a.rs"}},{"type":"tool_use","name":"Read","input":{"file_path":"/home/u/proj/src/ignored.rs"}}]}}"#,
        "\n",
        r#"{"type":"assistant","timestamp":"2026-06-01T11:00:00Z","requestId":"r2","message":{"id":"m2","model":"model-sonnet-4-6","usage":{"input_tokens":1,"output_tokens":1},"content":[{"type":"tool_use","name":"Write","input":{"file_path":"/home/u/proj/b.md"}}]}}"#,
    ]
        .concat();
    let parsed = parse_transcript("edits.jsonl", &text);
    assert_eq!(parsed.cwd.as_deref(), Some("/home/u/proj"));
    // Read tool calls are not edits.
    assert_eq!(parsed.edits.len(), 2);
    assert_eq!(parsed.edits[0].path, "/home/u/proj/src/a.rs");
    assert_eq!(parsed.edits[1].path, "/home/u/proj/b.md");
    assert!(parsed.edits[0].ts < parsed.edits[1].ts);
    assert_eq!(parsed.points.len(), 2);
    // 2026-06-01T10:00:00Z.
    assert_eq!(parsed.points[0].ts, 1_780_308_000);
}

#[test]
fn parse_file_cache_creation_split_5m_1h() {
    let text: String = [
        "{\"type\":\"user\",\"cwd\":\"/proj\",\"message\":{\"content\":\"go\"}}\n",
        "{\"type\":\"assistant\",\"timestamp\":\"2026-06-01T10:00:00Z\",",
        "\"requestId\":\"r1\",\"message\":{\"id\":\"m1\",\"model\":\"model-sonnet-4-6\",",
        "\"usage\":{\"input_tokens\":0,\"output_tokens\":0,",
        "\"cache_creation\":{\"ephemeral_5m_input_tokens\":500,\"ephemeral_1h_input_tokens\":1000}}}}",
    ]
        .concat();
    let parsed = parse_transcript("split.jsonl", &text);
    assert_eq!(parsed.points.len(), 1);
    assert_eq!(parsed.points[0].cache_write_tokens(), 1500, "cache_write_tokens = 5m + 1h");
    assert_eq!((parsed.points[0].cache_5m, parsed.points[0].cache_1h), (500, 1000));
}

#[test]
fn parse_file_cache_creation_flat_fallback() {
    let text: String = [
        "{\"type\":\"user\",\"cwd\":\"/proj\",\"message\":{\"content\":\"go\"}}\n",
        "{\"type\":\"assistant\",\"timestamp\":\"2026-06-01T10:00:00Z\",",
        "\"requestId\":\"r2\",\"message\":{\"id\":\"m2\",\"model\":\"model-sonnet-4-6\",",
        "\"usage\":{\"input_tokens\":0,\"output_tokens\":0,",
        "\"cache_creation_input_tokens\":1000}}}",
    ]
        .concat();
    let parsed = parse_transcript("flat.jsonl", &text);
    assert_eq!(parsed.points.len(), 1);
    // flat → (5m=1000, 1h=0) → cache_write_tokens=1000
    assert_eq!(parsed.points[0].cache_write_tokens(), 1000);
    assert_eq!(parsed.points[0].cache_1h, 0);
}

#[test]
fn session_edit_spans_windows_points_and_edits() {
    let mut cache = ScanCache::new();
    let mut f = file_with(vec![pt(1_000, 1), pt(3_000, 2), pt(9_000, 3)]);
    f.cwd = Some("/home/u/proj".to_string());
    f.edits = vec![
        EditRec { path: "a.rs".to_string(), ts: 1_500 },
        EditRec { path: "b.rs".to_string(), ts: 8_000 },
    ];
    cache.store_file("/p/s1.jsonl".to_string(), f);
    // No activity in window → no span.
    cache.store_file("/p/s2.jsonl".to_string(), file_with(vec![pt(20_000, 4)]));
    let spans = cache.session_edit_spans(500, 5_000);
    assert_eq!(spans.len(), 1);
    let s = &spans[0];
    assert_eq!(s.cwd.as_deref(), Some("/home/u/proj"));
    assert_eq!((s.first_ts, s.last_ts), (1_000, 3_000));
    // The span's consumption is that of its two window points.
    let keys: Vec<u64> = s.points.iter().map(|p| p.key).collect();
    assert_eq!(keys, vec![1, 2]);
    // Edits outside the window are dropped too.
    assert_eq!(s.edits.len(), 1);
    assert_eq!(s.edits[0].path, "a.rs");
}

#[test]
fn needs_parse_tracks_mtime_and_size() {
    let mut cache = ScanCache::new();
    assert!(cache.needs_parse("/a.jsonl", 1, 2));
    let mut f = CachedFile::empty();
    f.mtime = 1;
    f.size = 2;
    cache.store_file("/a.jsonl".to_string(), f);
    assert!(!cache.needs_parse("/a.jsonl", 1, 2));
    assert!(cache.needs_parse("/a.jsonl", 1, 3));
}

#[test]
fn finish_refresh_drops_unseen_files() {
    let mut cache = ScanCache::new();
    cache.store_file("/a.jsonl".to_string(), file_with(vec![pt(1, 1)]));
    cache.store_file("/b.jsonl".to_string(), file_with(vec![pt(2, 2)]));
    cache.finish_refresh(&["/b.jsonl".to_string()], true);
    let keys: Vec<u64> = cache.all_points().iter().map(|p| p.key).collect();
    assert_eq!(keys, vec![2]);
    assert!(cache.needs_parse("/a.jsonl", 0, 0));
}

fn obj(pairs: Vec<(&str, Json)>) -> Json {
    Json::Object(pairs.into_iter().map(|(k, v)| (k.to_string(), v)).collect())
}

fn jstr(s: &str) -> Json {
    Json::Str(s.to_string())
}

fn num(n: u64) -> Json {
    Json::Number(Some(n))
}

fn assistant_record(usage: Json, content: Vec<Json>) -> Json {
    obj(vec![
        ("type", jstr("assistant")),
        ("timestamp", jstr("2026-06-01T10:00:00Z")),
        ("requestId", jstr("r1")),
        (
            "message",
            obj(vec![
                ("id", jstr("m1")),
                ("model", jstr("model-opus-4-7")),
                ("usage", usage),
                ("content", Json::Array(content)),
            ]),
        ),
    ])
}

#[test]
fn record_time_reads_rfc3339_timestamp() {
    let rec = obj(vec![("timestamp", jstr("2026-06-01T10:00:00Z"))]);
    assert_eq!(record_time(&rec), 1_780_308_000);
    let bad = obj(vec![("timestamp", jstr("yesterday"))]);
    assert_eq!(record_time(&bad), 0);
    let missing = obj(vec![("type", jstr("assistant"))]);
    assert_eq!(record_time(&missing), 0);
    let not_text = obj(vec![("timestamp", num(5))]);
    assert_eq!(record_time(&not_text), 0);
}

#[test]
fn read_usage_turn_takes_counts_key_and_edits() {
    let usage = obj(vec![
        ("input_tokens", num(10)),
        ("output_tokens", num(20)),
        ("cache_creation_input_tokens", num(300)),
        ("cache_read_input_tokens", num(4000)),
        (
            "cache_creation",
            obj(vec![
                ("ephemeral_5m_input_tokens", num(100)),
                ("ephemeral_1h_input_tokens", num(200)),
            ]),
        ),
    ]);
    let content = vec![
        obj(vec![
            ("type", jstr("tool_use")),
            ("name", jstr("Edit")),
            ("input", obj(vec![("file_path", jstr("/p/a.rs"))])),
        ]),
        obj(vec![
            ("type", jstr("tool_use")),
            ("name", jstr("Read")),
            ("input", obj(vec![("file_path", jstr("/p/skip.rs"))])),
        ]),
        obj(vec![
            ("type", jstr("tool_use")),
            ("name", jstr("NotebookEdit")),
            ("input", obj(vec![("notebook_path", jstr("/p/n.ipynb"))])),
        ]),
    ];
    let rec = assistant_record(usage, content);
    let t = read_usage_turn("/x/s.jsonl", 3, &rec, 77).expect("usage turn");
    assert_eq!(t.model, "model-opus-4-7");
    assert_eq!(t.input_tokens, 10);
    assert_eq!(t.output_tokens, 20);
    assert_eq!(t.cache_5m, 100);
    assert_eq!(t.cache_1h, 200);
    assert_eq!(t.context_tokens, 4330);
    assert_eq!(t.key, fnv1a("m1\0r1"));
    assert_eq!(t.edits.len(), 2);
    assert_eq!(t.edits[0].path, "/p/a.rs");
    assert_eq!(t.edits[0].ts, 77);
    assert_eq!(t.edits[1].path, "/p/n.ipynb");
    assert_eq!(t.edits[1].ts, 77);
}

#[test]
fn read_usage_turn_flat_cache_and_fallback_key() {
    let rec = obj(vec![
        ("type", jstr("assistant")),
        (
            "message",
            obj(vec![(
                "usage",
                obj(vec![("input_tokens", num(1)), ("cache_creation_input_tokens", num(9))]),
            )]),
        ),
    ]);
    let t = read_usage_turn("/x/s.jsonl", 12, &rec, 0).expect("usage turn");
    assert_eq!(t.model, "unknown");
    assert_eq!(t.cache_5m, 9);
    assert_eq!(t.cache_1h, 0);
    assert_eq!(t.output_tokens, 0);
    assert_eq!(t.context_tokens, 10);
    assert_eq!(t.key, fnv1a("/x/s.jsonl#12"));
    assert!(t.edits.is_empty());
}

#[test]
fn read_usage_turn_none_without_assistant_usage() {
    let user = obj(vec![
        ("type", jstr("user")),
        ("message", obj(vec![("usage", obj(vec![("input_tokens", num(1))]))])),
    ]);
    assert!(read_usage_turn("/x/s.jsonl", 0, &user, 5).is_none());
    let no_usage = obj(vec![("type", jstr("assistant")), ("message", obj(vec![("id", jstr("m"))]))]);
    assert!(read_usage_turn("/x/s.jsonl", 0, &no_usage, 5).is_none());
    let no_message = obj(vec![("type", jstr("assistant"))]);
    assert!(read_usage_turn("/x/s.jsonl", 0, &no_message, 5).is_none());
}
