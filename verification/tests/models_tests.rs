use cctide::models::{default_context_window, longest_match, session_context_limit, ModelWindows};

fn overrides(v: &[(&str, u64)]) -> Vec<(String, u64)> {
    v.iter().map(|(k, n)| (k.to_string(), *n)).collect()
}

fn key_of(m: &ModelWindows, model: &str) -> Option<String> {
    m.entry_for(model).map(|i| m.entries[i].0.clone())
}

#[test]
fn context_limit_default_200k() {
    let limit = ModelWindows::builtin().context_limit_for("model-sonnet-4-6", &[]);
    assert_eq!(limit, 200_000);
}

#[test]
fn context_limit_user_override_wins() {
    let o = overrides(&[("sonnet", 500_000)]);
    assert_eq!(ModelWindows::builtin().context_limit_for("model-sonnet-4-6", &o), 500_000);
}

#[test]
fn context_limit_longest_override_wins() {
    let o = overrides(&[("sonnet", 100_000), ("sonnet-4-6", 999_000)]);
    assert_eq!(ModelWindows::builtin().context_limit_for("model-sonnet-4-6", &o), 999_000);
}

#[test]
fn context_limit_override_longest_match_wins() {
    let o = overrides(&[
        ("model", 100_000),
        ("model-sonnet", 300_000),
        ("model-sonnet-4-6", 500_000),
    ]);
    assert_eq!(ModelWindows::builtin().context_limit_for("model-sonnet-4-6", &o), 500_000);
}

#[test]
fn all_models_have_200k_context_by_default() {
    let m = ModelWindows::builtin();
    for (_, w) in &m.entries {
        assert_eq!(*w, 200_000, "all models should have 200k context");
    }
    assert_eq!(m.default_window, 200_000);
    assert_eq!(default_context_window(), 200_000);
}

#[test]
fn models_default_has_expected_keys() {
    let m = ModelWindows::builtin();
    let keys: Vec<&str> = m.entries.iter().map(|(k, _)| k.as_str()).collect();
    assert!(keys.contains(&"opus-4-8"));
    assert!(keys.contains(&"sonnet-4-6"));
    assert!(keys.contains(&"haiku"));
    assert!(keys.contains(&"haiku-3"));
}

#[test]
fn haiku3_longer_match_beats_generic_haiku() {
    let m = ModelWindows::builtin();
    assert_eq!(key_of(&m, "model-haiku-3-20251001").as_deref(), Some("haiku-3"));
    assert_eq!(key_of(&m, "model-haiku-4-5").as_deref(), Some("haiku"));
}

#[test]
fn longest_match_wins_over_generic_key() {
    let m = ModelWindows::builtin();
    assert_eq!(key_of(&m, "model-opus-4-1").as_deref(), Some("opus-4-1"));
}

#[test]
fn generic_fallback_for_unknown_model() {
    let m = ModelWindows::builtin();
    assert_eq!(key_of(&m, "model-totally-unknown"), None);
}

#[test]
fn case_insensitive_match() {
    let m = ModelWindows::builtin();
    assert_eq!(key_of(&m, "model-SONNET-4-6"), key_of(&m, "model-sonnet-4-6"));
    assert_eq!(key_of(&m, "model-SONNET-4-6").as_deref(), Some("sonnet-4-6"));
}

#[test]
fn equally_long_keys_keep_the_first() {
    let keys = vec!["ab".to_string(), "bc".to_string(), "a".to_string()];
    assert_eq!(longest_match("xabcx", &keys), Some(0));
    assert_eq!(longest_match("zzz", &keys), None);
}

#[test]
fn key_length_is_counted_in_bytes() {
    // "é" is two bytes: it outranks the one-byte "e".
    let keys = vec!["e".to_string(), "é".to_string()];
    assert_eq!(longest_match("éte", &keys), Some(1));
}

#[test]
fn session_without_model_gets_the_default_window() {
    let m = ModelWindows::builtin();
    assert_eq!(session_context_limit(&m, None, &overrides(&[("x", 5)])), 200_000);
    assert_eq!(session_context_limit(&m, Some("model-x"), &overrides(&[("x", 5)])), 5);
}
