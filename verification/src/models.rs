//! Per-model data: which table entry a model id selects, and context-window
//! limits.
//!
//! Keys match a substring of the model id, compared in lower case; the
//! longest key wins (so `opus-4-8` beats `opus`), the first of equally long
//! ones when several match. The quota weights and prices of the entries are
//! real numbers and stay with the caller; this module picks the entry.
use vstd::prelude::*;

use crate::text::{chars_of, contains, contains_chars, spec_to_lowercase, str_views, to_lowercase};

verus! {

/// Context window of a model the table does not know, in tokens.
pub const DEFAULT_CONTEXT_WINDOW: u64 = 200000;

/// Context window of a model the table does not know, in tokens.
pub fn default_context_window() -> (r: u64)
    ensures
        r == DEFAULT_CONTEXT_WINDOW,
{
    DEFAULT_CONTEXT_WINDOW
}

/// Length in bytes of a string's UTF-8 encoding (`str::len`).
pub open spec fn byte_len(s: Seq<char>) -> nat {
    vstd::utf8::encode_utf8(s).len()
}

/// A table key applies to a model id: the key, lower-cased, occurs in the
/// lower-cased id.
pub open spec fn key_matches(model: Seq<char>, key: Seq<char>) -> bool {
    contains(spec_to_lowercase(model), spec_to_lowercase(key))
}

/// Key `i` is the longest key that applies to the model, and no earlier key
/// that applies is as long.
pub open spec fn is_longest_match(model: Seq<char>, keys: Seq<Seq<char>>, i: int) -> bool {
    &&& 0 <= i < keys.len()
    &&& key_matches(model, keys[i])
    &&& forall|j: int|
        0 <= j < keys.len() && key_matches(model, #[trigger] keys[j]) ==> byte_len(keys[j])
            <= byte_len(keys[i]) && (j < i ==> byte_len(keys[j]) < byte_len(keys[i]))
}

/// The index of the longest key that applies to the model (the first of
/// equally long ones), if any applies.
pub open spec fn longest_match_spec(model: Seq<char>, keys: Seq<Seq<char>>) -> Option<int> {
    if exists|i: int| is_longest_match(model, keys, i) {
        Some(choose|i: int| is_longest_match(model, keys, i))
    } else {
        None
    }
}

proof fn lemma_longest_unique(model: Seq<char>, keys: Seq<Seq<char>>, a: int, b: int)
    requires
        is_longest_match(model, keys, a),
        is_longest_match(model, keys, b),
    ensures
        a == b,
{
    assert(key_matches(model, keys[a]));
    assert(key_matches(model, keys[b]));
}

/// Finds the longest key that applies to a model id.
pub fn longest_match(model: &str, keys: &[String]) -> (r: Option<usize>)
    ensures
        match r {
            Some(i) => longest_match_spec(model@, str_views(keys@)) == Some(i as int),
            None => longest_match_spec(model@, str_views(keys@)) is None,
        },
{
    let m = to_lowercase(model);
    let mc = chars_of(m.as_str());
    let ghost ks = str_views(keys@);
    let mut best: Option<usize> = None;
    let mut best_len: usize = 0;
    let mut i: usize = 0;
    while i < keys.len()
        invariant
            i <= keys@.len(),
            ks == str_views(keys@),
            mc@ == spec_to_lowercase(model@),
            match best {
                None => forall|j: int| 0 <= j < i ==> !key_matches(model@, #[trigger] ks[j]),
                Some(b) => b < i && key_matches(model@, ks[b as int]) && best_len == byte_len(
                    ks[b as int],
                ) && forall|j: int|
                    0 <= j < i && key_matches(model@, #[trigger] ks[j]) ==> byte_len(ks[j])
                        <= byte_len(ks[b as int]) && (j < b ==> byte_len(ks[j]) < byte_len(
                        ks[b as int],
                    )),
            },
        decreases keys@.len() - i,
    {
        let key = &keys[i];
        let kl = to_lowercase(key.as_str());
        let kc = chars_of(kl.as_str());
        assert(ks[i as int] == key@);
        if contains_chars(mc.as_slice(), kc.as_slice()) {
            let len = key.as_str().as_bytes().len();
            proof {
                vstd::utf8::encode_utf8_decode_utf8(key@);
            }
            assert(len == byte_len(ks[i as int]));
            match best {
                None => {
                    best = Some(i);
                    best_len = len;
                },
                Some(b) => {
                    if len > best_len {
                        best = Some(i);
                        best_len = len;
                    }
                },
            }
        }
        i = i + 1;
    }
    match best {
        Some(b) => {
            assert(is_longest_match(model@, ks, b as int));
            proof {
                let w = choose|w: int| is_longest_match(model@, ks, w);
                lemma_longest_unique(model@, ks, w, b as int);
            }
        },
        None => {
            assert(!exists|w: int| is_longest_match(model@, ks, w));
        },
    }
    best
}

/// The keys of a list of (key, value) pairs.
pub open spec fn pair_keys(v: Seq<(String, u64)>) -> Seq<Seq<char>> {
    v.map_values(|p: (String, u64)| p.0@)
}

fn keys_of(v: &[(String, u64)]) -> (r: Vec<String>)
    ensures
        str_views(r@) == pair_keys(v@),
{
    let mut r: Vec<String> = Vec::new();
    let mut k: usize = 0;
    while k < v.len()
        invariant
            k <= v@.len(),
            str_views(r@) == pair_keys(v@).take(k as int),
        decreases v@.len() - k,
    {
        let ghost before = str_views(r@);
        let key = String::from_str(v[k].0.as_str());
        r.push(key);
        assert(str_views(r@) =~= before.push(v@[k as int].0@));
        assert(pair_keys(v@).take(k + 1) =~= pair_keys(v@).take(k as int).push(v@[k as int].0@));
        k = k + 1;
    }
    assert(pair_keys(v@).take(v@.len() as int) =~= pair_keys(v@));
    r
}

/// The value stored under the longest key of `v` that applies to the model.
pub open spec fn longest_value(model: Seq<char>, v: Seq<(String, u64)>) -> Option<u64> {
    match longest_match_spec(model, pair_keys(v)) {
        Some(i) => Some(v[i].1),
        None => None,
    }
}

/// The context-window part of the model table: each entry's key with its
/// window, and the window of a model no key applies to.
pub struct ModelWindows {
    pub entries: Vec<(String, u64)>,
    pub default_window: u64,
}

/// The window the table gives a model id.
pub open spec fn table_window(entries: Seq<(String, u64)>, default_window: u64, model: Seq<char>) -> u64 {
    match longest_value(model, entries) {
        Some(w) => w,
        None => default_window,
    }
}

/// Context-window limit for a model: the user's overrides first (longest
/// key that applies), then the model table, then its default.
pub open spec fn context_limit_spec(
    entries: Seq<(String, u64)>,
    default_window: u64,
    model: Seq<char>,
    overrides: Seq<(String, u64)>,
) -> u64 {
    match longest_value(model, overrides) {
        Some(v) => v,
        None => table_window(entries, default_window, model),
    }
}

fn longest_value_exec(model: &str, v: &[(String, u64)]) -> (r: Option<u64>)
    ensures
        r == longest_value(model@, v@),
{
    let keys = keys_of(v);
    match longest_match(model, keys.as_slice()) {
        Some(i) => Some(v[i].1),
        None => None,
    }
}

impl ModelWindows {
    /// The table shipped with the app: every entry has a 200k window, as
    /// does the default.
    pub fn builtin() -> (r: ModelWindows)
        ensures
            pair_keys(r.entries@) == seq![
                "fable"@,
                "fable-5"@,
                "haiku"@,
                "haiku-3"@,
                "mythos"@,
                "mythos-5"@,
                "opus"@,
                "opus-4-1"@,
                "opus-4-6"@,
                "opus-4-7"@,
                "opus-4-8"@,
                "sonnet"@,
                "sonnet-4-6"@,
                "sonnet-5"@,
            ],
            forall|i: int| 0 <= i < r.entries@.len() ==> (#[trigger] r.entries@[i]).1 == 200000,
            r.default_window == 200000,
    {
        let mut e: Vec<(String, u64)> = Vec::new();
        e.push((String::from_str("fable"), 200000));
        e.push((String::from_str("fable-5"), 200000));
        e.push((String::from_str("haiku"), 200000));
        e.push((String::from_str("haiku-3"), 200000));
        e.push((String::from_str("mythos"), 200000));
        e.push((String::from_str("mythos-5"), 200000));
        e.push((String::from_str("opus"), 200000));
        e.push((String::from_str("opus-4-1"), 200000));
        e.push((String::from_str("opus-4-6"), 200000));
        e.push((String::from_str("opus-4-7"), 200000));
        e.push((String::from_str("opus-4-8"), 200000));
        e.push((String::from_str("sonnet"), 200000));
        e.push((String::from_str("sonnet-4-6"), 200000));
        e.push((String::from_str("sonnet-5"), 200000));
        assert(pair_keys(e@) =~= seq![
            "fable"@,
            "fable-5"@,
            "haiku"@,
            "haiku-3"@,
            "mythos"@,
            "mythos-5"@,
            "opus"@,
            "opus-4-1"@,
            "opus-4-6"@,
            "opus-4-7"@,
            "opus-4-8"@,
            "sonnet"@,
            "sonnet-4-6"@,
            "sonnet-5"@,
        ]);
        ModelWindows { entries: e, default_window: DEFAULT_CONTEXT_WINDOW }
    }

    /// Index of the table entry for a model id (longest key that applies),
    /// none for the default entry.
    pub fn entry_for(&self, model: &str) -> (r: Option<usize>)
        ensures
            match r {
                Some(i) => longest_match_spec(model@, pair_keys(self.entries@)) == Some(i as int),
                None => longest_match_spec(model@, pair_keys(self.entries@)) is None,
            },
    {
        let keys = keys_of(self.entries.as_slice());
        longest_match(model, keys.as_slice())
    }

    /// Context-window limit for a model, in tokens: checks the user's
    /// overrides first, then the model table, then falls back to the
    /// table's default.
    pub fn context_limit_for(&self, model: &str, overrides: &[(String, u64)]) -> (r: u64)
        ensures
            r == context_limit_spec(self.entries@, self.default_window, model@, overrides@),
    {
        match longest_value_exec(model, overrides) {
            Some(v) => v,
            None => match longest_value_exec(model, self.entries.as_slice()) {
                Some(w) => w,
                None => self.default_window,
            },
        }
    }
}

/// The context limit shown for an open session: that of its model, or the
/// default window when the transcript names none.
pub fn session_context_limit(table: &ModelWindows, model: Option<&str>, overrides: &[(String, u64)]) -> (r: u64)
    ensures
        r == match model {
            Some(m) => context_limit_spec(table.entries@, table.default_window, m@, overrides@),
            None => DEFAULT_CONTEXT_WINDOW,
        },
{
    match model {
        Some(m) => table.context_limit_for(m, overrides),
        None => DEFAULT_CONTEXT_WINDOW,
    }
}

} // verus!
