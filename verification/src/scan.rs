//! Reading the coding agent's JSONL transcripts.
//!
//! Each `type:"assistant"` line that carries a `message.usage` becomes one
//! consumption [`Point`]. Points are deduplicated by a key derived from
//! `message.id` and `requestId` (FNV-1a), first within a file, then across
//! files in [`ScanCache::rebuild_points`]. The transcript also yields the
//! last context state, the first real user prompt (a session title), the
//! session's working directory and its Edit/Write tool calls.
use vstd::prelude::*;

use vstd::string::StringSliceAdditionalSpecFns;

use crate::json::{field, get_field, get_str, get_u64, jget, parse_json, spec_parse_json, str_of, u64_of, Json};
use crate::paths::{file_name_of, opt_view, parent_of, spec_file_name, spec_parent};
use crate::text::{
    append_chars, chars_of, contains, contains_chars, decimal, decimal_chars, is_alphanumeric,
    lines_of, spec_is_alphanumeric, split_lines, str_eq, string_of, trim, trim_chars, views,
};

verus! {

/// One assistant turn: when it happened, its token counts, the model and the
/// deduplication key.
pub struct Point {
    /// Unix seconds.
    pub ts: i64,
    pub input_tokens: u64,
    pub output_tokens: u64,
    /// Tokens written to the 5-minute prompt cache.
    pub cache_5m: u64,
    /// Tokens written to the 1-hour prompt cache.
    pub cache_1h: u64,
    pub model: String,
    /// `fnv1a(message.id + requestId)`, unique per API response.
    pub key: u64,
}

/// Last known context state of a session file.
pub struct LastCtx {
    pub model: String,
    pub context_tokens: u64,
}

/// One Edit/Write/NotebookEdit tool call recorded in a transcript.
pub struct EditRec {
    pub path: String,
    pub ts: i64,
}

/// Abstract value of a [`Point`].
pub struct PointV {
    pub ts: i64,
    pub input_tokens: u64,
    pub output_tokens: u64,
    pub cache_5m: u64,
    pub cache_1h: u64,
    pub model: Seq<char>,
    pub key: u64,
}

/// Abstract value of a [`LastCtx`].
pub struct CtxV {
    pub model: Seq<char>,
    pub context_tokens: u64,
}

/// Abstract value of an [`EditRec`].
pub struct EditV {
    pub path: Seq<char>,
    pub ts: i64,
}

impl View for Point {
    type V = PointV;

    open spec fn view(&self) -> PointV {
        PointV {
            ts: self.ts,
            input_tokens: self.input_tokens,
            output_tokens: self.output_tokens,
            cache_5m: self.cache_5m,
            cache_1h: self.cache_1h,
            model: self.model@,
            key: self.key,
        }
    }
}

impl View for LastCtx {
    type V = CtxV;

    open spec fn view(&self) -> CtxV {
        CtxV { model: self.model@, context_tokens: self.context_tokens }
    }
}

impl View for EditRec {
    type V = EditV;

    open spec fn view(&self) -> EditV {
        EditV { path: self.path@, ts: self.ts }
    }
}

/// `u64` addition that wraps around at 2^64.
pub open spec fn wrap_add(a: u64, b: u64) -> u64 {
    vstd::wrapping::u64_specs::wrapping_add(a, b)
}

impl Point {
    /// Tokens written to the prompt cache (5m + 1h), wrapping at 2^64.
    pub fn cache_write_tokens(&self) -> (r: u64)
        ensures
            r == wrap_add(self.cache_5m, self.cache_1h),
    {
        self.cache_5m.wrapping_add(self.cache_1h)
    }

    /// A copy of this point.
    pub fn duplicate(&self) -> (r: Point)
        ensures
            r@ == self@,
    {
        Point {
            ts: self.ts,
            input_tokens: self.input_tokens,
            output_tokens: self.output_tokens,
            cache_5m: self.cache_5m,
            cache_1h: self.cache_1h,
            model: self.model.clone(),
            key: self.key,
        }
    }
}

impl LastCtx {
    /// A copy of this context state.
    pub fn duplicate(&self) -> (r: LastCtx)
        ensures
            r@ == self@,
    {
        LastCtx { model: self.model.clone(), context_tokens: self.context_tokens }
    }
}

impl EditRec {
    /// A copy of this edit record.
    pub fn duplicate(&self) -> (r: EditRec)
        ensures
            r@ == self@,
    {
        EditRec { path: self.path.clone(), ts: self.ts }
    }
}

pub const FNV_OFFSET: u64 = 0xcbf29ce484222325;

pub const FNV_PRIME: u64 = 0x100000001b3;

/// FNV-1a over a byte sequence.
pub open spec fn fnv_hash(bytes: Seq<u8>) -> u64
    decreases bytes.len(),
{
    if bytes.len() == 0 {
        FNV_OFFSET
    } else {
        vstd::wrapping::u64_specs::wrapping_mul(
            fnv_hash(bytes.drop_last()) ^ (bytes.last() as u64),
            FNV_PRIME,
        )
    }
}

/// FNV-1a hash of a string's UTF-8 bytes (the deduplication key).
pub fn fnv1a(s: &str) -> (h: u64)
    ensures
        h == fnv_hash(s.spec_bytes()),
{
    let b = s.as_bytes();
    let mut h: u64 = FNV_OFFSET;
    let mut i: usize = 0;
    assert(b@.take(0) =~= Seq::<u8>::empty());
    while i < b.len()
        invariant
            i <= b@.len(),
            b@ == s.spec_bytes(),
            h == fnv_hash(b@.take(i as int)),
        decreases b@.len() - i,
    {
        assert(b@.take(i + 1).drop_last() =~= b@.take(i as int));
        h = (h ^ (b[i] as u64)).wrapping_mul(FNV_PRIME);
        i = i + 1;
    }
    assert(b@.take(b@.len() as int) =~= b@);
    h
}

/// A working directory's `<data-dir>/projects` folder name: every
/// non-alphanumeric character becomes `-`.
pub open spec fn encoded_cwd(cwd: Seq<char>) -> Seq<char> {
    cwd.map_values(|c: char| if spec_is_alphanumeric(c) { c } else { '-' })
}

/// Encodes a working directory into its `<data-dir>/projects` folder name
/// (every non-alphanumeric char becomes `-`, as the agent names them).
pub fn encode_cwd(cwd: &str) -> (r: String)
    ensures
        r@ == encoded_cwd(cwd@),
{
    let v = chars_of(cwd);
    let mut out: Vec<char> = Vec::new();
    let mut i: usize = 0;
    while i < v.len()
        invariant
            i <= v@.len(),
            v@ == cwd@,
            out@ == encoded_cwd(v@.take(i as int)),
        decreases v@.len() - i,
    {
        let c = v[i];
        if is_alphanumeric(c) {
            out.push(c);
        } else {
            out.push('-');
        }
        assert(encoded_cwd(v@.take(i + 1)) =~= encoded_cwd(v@.take(i as int)).push(
            if spec_is_alphanumeric(c) { c } else { '-' },
        ));
        i = i + 1;
    }
    assert(v@.take(v@.len() as int) =~= v@);
    string_of(out.as_slice())
}

/// Re-encoding an encoded directory name changes nothing.
pub proof fn lemma_encode_cwd_idempotent(cwd: Seq<char>)
    requires
        !spec_is_alphanumeric('-'),
    ensures
        encoded_cwd(encoded_cwd(cwd)) == encoded_cwd(cwd),
        encoded_cwd(cwd).len() == cwd.len(),
{
    assert(encoded_cwd(encoded_cwd(cwd)) =~= encoded_cwd(cwd));
}

/// The Unix time that `chrono::DateTime::parse_from_rfc3339` reads from a
/// timestamp text, or `None` when chrono rejects it.
pub uninterp spec fn spec_parse_rfc3339(s: Seq<char>) -> Option<i64>;

/// Parses an ISO 8601 / RFC 3339 timestamp (`2026-05-29T17:26:09.467Z`)
/// into Unix seconds (`chrono::DateTime::parse_from_rfc3339`, then
/// `timestamp`). The contract names the result.
#[verifier::external_body]
pub(crate) fn parse_ts(s: &str) -> (r: Option<i64>)
    ensures
        r == spec_parse_rfc3339(s@),
{
    match chrono::DateTime::parse_from_rfc3339(s) {
        Ok(dt) => Some(dt.timestamp()),
        Err(_) => None,
    }
}


/// The texts of the `text` fields of content blocks, in order.
pub open spec fn block_texts(bs: Seq<Json>) -> Seq<Seq<char>>
    decreases bs.len(),
{
    if bs.len() == 0 {
        seq![]
    } else {
        let prev = block_texts(bs.drop_last());
        match str_of(jget(bs.last(), "text"@)) {
            Some(t) => prev.push(t),
            None => prev,
        }
    }
}

/// Texts joined with single spaces (`[..].join(" ")`).
pub open spec fn join_space(ts: Seq<Seq<char>>) -> Seq<char>
    decreases ts.len(),
{
    if ts.len() == 0 {
        seq![]
    } else if ts.len() == 1 {
        ts[0]
    } else {
        join_space(ts.drop_last()) + seq![' '] + ts.last()
    }
}

/// The prompt text of a user record: `message.content` when it is a string,
/// else the `text` of its content blocks joined with spaces.
pub open spec fn prompt_text(rec: Json) -> Option<Seq<char>> {
    match field(jget(rec, "message"@), "content"@) {
        Some(Json::Str(s)) => Some(s@),
        Some(Json::Array(a)) => Some(join_space(block_texts(a@))),
        _ => None,
    }
}

/// A session title from a prompt: its first line, trimmed, cut to 32
/// characters plus `...` when longer than 35.
pub open spec fn title_of(p: Seq<char>) -> Seq<char> {
    let ls = lines_of(p);
    let l1 = trim(if ls.len() > 0 { ls[0] } else { p });
    if l1.len() > 35 {
        l1.take(32) + seq!['.', '.', '.']
    } else {
        l1
    }
}

/// The trimmed first line of a prompt (the whole prompt, trimmed, when it
/// has no line).
pub open spec fn first_line_of(p: Seq<char>) -> Seq<char> {
    if lines_of(p).len() > 0 {
        trim(lines_of(p)[0])
    } else {
        trim(p)
    }
}

/// A session title is the start of the prompt's first line (trimmed): the
/// whole line when it has at most 35 characters, else its first 32
/// characters, in order, followed by `...`; a title never exceeds 35
/// characters.
pub proof fn lemma_title_is_start_of_first_line(p: Seq<char>)
    ensures
        title_of(p).len() <= 35,
        first_line_of(p).len() <= 35 ==> title_of(p) == first_line_of(p),
        first_line_of(p).len() > 35 ==> title_of(p).len() == 35,
        first_line_of(p).len() > 35 ==> forall|i: int|
            0 <= i < 32 ==> #[trigger] title_of(p)[i] == first_line_of(p)[i],
        first_line_of(p).len() > 35 ==> title_of(p)[32] == '.' && title_of(p)[33] == '.'
            && title_of(p)[34] == '.',
{
}

/// The title a transcript line offers: a `type:"user"` record whose prompt
/// is neither empty, a tool result / wrapper (`<`) nor a slash-command (`/`).
pub open spec fn prompt_of_line(raw: Seq<char>) -> Option<Seq<char>> {
    let line = trim(raw);
    if !contains(line, "\"user\""@) {
        None
    } else {
        match spec_parse_json(line) {
            None => None,
            Some(rec) => if str_of(jget(rec, "type"@)) != Some("user"@) {
                None
            } else {
                match prompt_text(rec) {
                    None => None,
                    Some(p0) => {
                        let p = trim(p0);
                        if p.len() == 0 || p[0] == '<' || p[0] == '/' {
                            None
                        } else {
                            Some(title_of(p))
                        }
                    },
                }
            },
        }
    }
}

/// The title offered by the first line that offers one.
pub open spec fn first_prompt(ls: Seq<Seq<char>>) -> Option<Seq<char>>
    decreases ls.len(),
{
    if ls.len() == 0 {
        None
    } else {
        match prompt_of_line(ls[0]) {
            Some(t) => Some(t),
            None => first_prompt(ls.drop_first()),
        }
    }
}

/// Whether an optional string equals `lit`.
fn str_is(o: Option<&String>, lit: &str) -> (b: bool)
    ensures
        b == (opt_str_view(o) == Some(lit@)),
{
    match o {
        Some(s) => str_eq(s.as_str(), lit),
        None => false,
    }
}

/// The view of an optional borrowed string.
pub open spec fn opt_str_view(o: Option<&String>) -> Option<Seq<char>> {
    match o {
        Some(s) => Some(s@),
        None => None,
    }
}

fn join_texts(bs: &Vec<Json>) -> (r: Vec<char>)
    ensures
        r@ == join_space(block_texts(bs@)),
{
    let mut out: Vec<char> = Vec::new();
    let mut n: usize = 0;
    let mut i: usize = 0;
    assert(bs@.take(0) =~= Seq::<Json>::empty());
    while i < bs.len()
        invariant
            i <= bs@.len(),
            n == block_texts(bs@.take(i as int)).len(),
            n <= i,
            out@ == join_space(block_texts(bs@.take(i as int))),
        decreases bs@.len() - i,
    {
        assert(bs@.take(i + 1).drop_last() =~= bs@.take(i as int));
        assert(bs@.take(i + 1).last() == bs@[i as int]);
        let t = get_str(bs[i].get("text"));
        match t {
            Some(t) => {
                let tv = chars_of(t.as_str());
                if n > 0 {
                    out.push(' ');
                }
                append_chars(&mut out, tv.as_slice());
                n = n + 1;
                proof {
                    let prev = block_texts(bs@.take(i as int));
                    assert(block_texts(bs@.take(i + 1)) == prev.push(t@));
                    assert(prev.push(t@).drop_last() =~= prev);
                    if prev.len() == 0 {
                        assert(out@ =~= t@);
                    }
                }
            },
            None => {},
        }
        i = i + 1;
    }
    assert(bs@.take(bs@.len() as int) =~= bs@);
    out
}

fn prompt_text_exec(rec: &Json) -> (r: Option<Vec<char>>)
    ensures
        match r {
            Some(v) => prompt_text(*rec) == Some(v@),
            None => prompt_text(*rec) is None,
        },
{
    match get_field(rec.get("message"), "content") {
        Some(Json::Str(s)) => Some(chars_of(s.as_str())),
        Some(Json::Array(a)) => Some(join_texts(a)),
        _ => None,
    }
}

fn title_exec(p: &Vec<char>) -> (r: Vec<char>)
    ensures
        r@ == title_of(p@),
{
    let ls = split_lines(p.as_slice());
    proof {
        assert(views(ls@).len() == ls@.len());
    }
    let l1 = if ls.len() > 0 {
        assert(views(ls@)[0] == ls@[0]@);
        trim_chars(ls[0].as_slice())
    } else {
        trim_chars(p.as_slice())
    };
    if l1.len() > 35 {
        let mut out: Vec<char> = Vec::new();
        let mut i: usize = 0;
        while i < 32
            invariant
                i <= 32,
                l1@.len() > 35,
                out@ == l1@.take(i as int),
            decreases 32 - i,
        {
            out.push(l1[i]);
            assert(out@ =~= l1@.take(i + 1));
            i = i + 1;
        }
        out.push('.');
        out.push('.');
        out.push('.');
        assert(out@ =~= l1@.take(32) + seq!['.', '.', '.']);
        out
    } else {
        l1
    }
}

fn prompt_of_line_exec(raw: &[char], user_pat: &[char]) -> (r: Option<Vec<char>>)
    requires
        user_pat@ == "\"user\""@,
    ensures
        match r {
            Some(v) => prompt_of_line(raw@) == Some(v@),
            None => prompt_of_line(raw@) is None,
        },
{
    let line = trim_chars(raw);
    if !contains_chars(line.as_slice(), user_pat) {
        return None;
    }
    let text = string_of(line.as_slice());
    let rec = match parse_json(text.as_str()) {
        Some(r) => r,
        None => return None,
    };
    if !str_is(get_str(rec.get("type")), "user") {
        return None;
    }
    let p0 = match prompt_text_exec(&rec) {
        Some(p) => p,
        None => return None,
    };
    let p = trim_chars(p0.as_slice());
    if p.len() == 0 || p[0] == '<' || p[0] == '/' {
        return None;
    }
    Some(title_exec(&p))
}

/// First real user prompt in a transcript, trimmed to a title length. Skips
/// tool results, slash-commands and local-command wrappers.
pub fn first_user_prompt(text: &str) -> (r: Option<String>)
    ensures
        opt_view(r) == first_prompt(lines_of(text@)),
{
    let tv = chars_of(text);
    let ls = split_lines(tv.as_slice());
    let user_pat = chars_of("\"user\"");
    let ghost all = views(ls@);
    let mut i: usize = 0;
    assert(all.skip(0) =~= all);
    while i < ls.len()
        invariant
            i <= ls@.len(),
            all == views(ls@),
            all == lines_of(text@),
            user_pat@ == "\"user\""@,
            first_prompt(all) == first_prompt(all.skip(i as int)),
        decreases ls@.len() - i,
    {
        assert(all.skip(i as int).drop_first() =~= all.skip(i + 1));
        assert(all.skip(i as int)[0] == ls@[i as int]@);
        match prompt_of_line_exec(ls[i].as_slice(), user_pat.as_slice()) {
            Some(t) => {
                return Some(string_of(t.as_slice()));
            },
            None => {},
        }
        i = i + 1;
    }
    None
}


/// Everything a transcript scan has gathered so far.
pub struct ScanState {
    pub cwd: Option<Seq<char>>,
    pub last_ctx: Option<CtxV>,
    pub seen: Set<u64>,
    pub points: Seq<PointV>,
    pub edits: Seq<EditV>,
}

/// `n`, or 0 when absent.
pub open spec fn or_zero(n: Option<u64>) -> u64 {
    match n {
        Some(x) => x,
        None => 0,
    }
}

/// A text, or the empty text when absent.
pub open spec fn or_empty(s: Option<Seq<char>>) -> Seq<char> {
    match s {
        Some(x) => x,
        None => seq![],
    }
}

/// A numeric field of `usage`, 0 when missing or not a `u64`.
pub open spec fn usage_num(usage: Json, k: Seq<char>) -> u64 {
    or_zero(u64_of(jget(usage, k)))
}

/// Cache writes split 5m / 1h; without the split object the lump total
/// counts as a 5m write.
pub open spec fn cache_split(usage: Json) -> (u64, u64) {
    match jget(usage, "cache_creation"@) {
        Some(c) => (
            or_zero(u64_of(jget(c, "ephemeral_5m_input_tokens"@))),
            or_zero(u64_of(jget(c, "ephemeral_1h_input_tokens"@))),
        ),
        None => (usage_num(usage, "cache_creation_input_tokens"@), 0),
    }
}

/// The record's `timestamp` in Unix seconds, 0 when missing or unreadable.
pub open spec fn record_ts(rec: Json) -> i64 {
    match str_of(jget(rec, "timestamp"@)) {
        Some(t) => match spec_parse_rfc3339(t) {
            Some(x) => x,
            None => 0,
        },
        None => 0,
    }
}

/// Dedup key of a usage record: `fnv1a(message.id + "\0" + requestId)`, or,
/// when both ids are absent, `fnv1a(path + "#" + line number)`.
pub open spec fn record_key(path: Seq<char>, line_no: nat, rec: Json, msg: Json) -> u64 {
    let mid = str_of(jget(msg, "id"@));
    let rid = str_of(jget(rec, "requestId"@));
    if mid is None && rid is None {
        fnv_hash(vstd::utf8::encode_utf8(path + seq!['#'] + decimal(line_no)))
    } else {
        fnv_hash(vstd::utf8::encode_utf8(or_empty(mid) + seq!['\0'] + or_empty(rid)))
    }
}

/// The edited file of an Edit/Write/NotebookEdit `tool_use` block.
pub open spec fn edit_path_of(b: Json) -> Option<Seq<char>> {
    if str_of(jget(b, "type"@)) != Some("tool_use"@) {
        None
    } else {
        let name = or_empty(str_of(jget(b, "name"@)));
        if !(name == "Edit"@ || name == "Write"@ || name == "NotebookEdit"@) {
            None
        } else {
            let input = jget(b, "input"@);
            let f = match field(input, "file_path"@) {
                Some(x) => Some(x),
                None => field(input, "notebook_path"@),
            };
            str_of(f)
        }
    }
}

/// Edit records of a sequence of content blocks, in order.
pub open spec fn edits_from(bs: Seq<Json>, ts: i64) -> Seq<EditV>
    decreases bs.len(),
{
    if bs.len() == 0 {
        seq![]
    } else {
        let prev = edits_from(bs.drop_last(), ts);
        match edit_path_of(bs.last()) {
            Some(p) => prev.push(EditV { path: p, ts }),
            None => prev,
        }
    }
}

/// Edit records of an assistant message (its `content` blocks).
pub open spec fn msg_edits(msg: Json, ts: i64) -> Seq<EditV> {
    match jget(msg, "content"@) {
        Some(Json::Array(bs)) => edits_from(bs@, ts),
        _ => seq![],
    }
}

/// What one assistant usage record brings to a scan: the model, the context
/// size, the dedup key, the token counts and the Edit/Write calls.
pub struct UsageTurn {
    pub model: String,
    /// All tokens in the context window: input, output, cache writes and
    /// cache reads (wrapping at 2^64).
    pub context_tokens: u64,
    /// Dedup key, see [`record_key`].
    pub key: u64,
    pub input_tokens: u64,
    pub output_tokens: u64,
    pub cache_5m: u64,
    pub cache_1h: u64,
    /// Edit/Write/NotebookEdit calls of the message, stamped with the turn's time.
    pub edits: Vec<EditRec>,
}

/// Abstract value of a [`UsageTurn`].
pub struct TurnV {
    pub model: Seq<char>,
    pub context_tokens: u64,
    pub key: u64,
    pub input_tokens: u64,
    pub output_tokens: u64,
    pub cache_5m: u64,
    pub cache_1h: u64,
    pub edits: Seq<EditV>,
}

impl View for UsageTurn {
    type V = TurnV;

    open spec fn view(&self) -> TurnV {
        TurnV {
            model: self.model@,
            context_tokens: self.context_tokens,
            key: self.key,
            input_tokens: self.input_tokens,
            output_tokens: self.output_tokens,
            cache_5m: self.cache_5m,
            cache_1h: self.cache_1h,
            edits: edit_views(self.edits@),
        }
    }
}

/// The turn of record `rec` (line `line_no` of `path`) with its `message`
/// and `usage`, stamped `ts`.
pub open spec fn turn_of(
    path: Seq<char>,
    line_no: nat,
    rec: Json,
    msg: Json,
    usage: Json,
    ts: i64,
) -> TurnV {
    let input = usage_num(usage, "input_tokens"@);
    let output = usage_num(usage, "output_tokens"@);
    let cc = usage_num(usage, "cache_creation_input_tokens"@);
    let cr = usage_num(usage, "cache_read_input_tokens"@);
    TurnV {
        model: match str_of(jget(msg, "model"@)) {
            Some(m) => m,
            None => "unknown"@,
        },
        context_tokens: wrap_add(wrap_add(wrap_add(input, output), cc), cr),
        key: record_key(path, line_no, rec, msg),
        input_tokens: input,
        output_tokens: output,
        cache_5m: cache_split(usage).0,
        cache_1h: cache_split(usage).1,
        edits: msg_edits(msg, ts),
    }
}

/// The usage turn of a parsed record stamped `ts`: none unless the record is
/// `type:"assistant"` and carries `message.usage`.
pub open spec fn usage_turn(path: Seq<char>, line_no: nat, rec: Json, ts: i64) -> Option<TurnV> {
    if str_of(jget(rec, "type"@)) != Some("assistant"@) {
        None
    } else {
        match jget(rec, "message"@) {
            None => None,
            Some(msg) => match jget(msg, "usage"@) {
                None => None,
                Some(usage) => Some(turn_of(path, line_no, rec, msg, usage, ts)),
            },
        }
    }
}

/// The scan after a turn stamped `ts`: the context state always moves on; a
/// turn whose key was seen before adds nothing else; one stamped 0 only marks
/// its key seen; any other adds its point and its edits.
pub open spec fn apply_turn(st: ScanState, t: TurnV, ts: i64) -> ScanState {
    let last_ctx = Some(CtxV { model: t.model, context_tokens: t.context_tokens });
    if st.seen.contains(t.key) {
        ScanState { cwd: st.cwd, last_ctx, seen: st.seen, points: st.points, edits: st.edits }
    } else if ts == 0 {
        ScanState {
            cwd: st.cwd,
            last_ctx,
            seen: st.seen.insert(t.key),
            points: st.points,
            edits: st.edits,
        }
    } else {
        ScanState {
            cwd: st.cwd,
            last_ctx,
            seen: st.seen.insert(t.key),
            points: st.points.push(
                PointV {
                    ts,
                    input_tokens: t.input_tokens,
                    output_tokens: t.output_tokens,
                    cache_5m: t.cache_5m,
                    cache_1h: t.cache_1h,
                    model: t.model,
                    key: t.key,
                },
            ),
            edits: st.edits + t.edits,
        }
    }
}

/// The scan after an assistant turn with its `message` and `usage`: the
/// context state always moves on; a turn whose key was seen before adds
/// nothing else, one without a timestamp only marks its key seen.
pub open spec fn turn_step(
    path: Seq<char>,
    st: ScanState,
    line_no: nat,
    rec: Json,
    msg: Json,
    usage: Json,
) -> ScanState {
    let model = match str_of(jget(msg, "model"@)) {
        Some(m) => m,
        None => "unknown"@,
    };
    let input = usage_num(usage, "input_tokens"@);
    let output = usage_num(usage, "output_tokens"@);
    let cc = usage_num(usage, "cache_creation_input_tokens"@);
    let cr = usage_num(usage, "cache_read_input_tokens"@);
    let split = cache_split(usage);
    let ts = record_ts(rec);
    let key = record_key(path, line_no, rec, msg);
    let ctx = wrap_add(wrap_add(wrap_add(input, output), cc), cr);
    let last_ctx = Some(CtxV { model, context_tokens: ctx });
    if st.seen.contains(key) {
        ScanState { cwd: st.cwd, last_ctx, seen: st.seen, points: st.points, edits: st.edits }
    } else if ts == 0 {
        ScanState {
            cwd: st.cwd,
            last_ctx,
            seen: st.seen.insert(key),
            points: st.points,
            edits: st.edits,
        }
    } else {
        ScanState {
            cwd: st.cwd,
            last_ctx,
            seen: st.seen.insert(key),
            points: st.points.push(
                PointV {
                    ts,
                    input_tokens: input,
                    output_tokens: output,
                    cache_5m: split.0,
                    cache_1h: split.1,
                    model,
                    key,
                },
            ),
            edits: st.edits + msg_edits(msg, ts),
        }
    }
}

/// A usage line whose record parses moves the scan exactly as applying the
/// usage turn read from that record, stamped with its record time, does; a
/// record without one leaves the scan as it is.
pub proof fn lemma_usage_step_is_turn(path: Seq<char>, st: ScanState, line_no: nat, line: Seq<char>, rec: Json)
    requires
        contains(line, "\"usage\""@),
        spec_parse_json(line) == Some(rec),
    ensures
        usage_step(path, st, line_no, line) == match usage_turn(path, line_no, rec, record_ts(rec)) {
            Some(t) => apply_turn(st, t, record_ts(rec)),
            None => st,
        },
{
}

/// The session cwd is taken from the first record that carries one.
pub open spec fn cwd_step(st: ScanState, line: Seq<char>) -> ScanState {
    if st.cwd is None && contains(line, "\"cwd\""@) {
        match spec_parse_json(line) {
            Some(rec) => match str_of(jget(rec, "cwd"@)) {
                Some(c) => ScanState {
                    cwd: Some(c),
                    last_ctx: st.last_ctx,
                    seen: st.seen,
                    points: st.points,
                    edits: st.edits,
                },
                None => st,
            },
            None => st,
        }
    } else {
        st
    }
}

/// Usage lines: `type:"assistant"` records with `message.usage`.
pub open spec fn usage_step(path: Seq<char>, st: ScanState, line_no: nat, line: Seq<char>) -> ScanState {
    if !contains(line, "\"usage\""@) {
        st
    } else {
        match spec_parse_json(line) {
            None => st,
            Some(rec) => if str_of(jget(rec, "type"@)) != Some("assistant"@) {
                st
            } else {
                match jget(rec, "message"@) {
                    None => st,
                    Some(msg) => match jget(msg, "usage"@) {
                        None => st,
                        Some(usage) => turn_step(path, st, line_no, rec, msg, usage),
                    },
                }
            },
        }
    }
}

/// One transcript line (numbered from 0), trimmed; blank lines change nothing.
pub open spec fn line_step(path: Seq<char>, st: ScanState, line_no: nat, raw: Seq<char>) -> ScanState {
    let line = trim(raw);
    if line.len() == 0 {
        st
    } else {
        usage_step(path, cwd_step(st, line), line_no, line)
    }
}

/// The empty scan.
pub open spec fn scan_start() -> ScanState {
    ScanState { cwd: None, last_ctx: None, seen: Set::empty(), points: seq![], edits: seq![] }
}

/// The scan after the first `n` lines.
pub open spec fn scan_upto(path: Seq<char>, ls: Seq<Seq<char>>, n: nat) -> ScanState
    decreases n,
{
    if n == 0 {
        scan_start()
    } else {
        line_step(path, scan_upto(path, ls, (n - 1) as nat), (n - 1) as nat, ls[n - 1])
    }
}

/// The scan of a whole transcript.
pub open spec fn scan_text(path: Seq<char>, text: Seq<char>) -> ScanState {
    scan_upto(path, lines_of(text), lines_of(text).len())
}

/// Views of a sequence of points.
pub open spec fn point_views(v: Seq<Point>) -> Seq<PointV> {
    v.map_values(|p: Point| p@)
}

/// Views of a sequence of edit records.
pub open spec fn edit_views(v: Seq<EditRec>) -> Seq<EditV> {
    v.map_values(|e: EditRec| e@)
}

/// The view of an optional context state.
pub open spec fn ctx_view(o: Option<LastCtx>) -> Option<CtxV> {
    match o {
        Some(c) => Some(c@),
        None => None,
    }
}

struct Scanner {
    cwd: Option<String>,
    last_ctx: Option<LastCtx>,
    seen: std::collections::HashSet<u64>,
    points: Vec<Point>,
    edits: Vec<EditRec>,
}

impl Scanner {
    spec fn model(&self) -> ScanState {
        ScanState {
            cwd: opt_view(self.cwd),
            last_ctx: ctx_view(self.last_ctx),
            seen: self.seen@,
            points: point_views(self.points@),
            edits: edit_views(self.edits@),
        }
    }
}

fn or_zero_exec(n: Option<u64>) -> (r: u64)
    ensures
        r == or_zero(n),
{
    match n {
        Some(x) => x,
        None => 0,
    }
}

fn edit_path_exec(b: &Json) -> (r: Option<String>)
    ensures
        opt_view(r) == edit_path_of(*b),
{
    if !str_is(get_str(b.get("type")), "tool_use") {
        return None;
    }
    let is_edit = match get_str(b.get("name")) {
        Some(n) => str_eq(n.as_str(), "Edit") || str_eq(n.as_str(), "Write") || str_eq(
            n.as_str(),
            "NotebookEdit",
        ),
        None => {
            proof {
                reveal_strlit("Edit");
                reveal_strlit("Write");
                reveal_strlit("NotebookEdit");
                assert("Edit"@.len() == 4);
                assert("Write"@.len() == 5);
                assert("NotebookEdit"@.len() == 12);
            }
            false
        },
    };
    if !is_edit {
        return None;
    }
    let input = b.get("input");
    let f = match get_field(input, "file_path") {
        Some(x) => Some(x),
        None => get_field(input, "notebook_path"),
    };
    match get_str(f) {
        Some(p) => Some(p.clone()),
        None => None,
    }
}

fn msg_edits_exec(msg: &Json, ts: i64) -> (r: Vec<EditRec>)
    ensures
        edit_views(r@) == msg_edits(*msg, ts),
{
    let mut out: Vec<EditRec> = Vec::new();
    match msg.get("content") {
        Some(Json::Array(bs)) => {
            let mut i: usize = 0;
            assert(bs@.take(0) =~= Seq::<Json>::empty());
            while i < bs.len()
                invariant
                    i <= bs@.len(),
                    edit_views(out@) == edits_from(bs@.take(i as int), ts),
                decreases bs@.len() - i,
            {
                assert(bs@.take(i + 1).drop_last() =~= bs@.take(i as int));
                assert(bs@.take(i + 1).last() == bs@[i as int]);
                match edit_path_exec(&bs[i]) {
                    Some(p) => {
                        let ghost before = out@;
                        out.push(EditRec { path: p, ts });
                        assert(edit_views(out@) =~= edit_views(before).push(
                            EditV { path: out@.last().path@, ts },
                        ));
                    },
                    None => {},
                }
                i = i + 1;
            }
            assert(bs@.take(bs@.len() as int) =~= bs@);
            out
        },
        _ => {
            assert(edit_views(out@) =~= Seq::<EditV>::empty());
            out
        },
    }
}

fn record_key_exec(path: &str, line_no: usize, rec: &Json, msg: &Json) -> (k: u64)
    ensures
        k == record_key(path@, line_no as nat, *rec, *msg),
{
    let mid = get_str(msg.get("id"));
    let rid = get_str(rec.get("requestId"));
    let mut buf: Vec<char> = Vec::new();
    if mid.is_none() && rid.is_none() {
        let pv = chars_of(path);
        append_chars(&mut buf, pv.as_slice());
        buf.push('#');
        let d = decimal_chars(line_no);
        append_chars(&mut buf, d.as_slice());
        assert(buf@ =~= path@ + seq!['#'] + decimal(line_no as nat));
    } else {
        match mid {
            Some(m) => {
                let mv = chars_of(m.as_str());
                append_chars(&mut buf, mv.as_slice());
            },
            None => {},
        }
        buf.push('\0');
        match rid {
            Some(r) => {
                let rv = chars_of(r.as_str());
                append_chars(&mut buf, rv.as_slice());
            },
            None => {},
        }
        assert(buf@ =~= or_empty(opt_str_view(mid)) + seq!['\0'] + or_empty(opt_str_view(rid)));
    }
    let s = string_of(buf.as_slice());
    fnv1a(s.as_str())
}

/// The record's `timestamp` in Unix seconds, 0 when it is missing or is not
/// RFC 3339 text.
pub fn record_time(rec: &Json) -> (t: i64)
    ensures
        t == record_ts(*rec),
{
    match get_str(rec.get("timestamp")) {
        Some(t) => match parse_ts(t.as_str()) {
            Some(x) => x,
            None => 0,
        },
        None => 0,
    }
}

fn extend_edits(dst: &mut Vec<EditRec>, src: &Vec<EditRec>)
    ensures
        edit_views(final(dst)@) == edit_views(old(dst)@) + edit_views(src@),
{
    let mut i: usize = 0;
    while i < src.len()
        invariant
            i <= src@.len(),
            edit_views(dst@) == edit_views(old(dst)@) + edit_views(src@.take(i as int)),
        decreases src@.len() - i,
    {
        let ghost mid = dst@;
        dst.push(src[i].duplicate());
        assert(edit_views(dst@) =~= edit_views(mid).push(src@[i as int]@));
        assert(edit_views(src@.take(i + 1)) =~= edit_views(src@.take(i as int)).push(
            src@[i as int]@,
        ));
        i = i + 1;
    }
    assert(src@.take(src@.len() as int) =~= src@);
}

/// Reads the usage turn of a parsed transcript record: line `line_no` of
/// `path`, stamped `ts` (its [`record_time`]). `None` unless the record is
/// `type:"assistant"` with `message.usage`.
pub fn read_usage_turn(path: &str, line_no: usize, rec: &Json, ts: i64) -> (r: Option<UsageTurn>)
    ensures
        match r {
            Some(t) => usage_turn(path@, line_no as nat, *rec, ts) == Some(t@),
            None => usage_turn(path@, line_no as nat, *rec, ts) is None,
        },
{
    if !str_is(get_str(rec.get("type")), "assistant") {
        return None;
    }
    let msg = match rec.get("message") {
        Some(m) => m,
        None => return None,
    };
    let usage = match msg.get("usage") {
        Some(u) => u,
        None => return None,
    };
    let model = match get_str(msg.get("model")) {
        Some(m) => m.clone(),
        None => "unknown".to_owned(),
    };
    let input = or_zero_exec(get_u64(usage.get("input_tokens")));
    let output = or_zero_exec(get_u64(usage.get("output_tokens")));
    let cc = or_zero_exec(get_u64(usage.get("cache_creation_input_tokens")));
    let cr = or_zero_exec(get_u64(usage.get("cache_read_input_tokens")));
    let (c5, c1) = match usage.get("cache_creation") {
        Some(c) => (
            or_zero_exec(get_u64(c.get("ephemeral_5m_input_tokens"))),
            or_zero_exec(get_u64(c.get("ephemeral_1h_input_tokens"))),
        ),
        None => (cc, 0),
    };
    let key = record_key_exec(path, line_no, rec, msg);
    let edits = msg_edits_exec(msg, ts);
    Some(
        UsageTurn {
            model,
            context_tokens: input.wrapping_add(output).wrapping_add(cc).wrapping_add(cr),
            key,
            input_tokens: input,
            output_tokens: output,
            cache_5m: c5,
            cache_1h: c1,
            edits,
        },
    )
}

impl Scanner {
    fn take_turn(&mut self, t: UsageTurn, ts: i64)
        requires
            vstd::std_specs::hash::obeys_key_model::<u64>(),
        ensures
            final(self).model() == apply_turn(old(self).model(), t@, ts),
    {
        broadcast use vstd::std_specs::hash::group_hash_axioms;

        self.last_ctx = Some(LastCtx { model: t.model.clone(), context_tokens: t.context_tokens });
        let ghost seen0 = self.seen@;
        if !self.seen.insert(t.key) {
            assert(self.seen@ =~= seen0);
            return;
        }
        if ts == 0 {
            return;
        }
        extend_edits(&mut self.edits, &t.edits);
        let ghost before_points = self.points@;
        self.points.push(
            Point {
                ts,
                input_tokens: t.input_tokens,
                output_tokens: t.output_tokens,
                cache_5m: t.cache_5m,
                cache_1h: t.cache_1h,
                model: t.model,
                key: t.key,
            },
        );
        assert(point_views(self.points@) =~= point_views(before_points).push(self.points@.last()@));
    }

    fn take_line(&mut self, path: &str, line_no: usize, raw: &[char], pats: &Pats)
        requires
            vstd::std_specs::hash::obeys_key_model::<u64>(),
            pats.wf(),
        ensures
            final(self).model() == line_step(path@, old(self).model(), line_no as nat, raw@),
    {
        let line = trim_chars(raw);
        if line.len() == 0 {
            return;
        }
        let text = string_of(line.as_slice());
        if self.cwd.is_none() && contains_chars(line.as_slice(), pats.cwd.as_slice()) {
            match parse_json(text.as_str()) {
                Some(rec) => match get_str(rec.get("cwd")) {
                    Some(c) => {
                        self.cwd = Some(c.clone());
                    },
                    None => {},
                },
                None => {},
            }
        }
        if !contains_chars(line.as_slice(), pats.usage.as_slice()) {
            return;
        }
        let rec = match parse_json(text.as_str()) {
            Some(r) => r,
            None => return ,
        };
        let ts = record_time(&rec);
        match read_usage_turn(path, line_no, &rec, ts) {
            Some(t) => self.take_turn(t, ts),
            None => {},
        }
    }
}

/// The literal markers a transcript scan looks for.
struct Pats {
    cwd: Vec<char>,
    usage: Vec<char>,
}

impl Pats {
    spec fn wf(&self) -> bool {
        &&& self.cwd@ == "\"cwd\""@
        &&& self.usage@ == "\"usage\""@
    }
}

/// What one transcript yields (file metadata is set by the caller).
pub struct CachedFile {
    pub mtime: i64,
    pub size: u64,
    /// Points from this file, deduplicated within the file.
    pub points: Vec<Point>,
    pub last_ctx: Option<LastCtx>,
    /// First real user prompt, used as a human-readable session title.
    pub first_prompt: Option<String>,
    /// Working directory of the session (the transcript's `cwd` field).
    pub cwd: Option<String>,
    /// Edit/Write tool calls, deduplicated alongside their parent records.
    pub edits: Vec<EditRec>,
}

impl CachedFile {
    /// A file record with nothing in it.
    pub fn empty() -> (r: CachedFile)
        ensures
            r.mtime == 0,
            r.size == 0,
            r.points@.len() == 0,
            r.last_ctx is None,
            r.first_prompt is None,
            r.cwd is None,
            r.edits@.len() == 0,
    {
        CachedFile {
            mtime: 0,
            size: 0,
            points: Vec::new(),
            last_ctx: None,
            first_prompt: None,
            cwd: None,
            edits: Vec::new(),
        }
    }
}

/// Reads a transcript's text into a [`CachedFile`] (mtime and size left 0
/// for the caller): points deduplicated within the file, last context
/// state, first user prompt, session cwd and Edit/Write tool calls.
/// `path` is the transcript's path, used in the fallback dedup key.
pub fn parse_transcript(path: &str, text: &str) -> (f: CachedFile)
    ensures
        f.mtime == 0,
        f.size == 0,
        opt_view(f.first_prompt) == first_prompt(lines_of(text@)),
        opt_view(f.cwd) == scan_text(path@, text@).cwd,
        ctx_view(f.last_ctx) == scan_text(path@, text@).last_ctx,
        point_views(f.points@) == scan_text(path@, text@).points,
        edit_views(f.edits@) == scan_text(path@, text@).edits,
{
    broadcast use vstd::std_specs::hash::group_hash_axioms;

    let first = first_user_prompt(text);
    let tv = chars_of(text);
    let ls = split_lines(tv.as_slice());
    let pats = Pats { cwd: chars_of("\"cwd\""), usage: chars_of("\"usage\"") };
    let mut sc = Scanner {
        cwd: None,
        last_ctx: None,
        seen: std::collections::HashSet::new(),
        points: Vec::new(),
        edits: Vec::new(),
    };
    assert(point_views(sc.points@) =~= Seq::<PointV>::empty());
    assert(edit_views(sc.edits@) =~= Seq::<EditV>::empty());
    let ghost all = views(ls@);
    let mut i: usize = 0;
    while i < ls.len()
        invariant
            i <= ls@.len(),
            all == views(ls@),
            all == lines_of(text@),
            pats.wf(),
            sc.model() == scan_upto(path@, all, i as nat),
        decreases ls@.len() - i,
    {
        assert(all[i as int] == ls@[i as int]@);
        sc.take_line(path, i, ls[i].as_slice(), &pats);
        i = i + 1;
    }
    CachedFile {
        mtime: 0,
        size: 0,
        points: sc.points,
        last_ctx: sc.last_ctx,
        first_prompt: first,
        cwd: sc.cwd,
        edits: sc.edits,
    }
}


/// Points with distinct keys, all marked seen, all timestamped; edits all
/// timestamped.
pub open spec fn scan_ok(st: ScanState) -> bool {
    &&& forall|i: int, j: int|
        0 <= i < j < st.points.len() ==> #[trigger] st.points[i].key != #[trigger] st.points[j].key
    &&& forall|i: int|
        0 <= i < st.points.len() ==> st.seen.contains(#[trigger] st.points[i].key)
            && st.points[i].ts != 0
    &&& forall|i: int| 0 <= i < st.edits.len() ==> #[trigger] st.edits[i].ts != 0
}

proof fn lemma_edits_ts(bs: Seq<Json>, ts: i64)
    ensures
        forall|i: int| 0 <= i < edits_from(bs, ts).len() ==> #[trigger] edits_from(bs, ts)[i].ts == ts,
    decreases bs.len(),
{
    if bs.len() > 0 {
        lemma_edits_ts(bs.drop_last(), ts);
        let prev = edits_from(bs.drop_last(), ts);
        match edit_path_of(bs.last()) {
            Some(p) => {
                let e = EditV { path: p, ts };
                assert forall|i: int| 0 <= i < prev.push(e).len() implies #[trigger] prev.push(e)[i].ts == ts by {
                    if i < prev.len() {
                        assert(prev.push(e)[i] == prev[i]);
                    }
                }
            },
            None => {},
        }
    }
}

proof fn lemma_turn_step_ok(path: Seq<char>, st: ScanState, n: nat, rec: Json, msg: Json, usage: Json)
    requires
        scan_ok(st),
    ensures
        scan_ok(turn_step(path, st, n, rec, msg, usage)),
{
    let ts = record_ts(rec);
    let key = record_key(path, n, rec, msg);
    let r = turn_step(path, st, n, rec, msg, usage);
    if !st.seen.contains(key) && ts != 0 {
        let me = msg_edits(msg, ts);
        match jget(msg, "content"@) {
            Some(Json::Array(bs)) => lemma_edits_ts(bs@, ts),
            _ => {},
        }
        assert(forall|i: int| 0 <= i < me.len() ==> #[trigger] me[i].ts == ts);
        assert forall|i: int| 0 <= i < r.edits.len() implies #[trigger] r.edits[i].ts != 0 by {
            if i < st.edits.len() {
                assert(r.edits[i] == st.edits[i]);
            } else {
                assert(r.edits[i] == me[i - st.edits.len()]);
            }
        }
        assert forall|i: int| 0 <= i < r.points.len() implies r.seen.contains(#[trigger] r.points[i].key)
            && r.points[i].ts != 0 by {
            if i < st.points.len() {
                assert(r.points[i] == st.points[i]);
            }
        }
        assert forall|i: int, j: int| 0 <= i < j < r.points.len() implies #[trigger] r.points[i].key
            != #[trigger] r.points[j].key by {
            assert(r.points[i] == st.points[i]);
            if j < st.points.len() {
                assert(r.points[j] == st.points[j]);
            } else {
                assert(st.seen.contains(st.points[i].key));
            }
        }
    } else if !st.seen.contains(key) {
        assert forall|i: int| 0 <= i < r.points.len() implies r.seen.contains(#[trigger] r.points[i].key)
            && r.points[i].ts != 0 by {
            assert(st.seen.contains(st.points[i].key));
        }
    }
}

proof fn lemma_line_step_ok(path: Seq<char>, st: ScanState, n: nat, raw: Seq<char>)
    requires
        scan_ok(st),
    ensures
        scan_ok(line_step(path, st, n, raw)),
{
    let line = trim(raw);
    if line.len() > 0 {
        let st1 = cwd_step(st, line);
        assert(scan_ok(st1));
        if contains(line, "\"usage\""@) {
            match spec_parse_json(line) {
                Some(rec) => match jget(rec, "message"@) {
                    Some(msg) => match jget(msg, "usage"@) {
                        Some(usage) => {
                            lemma_turn_step_ok(path, st1, n, rec, msg, usage);
                        },
                        None => {},
                    },
                    None => {},
                },
                None => {},
            }
        }
    }
}

proof fn lemma_scan_upto_ok(path: Seq<char>, ls: Seq<Seq<char>>, n: nat)
    ensures
        scan_ok(scan_upto(path, ls, n)),
    decreases n,
{
    if n > 0 {
        lemma_scan_upto_ok(path, ls, (n - 1) as nat);
        lemma_line_step_ok(path, scan_upto(path, ls, (n - 1) as nat), (n - 1) as nat, ls[n - 1]);
    }
}

/// Within one transcript no two points share a dedup key, every point was
/// recorded as seen, and every point and edit carries a timestamp.
pub proof fn lemma_transcript_points_deduplicated(path: Seq<char>, text: Seq<char>)
    ensures
        scan_ok(scan_text(path, text)),
{
    lemma_scan_upto_ok(path, lines_of(text), lines_of(text).len());
}


/// The first cached file stored under path `p`.
pub open spec fn lookup_file(es: Seq<(String, CachedFile)>, p: Seq<char>) -> Option<CachedFile>
    decreases es.len(),
{
    if es.len() == 0 {
        None
    } else if es[0].0@ == p {
        Some(es[0].1)
    } else {
        lookup_file(es.drop_first(), p)
    }
}

/// Whether some entry is stored under path `p`.
pub open spec fn has_path(es: Seq<(String, CachedFile)>, p: Seq<char>) -> bool {
    exists|i: int| 0 <= i < es.len() && #[trigger] es[i].0@ == p
}

/// Whether `p` is one of `names`.
pub open spec fn listed(names: Seq<String>, p: Seq<char>) -> bool {
    exists|i: int| 0 <= i < names.len() && #[trigger] names[i]@ == p
}

/// All points of all entries, entry by entry.
pub open spec fn flat_points(es: Seq<(String, CachedFile)>) -> Seq<PointV>
    decreases es.len(),
{
    if es.len() == 0 {
        seq![]
    } else {
        flat_points(es.drop_last()) + point_views(es.last().1.points@)
    }
}

/// Whether some point has key `k`.
pub open spec fn key_in(ps: Seq<PointV>, k: u64) -> bool {
    exists|i: int| 0 <= i < ps.len() && #[trigger] ps[i].key == k
}

/// The first point of each key, in order of first appearance.
pub open spec fn dedup_keys(ps: Seq<PointV>) -> Seq<PointV>
    decreases ps.len(),
{
    if ps.len() == 0 {
        seq![]
    } else {
        let d = dedup_keys(ps.drop_last());
        if key_in(d, ps.last().key) {
            d
        } else {
            d.push(ps.last())
        }
    }
}

/// Parsed transcripts by path, and the deduplicated view of all their points.
pub struct ScanCache {
    files: Vec<(String, CachedFile)>,
    points: Vec<Point>,
}

impl ScanCache {
    /// The cached transcripts with their paths, in the order they were first
    /// stored.
    pub closed spec fn entries(&self) -> Seq<(String, CachedFile)> {
        self.files@
    }

    /// The deduplicated points.
    pub closed spec fn deduped(&self) -> Seq<PointV> {
        point_views(self.points@)
    }

    /// No two entries share a path.
    pub closed spec fn wf(&self) -> bool {
        forall|i: int, j: int|
            0 <= i < j < self.files@.len() ==> #[trigger] self.files@[i].0@ != #[trigger] self.files@[j].0@
    }

    /// An empty cache.
    pub fn new() -> (c: ScanCache)
        ensures
            c.wf(),
            c.entries().len() == 0,
            c.deduped().len() == 0,
    {
        let c = ScanCache { files: Vec::new(), points: Vec::new() };
        assert(c.deduped() =~= Seq::<PointV>::empty());
        c
    }

    fn find(&self, path: &str) -> (r: Option<usize>)
        ensures
            match r {
                Some(i) => i < self.files@.len() && self.files@[i as int].0@ == path@
                    && lookup_file(self.files@, path@) == Some(self.files@[i as int].1),
                None => lookup_file(self.files@, path@) is None && !has_path(self.files@, path@),
            },
    {
        let mut i: usize = 0;
        assert(self.files@.skip(0) =~= self.files@);
        while i < self.files.len()
            invariant
                i <= self.files@.len(),
                lookup_file(self.files@, path@) == lookup_file(self.files@.skip(i as int), path@),
                forall|k: int| 0 <= k < i ==> self.files@[k].0@ != path@,
            decreases self.files@.len() - i,
        {
            assert(self.files@.skip(i as int).drop_first() =~= self.files@.skip(i + 1));
            assert(self.files@.skip(i as int)[0] == self.files@[i as int]);
            if str_eq(self.files[i].0.as_str(), path) {
                return Some(i);
            }
            i = i + 1;
        }
        None
    }

    /// Whether a transcript must be (re)parsed: it is new, or its mtime or
    /// size changed.
    pub fn needs_parse(&self, path: &str, mtime: i64, size: u64) -> (b: bool)
        ensures
            b == match lookup_file(self.entries(), path@) {
                Some(c) => c.mtime != mtime || c.size != size,
                None => true,
            },
    {
        match self.find(path) {
            Some(i) => self.files[i].1.mtime != mtime || self.files[i].1.size != size,
            None => true,
        }
    }

    /// Stores the parsed transcript for `path`, replacing what was there.
    pub fn store_file(&mut self, path: String, f: CachedFile)
        requires
            old(self).wf(),
        ensures
            final(self).wf(),
            lookup_file(final(self).entries(), path@) == Some(f),
            forall|q: Seq<char>|
                q != path@ ==> lookup_file(#[trigger] final(self).entries(), q) == lookup_file(
                    old(self).entries(),
                    q,
                ),
            final(self).deduped() == old(self).deduped(),
    {
        match self.find(path.as_str()) {
            Some(i) => {
                let ghost pv = path@;
                let ghost old_files = self.files@;
                self.files.set(i, (path, f));
                proof {
                    let nf = self.files@;
                    assert forall|x: int, y: int| 0 <= x < y < nf.len() implies #[trigger] nf[x].0@
                        != #[trigger] nf[y].0@ by {
                        if x != i {
                            assert(nf[x] == old_files[x]);
                        }
                        if y != i {
                            assert(nf[y] == old_files[y]);
                        }
                    }
                    assert forall|q: Seq<char>| q != pv implies lookup_file(nf, q) == lookup_file(
                        old_files,
                        q,
                    ) by {
                        lemma_lookup_unique(old_files, q);
                        lemma_lookup_unique(nf, q);
                        if has_path(old_files, q) {
                            let k = choose|k: int| 0 <= k < old_files.len() && #[trigger] old_files[k].0@ == q;
                            assert(nf[k] == old_files[k]);
                        } else {
                            assert forall|k: int| 0 <= k < nf.len() implies #[trigger] nf[k].0@ != q by {
                                if k != i {
                                    assert(nf[k] == old_files[k]);
                                }
                            }
                        }
                    }
                    lemma_lookup_unique(nf, pv);
                    assert(nf[i as int].0@ == pv);
                }
            },
            None => {
                let ghost pv = path@;
                let ghost old_files = self.files@;
                self.files.push((path, f));
                proof {
                    let nf = self.files@;
                    let n = old_files.len() as int;
                    assert forall|x: int, y: int| 0 <= x < y < nf.len() implies #[trigger] nf[x].0@
                        != #[trigger] nf[y].0@ by {
                        assert(nf[x] == old_files[x]);
                        if y < n {
                            assert(nf[y] == old_files[y]);
                        } else {
                            assert(!has_path(old_files, pv));
                        }
                    }
                    assert forall|q: Seq<char>| q != pv implies lookup_file(nf, q) == lookup_file(
                        old_files,
                        q,
                    ) by {
                        lemma_lookup_unique(old_files, q);
                        lemma_lookup_unique(nf, q);
                        if has_path(old_files, q) {
                            let k = choose|k: int| 0 <= k < old_files.len() && #[trigger] old_files[k].0@ == q;
                            assert(nf[k] == old_files[k]);
                        } else {
                            assert forall|k: int| 0 <= k < nf.len() implies #[trigger] nf[k].0@ != q by {
                                if k < n {
                                    assert(nf[k] == old_files[k]);
                                }
                            }
                        }
                    }
                    lemma_lookup_unique(nf, pv);
                    assert(nf[n].0@ == pv);
                }
            },
        }
    }
}

/// In a path-distinct list, `lookup_file` finds the (only) entry with the
/// path, and nothing when there is none.
proof fn lemma_lookup_unique(es: Seq<(String, CachedFile)>, p: Seq<char>)
    requires
        forall|i: int, j: int| 0 <= i < j < es.len() ==> #[trigger] es[i].0@ != #[trigger] es[j].0@,
    ensures
        forall|i: int| 0 <= i < es.len() && #[trigger] es[i].0@ == p ==> lookup_file(es, p) == Some(es[i].1),
        !has_path(es, p) ==> lookup_file(es, p) is None,
    decreases es.len(),
{
    if es.len() > 0 {
        let t = es.drop_first();
        assert forall|i: int, j: int| 0 <= i < j < t.len() implies #[trigger] t[i].0@ != #[trigger] t[j].0@ by {
            assert(t[i] == es[i + 1]);
            assert(t[j] == es[j + 1]);
        }
        lemma_lookup_unique(t, p);
        assert forall|i: int| 0 <= i < es.len() && #[trigger] es[i].0@ == p implies lookup_file(es, p) == Some(es[i].1) by {
            if i > 0 {
                assert(t[i - 1] == es[i]);
                assert(es[0].0@ != p);
            }
        }
        if !has_path(es, p) {
            assert forall|i: int| 0 <= i < t.len() implies #[trigger] t[i].0@ != p by {
                assert(t[i] == es[i + 1]);
            }
            assert(es[0].0@ != p);
        }
    }
}


/// The entries whose path is one of `names`, in order.
pub open spec fn keep_listed(es: Seq<(String, CachedFile)>, names: Seq<String>) -> Seq<(String, CachedFile)>
    decreases es.len(),
{
    if es.len() == 0 {
        seq![]
    } else {
        let k = keep_listed(es.drop_last(), names);
        if listed(names, es.last().0@) {
            k.push(es.last())
        } else {
            k
        }
    }
}

proof fn lemma_keep_listed(es: Seq<(String, CachedFile)>, names: Seq<String>)
    ensures
        keep_listed(es, names).len() <= es.len(),
        forall|i: int|
            0 <= i < keep_listed(es, names).len() ==> exists|j: int|
                0 <= j < es.len() && #[trigger] keep_listed(es, names)[i] == es[j],
        (forall|i: int, j: int| 0 <= i < j < es.len() ==> #[trigger] es[i].0@ != #[trigger] es[j].0@)
            ==> (forall|i: int, j: int|
            0 <= i < j < keep_listed(es, names).len() ==> #[trigger] keep_listed(es, names)[i].0@
                != #[trigger] keep_listed(es, names)[j].0@),
    decreases es.len(),
{
    if es.len() > 0 {
        let t = es.drop_last();
        lemma_keep_listed(t, names);
        let k = keep_listed(t, names);
        let kk = keep_listed(es, names);
        assert forall|i: int| 0 <= i < kk.len() implies exists|j: int|
            0 <= j < es.len() && #[trigger] kk[i] == es[j] by {
            if i < k.len() {
                assert(kk[i] == k[i]);
                let j = choose|j: int| 0 <= j < t.len() && #[trigger] k[i] == t[j];
                assert(es[j] == t[j]);
            } else {
                assert(kk[i] == es[es.len() - 1]);
            }
        }
        if forall|i: int, j: int| 0 <= i < j < es.len() ==> #[trigger] es[i].0@ != #[trigger] es[j].0@ {
            assert forall|i: int, j: int| 0 <= i < j < t.len() implies #[trigger] t[i].0@ != #[trigger] t[j].0@ by {
                assert(t[i] == es[i]);
                assert(t[j] == es[j]);
            }
            assert forall|i: int, j: int| 0 <= i < j < kk.len() implies #[trigger] kk[i].0@
                != #[trigger] kk[j].0@ by {
                if j < k.len() {
                    assert(kk[i] == k[i]);
                    assert(kk[j] == k[j]);
                } else {
                    assert(kk[i] == k[i]);
                    let a = choose|a: int| 0 <= a < t.len() && #[trigger] k[i] == t[a];
                    assert(t[a] == es[a]);
                    assert(kk[j] == es[es.len() - 1]);
                }
            }
        }
    }
}

/// Whether `path`'s parent folder is named `enc`.
pub open spec fn in_project(path: Seq<char>, enc: Seq<char>) -> bool {
    match spec_parent(path) {
        Some(d) => spec_file_name(d) == Some(enc),
        None => false,
    }
}

/// The first entry path whose file name is `target`.
pub open spec fn first_named(es: Seq<(String, CachedFile)>, target: Seq<char>) -> Option<Seq<char>>
    decreases es.len(),
{
    if es.len() == 0 {
        None
    } else if spec_file_name(es[0].0@) == Some(target) {
        Some(es[0].0@)
    } else {
        first_named(es.drop_first(), target)
    }
}

/// The parent folder of the first entry whose parent folder is named `enc`.
pub open spec fn first_project_dir(es: Seq<(String, CachedFile)>, enc: Seq<char>) -> Option<Seq<char>>
    decreases es.len(),
{
    if es.len() == 0 {
        None
    } else if in_project(es[0].0@, enc) {
        spec_parent(es[0].0@)
    } else {
        first_project_dir(es.drop_first(), enc)
    }
}

/// Entry `k` is the most recently modified transcript in project folder
/// `enc`: no other is more recent, and none after it is as recent.
pub open spec fn is_latest_in_project(es: Seq<(String, CachedFile)>, enc: Seq<char>, k: int) -> bool {
    &&& 0 <= k < es.len()
    &&& in_project(es[k].0@, enc)
    &&& forall|j: int|
        0 <= j < es.len() && in_project(#[trigger] es[j].0@, enc) ==> es[j].1.mtime
            <= es[k].1.mtime && (j > k ==> es[j].1.mtime < es[k].1.mtime)
}

/// The path of the most recently modified transcript in project folder
/// `enc` (the last one among equally recent ones), if it has any.
pub open spec fn latest_of(es: Seq<(String, CachedFile)>, enc: Seq<char>) -> Option<Seq<char>> {
    if exists|k: int| is_latest_in_project(es, enc, k) {
        Some(es[choose|k: int| is_latest_in_project(es, enc, k)].0@)
    } else {
        None
    }
}

proof fn lemma_latest_unique(es: Seq<(String, CachedFile)>, enc: Seq<char>, a: int, b: int)
    requires
        is_latest_in_project(es, enc, a),
        is_latest_in_project(es, enc, b),
    ensures
        a == b,
{
    assert(in_project(es[a].0@, enc));
    assert(in_project(es[b].0@, enc));
}

/// Whether `from <= ts <= now`.
pub open spec fn in_window(ts: i64, from: i64, now: i64) -> bool {
    from <= ts && ts <= now
}

/// The points inside `[from, now]`, in order.
pub open spec fn window_points(ps: Seq<PointV>, from: i64, now: i64) -> Seq<PointV>
    decreases ps.len(),
{
    if ps.len() == 0 {
        seq![]
    } else {
        let w = window_points(ps.drop_last(), from, now);
        if in_window(ps.last().ts, from, now) {
            w.push(ps.last())
        } else {
            w
        }
    }
}

/// The edits inside `[from, now]`, in order.
pub open spec fn window_edits(es: Seq<EditV>, from: i64, now: i64) -> Seq<EditV>
    decreases es.len(),
{
    if es.len() == 0 {
        seq![]
    } else {
        let w = window_edits(es.drop_last(), from, now);
        if in_window(es.last().ts, from, now) {
            w.push(es.last())
        } else {
            w
        }
    }
}

/// The earliest timestamp of a non-empty point sequence.
pub open spec fn min_ts(ps: Seq<PointV>) -> i64
    decreases ps.len(),
{
    if ps.len() <= 1 {
        ps[0].ts
    } else {
        let m = min_ts(ps.drop_last());
        if ps.last().ts < m {
            ps.last().ts
        } else {
            m
        }
    }
}

/// The latest timestamp of a non-empty point sequence.
pub open spec fn max_ts(ps: Seq<PointV>) -> i64
    decreases ps.len(),
{
    if ps.len() <= 1 {
        ps[0].ts
    } else {
        let m = max_ts(ps.drop_last());
        if ps.last().ts > m {
            ps.last().ts
        } else {
            m
        }
    }
}

/// A session's activity within a time window, for outcome classification:
/// where it ran, when, the points it consumed and the files it edited.
pub struct SessionSpan {
    pub cwd: Option<String>,
    pub first_ts: i64,
    pub last_ts: i64,
    /// The session's points inside the window (their weights sum to the
    /// span's consumption).
    pub points: Vec<Point>,
    pub edits: Vec<EditRec>,
}

/// Abstract value of a [`SessionSpan`].
pub struct SpanV {
    pub cwd: Option<Seq<char>>,
    pub first_ts: i64,
    pub last_ts: i64,
    pub points: Seq<PointV>,
    pub edits: Seq<EditV>,
}

impl View for SessionSpan {
    type V = SpanV;

    open spec fn view(&self) -> SpanV {
        SpanV {
            cwd: opt_view(self.cwd),
            first_ts: self.first_ts,
            last_ts: self.last_ts,
            points: point_views(self.points@),
            edits: edit_views(self.edits@),
        }
    }
}

/// One span per entry with points inside `[from, now]`, in entry order.
pub open spec fn spans_of(es: Seq<(String, CachedFile)>, from: i64, now: i64) -> Seq<SpanV>
    decreases es.len(),
{
    if es.len() == 0 {
        seq![]
    } else {
        let prev = spans_of(es.drop_last(), from, now);
        let f = es.last().1;
        let w = window_points(point_views(f.points@), from, now);
        if w.len() == 0 {
            prev
        } else {
            prev.push(
                SpanV {
                    cwd: opt_view(f.cwd),
                    first_ts: min_ts(w),
                    last_ts: max_ts(w),
                    points: w,
                    edits: window_edits(edit_views(f.edits@), from, now),
                },
            )
        }
    }
}

/// Views of a sequence of spans.
pub open spec fn span_views(v: Seq<SessionSpan>) -> Seq<SpanV> {
    v.map_values(|x: SessionSpan| x@)
}

fn is_listed(names: &[String], p: &str) -> (b: bool)
    ensures
        b == listed(names@, p@),
{
    let mut i: usize = 0;
    while i < names.len()
        invariant
            i <= names@.len(),
            forall|k: int| 0 <= k < i ==> names@[k]@ != p@,
        decreases names@.len() - i,
    {
        if str_eq(names[i].as_str(), p) {
            return true;
        }
        i = i + 1;
    }
    false
}

fn in_project_exec(path: &str, enc: &str) -> (r: Option<String>)
    ensures
        match r {
            Some(d) => in_project(path@, enc@) && spec_parent(path@) == Some(d@),
            None => !in_project(path@, enc@),
        },
{
    match parent_of(path) {
        Some(d) => match file_name_of(d.as_str()) {
            Some(n) => if str_eq(n.as_str(), enc) {
                Some(d)
            } else {
                None
            },
            None => None,
        },
        None => None,
    }
}

fn window_points_exec(ps: &Vec<Point>, from: i64, now: i64) -> (r: Vec<Point>)
    ensures
        point_views(r@) == window_points(point_views(ps@), from, now),
{
    let mut out: Vec<Point> = Vec::new();
    let mut i: usize = 0;
    assert(point_views(ps@).take(0) =~= Seq::<PointV>::empty());
    while i < ps.len()
        invariant
            i <= ps@.len(),
            point_views(out@) == window_points(point_views(ps@).take(i as int), from, now),
        decreases ps@.len() - i,
    {
        assert(point_views(ps@).take(i + 1).drop_last() =~= point_views(ps@).take(i as int));
        assert(point_views(ps@).take(i + 1).last() == ps@[i as int]@);
        if from <= ps[i].ts && ps[i].ts <= now {
            let ghost before = out@;
            out.push(ps[i].duplicate());
            assert(point_views(out@) =~= point_views(before).push(ps@[i as int]@));
        }
        i = i + 1;
    }
    assert(point_views(ps@).take(ps@.len() as int) =~= point_views(ps@));
    out
}

fn window_edits_exec(es: &Vec<EditRec>, from: i64, now: i64) -> (r: Vec<EditRec>)
    ensures
        edit_views(r@) == window_edits(edit_views(es@), from, now),
{
    let mut out: Vec<EditRec> = Vec::new();
    let mut i: usize = 0;
    assert(edit_views(es@).take(0) =~= Seq::<EditV>::empty());
    while i < es.len()
        invariant
            i <= es@.len(),
            edit_views(out@) == window_edits(edit_views(es@).take(i as int), from, now),
        decreases es@.len() - i,
    {
        assert(edit_views(es@).take(i + 1).drop_last() =~= edit_views(es@).take(i as int));
        assert(edit_views(es@).take(i + 1).last() == es@[i as int]@);
        if from <= es[i].ts && es[i].ts <= now {
            let ghost before = out@;
            out.push(es[i].duplicate());
            assert(edit_views(out@) =~= edit_views(before).push(es@[i as int]@));
        }
        i = i + 1;
    }
    assert(edit_views(es@).take(es@.len() as int) =~= edit_views(es@));
    out
}

fn min_max_ts(ps: &Vec<Point>) -> (r: (i64, i64))
    requires
        ps@.len() > 0,
    ensures
        r.0 == min_ts(point_views(ps@)),
        r.1 == max_ts(point_views(ps@)),
{
    let mut lo = ps[0].ts;
    let mut hi = ps[0].ts;
    let mut i: usize = 1;
    assert(point_views(ps@).take(1).len() == 1);
    while i < ps.len()
        invariant
            1 <= i <= ps@.len(),
            lo == min_ts(point_views(ps@).take(i as int)),
            hi == max_ts(point_views(ps@).take(i as int)),
        decreases ps@.len() - i,
    {
        assert(point_views(ps@).take(i + 1).drop_last() =~= point_views(ps@).take(i as int));
        assert(point_views(ps@).take(i + 1).last() == ps@[i as int]@);
        if ps[i].ts < lo {
            lo = ps[i].ts;
        }
        if ps[i].ts > hi {
            hi = ps[i].ts;
        }
        i = i + 1;
    }
    assert(point_views(ps@).take(ps@.len() as int) =~= point_views(ps@));
    (lo, hi)
}

impl ScanCache {
    /// Drops the entries whose path is not in `seen`; answers whether any
    /// entry was dropped.
    pub fn retain_seen(&mut self, seen: &[String]) -> (dropped: bool)
        requires
            old(self).wf(),
        ensures
            final(self).wf(),
            final(self).entries() == keep_listed(old(self).entries(), seen@),
            dropped == (final(self).entries().len() < old(self).entries().len()),
            final(self).deduped() == old(self).deduped(),
    {
        let ghost es = self.files@;
        let mut kept: Vec<(String, CachedFile)> = Vec::new();
        let mut rest: Vec<(String, CachedFile)> = Vec::new();
        std::mem::swap(&mut rest, &mut self.files);
        assert(es.skip(0) =~= es);
        assert(es.take(0) =~= Seq::<(String, CachedFile)>::empty());
        let n = rest.len();
        let mut i: usize = 0;
        while i < n
            invariant
                n == es.len(),
                i <= n,
                rest@ == es.skip(i as int),
                kept@ == keep_listed(es.take(i as int), seen@),
            decreases n - i,
        {
            let e = rest.remove(0);
            assert(e == es[i as int]);
            assert(es.skip(i as int).remove(0) =~= es.skip(i + 1));
            assert(es.take(i + 1).drop_last() =~= es.take(i as int));
            assert(es.take(i + 1).last() == es[i as int]);
            if is_listed(seen, e.0.as_str()) {
                kept.push(e);
            }
            i = i + 1;
        }
        assert(es.take(n as int) =~= es);
        proof {
            lemma_keep_listed(es, seen@);
        }
        let dropped = kept.len() < n;
        self.files = kept;
        dropped
    }

    /// Rebuilds the deduplicated point list from all entries: the first
    /// point seen for each key wins, entry by entry.
    pub fn rebuild_points(&mut self)
        ensures
            final(self).entries() == old(self).entries(),
            final(self).deduped() == dedup_keys(flat_points(old(self).entries())),
            final(self).wf() == old(self).wf(),
    {
        broadcast use vstd::std_specs::hash::group_hash_axioms;

        let mut out: Vec<Point> = Vec::new();
        let mut keys: std::collections::HashSet<u64> = std::collections::HashSet::new();
        let ghost es = self.files@;
        let mut k: usize = 0;
        assert(point_views(out@) =~= Seq::<PointV>::empty());
        assert(es.take(0) =~= Seq::<(String, CachedFile)>::empty());
        while k < self.files.len()
            invariant
                es == self.files@,
                k <= es.len(),
                point_views(out@) == dedup_keys(flat_points(es.take(k as int))),
                forall|x: u64| keys@.contains(x) <==> key_in(point_views(out@), x),
            decreases es.len() - k,
        {
            let ghost base = flat_points(es.take(k as int));
            let pts = &self.files[k].1.points;
            let mut j: usize = 0;
            assert(base + point_views(pts@).take(0) =~= base);
            while j < pts.len()
                invariant
                    es == self.files@,
                    k < es.len(),
                    pts@ == es[k as int].1.points@,
                    j <= pts@.len(),
                    point_views(out@) == dedup_keys(base + point_views(pts@).take(j as int)),
                    forall|x: u64| keys@.contains(x) <==> key_in(point_views(out@), x),
                decreases pts@.len() - j,
            {
                let ghost cur = base + point_views(pts@).take(j as int);
                assert(base + point_views(pts@).take(j + 1) =~= cur.push(pts@[j as int]@));
                assert(cur.push(pts@[j as int]@).drop_last() =~= cur);
                let p = &pts[j];
                if !keys.contains(&p.key) {
                    let ghost before = out@;
                    keys.insert(p.key);
                    out.push(p.duplicate());
                    assert(point_views(out@) =~= point_views(before).push(p@));
                    assert forall|x: u64| keys@.contains(x) <==> key_in(point_views(out@), x) by {
                        if key_in(point_views(before), x) {
                            let t = choose|t: int| 0 <= t < point_views(before).len() && #[trigger] point_views(before)[t].key == x;
                            assert(point_views(out@)[t] == point_views(before)[t]);
                        }
                        if key_in(point_views(out@), x) && x != p.key {
                            let t = choose|t: int| 0 <= t < point_views(out@).len() && #[trigger] point_views(out@)[t].key == x;
                            assert(t < point_views(before).len());
                            assert(point_views(out@)[t] == point_views(before)[t]);
                        }
                        assert(point_views(out@)[point_views(before).len() as int].key == p.key);
                    }
                }
                j = j + 1;
            }
            assert(point_views(pts@).take(pts@.len() as int) =~= point_views(pts@));
            assert(es.take(k + 1).drop_last() =~= es.take(k as int));
            assert(es.take(k + 1).last() == es[k as int]);
            k = k + 1;
        }
        assert(es.take(es.len() as int) =~= es);
        self.points = out;
        assert(self.files@ == old(self).files@);
    }

    /// Ends a refresh: drops entries not in `seen`, then rebuilds the
    /// deduplicated points when anything was stored (`changed`) or dropped.
    pub fn finish_refresh(&mut self, seen: &[String], changed: bool)
        requires
            old(self).wf(),
        ensures
            final(self).wf(),
            final(self).entries() == keep_listed(old(self).entries(), seen@),
            final(self).deduped() == if changed || final(self).entries().len()
                < old(self).entries().len() {
                dedup_keys(flat_points(final(self).entries()))
            } else {
                old(self).deduped()
            },
    {
        let dropped = self.retain_seen(seen);
        if changed || dropped {
            self.rebuild_points();
        }
    }

    /// All deduplicated consumption points across every project.
    pub fn all_points(&self) -> (r: Vec<Point>)
        ensures
            point_views(r@) == self.deduped(),
    {
        let mut out: Vec<Point> = Vec::new();
        let mut i: usize = 0;
        while i < self.points.len()
            invariant
                i <= self.points@.len(),
                point_views(out@) == point_views(self.points@).take(i as int),
            decreases self.points@.len() - i,
        {
            let ghost before = out@;
            out.push(self.points[i].duplicate());
            assert(point_views(out@) =~= point_views(before).push(self.points@[i as int]@));
            assert(point_views(self.points@).take(i + 1) =~= point_views(self.points@).take(
                i as int,
            ).push(self.points@[i as int]@));
            i = i + 1;
        }
        assert(point_views(self.points@).take(self.points@.len() as int) =~= point_views(
            self.points@,
        ));
        out
    }

    /// Last known context for a given session file.
    pub fn last_ctx_for(&self, path: &str) -> (r: Option<LastCtx>)
        ensures
            ctx_view(r) == match lookup_file(self.entries(), path@) {
                Some(f) => ctx_view(f.last_ctx),
                None => None,
            },
    {
        match self.find(path) {
            Some(i) => match &self.files[i].1.last_ctx {
                Some(c) => Some(c.duplicate()),
                None => None,
            },
            None => None,
        }
    }

    /// First user prompt of a transcript (used as the session title).
    pub fn first_prompt_for(&self, path: &str) -> (r: Option<String>)
        ensures
            opt_view(r) == match lookup_file(self.entries(), path@) {
                Some(f) => opt_view(f.first_prompt),
                None => None,
            },
    {
        match self.find(path) {
            Some(i) => match &self.files[i].1.first_prompt {
                Some(t) => Some(t.clone()),
                None => None,
            },
            None => None,
        }
    }

    /// Last-modified time of a transcript, Unix seconds, when known and
    /// positive (the transcript is written on every turn).
    pub fn mtime_for(&self, path: &str) -> (r: Option<i64>)
        ensures
            r == match lookup_file(self.entries(), path@) {
                Some(f) => if f.mtime > 0 {
                    Some(f.mtime)
                } else {
                    None
                },
                None => None,
            },
    {
        match self.find(path) {
            Some(i) => if self.files[i].1.mtime > 0 {
                Some(self.files[i].1.mtime)
            } else {
                None
            },
            None => None,
        }
    }

    /// Finds a session's JSONL file by its id (`<sessionId>.jsonl`), across
    /// all projects.
    pub fn jsonl_for_session(&self, session_id: &str) -> (r: Option<String>)
        ensures
            opt_view(r) == first_named(self.entries(), session_id@ + ".jsonl"@),
    {
        let mut target = chars_of(session_id);
        let ext = chars_of(".jsonl");
        append_chars(&mut target, ext.as_slice());
        let t = string_of(target.as_slice());
        let mut i: usize = 0;
        assert(self.files@.skip(0) =~= self.files@);
        while i < self.files.len()
            invariant
                i <= self.files@.len(),
                t@ == session_id@ + ".jsonl"@,
                first_named(self.files@, t@) == first_named(self.files@.skip(i as int), t@),
            decreases self.files@.len() - i,
        {
            assert(self.files@.skip(i as int).drop_first() =~= self.files@.skip(i + 1));
            assert(self.files@.skip(i as int)[0] == self.files@[i as int]);
            match file_name_of(self.files[i].0.as_str()) {
                Some(n) => if str_eq(n.as_str(), t.as_str()) {
                    return Some(self.files[i].0.clone());
                },
                None => {},
            }
            i = i + 1;
        }
        None
    }

    /// Project folder (`<data-dir>/projects/<encoded-cwd>`) for a working
    /// dir, if any of its transcripts are cached.
    pub fn project_dir_for_cwd(&self, cwd: &str) -> (r: Option<String>)
        ensures
            opt_view(r) == first_project_dir(self.entries(), encoded_cwd(cwd@)),
    {
        let enc = encode_cwd(cwd);
        let mut i: usize = 0;
        assert(self.files@.skip(0) =~= self.files@);
        while i < self.files.len()
            invariant
                i <= self.files@.len(),
                enc@ == encoded_cwd(cwd@),
                first_project_dir(self.files@, enc@) == first_project_dir(
                    self.files@.skip(i as int),
                    enc@,
                ),
            decreases self.files@.len() - i,
        {
            assert(self.files@.skip(i as int).drop_first() =~= self.files@.skip(i + 1));
            assert(self.files@.skip(i as int)[0] == self.files@[i as int]);
            match in_project_exec(self.files[i].0.as_str(), enc.as_str()) {
                Some(d) => {
                    return Some(d);
                },
                None => {},
            }
            i = i + 1;
        }
        None
    }

    /// Most recently modified transcript in the project folder of `cwd`
    /// (the last one among equally recent ones): the fallback when a session
    /// has no transcript under its own id.
    pub fn latest_jsonl_for_cwd(&self, cwd: &str) -> (r: Option<String>)
        ensures
            match r {
                None => forall|j: int|
                    0 <= j < self.entries().len() ==> !in_project(
                        #[trigger] self.entries()[j].0@,
                        encoded_cwd(cwd@),
                    ),
                Some(p) => exists|k: int|
                    0 <= k < self.entries().len() && #[trigger] self.entries()[k].0@ == p@
                        && in_project(p@, encoded_cwd(cwd@)) && forall|j: int|
                        0 <= j < self.entries().len() && in_project(
                            #[trigger] self.entries()[j].0@,
                            encoded_cwd(cwd@),
                        ) ==> self.entries()[j].1.mtime <= self.entries()[k].1.mtime && (j > k
                            ==> self.entries()[j].1.mtime < self.entries()[k].1.mtime),
            },
            opt_view(r) == latest_of(self.entries(), encoded_cwd(cwd@)),
    {
        let enc = encode_cwd(cwd);
        let mut best: Option<usize> = None;
        let mut i: usize = 0;
        while i < self.files.len()
            invariant
                i <= self.files@.len(),
                enc@ == encoded_cwd(cwd@),
                match best {
                    None => forall|j: int| 0 <= j < i ==> !in_project(#[trigger] self.files@[j].0@, enc@),
                    Some(k) => k < i && in_project(self.files@[k as int].0@, enc@) && forall|j: int|
                        0 <= j < i && in_project(#[trigger] self.files@[j].0@, enc@)
                            ==> self.files@[j].1.mtime <= self.files@[k as int].1.mtime && (j > k
                            ==> self.files@[j].1.mtime < self.files@[k as int].1.mtime),
                },
            decreases self.files@.len() - i,
        {
            if in_project_exec(self.files[i].0.as_str(), enc.as_str()).is_some() {
                match best {
                    None => {
                        best = Some(i);
                    },
                    Some(k) => {
                        if self.files[i].1.mtime >= self.files[k].1.mtime {
                            best = Some(i);
                        }
                    },
                }
            }
            i = i + 1;
        }
        assert(self.entries() == self.files@);
        match best {
            Some(k) => {
                proof {
                    assert(is_latest_in_project(self.files@, enc@, k as int));
                    let w = choose|w: int| is_latest_in_project(self.files@, enc@, w);
                    lemma_latest_unique(self.files@, enc@, w, k as int);
                }
                Some(self.files[k].0.clone())
            },
            None => {
                assert(!exists|w: int| is_latest_in_project(self.files@, enc@, w));
                None
            },
        }
    }

    /// One span per transcript with activity in `[from, now]`: session cwd,
    /// activity bounds, the points and the file edits, all clamped to the
    /// window.
    pub fn session_edit_spans(&self, from: i64, now: i64) -> (r: Vec<SessionSpan>)
        ensures
            span_views(r@) == spans_of(self.entries(), from, now),
    {
        let mut out: Vec<SessionSpan> = Vec::new();
        let mut i: usize = 0;
        assert(self.files@.take(0) =~= Seq::<(String, CachedFile)>::empty());
        assert(span_views(out@) =~= Seq::<SpanV>::empty());
        while i < self.files.len()
            invariant
                i <= self.files@.len(),
                span_views(out@) == spans_of(self.files@.take(i as int), from, now),
            decreases self.files@.len() - i,
        {
            assert(self.files@.take(i + 1).drop_last() =~= self.files@.take(i as int));
            assert(self.files@.take(i + 1).last() == self.files@[i as int]);
            let f = &self.files[i].1;
            let w = window_points_exec(&f.points, from, now);
            if w.len() > 0 {
                let (lo, hi) = min_max_ts(&w);
                let edits = window_edits_exec(&f.edits, from, now);
                let cwd = match &f.cwd {
                    Some(c) => Some(c.clone()),
                    None => None,
                };
                let ghost before = out@;
                out.push(SessionSpan { cwd, first_ts: lo, last_ts: hi, points: w, edits });
                assert(span_views(out@) =~= span_views(before).push(out@.last()@));
            }
            i = i + 1;
        }
        assert(self.files@.take(self.files@.len() as int) =~= self.files@);
        out
    }

    /// A transcript's own (within-file deduplicated) points inside
    /// `[from, now]`; none for an unknown path.
    pub fn points_in_file(&self, path: &str, from: i64, now: i64) -> (r: Vec<Point>)
        ensures
            point_views(r@) == match lookup_file(self.entries(), path@) {
                Some(f) => window_points(point_views(f.points@), from, now),
                None => seq![],
            },
    {
        match self.find(path) {
            Some(i) => window_points_exec(&self.files[i].1.points, from, now),
            None => {
                let v: Vec<Point> = Vec::new();
                assert(point_views(v@) =~= Seq::<PointV>::empty());
                v
            },
        }
    }
}


/// Deduplication keeps exactly one point per key: the kept points have
/// pairwise distinct keys, every key of the input is kept, and every kept
/// point is one of the input points.
pub proof fn lemma_dedup_one_point_per_key(ps: Seq<PointV>)
    ensures
        forall|i: int, j: int|
            0 <= i < j < dedup_keys(ps).len() ==> #[trigger] dedup_keys(ps)[i].key
                != #[trigger] dedup_keys(ps)[j].key,
        forall|i: int| 0 <= i < ps.len() ==> key_in(dedup_keys(ps), #[trigger] ps[i].key),
        forall|i: int|
            0 <= i < dedup_keys(ps).len() ==> exists|j: int|
                0 <= j < ps.len() && #[trigger] ps[j] == #[trigger] dedup_keys(ps)[i],
    decreases ps.len(),
{
    if ps.len() > 0 {
        let t = ps.drop_last();
        let x = ps.last();
        lemma_dedup_one_point_per_key(t);
        let d = dedup_keys(t);
        let dd = dedup_keys(ps);
        if key_in(d, x.key) {
            assert(dd == d);
            assert forall|i: int| 0 <= i < ps.len() implies key_in(dd, #[trigger] ps[i].key) by {
                if i < t.len() {
                    assert(ps[i] == t[i]);
                }
            }
            assert forall|i: int| 0 <= i < dd.len() implies exists|j: int|
                0 <= j < ps.len() && #[trigger] ps[j] == #[trigger] dd[i] by {
                let j = choose|j: int| 0 <= j < t.len() && #[trigger] t[j] == #[trigger] d[i];
                assert(ps[j] == t[j]);
            }
        } else {
            assert(dd == d.push(x));
            assert forall|i: int, j: int| 0 <= i < j < dd.len() implies #[trigger] dd[i].key
                != #[trigger] dd[j].key by {
                assert(dd[i] == d[i]);
                if j < d.len() {
                    assert(dd[j] == d[j]);
                }
            }
            assert forall|i: int| 0 <= i < ps.len() implies key_in(dd, #[trigger] ps[i].key) by {
                if i < t.len() {
                    assert(ps[i] == t[i]);
                    let k = choose|k: int| 0 <= k < d.len() && #[trigger] d[k].key == t[i].key;
                    assert(dd[k] == d[k]);
                } else {
                    assert(dd[d.len() as int] == x);
                }
            }
            assert forall|i: int| 0 <= i < dd.len() implies exists|j: int|
                0 <= j < ps.len() && #[trigger] ps[j] == #[trigger] dd[i] by {
                if i < d.len() {
                    assert(dd[i] == d[i]);
                    let j = choose|j: int| 0 <= j < t.len() && #[trigger] t[j] == #[trigger] d[i];
                    assert(ps[j] == t[j]);
                } else {
                    assert(ps[ps.len() - 1] == dd[i]);
                }
            }
        }
    }
}

/// Whether a file found under the projects folder is a transcript
/// (`.jsonl` extension).
pub fn is_transcript(path: &str) -> (b: bool)
    ensures
        b == (crate::paths::spec_extension(path@) == Some("jsonl"@)),
{
    match crate::paths::extension_of(path) {
        Some(e) => str_eq(e.as_str(), "jsonl"),
        None => false,
    }
}

} // verus!
