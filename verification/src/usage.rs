//! The time windows behind the "5h session" and "weekly limit" bars.
//!
//! The session window is anchored like the service's model: it starts at the
//! first prompt and lasts exactly 5h; a prompt at or after `anchor + 5h`
//! starts a fresh window. The weekly window ends at the next occurrence of
//! the user's reset time, stepping 7 days at a time.
use chrono::TimeZone;
use vstd::prelude::*;

use crate::scan::{Point, PointV};
use crate::text::starts_with;

verus! {

pub const FIVE_HOURS_SECS: i64 = 18000;

pub const WEEK_SECS: i64 = 604800;

pub const DAY_SECS: i64 = 86400;

/// The timestamps not after `now`, in order.
pub open spec fn upto_now(ts: Seq<i64>, now: i64) -> Seq<i64>
    decreases ts.len(),
{
    if ts.len() == 0 {
        seq![]
    } else {
        let w = upto_now(ts.drop_last(), now);
        if ts.last() <= now {
            w.push(ts.last())
        } else {
            w
        }
    }
}

/// Ascending order on timestamps.
pub open spec fn ts_leq() -> spec_fn(i64, i64) -> bool {
    |a: i64, b: i64| a <= b
}

/// Window anchors over timestamps in ascending order: the first timestamp
/// anchors a window; a timestamp at or after `anchor + 5h` anchors the next.
/// The result is the last anchor.
pub open spec fn anchor_scan(s: Seq<i64>) -> Option<i64>
    decreases s.len(),
{
    if s.len() == 0 {
        None
    } else {
        match anchor_scan(s.drop_last()) {
            None => Some(s.last()),
            Some(a) => if s.last() >= a + FIVE_HOURS_SECS {
                Some(s.last())
            } else {
                Some(a)
            },
        }
    }
}

/// The anchor of the current session window, when `now` is still inside it.
pub open spec fn live_anchor(ts: Seq<i64>, now: i64) -> Option<i64> {
    match anchor_scan(upto_now(ts, now).sort_by(ts_leq())) {
        Some(a) => if now < a + FIVE_HOURS_SECS {
            Some(a)
        } else {
            None
        },
        None => None,
    }
}

proof fn lemma_ts_leq_total()
    ensures
        vstd::relations::total_ordering(ts_leq()),
{
}

fn sort_ts(v: &Vec<i64>) -> (r: Vec<i64>)
    ensures
        vstd::relations::sorted_by(r@, ts_leq()),
        r@.to_multiset() == v@.to_multiset(),
{
    broadcast use vstd::seq_lib::group_to_multiset_ensures;

    let mut out: Vec<i64> = Vec::new();
    let mut i: usize = 0;
    assert(v@.take(0) =~= Seq::<i64>::empty());
    while i < v.len()
        invariant
            i <= v@.len(),
            vstd::relations::sorted_by(out@, ts_leq()),
            out@.to_multiset() == v@.take(i as int).to_multiset(),
        decreases v@.len() - i,
    {
        let x = v[i];
        let mut j: usize = 0;
        while j < out.len() && out[j] <= x
            invariant
                j <= out@.len(),
                forall|k: int| 0 <= k < j ==> out@[k] <= x,
            decreases out@.len() - j,
        {
            j = j + 1;
        }
        let ghost before = out@;
        out.insert(j, x);
        proof {
            vstd::seq_lib::to_multiset_insert(before, j as int, x);
            assert(v@.take(i + 1) =~= v@.take(i as int).push(x));
            vstd::seq_lib::to_multiset_build(v@.take(i as int), x);
            assert forall|a: int, b: int| 0 <= a < b < out@.len() implies #[trigger] (ts_leq())(
                out@[a],
                out@[b],
            ) by {
                if b < j {
                    assert(out@[a] == before[a] && out@[b] == before[b]);
                    assert((ts_leq())(before[a], before[b]));
                } else if b == j {
                    assert(out@[a] == before[a]);
                } else if a < j {
                    assert(out@[a] == before[a] && out@[b] == before[b - 1]);
                    assert((ts_leq())(before[a], before[b - 1]));
                } else if a == j {
                    assert(out@[b] == before[b - 1]);
                    assert(j < before.len());
                    assert(before[j as int] > x);
                    if b - 1 > j {
                        assert((ts_leq())(before[j as int], before[b - 1]));
                    }
                } else {
                    assert(out@[a] == before[a - 1] && out@[b] == before[b - 1]);
                    assert((ts_leq())(before[a - 1], before[b - 1]));
                }
            }
        }
        i = i + 1;
    }
    assert(v@.take(v@.len() as int) =~= v@);
    out
}

/// Anchor of the session window that `now` lies in, if a window is live:
/// among the timestamps not after `now`, in ascending order, the first
/// anchors a window and each one at or after `anchor + 5h` anchors a new
/// one; the last anchor counts only while `now < anchor + 5h`.
pub fn session_window(ts: &Vec<i64>, now: i64) -> (r: Option<i64>)
    requires
        now <= i64::MAX - FIVE_HOURS_SECS,
    ensures
        r == live_anchor(ts@, now),
        r matches Some(a) ==> a <= now < a + FIVE_HOURS_SECS,
{
    let mut kept: Vec<i64> = Vec::new();
    let mut i: usize = 0;
    assert(ts@.take(0) =~= Seq::<i64>::empty());
    while i < ts.len()
        invariant
            i <= ts@.len(),
            kept@ == upto_now(ts@.take(i as int), now),
            forall|k: int| 0 <= k < kept@.len() ==> kept@[k] <= now,
        decreases ts@.len() - i,
    {
        assert(ts@.take(i + 1).drop_last() =~= ts@.take(i as int));
        assert(ts@.take(i + 1).last() == ts@[i as int]);
        if ts[i] <= now {
            kept.push(ts[i]);
        }
        i = i + 1;
    }
    assert(ts@.take(ts@.len() as int) =~= ts@);
    let sorted = sort_ts(&kept);
    proof {
        lemma_ts_leq_total();
        kept@.lemma_sort_by_ensures(ts_leq());
        vstd::seq_lib::lemma_sorted_unique(sorted@, kept@.sort_by(ts_leq()), ts_leq());
        assert forall|k: int| 0 <= k < sorted@.len() implies sorted@[k] <= now by {
            broadcast use vstd::seq_lib::group_to_multiset_ensures;

            assert(sorted@.to_multiset().count(sorted@[k]) > 0);
            assert(kept@.contains(sorted@[k]));
        }
    }
    let mut anchor: Option<i64> = None;
    let mut j: usize = 0;
    assert(sorted@.take(0) =~= Seq::<i64>::empty());
    while j < sorted.len()
        invariant
            j <= sorted@.len(),
            now <= i64::MAX - FIVE_HOURS_SECS,
            forall|k: int| 0 <= k < sorted@.len() ==> sorted@[k] <= now,
            anchor == anchor_scan(sorted@.take(j as int)),
            anchor matches Some(a) ==> a <= now,
        decreases sorted@.len() - j,
    {
        assert(sorted@.take(j + 1).drop_last() =~= sorted@.take(j as int));
        assert(sorted@.take(j + 1).last() == sorted@[j as int]);
        let t = sorted[j];
        match anchor {
            None => {
                anchor = Some(t);
            },
            Some(a) => {
                if t >= a + FIVE_HOURS_SECS {
                    anchor = Some(t);
                }
            },
        }
        j = j + 1;
    }
    assert(sorted@.take(sorted@.len() as int) =~= sorted@);
    match anchor {
        Some(a) => if now < a + FIVE_HOURS_SECS {
            Some(a)
        } else {
            None
        },
        None => None,
    }
}

proof fn lemma_anchor_scan_member(s: Seq<i64>)
    ensures
        anchor_scan(s) matches Some(a) ==> s.contains(a),
        s.len() > 0 ==> anchor_scan(s) is Some,
    decreases s.len(),
{
    if s.len() > 0 {
        lemma_anchor_scan_member(s.drop_last());
        if let Some(a) = anchor_scan(s) {
            if a != s.last() {
                let t = s.drop_last();
                let k = choose|k: int| 0 <= k < t.len() && t[k] == a;
                assert(s[k] == a);
            } else {
                assert(s[s.len() - 1] == a);
            }
        }
    }
}

proof fn lemma_upto_now_members(ts: Seq<i64>, now: i64)
    ensures
        forall|x: i64| upto_now(ts, now).contains(x) ==> ts.contains(x) && x <= now,
    decreases ts.len(),
{
    if ts.len() > 0 {
        lemma_upto_now_members(ts.drop_last(), now);
        let w = upto_now(ts.drop_last(), now);
        assert forall|x: i64| upto_now(ts, now).contains(x) implies ts.contains(x) && x <= now by {
            let u = upto_now(ts, now);
            let k = choose|k: int| 0 <= k < u.len() && u[k] == x;
            if k < w.len() {
                assert(u[k] == w[k]);
                assert(w.contains(x));
                assert(ts.drop_last().contains(x));
                let j = choose|j: int| 0 <= j < ts.drop_last().len() && ts.drop_last()[j] == x;
                assert(ts.drop_last()[j] == ts[j]);
            } else {
                assert(ts[ts.len() - 1] == x);
            }
        }
    }
}

/// The live session window always starts at a prompt: its anchor is one of
/// the timestamps, not after `now`, and `now` lies before its 5h end.
pub proof fn lemma_session_anchor_is_a_prompt(ts: Seq<i64>, now: i64)
    ensures
        live_anchor(ts, now) matches Some(a) ==> ts.contains(a) && a <= now && now < a
            + FIVE_HOURS_SECS,
{
    let u = upto_now(ts, now);
    lemma_ts_leq_total();
    u.lemma_sort_by_ensures(ts_leq());
    lemma_anchor_scan_member(u.sort_by(ts_leq()));
    lemma_upto_now_members(ts, now);
    if let Some(a) = live_anchor(ts, now) {
        assert(u.sort_by(ts_leq()).contains(a));
        assert(u.contains(a));
    }
}

proof fn lemma_upto_now_all(ts: Seq<i64>, now: i64)
    requires
        forall|i: int| 0 <= i < ts.len() ==> ts[i] <= now,
    ensures
        upto_now(ts, now) == ts,
    decreases ts.len(),
{
    if ts.len() > 0 {
        lemma_upto_now_all(ts.drop_last(), now);
        assert(ts.drop_last().push(ts.last()) =~= ts);
    }
}

proof fn lemma_sort_push_latest(ts: Seq<i64>, p: i64)
    requires
        forall|i: int| 0 <= i < ts.len() ==> ts[i] <= p,
    ensures
        ts.push(p).sort_by(ts_leq()) == ts.sort_by(ts_leq()).push(p),
{
    broadcast use vstd::seq_lib::group_to_multiset_ensures;

    lemma_ts_leq_total();
    ts.lemma_sort_by_ensures(ts_leq());
    ts.push(p).lemma_sort_by_ensures(ts_leq());
    let s = ts.sort_by(ts_leq());
    let sp = s.push(p);
    assert forall|i: int, j: int| 0 <= i < j < sp.len() implies #[trigger] (ts_leq())(sp[i], sp[j]) by {
        assert(sp[i] == s[i]);
        if j < s.len() {
            assert(sp[j] == s[j]);
        } else {
            assert(s.contains(s[i]));
            assert(ts.contains(s[i]));
            let k = choose|k: int| 0 <= k < ts.len() && ts[k] == s[i];
        }
    }
    assert(sp.to_multiset() =~= ts.push(p).to_multiset());
    vstd::seq_lib::lemma_sorted_unique(sp, ts.push(p).sort_by(ts_leq()), ts_leq());
}

/// How the session window moves with the next prompt. Given all prompts so
/// far (none after `now`) and a new prompt at `p >= now`: windows are
/// measured from their anchor, not from the previous prompt, so the new
/// prompt joins the live window while it is before that window's anchor +
/// 5h, and otherwise (at or after anchor + 5h, or with no live window)
/// anchors a new window of its own. Without a new prompt, a window is over
/// from its anchor + 5h on.
pub proof fn lemma_session_window_next_prompt(ts: Seq<i64>, now: i64, p: i64)
    requires
        forall|i: int| 0 <= i < ts.len() ==> ts[i] <= now,
        now <= p,
    ensures
        live_anchor(ts.push(p), p) == match live_anchor(ts, now) {
            Some(a) => if p < a + FIVE_HOURS_SECS {
                Some(a)
            } else {
                Some(p)
            },
            None => Some(p),
        },
        live_anchor(ts, now) matches Some(a) ==> (p >= a + FIVE_HOURS_SECS ==> live_anchor(ts, p)
            is None),
        live_anchor(ts, now) matches Some(a) ==> (p < a + FIVE_HOURS_SECS ==> live_anchor(ts, p)
            == Some(a)),
{
    lemma_upto_now_all(ts, now);
    lemma_upto_now_all(ts, p);
    assert(ts.push(p).drop_last() =~= ts);
    assert(upto_now(ts.push(p), p) == ts.push(p));
    lemma_sort_push_latest(ts, p);
    let s = ts.sort_by(ts_leq());
    assert(s.push(p).drop_last() =~= s);
    lemma_ts_leq_total();
    ts.lemma_sort_by_ensures(ts_leq());
    lemma_anchor_scan_member(s);
    match anchor_scan(s) {
        Some(a) => {
            assert(s.contains(a));
            assert(ts.contains(a));
        },
        None => {},
    }
}

proof fn lemma_upto_now_count(ts: Seq<i64>, now: i64, x: i64)
    ensures
        upto_now(ts, now).to_multiset().count(x) == if x <= now {
            ts.to_multiset().count(x)
        } else {
            0
        },
    decreases ts.len(),
{
    broadcast use vstd::seq_lib::group_to_multiset_ensures;
    broadcast use vstd::multiset::group_multiset_axioms;

    if ts.len() == 0 {
        assert(upto_now(ts, now) =~= Seq::<i64>::empty());
    } else {
        lemma_upto_now_count(ts.drop_last(), now, x);
        assert(ts.drop_last().push(ts.last()) =~= ts);
    }
}

/// The session window depends on the prompts, not on the order in which
/// they are listed: two lists holding the same prompts give the same live
/// window at every moment.
pub proof fn lemma_session_window_order_free(ts: Seq<i64>, other: Seq<i64>, now: i64)
    requires
        ts.to_multiset() == other.to_multiset(),
    ensures
        live_anchor(ts, now) == live_anchor(other, now),
{
    let u = upto_now(ts, now);
    let v = upto_now(other, now);
    assert forall|x: i64| u.to_multiset().count(x) == v.to_multiset().count(x) by {
        lemma_upto_now_count(ts, now, x);
        lemma_upto_now_count(other, now, x);
    }
    assert(u.to_multiset() =~= v.to_multiset());
    lemma_ts_leq_total();
    u.lemma_sort_by_ensures(ts_leq());
    v.lemma_sort_by_ensures(ts_leq());
    vstd::seq_lib::lemma_sorted_unique(u.sort_by(ts_leq()), v.sort_by(ts_leq()), ts_leq());
}

/// The weekly window ending at the first occurrence of `reset` (stepping
/// whole weeks) strictly after `now`: `(next - 7d, next)`.
pub open spec fn week_window_spec(reset: i64, now: i64) -> (int, int) {
    let next = reset + ((now - reset) / (WEEK_SECS as int) + 1) * WEEK_SECS;
    (next - WEEK_SECS, next)
}

/// The weekly window for a reset time (Unix seconds): the latest past
/// occurrence of the reset, stepping whole weeks, and the next one, which
/// is strictly after `now`.
pub fn week_window_at(reset: i64, now: i64) -> (r: (i64, i64))
    requires
        i64::MIN + WEEK_SECS <= now <= i64::MAX - WEEK_SECS,
    ensures
        r.0 == week_window_spec(reset, now).0,
        r.1 == week_window_spec(reset, now).1,
        r.0 <= now < r.1,
        r.1 - r.0 == WEEK_SECS,
{
    let mut cur = reset;
    let ghost mut k: int = 0;
    // A reset in the future (even more than a week ahead) steps back to its
    // most recent past occurrence first.
    while cur > now
        invariant
            cur == reset + k * WEEK_SECS,
            i64::MIN + WEEK_SECS <= now <= i64::MAX - WEEK_SECS,
        decreases cur as int - now as int + WEEK_SECS as int,
    {
        cur = cur - WEEK_SECS;
        proof {
            k = k - 1;
        }
    }
    // Then forward, one week at a time, to the first reset after `now`.
    while cur <= now
        invariant
            cur == reset + k * WEEK_SECS,
            cur <= now + WEEK_SECS,
            i64::MIN + WEEK_SECS <= now <= i64::MAX - WEEK_SECS,
        decreases now as int + WEEK_SECS as int - cur as int,
    {
        cur = cur + WEEK_SECS;
        proof {
            k = k + 1;
        }
    }
    proof {
        let q = (now - reset) / (WEEK_SECS as int);
        assert(reset + k * WEEK_SECS > now);
        assert(reset + (k - 1) * WEEK_SECS <= now);
        vstd::arithmetic::div_mod::lemma_fundamental_div_mod(now - reset, WEEK_SECS as int);
        assert(k - 1 == q) by (nonlinear_arith)
            requires
                reset + k * WEEK_SECS > now,
                reset + (k - 1) * WEEK_SECS <= now,
                q == (now - reset) / (WEEK_SECS as int),
                now - reset == (WEEK_SECS as int) * q + (now - reset) % (WEEK_SECS as int),
                0 <= (now - reset) % (WEEK_SECS as int) < WEEK_SECS,
        ;
    }
    (cur - WEEK_SECS, cur)
}

/// Any two moments inside the same weekly window see the same window.
pub proof fn lemma_week_window_stable(reset: i64, now: i64, later: i64)
    requires
        week_window_spec(reset, now).0 <= later < week_window_spec(reset, now).1,
    ensures
        week_window_spec(reset, later) == week_window_spec(reset, now),
{
    let w = WEEK_SECS as int;
    let q1 = (now - reset) / w;
    let q2 = (later - reset) / w;
    vstd::arithmetic::div_mod::lemma_fundamental_div_mod(now - reset, w);
    vstd::arithmetic::div_mod::lemma_fundamental_div_mod(later - reset, w);
    assert(q1 == q2) by (nonlinear_arith)
        requires
            reset + q1 * w <= later < reset + (q1 + 1) * w,
            later - reset == w * q2 + (later - reset) % w,
            0 <= (later - reset) % w < w,
            w > 0,
    ;
}

/// What `chrono::NaiveDateTime::parse_from_str(s, fmt)` reads, as seconds
/// since 1970-01-01T00:00 on the naive (zone-less) time line.
pub uninterp spec fn spec_parse_naive_datetime(s: Seq<char>, fmt: Seq<char>) -> Option<i64>;

/// What `chrono::NaiveDate::parse_from_str(s, fmt)` reads, as the naive
/// seconds of that day's midnight.
pub uninterp spec fn spec_parse_naive_date(s: Seq<char>, fmt: Seq<char>) -> Option<i64>;

/// `chrono::NaiveDateTime::parse_from_str`, the result as naive seconds
/// (`and_utc().timestamp()`). The contract names the result.
#[verifier::external_body]
fn parse_naive_datetime(s: &str, fmt: &str) -> (r: Option<i64>)
    ensures
        r == spec_parse_naive_datetime(s@, fmt@),
{
    match chrono::NaiveDateTime::parse_from_str(s, fmt) {
        Ok(n) => Some(n.and_utc().timestamp()),
        Err(_) => None,
    }
}

/// `chrono::NaiveDate::parse_from_str`, the result as the naive seconds of
/// the day's midnight. The contract names the result.
#[verifier::external_body]
fn parse_naive_date(s: &str, fmt: &str) -> (r: Option<i64>)
    ensures
        r == spec_parse_naive_date(s@, fmt@),
{
    match chrono::NaiveDate::parse_from_str(s, fmt) {
        Ok(d) => Some(d.and_time(chrono::NaiveTime::MIN).and_utc().timestamp()),
        Err(_) => None,
    }
}

/// `chrono::Local.from_local_datetime(..).earliest()`: the Unix time of a
/// naive local time in the machine's time zone (the earlier one when a
/// fall-back makes it ambiguous; `None` in a spring-forward gap). The zone
/// depends on the machine, so the result is not named; chrono keeps every
/// UTC offset within a day, which is all the contract states.
#[verifier::external_body]
fn local_from_naive(naive: i64) -> (r: Option<i64>)
    ensures
        r matches Some(t) ==> naive - DAY_SECS < t < naive + DAY_SECS,
{
    match chrono::DateTime::from_timestamp(naive, 0) {
        Some(d) => chrono::Local.from_local_datetime(&d.naive_utc()).earliest().map(
            |l| l.timestamp(),
        ),
        None => None,
    }
}

/// What the reset-date text means on the naive time line: a
/// `YYYY-MM-DDTHH:MM` value, else `YYYY-MM-DDTHH:MM:SS`, else a plain
/// `YYYY-MM-DD` at midnight.
pub open spec fn reset_naive(s: Seq<char>) -> Option<i64> {
    match spec_parse_naive_datetime(s, "%Y-%m-%dT%H:%M"@) {
        Some(n) => Some(n),
        None => match spec_parse_naive_datetime(s, "%Y-%m-%dT%H:%M:%S"@) {
            Some(n) => Some(n),
            None => spec_parse_naive_date(s, "%Y-%m-%d"@),
        },
    }
}

/// Computes the weekly window from the reset date/time: the most recent
/// past occurrence of the reset (stepping 7 days at a time, in either
/// direction) and the next one, strictly after `now`. Accepts a
/// `datetime-local` value (`YYYY-MM-DDTHH:MM`, seconds optional) or a plain
/// date (`YYYY-MM-DD`), read in the machine's local time zone. Returns
/// `(week_start, next_reset)`, both Unix seconds.
pub fn week_window_from_reset(reset_date: &str, now: i64) -> (r: Option<(i64, i64)>)
    requires
        i64::MIN + WEEK_SECS <= now <= i64::MAX - WEEK_SECS,
    ensures
        reset_naive(reset_date@) is None ==> r is None,
        r matches Some(w) ==> {
            &&& reset_naive(reset_date@) is Some
            &&& exists|t: i64|
                reset_naive(reset_date@)->0 - DAY_SECS < t < reset_naive(reset_date@)->0 + DAY_SECS
                    && w.0 == week_window_spec(t, now).0 && w.1 == week_window_spec(t, now).1
            &&& w.0 <= now < w.1
            &&& w.1 - w.0 == WEEK_SECS
        },
{
    let naive = match parse_naive_datetime(reset_date, "%Y-%m-%dT%H:%M") {
        Some(n) => n,
        None => match parse_naive_datetime(reset_date, "%Y-%m-%dT%H:%M:%S") {
            Some(n) => n,
            None => match parse_naive_date(reset_date, "%Y-%m-%d") {
                Some(n) => n,
                None => {
                    return None;
                },
            },
        },
    };
    // `.earliest()` so that a fall-back DST ambiguity picks the first
    // occurrence rather than dropping the weekly bar.
    let reset = match local_from_naive(naive) {
        Some(t) => t,
        None => {
            return None;
        },
    };
    Some(week_window_at(reset, now))
}

/// Whether a point counts in the day bucket starting at `day_start`: inside
/// `[day_start, day_start + 24h)`, not after `now`, with a real model name
/// (not empty, not a `<synthetic>`-style placeholder).
pub open spec fn in_day_bucket(p: PointV, day_start: i64, now: i64) -> bool {
    &&& day_start <= p.ts
    &&& p.ts < day_start + DAY_SECS
    &&& p.ts <= now
    &&& p.model.len() > 0
    &&& !starts_with(p.model, seq!['<'])
}

/// Whether a point counts in the day bucket starting at `day_start`.
pub fn counts_in_day(p: &Point, day_start: i64, now: i64) -> (b: bool)
    ensures
        b == in_day_bucket(p@, day_start, now),
{
    let in_day = day_start <= p.ts && (p.ts as i128) < (day_start as i128) + (DAY_SECS as i128)
        && p.ts <= now;
    if !in_day {
        return false;
    }
    let m = crate::text::chars_of(p.model.as_str());
    if m.len() == 0 {
        return false;
    }
    let lt = ['<'];
    let starts = crate::text::starts_with_chars(m.as_slice(), &lt);
    assert(lt@ =~= seq!['<']);
    !starts
}

/// The naive (zone-less) midnight, in seconds, of the local calendar day of
/// a Unix time (`Local.timestamp_opt(ts, 0).single()`, then `date_naive()`
/// at 00:00). The zone depends on the machine; chrono keeps every UTC offset
/// within a day, so that midnight lies within a day of the local time, itself
/// within a day of `ts`.
#[verifier::external_body]
fn local_midnight_of(ts: i64) -> (r: Option<i64>)
    ensures
        r matches Some(m) ==> ts - 2 * DAY_SECS < m <= ts + DAY_SECS,
{
    match chrono::Local.timestamp_opt(ts, 0).single() {
        Some(dt) => Some(dt.date_naive().and_time(chrono::NaiveTime::MIN).and_utc().timestamp()),
        None => None,
    }
}

/// The naive midnight, in seconds, of today's local calendar day
/// (`Local::now().date_naive()` at 00:00). Depends on the clock and the
/// machine's zone; the contract only states chrono's date range (years
/// within ±262143).
#[verifier::external_body]
fn local_today_midnight() -> (r: i64)
    ensures
        -9_000_000_000_000 < r < 9_000_000_000_000,
{
    chrono::Local::now().date_naive().and_time(chrono::NaiveTime::MIN).and_utc().timestamp()
}

/// Each of the seven day starts is either the fallback `week_start + i·24h`
/// or within a day of `m + i·24h`, for one common naive midnight `m`: the
/// days follow each other.
pub open spec fn days_around(m: int, week_start: i64, r: Seq<i64>) -> bool {
    forall|i: int|
        0 <= i < 7 ==> #[trigger] r[i] == week_start + i * DAY_SECS || (m + i * DAY_SECS - DAY_SECS
            < r[i] && r[i] < m + i * DAY_SECS + DAY_SECS)
}

/// Start of day `i` of the week: its looked-up local midnight, or
/// `week_start + i·24h` when there is none.
pub open spec fn day_start_or(week_start: i64, local: Option<i64>, i: int) -> int {
    match local {
        Some(t) => t as int,
        None => week_start + i * DAY_SECS,
    }
}

/// The seven day starts of the week from `week_start`, given the looked-up
/// local midnight of each day (`None` where that midnight does not exist):
/// each is its local midnight, or `week_start + i·24h` without one.
pub fn days_from(week_start: i64, locals: &[Option<i64>]) -> (r: Vec<i64>)
    requires
        locals@.len() == 7,
        week_start <= i64::MAX - 6 * DAY_SECS,
    ensures
        r@.len() == 7,
        forall|i: int| 0 <= i < 7 ==> #[trigger] r@[i] == day_start_or(week_start, locals@[i], i),
{
    let mut out: Vec<i64> = Vec::new();
    let mut i: usize = 0;
    while i < 7
        invariant
            0 <= i <= 7,
            locals@.len() == 7,
            week_start <= i64::MAX - 6 * DAY_SECS,
            out@.len() == i,
            forall|j: int| 0 <= j < i ==> #[trigger] out@[j] == day_start_or(week_start, locals@[j], j),
        decreases 7 - i,
    {
        let start = match locals[i] {
            Some(t) => t,
            None => week_start + (i as i64) * DAY_SECS,
        };
        out.push(start);
        i = i + 1;
    }
    out
}

/// Start (Unix seconds) of each of the 7 local calendar days from the day
/// of `week_start`: the local midnight of each day (the earlier one in a
/// fall-back), or `week_start + i·24h` when the midnight does not exist.
/// When `week_start` has no single local time, the days start from today.
pub fn day_starts(week_start: i64) -> (r: Vec<i64>)
    requires
        i64::MIN + 8 * DAY_SECS <= week_start <= i64::MAX - 8 * DAY_SECS,
    ensures
        r@.len() == 7,
        exists|m: int| days_around(m, week_start, r@),
{
    let first = match local_midnight_of(week_start) {
        Some(m) => m,
        None => local_today_midnight(),
    };
    let mut locals: Vec<Option<i64>> = Vec::new();
    let mut i: i64 = 0;
    while i < 7
        invariant
            0 <= i <= 7,
            locals@.len() == i,
            forall|j: int|
                0 <= j < i ==> (#[trigger] locals@[j] matches Some(t) ==> first + j * DAY_SECS
                    - DAY_SECS < t && t < first + j * DAY_SECS + DAY_SECS),
            i64::MIN + 3 * DAY_SECS < first <= i64::MAX - 7 * DAY_SECS,
        decreases 7 - i,
    {
        locals.push(local_from_naive(first + i * DAY_SECS));
        i = i + 1;
    }
    let out = days_from(week_start, locals.as_slice());
    assert forall|j: int| 0 <= j < 7 implies #[trigger] out@[j] == week_start + j * DAY_SECS || (
    first + j * DAY_SECS - DAY_SECS < out@[j] && out@[j] < first + j * DAY_SECS + DAY_SECS) by {
        assert(out@[j] == day_start_or(week_start, locals@[j], j));
        assert(locals@[j] matches Some(t) ==> first + j * DAY_SECS - DAY_SECS < t && t < first + j
            * DAY_SECS + DAY_SECS);
    }
    assert(days_around(first as int, week_start, out@));
    out
}

} // verus!
