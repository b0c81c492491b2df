use cctide::scan::Point;
use cctide::usage::{
    counts_in_day, day_starts, session_window, week_window_at, week_window_from_reset, FIVE_HOURS_SECS,
    WEEK_SECS,
};

#[test]
fn week_start_date_only_format() {
    let now = 0i64;
    let result = week_window_from_reset("2026-06-01", now);
    assert!(result.is_some());
}

#[test]
fn week_start_invalid_date_returns_none() {
    let result = week_window_from_reset("not-a-date", 0);
    assert!(result.is_none());
}

#[test]
fn week_start_more_than_7d_in_future_is_in_the_past() {
    let now = 1_000i64;
    let result = week_window_from_reset("1970-01-09", now);
    assert!(result.is_some());
    let (ws, next) = result.unwrap();
    assert!(ws <= now, "week_start {ws} must be ≤ now {now}");
    assert_eq!(next, ws + WEEK_SECS);
}

#[test]
fn week_start_is_7d_before_next_reset() {
    let now = 1_000;
    let result = week_window_from_reset("1970-01-08", now);
    assert!(result.is_some());
    let (ws, next) = result.unwrap();
    assert!(ws <= now);
    assert!(ws >= now - WEEK_SECS);
    assert_eq!(next, ws + WEEK_SECS);
}

#[test]
fn week_start_datetime_local_format() {
    let now = 1_000;
    let result = week_window_from_reset("1970-01-08T00:00", now);
    assert!(result.is_some());
    let (ws, next) = result.unwrap();
    assert!(ws <= now);
    assert_eq!(next, ws + WEEK_SECS);
}

#[test]
fn week_window_reset_date_exactly_now() {
    let now = 1_000_000i64;
    let result = week_window_from_reset("1970-01-08", now);
    assert!(result.is_some());
    let (ws, next) = result.unwrap();
    assert!(ws <= now);
    assert!(next > now);
    assert_eq!(next - ws, WEEK_SECS);
}

#[test]
fn week_window_with_datetime_including_seconds() {
    let now = 1_000_000i64;
    let result = week_window_from_reset("1970-01-08T12:00:00", now);
    assert!(result.is_some());
    let (ws, next) = result.unwrap();
    assert!(ws <= now);
    assert_eq!(next - ws, WEEK_SECS);
}

#[test]
fn week_window_steps_whole_weeks() {
    assert_eq!(week_window_at(0, 0), (0, WEEK_SECS));
    assert_eq!(week_window_at(0, WEEK_SECS - 1), (0, WEEK_SECS));
    assert_eq!(week_window_at(0, WEEK_SECS), (WEEK_SECS, 2 * WEEK_SECS));
    assert_eq!(week_window_at(10 * WEEK_SECS + 5, 6), (5, 5 + WEEK_SECS));
    assert_eq!(week_window_at(100, 50), (100 - WEEK_SECS, 100));
}

// The session window's weighted sums are real numbers, computed by the
// caller over the points from the anchor on; the anchor is decided here.

#[test]
fn session_single_point_in_window() {
    let now = 1_000_000i64;
    assert_eq!(session_window(&vec![now - 100], now), Some(now - 100));
}

#[test]
fn session_expired_window_returns_zero() {
    let now = 1_000_000i64;
    // Only point is 6h old → window expired.
    assert_eq!(session_window(&vec![now - 6 * 3600], now), None);
}

#[test]
fn session_resets_after_5h_gap() {
    let now = 1_000_000i64;
    // The old session is excluded; the new one anchors the live window.
    assert_eq!(session_window(&vec![now - 6 * 3600, now - 3600], now), Some(now - 3600));
}

#[test]
fn session_sums_multiple_points_in_window() {
    let now = 1_000_000i64;
    let anchor = now - 2 * 3600;
    assert_eq!(session_window(&vec![anchor, anchor + 100, anchor + 200], now), Some(anchor));
}

#[test]
fn session_window_exactly_expired_returns_zero() {
    let now = 1_000_000i64;
    let anchor = now - FIVE_HOURS_SECS;
    assert_eq!(session_window(&vec![anchor], now), None);
}

#[test]
fn session_point_just_before_5h_boundary_stays_in_window() {
    let now = 1_000_000i64;
    let anchor = now - FIVE_HOURS_SECS + 1;
    assert_eq!(session_window(&vec![anchor], now), Some(anchor));
}

#[test]
fn session_multiple_5h_windows_only_counts_latest() {
    let now = 1_000_000i64;
    let w1_anchor = now - 2 * FIVE_HOURS_SECS;
    let w2_anchor = now - FIVE_HOURS_SECS + 3600;
    let ts = vec![w1_anchor, w1_anchor + 1000, w2_anchor, w2_anchor + 1000];
    assert_eq!(session_window(&ts, now), Some(w2_anchor));
}

#[test]
fn session_reset_at_is_future() {
    let now = 1_000_000i64;
    let anchor = now - 1000;
    let a = session_window(&vec![anchor], now).unwrap();
    assert!(a + FIVE_HOURS_SECS > now);
    assert_eq!(a + FIVE_HOURS_SECS, anchor + FIVE_HOURS_SECS);
}

#[test]
fn session_ignores_future_points_and_order() {
    let now = 1_000_000i64;
    let ts = vec![now + 10, now - 100, now - 4 * 3600];
    assert_eq!(session_window(&ts, now), Some(now - 4 * 3600));
}

fn pt(ts: i64, model: &str) -> Point {
    Point {
        ts,
        input_tokens: 0,
        output_tokens: 0,
        cache_5m: 0,
        cache_1h: 0,
        model: model.to_string(),
        key: ts as u64,
    }
}

#[test]
fn daily_buckets_returns_seven_entries() {
    let week_start = 1_736_078_400i64; // 2026-01-05 12:00:00 UTC
    assert_eq!(day_starts(week_start).len(), 7);
}

#[test]
fn daily_buckets_filters_empty_and_synthetic_models() {
    let week_start = 1_736_078_400i64;
    let now = week_start + 7 * 86400;
    let day0_start = day_starts(week_start)[0];
    assert!(!counts_in_day(&pt(day0_start + 43200, "<synthetic>"), day0_start, now));
    assert!(!counts_in_day(&pt(day0_start + 43200, ""), day0_start, now));
    assert!(counts_in_day(&pt(day0_start + 43200, "model-sonnet-4-6"), day0_start, now));
}

#[test]
fn daily_buckets_excludes_future_points() {
    let week_start = 1_736_078_400i64;
    let now = week_start + 3 * 86400;
    let day3 = day_starts(week_start)[3];
    assert!(!counts_in_day(&pt(now + 3600, "model-sonnet-4-6"), day3, now));
}

#[test]
fn daily_buckets_point_on_day_boundary_goes_to_correct_day() {
    let week_start = 1_736_078_400i64;
    let now = week_start + 7 * 86400;
    let starts = day_starts(week_start);
    let p = pt(starts[1], "model-sonnet-4-6");
    assert!(!counts_in_day(&p, starts[0], now), "day 0 must be empty");
    assert!(counts_in_day(&p, starts[1], now), "day 1 must contain boundary point");
}
