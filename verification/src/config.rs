//! Settings read from the persisted configuration, and the refresh cadence.
//!
//! The configuration file itself (calibration anchors, alert levels) holds
//! real numbers and is read and written by the caller; this module holds
//! the integer rules: defaults, the refresh interval and the ticker's pause.
use vstd::prelude::*;

verus! {

/// Refresh interval used when the configuration gives none (or zero).
pub const DEFAULT_REFRESH_SECS: u64 = 30;

/// Shortest interval between two ticker cycles, in seconds.
pub const MIN_TICK_SECS: u64 = 5;

/// Frames of the refresh sweep animation.
pub const SHIMMER_FRAMES: u64 = 5;

/// Duration of one sweep frame, in milliseconds.
pub const SHIMMER_MS: u64 = 400;

/// The default of the on/off settings (notifications, dynamic icon,
/// tracking): on.
pub fn default_true() -> (b: bool)
    ensures
        b,
{
    true
}

/// The refresh interval a configuration stands for: its value, or the
/// default when it is zero.
pub fn normalized_refresh_secs(secs: u64) -> (r: u64)
    ensures
        r == if secs == 0 {
            DEFAULT_REFRESH_SECS
        } else {
            secs
        },
{
    if secs == 0 {
        DEFAULT_REFRESH_SECS
    } else {
        secs
    }
}

/// How long the ticker sleeps after a cycle: the refresh interval (at least
/// five seconds), less the time the sweep animation already took.
pub fn tick_sleep_ms(refresh_secs: u64) -> (r: u64)
    requires
        refresh_secs <= u64::MAX / 1000,
    ensures
        r == (if refresh_secs < MIN_TICK_SECS {
            MIN_TICK_SECS * 1000 - SHIMMER_FRAMES * SHIMMER_MS
        } else if refresh_secs * 1000 < SHIMMER_FRAMES * SHIMMER_MS {
            0int
        } else {
            refresh_secs * 1000 - SHIMMER_FRAMES * SHIMMER_MS
        }),
{
    let secs = if refresh_secs < MIN_TICK_SECS {
        MIN_TICK_SECS
    } else {
        refresh_secs
    };
    let ms = secs * 1000;
    let swept = SHIMMER_FRAMES * SHIMMER_MS;
    if ms < swept {
        0
    } else {
        ms - swept
    }
}

/// Whether the disabled icon must be drawn again: only when what it shows
/// (disabled, update waiting) changed since the last drawing.
pub fn needs_disabled_redraw(last: Option<(bool, bool)>, update_available: bool) -> (b: bool)
    ensures
        b == (last != Some((true, update_available))),
{
    match last {
        Some((d, u)) => !(d && u == update_available),
        None => true,
    }
}

} // verus!
