//! Optional surfacing of RTK (Rust Token Killer) savings.
//!
//! When the `rtk` binary is present, its analytics are read with
//! `rtk gain --format json` (fully local). The caller runs the binary (with
//! a timeout) and parses its output; this module gives the arguments, the
//! search path, and what to do with each outcome.
use vstd::prelude::*;

verus! {

/// How one run of `rtk gain` ended.
#[derive(Clone, Copy, PartialEq, Eq, Structural, Debug)]
pub enum GainOutcome {
    /// Exited successfully with readable output.
    Parsed,
    /// Exited with an error, or its output could not be read (e.g. an old
    /// version without the requested flag).
    ExitError,
    /// Did not finish in time, or could not be started.
    Timeout,
}

/// What to do after the weekly query.
#[derive(Clone, Copy, PartialEq, Eq, Structural, Debug)]
pub enum RtkNext {
    /// Show the weekly result.
    UseWeekly,
    /// Ask again without `--weekly` and show the plain summary.
    TryPlain,
    /// Show nothing: the binary is stuck or missing; do not retry.
    Unavailable,
}

/// After the weekly query: use it, fall back to the plain summary (an old
/// version rejected the flag), or give up (stuck or absent binary).
pub fn after_weekly_gain(o: GainOutcome) -> (r: RtkNext)
    ensures
        r == match o {
            GainOutcome::Parsed => RtkNext::UseWeekly,
            GainOutcome::ExitError => RtkNext::TryPlain,
            GainOutcome::Timeout => RtkNext::Unavailable,
        },
{
    match o {
        GainOutcome::Parsed => RtkNext::UseWeekly,
        GainOutcome::ExitError => RtkNext::TryPlain,
        GainOutcome::Timeout => RtkNext::Unavailable,
    }
}

/// After the plain query: whether its summary is shown (with no weekly rows).
pub fn after_plain_gain(o: GainOutcome) -> (b: bool)
    ensures
        b == (o == GainOutcome::Parsed),
{
    o == GainOutcome::Parsed
}

/// The arguments of `rtk gain`, with `--weekly` for the weekly query.
pub fn gain_args(weekly: bool) -> (r: Vec<String>)
    ensures
        r@.map_values(|s: String| s@) == if weekly {
            seq!["gain"@, "--format"@, "json"@, "--weekly"@]
        } else {
            seq!["gain"@, "--format"@, "json"@]
        },
{
    let mut r: Vec<String> = Vec::new();
    r.push(String::from_str("gain"));
    r.push(String::from_str("--format"));
    r.push(String::from_str("json"));
    if weekly {
        r.push(String::from_str("--weekly"));
        assert(r@.map_values(|s: String| s@) =~= seq!["gain"@, "--format"@, "json"@, "--weekly"@]);
    } else {
        assert(r@.map_values(|s: String| s@) =~= seq!["gain"@, "--format"@, "json"@]);
    }
    r
}

/// The search path `rtk` is run with: the usual install prefixes (a GUI app
/// does not inherit the login shell's path), then the inherited one.
pub fn extended_path(path_env: &str) -> (r: String)
    ensures
        r@ == "/opt/homebrew/bin:/usr/local/bin:/usr/bin:/bin:"@ + path_env@,
{
    String::from_str("/opt/homebrew/bin:/usr/local/bin:/usr/bin:/bin:").concat(path_env)
}

} // verus!
