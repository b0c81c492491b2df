//! System notifications at the global alert levels.
//!
//! Fires once each time the session or weekly bar reaches a new, higher
//! alert level (e.g. 33 → 66 → 90%). Re-arms when the bar drops back below a
//! level. The level state is tracked even when notifications are disabled,
//! so turning them on later does not replay levels already passed. An
//! available update is announced once per version; the caller sends the
//! notifications and reports whether the send succeeded.
use vstd::prelude::*;

use crate::paths::opt_view;
use crate::text::str_eq;

verus! {

/// Highest alert level already signalled per bar, and the newest app version
/// already announced.
pub struct NotifyState {
    session_level: u8,
    weekly_level: u8,
    update_version: Option<String>,
}

/// Abstract value of a [`NotifyState`].
pub struct NotifyV {
    pub session_level: u8,
    pub weekly_level: u8,
    pub update_version: Option<Seq<char>>,
}

impl View for NotifyState {
    type V = NotifyV;

    closed spec fn view(&self) -> NotifyV {
        NotifyV {
            session_level: self.session_level,
            weekly_level: self.weekly_level,
            update_version: opt_view(self.update_version),
        }
    }
}

/// One of the two gauges.
#[derive(Clone, Copy, PartialEq, Eq, Structural, Debug)]
pub enum Bar {
    Session,
    Weekly,
}

/// A bar check: the level stored afterwards, and whether a notification
/// fires. The stored level always follows the bar (up or down); a
/// notification fires only on a rise, and only when notifications are on.
pub open spec fn bar_step(stored: u8, level: u8, enabled: bool) -> (u8, bool) {
    (level, level > stored && enabled)
}

/// The stored level of a bar.
pub open spec fn bar_level(s: NotifyV, bar: Bar) -> u8 {
    match bar {
        Bar::Session => s.session_level,
        Bar::Weekly => s.weekly_level,
    }
}

/// An update check: the version marker afterwards, and whether `version`
/// must be announced. No update re-arms the marker; a version already
/// announced is not announced again.
pub open spec fn update_step(marker: Option<Seq<char>>, version: Option<Seq<char>>) -> (Option<Seq<char>>, bool) {
    match version {
        None => (None, false),
        Some(v) => (marker, marker != Some(v)),
    }
}

/// After an announcement of `version` was attempted: the marker advances
/// only when the send succeeded, so a dropped one is retried.
pub open spec fn sent_step(marker: Option<Seq<char>>, version: Seq<char>, ok: bool) -> Option<Seq<char>> {
    if ok {
        Some(version)
    } else {
        marker
    }
}

impl NotifyState {
    /// Nothing signalled yet.
    pub fn new() -> (r: NotifyState)
        ensures
            r@ == (NotifyV { session_level: 0, weekly_level: 0, update_version: None }),
    {
        NotifyState { session_level: 0, weekly_level: 0, update_version: None }
    }

    /// The stored level of a bar.
    pub fn level(&self, bar: Bar) -> (r: u8)
        ensures
            r == bar_level(self@, bar),
    {
        match bar {
            Bar::Session => self.session_level,
            Bar::Weekly => self.weekly_level,
        }
    }

    /// Evaluates a bar's alert level (how many of the sorted alert levels
    /// its percentage reached) and tells whether a notification fires. The
    /// level is recorded even when notifications are disabled.
    pub fn check_bar(&mut self, bar: Bar, level: u8, enabled: bool) -> (fire: bool)
        ensures
            fire == bar_step(bar_level(old(self)@, bar), level, enabled).1,
            bar_level(final(self)@, bar) == bar_step(bar_level(old(self)@, bar), level, enabled).0,
            bar == Bar::Session ==> final(self)@.weekly_level == old(self)@.weekly_level,
            bar == Bar::Weekly ==> final(self)@.session_level == old(self)@.session_level,
            final(self)@.update_version == old(self)@.update_version,
    {
        let stored = match bar {
            Bar::Session => self.session_level,
            Bar::Weekly => self.weekly_level,
        };
        let fire = level > stored && enabled;
        if level != stored {
            match bar {
                Bar::Session => {
                    self.session_level = level;
                },
                Bar::Weekly => {
                    self.weekly_level = level;
                },
            }
        }
        fire
    }

    /// Whether an available update must be announced now. Pass `None` when
    /// no update is available, to re-arm for a future version.
    pub fn check_update(&mut self, version: Option<&str>) -> (announce: bool)
        ensures
            announce == update_step(
                old(self)@.update_version,
                match version {
                    Some(v) => Some(v@),
                    None => None,
                },
            ).1,
            final(self)@.update_version == update_step(
                old(self)@.update_version,
                match version {
                    Some(v) => Some(v@),
                    None => None,
                },
            ).0,
            final(self)@.session_level == old(self)@.session_level,
            final(self)@.weekly_level == old(self)@.weekly_level,
    {
        match version {
            None => {
                self.update_version = None;
                false
            },
            Some(v) => match &self.update_version {
                Some(u) => !str_eq(u.as_str(), v),
                None => true,
            },
        }
    }

    /// Records the result of announcing `version`.
    pub fn update_sent(&mut self, version: &str, ok: bool)
        ensures
            final(self)@.update_version == sent_step(old(self)@.update_version, version@, ok),
            final(self)@.session_level == old(self)@.session_level,
            final(self)@.weekly_level == old(self)@.weekly_level,
    {
        if ok {
            self.update_version = Some(String::from_str(version));
        }
    }
}

/// The notification title for a bar.
pub open spec fn bar_title(bar: Bar) -> Seq<char> {
    match bar {
        Bar::Session => "cctide - session (5h)"@,
        Bar::Weekly => "cctide - weekly limit"@,
    }
}

/// What a bar measures, as its notification names it.
pub open spec fn bar_subject(bar: Bar) -> Seq<char> {
    match bar {
        Bar::Session => "Session usage"@,
        Bar::Weekly => "Weekly usage"@,
    }
}

impl Bar {
    /// The notification title for this bar.
    pub fn title(&self) -> (r: String)
        ensures
            r@ == bar_title(*self),
    {
        match self {
            Bar::Session => String::from_str("cctide - session (5h)"),
            Bar::Weekly => String::from_str("cctide - weekly limit"),
        }
    }

    /// What this bar measures, as its notification names it.
    pub fn subject(&self) -> (r: String)
        ensures
            r@ == bar_subject(*self),
    {
        match self {
            Bar::Session => String::from_str("Session usage"),
            Bar::Weekly => String::from_str("Weekly usage"),
        }
    }
}

/// The text of an update announcement.
pub fn update_body(version: &str) -> (r: String)
    ensures
        r@ == "v"@ + version@ + " — open cctide to install"@,
{
    String::from_str("v").concat(version).concat(" — open cctide to install")
}

/// A level reached is signalled once: checking the bar again at the same
/// level fires nothing, whether or not notifications were on the first time
/// (so turning them on later does not replay a level already passed).
pub proof fn lemma_level_fires_once(stored: u8, level: u8, first_enabled: bool, then_enabled: bool)
    ensures
        !bar_step(bar_step(stored, level, first_enabled).0, level, then_enabled).1,
{
}

/// Dropping back below a level re-arms it: rising to it again fires (with
/// notifications on).
pub proof fn lemma_drop_rearms(stored: u8, high: u8, low: u8, e1: bool, e2: bool)
    requires
        low < high,
    ensures
        bar_step(bar_step(bar_step(stored, high, e1).0, low, e2).0, high, true).1,
{
}

/// An update is announced once per version: after a successful send the
/// same version is not announced again; after a failed one it is.
pub proof fn lemma_update_announced_once(marker: Option<Seq<char>>, v: Seq<char>, ok: bool)
    requires
        update_step(marker, Some(v)).1,
    ensures
        update_step(sent_step(update_step(marker, Some(v)).0, v, ok), Some(v)).1 == !ok,
{
}

/// No update available re-arms: a version announced before is announced
/// again when it shows up anew.
pub proof fn lemma_no_update_rearms(marker: Option<Seq<char>>, v: Seq<char>)
    ensures
        update_step(update_step(marker, None).0, Some(v)).1,
{
}

} // verus!
