use cctide::config::{default_true, needs_disabled_redraw, normalized_refresh_secs, tick_sleep_ms};
use cctide::icon::RenderedIcon;
use cctide::notify::{update_body, Bar, NotifyState};
use cctide::rtk::{after_plain_gain, after_weekly_gain, extended_path, gain_args, GainOutcome, RtkNext};
use cctide::state::{release_url, update_info};

#[test]
fn default_notifications_enabled() {
    assert!(default_true());
}

#[test]
fn zero_refresh_falls_back_to_30() {
    assert_eq!(normalized_refresh_secs(0), 30);
    assert_eq!(normalized_refresh_secs(60), 60);
}

#[test]
fn ticker_sleeps_the_interval_less_the_sweep() {
    assert_eq!(tick_sleep_ms(30), 28_000);
    // At least five seconds between cycles.
    assert_eq!(tick_sleep_ms(1), 3_000);
    assert_eq!(tick_sleep_ms(0), 3_000);
}

#[test]
fn disabled_icon_redraws_only_on_change() {
    assert!(needs_disabled_redraw(None, false));
    assert!(!needs_disabled_redraw(Some((true, false)), false));
    assert!(needs_disabled_redraw(Some((true, false)), true));
    assert!(needs_disabled_redraw(Some((false, false)), false));
}

#[test]
fn a_level_fires_once_and_rearms_after_a_drop() {
    let mut n = NotifyState::new();
    assert!(n.check_bar(Bar::Session, 1, true));
    assert!(!n.check_bar(Bar::Session, 1, true));
    assert!(n.check_bar(Bar::Session, 2, true));
    assert!(!n.check_bar(Bar::Session, 0, true));
    assert!(n.check_bar(Bar::Session, 2, true));
    // The weekly bar is tracked separately.
    assert_eq!(n.level(Bar::Weekly), 0);
    assert!(n.check_bar(Bar::Weekly, 3, true));
    assert_eq!(n.level(Bar::Session), 2);
}

#[test]
fn levels_are_tracked_while_notifications_are_off() {
    let mut n = NotifyState::new();
    assert!(!n.check_bar(Bar::Weekly, 2, false));
    assert_eq!(n.level(Bar::Weekly), 2);
    // Turning notifications on does not replay the level already passed.
    assert!(!n.check_bar(Bar::Weekly, 2, true));
    assert!(n.check_bar(Bar::Weekly, 3, true));
}

#[test]
fn an_update_is_announced_once_per_version() {
    let mut n = NotifyState::new();
    assert!(n.check_update(Some("1.2.0")));
    // The send failed: ask again next cycle.
    n.update_sent("1.2.0", false);
    assert!(n.check_update(Some("1.2.0")));
    n.update_sent("1.2.0", true);
    assert!(!n.check_update(Some("1.2.0")));
    assert!(n.check_update(Some("1.3.0")));
    // No update re-arms.
    assert!(!n.check_update(None));
    assert!(n.check_update(Some("1.2.0")));
}

#[test]
fn notification_texts() {
    assert_eq!(update_body("1.2.0"), "v1.2.0 — open cctide to install");
    assert_eq!(Bar::Session.title(), "cctide - session (5h)");
    assert_eq!(Bar::Weekly.title(), "cctide - weekly limit");
    assert_eq!(Bar::Session.subject(), "Session usage");
    assert_eq!(Bar::Weekly.subject(), "Weekly usage");
}

#[test]
fn release_url_embeds_only_plain_versions() {
    assert_eq!(
        release_url("1.2.0-beta+3"),
        "https://github.com/jordan-temim/cctide/releases/tag/v1.2.0-beta+3"
    );
    assert_eq!(
        release_url("1.2.0<script>"),
        "https://github.com/jordan-temim/cctide/releases/latest"
    );
    let info = update_info("2.0.0", Some("notes".to_string()));
    assert_eq!(info.version, "2.0.0");
    assert_eq!(info.notes.as_deref(), Some("notes"));
    assert_eq!(info.url, "https://github.com/jordan-temim/cctide/releases/tag/v2.0.0");
}

#[test]
fn rtk_falls_back_to_the_plain_summary() {
    assert_eq!(after_weekly_gain(GainOutcome::Parsed), RtkNext::UseWeekly);
    assert_eq!(after_weekly_gain(GainOutcome::ExitError), RtkNext::TryPlain);
    assert_eq!(after_weekly_gain(GainOutcome::Timeout), RtkNext::Unavailable);
    assert!(after_plain_gain(GainOutcome::Parsed));
    assert!(!after_plain_gain(GainOutcome::ExitError));
    assert_eq!(gain_args(true), vec!["gain", "--format", "json", "--weekly"]);
    assert_eq!(gain_args(false), vec!["gain", "--format", "json"]);
    assert_eq!(extended_path("/x"), "/opt/homebrew/bin:/usr/local/bin:/usr/bin:/bin:/x");
}

#[test]
fn opaque_pixels_count_whole_pixels() {
    let icon = RenderedIcon { rgba: vec![0, 0, 0, 0, 1, 2, 3, 255, 9, 9, 9, 1, 7], width: 3, height: 1 };
    assert_eq!(icon.opaque_pixels(), 2);
}
