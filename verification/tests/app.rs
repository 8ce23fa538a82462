use salmon_watch::app::{
    incident_command, parse_snooze_duration, reload_failure, starts_hidden, tray_toggle_action,
    TrayToggleAction,
};
use salmon_watch::cli::{Command as CliCommand, SetupOperation};
use salmon_watch::runtime::Command;

#[test]
fn tray_toggle_shows_activates_or_hides_based_on_window_state() {
    assert_eq!(tray_toggle_action(false, false), TrayToggleAction::Show);
    assert_eq!(tray_toggle_action(false, true), TrayToggleAction::Show);
    assert_eq!(tray_toggle_action(true, false), TrayToggleAction::Activate);
    assert_eq!(tray_toggle_action(true, true), TrayToggleAction::Hide);
}

#[test]
fn app_tray_toggle_shows_activates_or_hides_based_on_window_state() {
    for focused in [false, true] {
        assert_eq!(tray_toggle_action(false, focused), TrayToggleAction::Show);
    }
    assert_eq!(tray_toggle_action(true, false), TrayToggleAction::Activate);
    assert_eq!(tray_toggle_action(true, true), TrayToggleAction::Hide);
}

#[test]
fn parses_snooze_menu_durations_with_explicit_units() {
    for (value, expected) in [
        ("15m", time::Duration::minutes(15)),
        ("30m", time::Duration::minutes(30)),
        ("1h", time::Duration::hours(1)),
        ("4h", time::Duration::hours(4)),
        ("6h", time::Duration::hours(6)),
        ("12h", time::Duration::hours(12)),
        ("1d", time::Duration::days(1)),
        ("2d", time::Duration::days(2)),
        ("7d", time::Duration::days(7)),
    ] {
        assert_eq!(parse_snooze_duration(value), Some(expected.whole_seconds()));
    }
    assert_eq!(parse_snooze_duration("later"), None);
}

#[test]
fn incident_actions_become_commands() {
    assert_eq!(
        incident_command("local.disk", "snooze", "1h"),
        Some(Command::Snooze { key: "local.disk".into(), seconds: 3_600 })
    );
    assert_eq!(incident_command("local.disk", "snooze", "later"), None);
    assert_eq!(
        incident_command("local.disk", "unsnooze", ""),
        Some(Command::Unsnooze { key: "local.disk".into() })
    );
    assert_eq!(
        incident_command("local.disk", "forget", ""),
        Some(Command::ForgetStale { key: "local.disk".into() })
    );
    assert_eq!(incident_command("local.disk", "delete", ""), None);
}

#[test]
fn failed_reloads_are_announced_with_their_error() {
    assert_eq!(
        reload_failure("failed to parse config"),
        ("Configuration reload failed".to_owned(), "failed to parse config".to_owned())
    );
}

#[test]
fn the_window_starts_hidden_on_demand_or_by_preference() {
    assert!(starts_hidden(true, false));
    assert!(starts_hidden(false, true));
    assert!(!starts_hidden(false, false));
}

#[test]
fn the_program_runs_unless_asked_otherwise() {
    assert_eq!(CliCommand::default(), CliCommand::Run);
    assert_eq!(SetupOperation::default(), SetupOperation::Complete);
}
