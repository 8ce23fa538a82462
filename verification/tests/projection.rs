use chrono::{Datelike, Local, TimeZone, Timelike};
use salmon_watch::domain::{
    Incident, IncidentState, OverallState as Severity, ServerStatus, SnoozedIncident, UiSnapshot,
};
use salmon_watch::tray::OverallState;
use salmon_watch::ui::projection::{
    can_show, can_show_snapshot, can_show_text, display_wire_time, duration, format_absolute,
    format_relative, format_timestamp_millis, format_unix_timestamp, heartbeat_status, incident_view, millis_of_instant,
    millis_of_seconds, month_name, project, row_updates, server_view, timestamp_text,
    wire_time_text, CivilTime, HeartbeatStatus, ServerView, FIRST_DATED_MILLISECOND,
    LAST_DATED_MILLISECOND,
};

fn date(year: i32, month: u32, day: u32, hour: u32, minute: u32, second: u32) -> CivilTime {
    CivilTime { year, month, day, hour, minute, second }
}

#[test]
fn absolute_time_is_compact_and_adds_only_the_needed_date_parts() {
    let now = date(2026, 8, 26, 16, 16, 43);
    assert_eq!(format_absolute(date(2026, 8, 26, 1, 2, 3), now), "01:02:03");
    assert_eq!(format_absolute(date(2026, 8, 25, 1, 2, 3), now), "Aug 25, 01:02:03");
    assert_eq!(format_absolute(date(2025, 8, 25, 1, 2, 3), now), "Aug 25, 2025, 01:02:03");
}

#[test]
fn relative_time_uses_the_same_buckets_as_the_web_client() {
    const NOW: i64 = 2_000_000_000;
    let cases = [
        (0, "<15s ago"),
        (14_999, "<15s ago"),
        (15_000, "15s ago"),
        (29_999, "15s ago"),
        (30_000, "30s ago"),
        (44_999, "30s ago"),
        (45_000, "45s ago"),
        (59_999, "45s ago"),
        (60_000, "1m ago"),
        (73 * 60_000, "1h 13m ago"),
        ((23 * 60 + 59) * 60_000, "23h 59m ago"),
        ((24 * 60 + 59) * 60_000, "1d ago"),
        (25 * 60 * 60_000, "1d 1h ago"),
    ];
    for (age, expected) in cases {
        assert_eq!(format_relative(NOW - age, NOW), expected);
    }
    assert_eq!(format_relative(NOW + 73 * 60_000, NOW), "in 1h 13m");
    assert_eq!(format_relative(NOW + 14_001, NOW), "in 15s");
}

#[test]
fn heartbeat_highlighting_uses_the_same_boundaries_as_the_web_client() {
    const NOW: i64 = 2_000_000_000;
    for value in [None, Some(NOW + 1), Some(NOW - 14_999)] {
        assert_eq!(heartbeat_status(value, NOW), HeartbeatStatus::Normal);
    }
    for value in [NOW - 15_000, NOW - 29_999] {
        assert_eq!(heartbeat_status(Some(value), NOW), HeartbeatStatus::Warning);
    }
    assert_eq!(heartbeat_status(Some(NOW - 30_000), NOW), HeartbeatStatus::Overdue);
    assert_eq!(
        heartbeat_status(Some(NOW - 3 * 60 * 60 * 1_000), NOW),
        HeartbeatStatus::Overdue
    );
}

#[test]
fn missing_and_invalid_wire_timestamps_match_web_fallbacks() {
    assert_eq!(format_unix_timestamp(None, 1_000_000), "never");
    assert_eq!(display_wire_time("", 1_000_000), "never");
    assert_eq!(display_wire_time("not-a-time", 1_000_000), "not-a-time");
}

fn row(id: &str, last_heartbeat: &str) -> ServerView {
    ServerView {
        id: id.into(),
        connection: "online".into(),
        last_heartbeat: last_heartbeat.into(),
        connected: true,
        heartbeat_warning: false,
        heartbeat_overdue: false,
    }
}

#[test]
fn stable_models_skip_unchanged_rows_and_update_changed_rows_in_place() {
    let current = vec![row("disk", "15s"), row("cpu", "30s")];
    assert_eq!(
        row_updates(&current, &vec![row("disk", "15s"), row("cpu", "30s")]),
        Some(Vec::new())
    );
    assert_eq!(
        row_updates(&current, &vec![row("disk", "30s"), row("cpu", "30s")]),
        Some(vec![0])
    );
    let current = vec![row("disk", "30s"), row("cpu", "30s")];
    assert_eq!(row_updates(&current, &vec![row("cpu", "30s"), row("disk", "30s")]), None);
    assert_eq!(row_updates(&current, &vec![row("disk", "30s")]), None);
}

fn incident(key: &str, state: IncidentState, stale: bool) -> Incident {
    Incident {
        key: key.into(),
        state,
        details: "connection refused".into(),
        incident_started_at: "0".into(),
        stale,
    }
}

#[test]
fn internal_errors_project_to_the_distinct_magenta_severity() {
    let view = incident_view(
        &incident("internal.connection.local", IncidentState::Error, false),
        None,
        1_000_000,
    );
    assert_eq!(view.severity, 4);

    let ordinary = incident_view(&incident("disk", IncidentState::Error, false), None, 1_000_000);
    assert_eq!(ordinary.severity, 3);
}

#[test]
fn incidents_tell_that_they_are_stale_or_snoozed() {
    let view = incident_view(&incident("disk", IncidentState::Warning, true), Some(0), 1_000_000);
    assert_eq!(view.state, "warning (STALE)");
    assert_eq!(view.severity, 2);
    assert!(view.snoozed && view.stale);
    let view = incident_view(&incident("disk", IncidentState::Error, false), Some(0), 1_000_000);
    assert_eq!(view.state, "error (SNOOZED)");
    assert!(view.snoozed_until.ends_with("(16m ago)"));
    let view = incident_view(&incident("internal.x", IncidentState::Okay, false), None, 1_000_000);
    assert_eq!(view.state, "ok");
    assert_eq!(view.severity, 1);
    assert_eq!(view.snoozed_until, "");
    assert!(view.started_at.ends_with("(16m ago)"));
}

#[test]
fn months_have_short_names() {
    assert_eq!(month_name(0), "Jan");
    assert_eq!(month_name(1), "Jan");
    assert_eq!(month_name(12), "Dec");
    assert_eq!(month_name(13), "Dec");
}

#[test]
fn whole_hours_and_days_stand_alone() {
    assert_eq!(duration(-5), "<15s");
    assert_eq!(duration(7_200), "2h");
    assert_eq!(duration(172_800), "2d");
}

#[test]
fn instants_without_a_date_are_told_in_milliseconds() {
    let now = Some(date(2026, 8, 26, 16, 16, 43));
    assert_eq!(timestamp_text(-5, 0, None, now), "-5");
    assert_eq!(timestamp_text(-5, 0, now, None), "-5");
    assert_eq!(timestamp_text(0, 60_000, now, now), "16:16:43 (1m ago)");
    assert_eq!(format_unix_timestamp(Some(i64::MAX), 0), "9223372036854775807");
    assert_eq!(display_wire_time("9223372036854775807", 0), "9223372036854775807");
}

#[test]
fn wire_times_are_read_as_rfc3339_or_seconds() {
    let now = 1_767_225_660_000;
    assert!(display_wire_time("2026-01-01T00:00:00Z", now).ends_with(" (1m ago)"));
    assert!(display_wire_time("1767225600", now).ends_with(" (1m ago)"));
    assert!(wire_time_text("x", &Ok(1_767_225_600_000_000_000), now).ends_with(" (1m ago)"));
    assert_eq!(wire_time_text("x", &Err("none".into()), now), "x");
}

#[test]
fn the_ends_of_the_calendar_cannot_be_shown() {
    assert!(can_show(0));
    assert!(can_show(i64::MAX));
    assert!(can_show(FIRST_DATED_MILLISECOND - 1));
    assert!(!can_show(FIRST_DATED_MILLISECOND));
    assert!(!can_show(LAST_DATED_MILLISECOND));
    assert!(can_show(LAST_DATED_MILLISECOND - 86_400_000));
    assert!(can_show_text("2026-01-01T00:00:00Z"));
    assert!(!can_show_text("8210266876799"));
}

#[test]
fn instants_are_rounded_down_to_milliseconds() {
    assert_eq!(millis_of_instant(1_999_999), 1);
    assert_eq!(millis_of_instant(-1), -1);
    assert_eq!(millis_of_instant(i128::MAX), i64::MAX);
    assert_eq!(millis_of_seconds(-3), -3_000);
    assert_eq!(millis_of_seconds(i64::MIN), i64::MIN);
}

fn server(id: &str, connected: bool, initialized: bool, heartbeat: Option<i128>) -> ServerStatus {
    ServerStatus {
        id: id.into(),
        connected,
        initialized,
        connection_changed_at: None,
        last_heartbeat_at: heartbeat,
    }
}

#[test]
fn servers_tell_their_connection_and_heartbeat() {
    let online = server_view(&server("a", true, true, Some(0)), 20_000);
    assert_eq!(online.connection, "online");
    assert!(online.last_heartbeat.ends_with("(15s ago)"));
    assert!(online.heartbeat_warning && !online.heartbeat_overdue);
    let offline = server_view(&server("b", false, true, None), 20_000);
    assert_eq!(offline.connection, "offline");
    assert_eq!(offline.last_heartbeat, "never");
    assert_eq!(server_view(&server("c", false, false, None), 0).connection, "connecting");
}

#[test]
fn a_snapshot_is_projected_as_a_whole() {
    let snapshot = UiSnapshot {
        servers: vec![server("a", true, true, Some(0)), server("b", false, false, None)],
        active: vec![incident("disk", IncidentState::Error, false)],
        snoozed: vec![SnoozedIncident {
            incident: incident("cpu", IncidentState::Warning, false),
            until: 60_000_000_000,
        }],
        alerting_state: Severity::Error,
        snoozed_state: Some(Severity::Warning),
        unknown_server_count: 1,
    };
    assert!(can_show_snapshot(&snapshot));
    let projection = project(&snapshot, 0);
    assert_eq!(projection.server_summary, "1/2 servers are online");
    assert_eq!(projection.online_server_count, 1);
    assert_eq!(projection.servers[1].id, "b");
    assert_eq!(projection.active[0].key, "disk");
    assert_eq!(projection.snoozed[0].state, "warning (SNOOZED)");
    assert!(projection.snoozed[0].snoozed_until.ends_with("(in 1m)"));
    assert_eq!(projection.tray.alerting, OverallState::Error);
    assert_eq!(projection.tray.snoozed, Some(OverallState::Warning));
    assert_eq!(projection.tray.status_title(), "Status: 1 incident + 1 snoozed");
}

fn local(millis: i64) -> CivilTime {
    let time = Local.timestamp_millis_opt(millis).unwrap();
    date(time.year(), time.month(), time.day(), time.hour(), time.minute(), time.second())
}

#[test]
fn instants_are_told_as_the_clock_on_the_wall_shows_them() {
    let now = 1_788_393_600_999;
    for value in [0, -1, 951_868_800_000, now - 5_000, now + 86_400_000] {
        let told = format_timestamp_millis(value, now);
        assert_eq!(told, timestamp_text(value, now, Some(local(value)), Some(local(now))));
        let date = format_absolute(local(value), local(now));
        assert!(told.starts_with(&date) && told.len() > date.len());
    }
    assert!(format_timestamp_millis(951_868_800_000, now).contains("2000, "));
}
