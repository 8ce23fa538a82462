use salmon_watch::domain::{Effect, Event, Incident, IncidentState, NotificationData, SnoozeAction};
use salmon_watch::logging::Level;
use salmon_watch::runtime::{
    command_event, incident_line, info, log_details, snooze_failure_notification,
    snooze_persistence_is_due, snooze_success_lines, unix_now, unix_seconds, Command, EventLogLine,
    EventLogState, Pump, WriteOutcome, EXPIRY_PERSISTENCE_RETRY_DELAY, MAX_LOG_DETAILS_CHARS,
};
use salmon_watch::table::Table;

/// The instant so many seconds after the start of 1970.
fn second(number: i128) -> i128 {
    number * 1_000_000_000
}

fn incident(key: &str, state: IncidentState, details: &str) -> Incident {
    Incident {
        key: key.into(),
        state,
        details: details.into(),
        incident_started_at: "2026-09-09T00:00:00Z".into(),
        stale: false,
    }
}

fn notification(
    server_id: &str,
    total: Vec<Incident>,
    added: Vec<Incident>,
    updated: Vec<Incident>,
    removed: Vec<Incident>,
) -> Event {
    Event::Notification {
        server_id: server_id.into(),
        data: NotificationData { total, added, removed, updated, num_items_ok: 7 },
        at: 1,
    }
}

#[test]
fn initial_snapshot_logs_every_ongoing_incident() {
    let mut logs = EventLogState::new();
    logs.lines(&Event::Connected { server_id: "home".into(), at: 1 });
    let lines = logs.lines(&notification(
        "home",
        vec![
            incident("disk", IncidentState::Error, "filesystem\nfull"),
            incident("backup", IncidentState::Warning, "late"),
        ],
        Vec::new(),
        Vec::new(),
        Vec::new(),
    ));
    assert_eq!(
        lines,
        [
            info("server home synchronized: 2 ongoing incidents".into()),
            info("server home ongoing incident disk (error): filesystem full".into()),
            info("server home ongoing incident backup (warning): late".into()),
        ]
    );
}

#[test]
fn subsequent_updates_log_every_delta_without_reprinting_total() {
    let mut logs = EventLogState::new();
    logs.lines(&notification(
        "home",
        vec![incident("existing", IncidentState::Warning, "unchanged")],
        Vec::new(),
        Vec::new(),
        Vec::new(),
    ));
    let lines = logs.lines(&notification(
        "home",
        vec![
            incident("existing", IncidentState::Warning, "unchanged"),
            incident("new", IncidentState::Error, "broken"),
        ],
        vec![incident("new", IncidentState::Error, "broken")],
        vec![incident("existing", IncidentState::Error, "worse")],
        vec![incident("fixed", IncidentState::Warning, "old details")],
    ));
    assert_eq!(
        lines,
        [
            info(
                "server home incident update: 1 added, 1 updated, 1 resolved; 2 ongoing incidents"
                    .into()
            ),
            info("server home added incident new (error): broken".into()),
            info("server home updated incident existing (error): worse".into()),
            info("server home resolved incident fixed".into()),
        ]
    );
    assert!(lines.iter().all(|line| !line.message.contains("unchanged")));
}

#[test]
fn reconnect_logs_the_next_complete_snapshot_again() {
    let mut logs = EventLogState::new();
    let snapshot = || {
        notification(
            "home",
            vec![incident("disk", IncidentState::Error, "full")],
            Vec::new(),
            Vec::new(),
            Vec::new(),
        )
    };
    assert_eq!(logs.lines(&snapshot()).len(), 2);
    assert_eq!(logs.lines(&snapshot()).len(), 1);
    logs.lines(&Event::Connected { server_id: "home".into(), at: 2 });
    let reconnected = logs.lines(&snapshot());
    assert_eq!(reconnected.len(), 2);
    assert!(reconnected[1].message.contains("ongoing incident disk"));
}

#[test]
fn heartbeat_is_debug_and_long_details_are_safely_bounded() {
    let mut logs = EventLogState::new();
    assert_eq!(
        logs.lines(&Event::Heartbeat { server_id: "home".into(), at: 1 }),
        [EventLogLine {
            level: Level::Debug,
            message: "server home received heartbeat".into(),
        }]
    );

    let details = "x".repeat(MAX_LOG_DETAILS_CHARS + 1);
    let line = incident_line("home", "ongoing", &incident("huge", IncidentState::Error, &details));
    assert!(line.ends_with('\u{2026}'));
    assert_eq!(line.matches('x').count(), MAX_LOG_DETAILS_CHARS);
}

#[test]
fn snooze_feedback_reflects_persistence_outcome() {
    let mut event_logs = EventLogState::new();
    assert!(
        event_logs.lines(&Event::Snooze { key: "home.disk".into(), until: second(100) }).is_empty(),
        "a request must not be logged as successful before persistence"
    );

    let set = SnoozeAction::SetDeadline { key: "home.disk".into(), until: second(100) };
    assert_eq!(
        snooze_success_lines(&set),
        [info("snoozed incident home.disk until 100".into())]
    );
    let (title, body) = snooze_failure_notification(&set, "disk full").unwrap();
    assert_eq!(title, "Failed to snooze incident home.disk");
    assert!(body.contains("not changed"));
    assert!(body.contains("disk full"));

    let remove = SnoozeAction::Remove { key: "home.disk".into() };
    assert_eq!(snooze_success_lines(&remove), [info("unsnoozed incident home.disk".into())]);
    assert_eq!(
        snooze_failure_notification(&remove, "read-only").unwrap().0,
        "Failed to unsnooze incident home.disk"
    );

    let expire =
        SnoozeAction::Expire { keys: vec!["home.disk".into(), "home.backup".into()] };
    assert_eq!(
        snooze_success_lines(&expire),
        [
            info("snooze expired for incident home.disk".into()),
            info("snooze expired for incident home.backup".into()),
        ]
    );
    assert!(snooze_failure_notification(&expire, "read-only").is_none());
}

#[test]
fn automatic_expiration_obeys_retry_cooldown_but_user_actions_do_not() {
    let now = 5_000_000_000;
    let retry_at = now + EXPIRY_PERSISTENCE_RETRY_DELAY;
    let expire = SnoozeAction::Expire { keys: vec!["home.disk".into()] };
    let set = SnoozeAction::SetDeadline { key: "home.disk".into(), until: 100 };
    let remove = SnoozeAction::Remove { key: "home.disk".into() };

    assert!(snooze_persistence_is_due(&expire, None, now));
    assert!(!snooze_persistence_is_due(&expire, Some(retry_at), now));
    assert!(snooze_persistence_is_due(&expire, Some(retry_at), retry_at));
    assert!(snooze_persistence_is_due(&set, Some(retry_at), now));
    assert!(snooze_persistence_is_due(&remove, Some(retry_at), now));
}

#[test]
fn details_become_one_line() {
    assert_eq!(log_details("a\nb\u{2028}c\u{7f}d"), "a b c d");
    assert_eq!(log_details(&"x".repeat(MAX_LOG_DETAILS_CHARS)), "x".repeat(MAX_LOG_DETAILS_CHARS));
}

fn proposal(effects: &[Effect]) -> (&SnoozeAction, Table<i128>) {
    match effects {
        [Effect::PersistSnoozes { action, snoozes }] => (action, snoozes.duplicate()),
        other => panic!("unexpected effects {other:?}"),
    }
}

#[test]
fn snoozes_are_kept_only_once_they_were_written() {
    let mut pump = Pump::new(vec!["home".into()], Table::new());
    pump.begin(notification(
        "home",
        vec![incident("disk", IncidentState::Error, "full")],
        Vec::new(),
        Vec::new(),
        Vec::new(),
    ));
    let round = pump.begin(Event::Snooze { key: "home.disk".into(), until: 100 });
    assert!(!round.publish);
    let (action, snoozes) = proposal(&round.effects);
    assert!(pump.is_due(action, 0));

    let failed = pump.settle(action, WriteOutcome::Failed("disk full".into()), 0);
    assert!(!failed.publish);
    assert_eq!(failed.notification.unwrap().0, "Failed to snooze incident home.disk");
    assert_eq!(pump.snapshot(2).active.len(), 1);

    let written = pump.settle(action, WriteOutcome::Written(snoozes), 0);
    assert!(written.publish);
    assert!(written.notification.is_none());
    assert_eq!(pump.snapshot(2).snoozed.len(), 1);
    assert_eq!(pump.snapshot(2).active.len(), 0);
}

#[test]
fn a_failed_removal_of_expired_snoozes_is_tried_again_later() {
    let mut snoozes = Table::new();
    snoozes.insert("home.disk".into(), 10);
    let mut pump = Pump::new(vec!["home".into()], snoozes);
    let round = pump.begin(Event::Tick { at: 10 });
    assert!(round.publish);
    let (action, _) = proposal(&round.effects);
    let failed = pump.settle(action, WriteOutcome::Failed("disk full".into()), 7);
    assert!(failed.notification.is_none());
    assert!(!pump.is_due(action, 7));
    assert!(pump.is_due(action, 7 + EXPIRY_PERSISTENCE_RETRY_DELAY));
}

#[test]
fn commands_start_when_they_are_handled() {
    assert!(matches!(
        command_event(Command::Snooze { key: "a".into(), seconds: 60 }, 5),
        Event::Snooze { until: 60_000_000_005, .. }
    ));
    assert!(matches!(
        command_event(Command::Snooze { key: "a".into(), seconds: i64::MAX }, i128::MAX),
        Event::Snooze { until: i128::MAX, .. }
    ));
    assert!(matches!(
        command_event(Command::Unsnooze { key: "a".into() }, 5),
        Event::Unsnooze { .. }
    ));
    assert!(matches!(
        command_event(Command::ForgetStale { key: "a".into() }, 5),
        Event::ForgetStale { .. }
    ));
}

#[test]
fn the_clock_is_past_the_start_of_its_count() {
    assert!(unix_now() > 1_700_000_000);
    assert_eq!(unix_seconds(7), 7);
    assert_eq!(unix_seconds(u64::MAX), i64::MAX);
}

#[test]
fn deadlines_are_logged_in_whole_seconds() {
    let line = |until| snooze_success_lines(&SnoozeAction::SetDeadline { key: "a".into(), until });
    assert_eq!(line(second(8) - 1), [info("snoozed incident a until 7".into())]);
    assert_eq!(line(-1), [info("snoozed incident a until -1".into())]);
    assert_eq!(line(second(-2)), [info("snoozed incident a until -2".into())]);
}
