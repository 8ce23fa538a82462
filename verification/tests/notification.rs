use salmon_watch::domain::Effect;
use salmon_watch::logging::Level;
use salmon_watch::notification::{
    desktop_notification, enqueue_outcome, parse_connection_event, silent_recovery,
    ConnectionChange, ConnectionNotificationFilter, EnqueueOutcome, FilterAction, QueueAnswer,
};

const SECOND: u128 = 1_000_000_000;

/// Handles a notification at an instant of the steady clock, while the wall clock stands still.
fn handle(
    filter: &mut ConnectionNotificationFilter,
    title: &str,
    body: &str,
    now: u128,
) -> FilterAction {
    filter.handle_notification_at(title.into(), body.into(), 0, now, 0)
}

fn send(title: &str, body: &str) -> FilterAction {
    FilterAction::Send { title: title.into(), body: body.into() }
}

#[test]
fn desktop_notification_has_application_and_message() {
    let notification = desktop_notification("Example title", "Example body");

    assert_eq!(notification.appname, "Salmon Watch");
    assert_eq!(notification.summary, "Example title");
    assert_eq!(notification.body, "Example body");
}

#[test]
fn notification_desktop_notification_has_application_and_message() {
    let notification = desktop_notification("Example title", "Example body");

    assert_eq!(notification.appname, "Salmon Watch");
    assert_eq!(notification.summary, "Example title");
    assert_eq!(notification.body, "Example body");
}

#[test]
fn a_full_queue_drops_the_newest_notification() {
    assert_eq!(enqueue_outcome(QueueAnswer::Taken), (EnqueueOutcome::Queued, None));
    let (outcome, line) = enqueue_outcome(QueueAnswer::Full);
    assert_eq!(outcome, EnqueueOutcome::Dropped);
    let line = line.unwrap();
    assert_eq!(line.level, Level::Warn);
    assert_eq!(line.message, "desktop notification queue is full; dropping notification");
    let (outcome, line) = enqueue_outcome(QueueAnswer::Closed);
    assert_eq!(outcome, EnqueueOutcome::Unavailable);
    assert!(line.is_some());
}

#[test]
fn titles_about_connections_are_recognised() {
    assert_eq!(
        parse_connection_event("error: internal.tunnel.srv1"),
        Some((ConnectionChange::Failed, "srv1".into()))
    );
    assert_eq!(
        parse_connection_event("OK: internal.connection.srv1"),
        Some((ConnectionChange::Recovered, "srv1".into()))
    );
    assert_eq!(parse_connection_event("error: srv1.disk"), None);
}

#[test]
fn filter_sends_immediately_when_delay_is_zero() {
    let mut filter = ConnectionNotificationFilter::new(0);
    let now = 7;

    let action = handle(&mut filter, "error: internal.tunnel.srv1", "ssh error", now);
    assert_eq!(action, send("error: internal.tunnel.srv1", "ssh error"));
    assert_eq!(filter.next_deadline(), None);

    let action = handle(&mut filter, "OK: internal.tunnel.srv1", "", now);
    assert_eq!(action, send("OK: internal.tunnel.srv1", ""));
}

#[test]
fn filter_never_delays_service_incidents() {
    let mut filter = ConnectionNotificationFilter::new(10 * SECOND);
    let now = 7;

    let action = handle(&mut filter, "error: srv1.disk", "disk is full", now);
    assert_eq!(action, send("error: srv1.disk", "disk is full"));
    assert_eq!(filter.next_deadline(), None);

    let action = handle(&mut filter, "OK: srv1.disk", "", now);
    assert_eq!(action, send("OK: srv1.disk", ""));
}

#[test]
fn filter_suppresses_transient_connection_error_and_recovery() {
    let mut filter = ConnectionNotificationFilter::new(10 * SECOND);
    let t0 = 7;

    let action = handle(&mut filter, "error: internal.tunnel.srv1", "ssh down", t0);
    assert_eq!(action, FilterAction::Suppress);
    assert_eq!(filter.next_deadline(), Some(t0 + 10 * SECOND));

    let action = handle(&mut filter, "OK: internal.tunnel.srv1", "", t0 + 2 * SECOND);
    assert_eq!(action, FilterAction::Suppress);
    assert_eq!(filter.next_deadline(), None);

    assert!(filter.drain_due(t0 + 10 * SECOND).is_empty());
}

#[test]
fn filter_uses_event_time_when_recovery_waited_in_runtime_queue() {
    let mut filter = ConnectionNotificationFilter::new(10 * SECOND);
    let t0 = 7;
    let wall_t0 = 0;
    let second = SECOND as i128;

    assert_eq!(
        filter.handle_notification_at(
            "error: internal.connection.srv1".into(),
            "socket closed".into(),
            wall_t0,
            t0 + 15 * SECOND,
            wall_t0 + 15 * second,
        ),
        FilterAction::Suppress
    );

    // The recovery occurred after five seconds, but it was not handled until fifteen seconds
    // after the error.
    assert_eq!(
        filter.handle_notification_at(
            "OK: internal.connection.srv1".into(),
            String::new(),
            wall_t0 + 5 * second,
            t0 + 15 * SECOND,
            wall_t0 + 15 * second,
        ),
        FilterAction::Suppress
    );
    assert_eq!(filter.next_deadline(), None);
}

#[test]
fn filter_preserves_error_then_ok_order_when_late_recovery_waited_in_queue() {
    let mut filter = ConnectionNotificationFilter::new(10 * SECOND);
    let t0 = 7;
    let wall_t0 = 0;
    let second = SECOND as i128;

    filter.handle_notification_at(
        "error: internal.connection.srv1".into(),
        "socket closed".into(),
        wall_t0,
        t0 + 15 * SECOND,
        wall_t0 + 15 * second,
    );

    assert_eq!(
        filter.handle_notification_at(
            "OK: internal.connection.srv1".into(),
            String::new(),
            wall_t0 + 12 * second,
            t0 + 15 * SECOND,
            wall_t0 + 15 * second,
        ),
        FilterAction::SendBatch {
            notifications: vec![
                ("error: internal.connection.srv1".into(), "socket closed".into()),
                ("OK: internal.connection.srv1".into(), String::new()),
            ],
        }
    );
    assert_eq!(filter.next_deadline(), None);
}

#[test]
fn filter_suppresses_repeated_errors_and_preserves_original_deadline() {
    let mut filter = ConnectionNotificationFilter::new(10 * SECOND);
    let t0 = 7;

    handle(&mut filter, "error: internal.tunnel.srv1", "ssh attempt 1", t0);

    let action =
        handle(&mut filter, "error: internal.connection.srv1", "socket closed", t0 + 3 * SECOND);
    assert_eq!(action, FilterAction::Suppress);
    assert_eq!(filter.next_deadline(), Some(t0 + 10 * SECOND));

    assert!(filter.drain_due(t0 + 9 * SECOND).is_empty());

    let due = filter.drain_due(t0 + 10 * SECOND);
    assert_eq!(due, vec![("error: internal.connection.srv1".into(), "socket closed".into())]);
    assert_eq!(filter.next_deadline(), None);
}

#[test]
fn filter_delivers_persistent_error_after_delay_and_notifies_recovery() {
    let mut filter = ConnectionNotificationFilter::new(10 * SECOND);
    let t0 = 7;

    handle(&mut filter, "error: internal.tunnel.srv1", "ssh down", t0);

    let due = filter.drain_due(t0 + 10 * SECOND);
    assert_eq!(due, vec![("error: internal.tunnel.srv1".into(), "ssh down".into())]);

    let action = handle(&mut filter, "OK: internal.tunnel.srv1", "", t0 + 20 * SECOND);
    assert_eq!(action, send("OK: internal.tunnel.srv1", ""));
}

#[test]
fn filter_tracks_multiple_servers_independently() {
    let mut filter = ConnectionNotificationFilter::new(10 * SECOND);
    let t0 = 7;

    handle(&mut filter, "error: internal.tunnel.srvA", "down A", t0);
    handle(&mut filter, "error: internal.tunnel.srvB", "down B", t0 + 3 * SECOND);
    handle(&mut filter, "OK: internal.tunnel.srvA", "", t0 + 5 * SECOND);

    assert_eq!(filter.next_deadline(), Some(t0 + 13 * SECOND));
    assert!(filter.drain_due(t0 + 10 * SECOND).is_empty());

    let due = filter.drain_due(t0 + 13 * SECOND);
    assert_eq!(due, vec![("error: internal.tunnel.srvB".into(), "down B".into())]);
}

#[test]
fn filter_accepts_a_new_error_after_a_silent_recovery() {
    let mut filter = ConnectionNotificationFilter::new(10 * SECOND);
    let t0 = 7;

    handle(&mut filter, "error: internal.connection.srv1", "first outage", t0);
    assert_eq!(
        filter.drain_due(t0 + 10 * SECOND),
        vec![("error: internal.connection.srv1".into(), "first outage".into())]
    );

    // A snoozed recovery is not announced, so the filter is told of it.
    filter.reset_server("srv1");

    assert_eq!(
        handle(&mut filter, "error: internal.connection.srv1", "second outage", t0 + 20 * SECOND),
        FilterAction::Suppress
    );
    assert_eq!(filter.next_deadline(), Some(t0 + 30 * SECOND));
}

#[test]
fn filters_without_a_delay_keep_nothing_waiting() {
    let mut filter = ConnectionNotificationFilter::new(0);
    for title in ["error: internal.tunnel.a", "error: internal.connection.b", "OK: internal.tunnel.a"] {
        assert_eq!(handle(&mut filter, title, "body", 3), send(title, "body"));
        assert_eq!(filter.next_deadline(), None);
        assert!(filter.drain_due(u128::MAX).is_empty());
    }
    filter.reset_server("b");
    assert_eq!(filter.next_deadline(), None);
}

#[test]
fn recoveries_are_silent_where_nobody_is_told() {
    let told = vec![Effect::Notify { title: "OK: internal.connection.a".into(), body: "".into() }];
    assert_eq!(silent_recovery(Some("a".into()), &told), None);
    assert_eq!(silent_recovery(Some("a".into()), &Vec::new()), Some("a".into()));
    assert_eq!(silent_recovery(None, &Vec::new()), None);
}
