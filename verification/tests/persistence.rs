use salmon_watch::persistence::{
    is_legacy_state, legacy_verdict, DeadlineError, SchemaError, SnoozeEntry, StateFile, Theme,
};
use salmon_watch::table::Table;

const DEADLINE: i128 = 1_800_000_000_123_456_789;

fn snoozes(entries: &[(&str, i128)]) -> Table<i128> {
    let mut table = Table::new();
    for (key, until) in entries {
        table.insert((*key).to_owned(), *until);
    }
    table
}

#[test]
fn persistence_missing_state_uses_ui_defaults() {
    let state = StateFile::default();

    assert_eq!(state.schema_version, 1);
    assert_eq!(state.preferences.theme, Theme::Dark);
    assert!(state.preferences.sections.servers_expanded);
    assert!(state.preferences.sections.active_incidents_expanded);
    assert!(!state.preferences.sections.snoozed_incidents_expanded);
    assert_eq!(state.preferences.window_geometry, None);
    assert!(!state.preferences.launch_minimized);
}

#[test]
fn missing_state_uses_ui_defaults() {
    let state = StateFile::default();

    assert_eq!(state.schema_version, 1);
    assert_eq!(state.preferences.theme, Theme::Dark);
    assert!(state.preferences.sections.servers_expanded);
    assert!(state.preferences.sections.active_incidents_expanded);
    assert!(!state.preferences.sections.snoozed_incidents_expanded);
    assert_eq!(state.preferences.window_geometry, None);
    assert!(!state.preferences.launch_minimized);
}

#[test]
fn snooze_deadlines_round_trip_as_offset_datetimes() {
    let expected = snoozes(&[("local.disk", DEADLINE)]);
    let mut state = StateFile::default();

    state.replace_snoozes(&expected).unwrap();

    assert_eq!(state.decoded_snoozes().unwrap(), expected);
    assert_eq!(
        state.snoozed.get("local.disk").unwrap().snoozed_until,
        "2027-01-15T08:00:00.123456789Z"
    );
}

#[test]
fn replacing_snoozes_keeps_unknown_fields_of_those_that_stay() {
    let mut extra = Table::new();
    extra.insert("note".into(), "\"mine\"".into());
    let mut state = StateFile::default();
    state.snoozed.insert(
        "local.disk".into(),
        SnoozeEntry { snoozed_until: "2026-09-06T12:00:00Z".into(), extra },
    );
    state.replace_snoozes(&snoozes(&[("local.disk", DEADLINE), ("local.cpu", 0)])).unwrap();
    assert_eq!(state.snoozed.len(), 2);
    assert_eq!(state.snoozed.get("local.disk").unwrap().extra.get("note").unwrap(), "\"mine\"");
    assert_eq!(state.snoozed.get("local.cpu").unwrap().snoozed_until, "1970-01-01T00:00:00Z");
    state.replace_snoozes(&Table::new()).unwrap();
    assert_eq!(state.snoozed.len(), 0);
}

#[test]
fn deadlines_that_cannot_be_read_or_written_are_told() {
    let mut state = StateFile::default();
    let error = state.replace_snoozes(&snoozes(&[("a", i128::MAX)])).unwrap_err();
    assert!(matches!(error, DeadlineError::Unwritable { .. }));
    assert!(error.message().starts_with("failed to format snooze deadline: "));
    assert_eq!(state, StateFile::default());

    let entry = SnoozeEntry { snoozed_until: "later".into(), extra: Table::new() };
    state.snoozed.insert("local.disk".into(), entry);
    let error = state.decoded_snoozes().unwrap_err();
    assert!(matches!(&error, DeadlineError::Unreadable { key, .. } if key == "local.disk"));
    assert!(error.message().starts_with("invalid snooze deadline for \"local.disk\": "));
}

#[test]
fn unversioned_and_zero_versioned_states_are_legacy() {
    assert_eq!(
        is_legacy_state(
            br#"{"snoozed":{"local.disk":{"snoozed_until":"2026-09-06T12:00:00Z"}}}"#
        ),
        Ok(true)
    );
    assert_eq!(is_legacy_state(br#"{"schema_version":0,"snoozed":{}}"#), Ok(true));
    assert_eq!(is_legacy_state(br#"{"schema_version":1,"snoozed":{}}"#), Ok(false));
}

#[test]
fn states_without_a_readable_version_are_told() {
    assert_eq!(is_legacy_state(b"[]"), Err(SchemaError::NotAnObject));
    assert_eq!(is_legacy_state(br#"{"schema_version":-1}"#), Err(SchemaError::Version));
    let error = is_legacy_state(b"{").unwrap_err();
    assert!(matches!(error, SchemaError::Unreadable(_)));
    assert!(error
        .message("/s.json")
        .starts_with("failed to inspect state file for migration /s.json: "));
    assert_eq!(
        SchemaError::NotAnObject.message("/s.json"),
        "state file for migration is not a JSON object: /s.json"
    );
    assert_eq!(legacy_verdict(None), Err(SchemaError::NotAnObject));
    assert_eq!(legacy_verdict(Some(None)), Ok(true));
    assert_eq!(legacy_verdict(Some(Some(None))), Err(SchemaError::Version));
    assert_eq!(legacy_verdict(Some(Some(Some(2)))), Ok(false));
}
