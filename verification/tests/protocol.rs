use salmon_watch::domain::{Incident, IncidentState, NotificationData};
use salmon_watch::network::protocol::{
    decode_message, Envelope, ListName, Notification, OngoingIncidents, Payload, ProtocolError,
};
use serde_json::Value;

fn text(value: &Value, key: &str) -> Result<String, String> {
    value[key].as_str().map(str::to_owned).ok_or(format!("{key} is no text"))
}

fn incidents(value: &Value, key: &str) -> Result<Vec<Incident>, String> {
    if value[key].is_null() {
        return Ok(Vec::new());
    }
    let items = value[key].as_array().ok_or(format!("{key} is no list"))?;
    items
        .iter()
        .map(|item| {
            let state = match text(item, "state")?.as_str() {
                "ok" => IncidentState::Okay,
                "warning" => IncidentState::Warning,
                "error" => IncidentState::Error,
                other => return Err(format!("unknown variant {other}")),
            };
            Ok(Incident {
                key: text(item, "key")?,
                state,
                details: text(item, "details").unwrap_or_default(),
                incident_started_at: text(item, "incidentStartedAt")?,
                stale: false,
            })
        })
        .collect()
}

fn notification(value: &Value) -> Result<Notification, String> {
    let ongoing = &value["ongoingIncidents"];
    if !ongoing.is_object() {
        return Err("missing field ongoingIncidents".into());
    }
    Ok(Notification {
        time: value["time"].as_str().map(str::to_owned),
        ongoing_incidents: OngoingIncidents {
            total: incidents(ongoing, "total")?,
            added: incidents(ongoing, "added")?,
            removed: incidents(ongoing, "removed")?,
            updated: incidents(ongoing, "updated")?,
            num_items_ok: ongoing["numItemsOK"].as_i64().unwrap_or(0),
        },
    })
}

fn decode_text_message(text: &str) -> Result<Option<NotificationData>, ProtocolError> {
    let value: Value = serde_json::from_str(text).unwrap();
    let data = match &value["data"] {
        Value::Null => Payload::Null,
        data => match notification(data) {
            Ok(notification) => Payload::Notification(notification),
            Err(words) => Payload::Malformed(words),
        },
    };
    decode_message(Envelope { event: value["event"].as_str().unwrap().to_owned(), data })
}

#[test]
fn decodes_snapshot_and_all_delta_lists() {
    let data = decode_text_message(r#"{"event":"OngoingIncidentsSnapshot","data":{"time":"2026-01-01T00:00:00Z","ongoingIncidents":{"total":[{"key":"disk","state":"error","details":"full","incidentStartedAt":"2026-01-01T00:00:00Z"}],"added":[],"removed":[],"updated":[],"numItemsOK":2}}}"#).unwrap().unwrap();
    assert_eq!(data.total[0].key, "disk");
    assert_eq!(data.num_items_ok, 2);
}

#[test]
fn accepts_go_nil_slices_as_empty_lists() {
    let data = decode_text_message(
        r#"{"event":"OngoingIncidentsSnapshot","data":{"time":"2026-01-01T00:00:00Z","ongoingIncidents":{"total":null,"added":null,"removed":null,"updated":null,"numItemsOK":0}}}"#,
    )
    .unwrap()
    .unwrap();

    assert!(data.total.is_empty());
    assert!(data.added.is_empty());
    assert!(data.removed.is_empty());
    assert!(data.updated.is_empty());
}

#[test]
fn ignores_unknown_events() {
    assert!(decode_text_message(r#"{"event":"FutureEvent","data":null}"#).unwrap().is_none());
}

#[test]
fn rejects_null_malformed_and_invalid_known_events() {
    for message in [
        r#"{"event":"OngoingIncidentsUpdate","data":null}"#,
        r#"{"event":"OngoingIncidentsUpdate","data":{}}"#,
        r#"{"event":"OngoingIncidentsUpdate","data":{"ongoingIncidents":{"numItemsOK":-1}}}"#,
        r#"{"event":"OngoingIncidentsUpdate","data":{"ongoingIncidents":{"total":[{"key":"","state":"error","details":"","incidentStartedAt":"x"}]}}}"#,
        r#"{"event":"OngoingIncidentsUpdate","data":{"ongoingIncidents":{"total":[{"key":"x","state":"broken","details":"","incidentStartedAt":"x"}]}}}"#,
    ] {
        assert!(decode_text_message(message).is_err(), "accepted {message}");
    }
}

fn incident(key: &str, started_at: &str) -> Incident {
    Incident {
        key: key.into(),
        state: IncidentState::Error,
        details: "full".into(),
        incident_started_at: started_at.into(),
        stale: false,
    }
}

fn update(ongoing: OngoingIncidents, time: Option<&str>) -> Envelope {
    Envelope {
        event: "OngoingIncidentsUpdate".into(),
        data: Payload::Notification(Notification {
            time: time.map(str::to_owned),
            ongoing_incidents: ongoing,
        }),
    }
}

fn lists(total: Vec<Incident>, removed: Vec<Incident>, num_items_ok: i64) -> OngoingIncidents {
    OngoingIncidents { total, added: Vec::new(), removed, updated: Vec::new(), num_items_ok }
}

#[test]
fn each_refusal_of_a_message_is_told() {
    let started = "2026-01-01T00:00:00Z";
    assert_eq!(
        decode_message(Envelope {
            event: "OngoingIncidentsUpdate".into(),
            data: Payload::Null,
        })
        .unwrap_err()
        .message(),
        "decoding OngoingIncidentsUpdate data: notification is null"
    );
    assert_eq!(
        decode_message(Envelope {
            event: "OngoingIncidentsUpdate".into(),
            data: Payload::Malformed("missing field".into()),
        })
        .unwrap_err()
        .message(),
        "decoding OngoingIncidentsUpdate data: missing field"
    );
    assert!(matches!(
        decode_message(update(lists(Vec::new(), Vec::new(), 0), Some("soon"))),
        Err(ProtocolError::InvalidTime { .. })
    ));
    let negative = decode_message(update(lists(Vec::new(), Vec::new(), -1), None)).unwrap_err();
    assert_eq!(negative, ProtocolError::NegativeCount);
    assert_eq!(negative.message(), "ongoingIncidents.numItemsOK is negative");
    let nameless = decode_message(update(
        lists(vec![incident("a", started)], vec![incident("b", started), incident("", started)], 0),
        Some(started),
    ))
    .unwrap_err();
    assert_eq!(nameless, ProtocolError::EmptyKey { list: ListName::Removed, index: 1 });
    assert_eq!(nameless.message(), "ongoingIncidents.removed[1].key is empty");
    let timeless =
        decode_message(update(lists(vec![incident("a", "x")], Vec::new(), 0), None)).unwrap_err();
    assert!(matches!(
        timeless,
        ProtocolError::InvalidStart { list: ListName::Total, index: 0, .. }
    ));
    assert!(timeless.message().starts_with("ongoingIncidents.total[0].incidentStartedAt is invalid: "));
}
