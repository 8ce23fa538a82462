//! What can happen to the state.

use vstd::prelude::*;

use super::model::{NotificationData, NotificationModel};
use crate::table::Table;
use crate::text::Text;
use crate::timestamp::Timestamp;

verus! {

/// Every input of the reducer: what the network brings and what the user does.
#[derive(Debug, PartialEq, Eq)]
pub enum Event {
    Connected { server_id: String, at: Timestamp },
    Disconnected {
        server_id: String,
        at: Timestamp,
        /// Empty where the tunnel process has reported the cause already.
        error: String,
    },
    TunnelReady { server_id: String, at: Timestamp },
    TunnelFailed { server_id: String, at: Timestamp, error: String },
    Heartbeat { server_id: String, at: Timestamp },
    Notification {
        server_id: String,
        data: NotificationData,
        /// When it was received; snoozes are judged at this instant.
        at: Timestamp,
    },
    Snooze { key: String, until: Timestamp },
    Unsnooze { key: String },
    /// Tells that exactly these snoozes were written.
    SnoozesPersisted { snoozes: Table<Timestamp> },
    ForgetStale {
        /// The full key of the incident.
        key: String,
    },
    Tick { at: Timestamp },
}

/// What an [`Event`] says.
#[verifier::ext_equal]
pub enum EventModel {
    Connected { server_id: Text, at: Timestamp },
    Disconnected { server_id: Text, at: Timestamp, error: Text },
    TunnelReady { server_id: Text, at: Timestamp },
    TunnelFailed { server_id: Text, at: Timestamp, error: Text },
    Heartbeat { server_id: Text, at: Timestamp },
    Notification { server_id: Text, data: NotificationModel, at: Timestamp },
    Snooze { key: Text, until: Timestamp },
    Unsnooze { key: Text },
    SnoozesPersisted { snoozes: Map<Text, Timestamp> },
    ForgetStale { key: Text },
    Tick { at: Timestamp },
}

impl View for Event {
    type V = EventModel;

    open spec fn view(&self) -> EventModel {
        match self {
            Event::Connected { server_id, at } => EventModel::Connected {
                server_id: server_id@,
                at: *at,
            },
            Event::Disconnected { server_id, at, error } => EventModel::Disconnected {
                server_id: server_id@,
                at: *at,
                error: error@,
            },
            Event::TunnelReady { server_id, at } => EventModel::TunnelReady {
                server_id: server_id@,
                at: *at,
            },
            Event::TunnelFailed { server_id, at, error } => EventModel::TunnelFailed {
                server_id: server_id@,
                at: *at,
                error: error@,
            },
            Event::Heartbeat { server_id, at } => EventModel::Heartbeat {
                server_id: server_id@,
                at: *at,
            },
            Event::Notification { server_id, data, at } => EventModel::Notification {
                server_id: server_id@,
                data: data@,
                at: *at,
            },
            Event::Snooze { key, until } => EventModel::Snooze { key: key@, until: *until },
            Event::Unsnooze { key } => EventModel::Unsnooze { key: key@ },
            Event::SnoozesPersisted { snoozes } => EventModel::SnoozesPersisted {
                snoozes: snoozes@,
            },
            Event::ForgetStale { key } => EventModel::ForgetStale { key: key@ },
            Event::Tick { at } => EventModel::Tick { at: *at },
        }
    }
}

} // verus!
