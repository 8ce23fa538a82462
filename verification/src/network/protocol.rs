//! The messages of a server.

use vstd::prelude::*;
use vstd::string::*;

use crate::domain::model::{Incident, IncidentModel, NotificationData, NotificationModel};
use crate::text::{decimal, decimal_text, joined, same_text, Text};
use crate::timestamp::{parse_rfc3339, rfc3339_reading};

verus! {

/// A message: the name of its event and the data that belong to it.
pub struct Envelope {
    pub event: String,
    pub data: Payload,
}

/// The data of a message.
pub enum Payload {
    /// There are none.
    Null,
    /// They have not the shape of a notification; with the words for why.
    Malformed(String),
    Notification(Notification),
}

/// The data of a message about incidents.
pub struct Notification {
    pub time: Option<String>,
    pub ongoing_incidents: OngoingIncidents,
}

/// The incidents of a message.
pub struct OngoingIncidents {
    pub total: Vec<Incident>,
    pub added: Vec<Incident>,
    pub removed: Vec<Incident>,
    pub updated: Vec<Incident>,
    pub num_items_ok: i64,
}

/// The lists of a message.
#[derive(Clone, Copy, Debug, PartialEq, Eq, Structural)]
pub enum ListName {
    Total,
    Added,
    Removed,
    Updated,
}

impl ListName {
    pub open spec fn word(self) -> Text {
        match self {
            ListName::Total => "total"@,
            ListName::Added => "added"@,
            ListName::Removed => "removed"@,
            ListName::Updated => "updated"@,
        }
    }

    fn name(self) -> (name: &'static str)
        ensures
            name@ == self.word(),
    {
        match self {
            ListName::Total => "total",
            ListName::Added => "added",
            ListName::Removed => "removed",
            ListName::Updated => "updated",
        }
    }
}

/// Why a message is refused.
#[derive(Debug, PartialEq, Eq)]
pub enum ProtocolError {
    NullData { event: String },
    MalformedData { event: String, reason: String },
    InvalidTime { reason: String },
    NegativeCount,
    EmptyKey { list: ListName, index: usize },
    InvalidStart { list: ListName, index: usize, reason: String },
}

/// What a [`ProtocolError`] says.
pub enum ProtocolErrorModel {
    NullData { event: Text },
    MalformedData { event: Text, reason: Text },
    InvalidTime { reason: Text },
    NegativeCount,
    EmptyKey { list: ListName, index: int },
    InvalidStart { list: ListName, index: int, reason: Text },
}

impl View for ProtocolError {
    type V = ProtocolErrorModel;

    open spec fn view(&self) -> ProtocolErrorModel {
        match self {
            ProtocolError::NullData { event } => ProtocolErrorModel::NullData { event: event@ },
            ProtocolError::MalformedData { event, reason } => ProtocolErrorModel::MalformedData {
                event: event@,
                reason: reason@,
            },
            ProtocolError::InvalidTime { reason } => ProtocolErrorModel::InvalidTime {
                reason: reason@,
            },
            ProtocolError::NegativeCount => ProtocolErrorModel::NegativeCount,
            ProtocolError::EmptyKey { list, index } => ProtocolErrorModel::EmptyKey {
                list: *list,
                index: *index as int,
            },
            ProtocolError::InvalidStart { list, index, reason } => ProtocolErrorModel::InvalidStart {
                list: *list,
                index: *index as int,
                reason: reason@,
            },
        }
    }
}

impl ProtocolErrorModel {
    /// The words for why a message is refused.
    pub open spec fn words(self) -> Text {
        match self {
            ProtocolErrorModel::NullData { event } => "decoding "@ + event
                + " data: notification is null"@,
            ProtocolErrorModel::MalformedData { event, reason } => "decoding "@ + event + " data: "@
                + reason,
            ProtocolErrorModel::InvalidTime { reason } => "notification time is invalid: "@
                + reason,
            ProtocolErrorModel::NegativeCount => "ongoingIncidents.numItemsOK is negative"@,
            ProtocolErrorModel::EmptyKey { list, index } => "ongoingIncidents."@ + list.word()
                + "["@ + decimal(index as nat) + "].key is empty"@,
            ProtocolErrorModel::InvalidStart { list, index, reason } => "ongoingIncidents."@
                + list.word() + "["@ + decimal(index as nat) + "].incidentStartedAt is invalid: "@
                + reason,
        }
    }
}

impl ProtocolError {
    /// The words for why a message is refused.
    pub fn message(&self) -> (message: String)
        ensures
            message@ == self@.words(),
    {
        match self {
            ProtocolError::NullData { event } => joined("decoding ", event.as_str()).concat(
                " data: notification is null",
            ),
            ProtocolError::MalformedData { event, reason } => joined(
                "decoding ",
                event.as_str(),
            ).concat(" data: ").concat(reason.as_str()),
            ProtocolError::InvalidTime { reason } => joined(
                "notification time is invalid: ",
                reason.as_str(),
            ),
            ProtocolError::NegativeCount => "ongoingIncidents.numItemsOK is negative".to_owned(),
            ProtocolError::EmptyKey { list, index } => {
                let number = decimal_text(*index as u128);
                joined("ongoingIncidents.", list.name()).concat("[").concat(number.as_str()).concat(
                    "].key is empty",
                )
            },
            ProtocolError::InvalidStart { list, index, reason } => {
                let number = decimal_text(*index as u128);
                joined("ongoingIncidents.", list.name()).concat("[").concat(number.as_str()).concat(
                    "].incidentStartedAt is invalid: ",
                ).concat(reason.as_str())
            },
        }
    }
}

/// Whether an event tells of incidents. Messages about other events are ignored.
pub open spec fn tells_of_incidents(event: Text) -> bool {
    event == "OngoingIncidentsSnapshot"@ || event == "OngoingIncidentsUpdate"@
}

/// What is wrong with the items of a list from `from` on, if anything is.
pub open spec fn list_error(
    items: Seq<IncidentModel>,
    list: ListName,
    from: int,
) -> Option<ProtocolErrorModel>
    decreases items.len() - from,
{
    if from >= items.len() {
        None
    } else if items[from].key.len() == 0 {
        Some(ProtocolErrorModel::EmptyKey { list, index: from })
    } else {
        match rfc3339_reading(items[from].incident_started_at) {
            Err(reason) => Some(
                ProtocolErrorModel::InvalidStart { list, index: from, reason },
            ),
            Ok(_) => list_error(items, list, from + 1),
        }
    }
}

/// What is wrong with a notification, if anything is.
pub open spec fn notification_error(notification: Notification) -> Option<ProtocolErrorModel> {
    let ongoing = notification.ongoing_incidents;
    let total = list_error(ongoing.total.deep_view(), ListName::Total, 0);
    let added = list_error(ongoing.added.deep_view(), ListName::Added, 0);
    let removed = list_error(ongoing.removed.deep_view(), ListName::Removed, 0);
    let updated = list_error(ongoing.updated.deep_view(), ListName::Updated, 0);
    if notification.time matches Some(time) && rfc3339_reading(time@) is Err {
        Some(
            ProtocolErrorModel::InvalidTime {
                reason: rfc3339_reading((notification.time->0)@)->Err_0,
            },
        )
    } else if ongoing.num_items_ok < 0 {
        Some(ProtocolErrorModel::NegativeCount)
    } else if total is Some {
        total
    } else if added is Some {
        added
    } else if removed is Some {
        removed
    } else {
        updated
    }
}

/// Why a message is refused, if it is.
pub open spec fn message_error(envelope: Envelope) -> Option<ProtocolErrorModel> {
    let event = envelope.event@;
    if !tells_of_incidents(event) {
        None
    } else {
        match envelope.data {
            Payload::Null => Some(ProtocolErrorModel::NullData { event }),
            Payload::Malformed(reason) => Some(
                ProtocolErrorModel::MalformedData { event, reason: reason@ },
            ),
            Payload::Notification(notification) => notification_error(notification),
        }
    }
}

/// The incidents of a notification.
pub open spec fn incidents_of(notification: Notification) -> NotificationModel {
    let ongoing = notification.ongoing_incidents;
    NotificationModel {
        total: ongoing.total.deep_view(),
        added: ongoing.added.deep_view(),
        removed: ongoing.removed.deep_view(),
        updated: ongoing.updated.deep_view(),
        num_items_ok: ongoing.num_items_ok as usize,
    }
}

fn validate_list(items: &Vec<Incident>, list: ListName) -> (outcome: Result<(), ProtocolError>)
    ensures
        outcome is Ok <==> list_error(items.deep_view(), list, 0) is None,
        outcome matches Err(error) ==> list_error(items.deep_view(), list, 0) == Some(error@),
{
    let ghost models = items.deep_view();
    let mut index: usize = 0;
    while index < items.len()
        invariant
            models == items.deep_view(),
            index <= items.len(),
            list_error(models, list, 0) == list_error(models, list, index as int),
        decreases items.len() - index,
    {
        let item = &items[index];
        assert(models[index as int] == item@);
        if item.key.as_str().is_empty() {
            return Err(ProtocolError::EmptyKey { list, index });
        }
        match parse_rfc3339(item.incident_started_at.as_str()) {
            Ok(_) => {},
            Err(reason) => {
                return Err(ProtocolError::InvalidStart { list, index, reason });
            },
        }
        index += 1;
    }
    Ok(())
}

/// Tests a message and takes the incidents out of it.
///
/// Messages about events that are not known are ignored, whatever their data.
pub fn decode_message(envelope: Envelope) -> (outcome: Result<
    Option<NotificationData>,
    ProtocolError,
>)
    ensures
        outcome is Err <==> message_error(envelope) is Some,
        outcome matches Err(error) ==> message_error(envelope) == Some(error@),
        outcome matches Ok(decoded) ==> (decoded is Some <==> tells_of_incidents(envelope.event@)),
        outcome matches Ok(Some(data)) ==> (envelope.data matches Payload::Notification(
            notification,
        ) && data@ == incidents_of(notification)),
        outcome matches Ok(Some(data)) ==> (envelope.data matches Payload::Notification(
            notification,
        ) && {
            let ongoing = notification.ongoing_incidents;
            &&& data.total.deep_view() == ongoing.total.deep_view()
            &&& data.added.deep_view() == ongoing.added.deep_view()
            &&& data.removed.deep_view() == ongoing.removed.deep_view()
            &&& data.updated.deep_view() == ongoing.updated.deep_view()
        }),
{
    if !same_text(envelope.event.as_str(), "OngoingIncidentsSnapshot") && !same_text(
        envelope.event.as_str(),
        "OngoingIncidentsUpdate",
    ) {
        return Ok(None);
    }
    let notification = match envelope.data {
        Payload::Null => {
            return Err(ProtocolError::NullData { event: envelope.event });
        },
        Payload::Malformed(reason) => {
            return Err(ProtocolError::MalformedData { event: envelope.event, reason });
        },
        Payload::Notification(notification) => notification,
    };
    if let Some(time) = &notification.time {
        match parse_rfc3339(time.as_str()) {
            Ok(_) => {},
            Err(reason) => {
                return Err(ProtocolError::InvalidTime { reason });
            },
        }
    }
    let ongoing = notification.ongoing_incidents;
    if ongoing.num_items_ok < 0 {
        return Err(ProtocolError::NegativeCount);
    }
    match validate_list(&ongoing.total, ListName::Total) {
        Ok(_) => {},
        Err(error) => {
            return Err(error);
        },
    }
    match validate_list(&ongoing.added, ListName::Added) {
        Ok(_) => {},
        Err(error) => {
            return Err(error);
        },
    }
    match validate_list(&ongoing.removed, ListName::Removed) {
        Ok(_) => {},
        Err(error) => {
            return Err(error);
        },
    }
    match validate_list(&ongoing.updated, ListName::Updated) {
        Ok(_) => {},
        Err(error) => {
            return Err(error);
        },
    }
    Ok(
        Some(
            NotificationData {
                total: ongoing.total,
                added: ongoing.added,
                removed: ongoing.removed,
                updated: ongoing.updated,
                num_items_ok: ongoing.num_items_ok as usize,
            },
        ),
    )
}

/// Every incident of a message that is accepted has a key and a time that can be read.
pub proof fn accepted_incidents_are_well_formed(items: Seq<IncidentModel>, list: ListName, i: int)
    requires
        list_error(items, list, 0) is None,
        0 <= i < items.len(),
    ensures
        items[i].key.len() > 0,
        rfc3339_reading(items[i].incident_started_at) is Ok,
{
    lemma_accepted(items, list, 0, i);
}

proof fn lemma_accepted(items: Seq<IncidentModel>, list: ListName, from: int, i: int)
    requires
        list_error(items, list, from) is None,
        0 <= from <= i < items.len(),
    ensures
        items[i].key.len() > 0,
        rfc3339_reading(items[i].incident_started_at) is Ok,
    decreases i - from,
{
    if from < i {
        lemma_accepted(items, list, from + 1, i);
    }
}

} // verus!
