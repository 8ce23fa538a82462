//! Desktop notifications: what they look like, and which of them are delayed or dropped.

use vstd::prelude::*;
use vstd::string::*;

use crate::domain::effect::{Effect, EffectModel};
use crate::domain::laws::lemma_filter_members;
use crate::domain::outcomes::lemma_filter_ascends;
use crate::logging::Level;
use crate::runtime::{EventLogLine, LineModel, Moment};
use crate::table::{ascending, in_order, in_order_has_the_members, Table};
use crate::text::{after_prefix, strip_prefix, Text};
use crate::timestamp::Timestamp;

verus! {

/// How many notifications wait behind the one that is being shown.
pub const NOTIFICATION_QUEUE_CAPACITY: usize = 32;

/// How long the shutdown waits for the notification service, in nanoseconds.
pub const NOTIFICATION_SHUTDOWN_TIMEOUT: u128 = 2_000_000_000;

/// Where notifications go.
pub trait NotificationSink {
    /// Shows a notification, or tells in words why it cannot.
    fn push(&self, title: &str, body: &str) -> Result<(), String>;
}

/// A notification as the desktop shows it.
#[derive(Debug, PartialEq, Eq)]
pub struct DesktopNotification {
    pub appname: String,
    pub summary: String,
    pub body: String,
}

/// The notification with a title and a body.
pub fn desktop_notification(title: &str, body: &str) -> (notification: DesktopNotification)
    ensures
        notification.appname@ == "Salmon Watch"@,
        notification.summary@ == title@,
        notification.body@ == body@,
{
    DesktopNotification {
        appname: "Salmon Watch".to_owned(),
        summary: title.to_owned(),
        body: body.to_owned(),
    }
}

/// What the queue of notifications did with one.
#[derive(Clone, Copy, Debug, PartialEq, Eq, Structural)]
pub enum QueueAnswer {
    Taken,
    Full,
    /// Nobody takes notifications from it any more.
    Closed,
}

/// What became of a notification.
#[derive(Clone, Copy, Debug, PartialEq, Eq, Structural)]
pub enum EnqueueOutcome {
    Queued,
    Dropped,
    Unavailable,
}

/// What became of a notification, and the line to log about it. A full queue drops the newest:
/// what is shown late is worth less than what is done in time.
pub fn enqueue_outcome(answer: QueueAnswer) -> (outcome: (EnqueueOutcome, Option<EventLogLine>))
    ensures
        outcome.0 == (match answer {
            QueueAnswer::Taken => EnqueueOutcome::Queued,
            QueueAnswer::Full => EnqueueOutcome::Dropped,
            QueueAnswer::Closed => EnqueueOutcome::Unavailable,
        }),
        outcome.1.deep_view() == (match answer {
            QueueAnswer::Taken => None,
            QueueAnswer::Full => Some(
                LineModel {
                    level: Level::Warn,
                    message: "desktop notification queue is full; dropping notification"@,
                },
            ),
            QueueAnswer::Closed => Some(
                LineModel {
                    level: Level::Error,
                    message: "desktop notification worker stopped unexpectedly"@,
                },
            ),
        }),
{
    match answer {
        QueueAnswer::Taken => (EnqueueOutcome::Queued, None),
        QueueAnswer::Full => (
            EnqueueOutcome::Dropped,
            Some(
                EventLogLine {
                    level: Level::Warn,
                    message:
                        "desktop notification queue is full; dropping notification".to_owned(),
                },
            ),
        ),
        QueueAnswer::Closed => (
            EnqueueOutcome::Unavailable,
            Some(
                EventLogLine {
                    level: Level::Error,
                    message: "desktop notification worker stopped unexpectedly".to_owned(),
                },
            ),
        ),
    }
}

// ---------------------------------------------------------------------------------------------
// The filter
// ---------------------------------------------------------------------------------------------

/// What to do with a notification.
#[derive(Debug, PartialEq, Eq)]
pub enum FilterAction {
    /// Show it now.
    Send { title: String, body: String },
    /// Show these, in order.
    SendBatch { notifications: Vec<(String, String)> },
    /// Do not show it, or not yet.
    Suppress,
}

/// What a [`FilterAction`] says.
#[verifier::ext_equal]
pub enum FilterModel {
    Send { title: Text, body: Text },
    SendBatch { notifications: Seq<(Text, Text)> },
    Suppress,
}

impl View for FilterAction {
    type V = FilterModel;

    open spec fn view(&self) -> FilterModel {
        match self {
            FilterAction::Send { title, body } => FilterModel::Send { title: title@, body: body@ },
            FilterAction::SendBatch { notifications } => FilterModel::SendBatch {
                notifications: notifications.deep_view(),
            },
            FilterAction::Suppress => FilterModel::Suppress,
        }
    }
}

/// What is known of the connection to a server.
#[derive(Debug, PartialEq, Eq)]
pub enum ServerConnectionState {
    /// There is no failure.
    Idle,
    /// A failure waits to be shown.
    Delaying { deadline: Moment, deadline_at: Timestamp, title: String, body: String },
    /// The failure was shown.
    Notified,
}

/// What a [`ServerConnectionState`] says.
#[verifier::ext_equal]
pub enum ConnectionModel {
    Idle,
    Delaying { deadline: Moment, deadline_at: Timestamp, title: Text, body: Text },
    Notified,
}

impl View for ServerConnectionState {
    type V = ConnectionModel;

    open spec fn view(&self) -> ConnectionModel {
        match self {
            ServerConnectionState::Idle => ConnectionModel::Idle,
            ServerConnectionState::Delaying { deadline, deadline_at, title, body } => ConnectionModel::Delaying {
                deadline: *deadline,
                deadline_at: *deadline_at,
                title: title@,
                body: body@,
            },
            ServerConnectionState::Notified => ConnectionModel::Notified,
        }
    }
}

impl DeepView for ServerConnectionState {
    type V = ConnectionModel;

    open spec fn deep_view(&self) -> ConnectionModel {
        self.view()
    }
}

impl Clone for ServerConnectionState {
    fn clone(&self) -> (copy: Self)
        ensures
            copy@ == self@,
    {
        match self {
            ServerConnectionState::Idle => ServerConnectionState::Idle,
            ServerConnectionState::Delaying { deadline, deadline_at, title, body } => ServerConnectionState::Delaying {
                deadline: *deadline,
                deadline_at: *deadline_at,
                title: title.clone(),
                body: body.clone(),
            },
            ServerConnectionState::Notified => ServerConnectionState::Notified,
        }
    }
}

/// Whether a connection or a tunnel failed or recovered.
#[derive(Clone, Copy, Debug, PartialEq, Eq, Structural)]
pub enum ConnectionChange {
    Failed,
    Recovered,
}

/// A title that tells of a connection, and of which server.
pub open spec fn connection_event(title: Text) -> Option<(ConnectionChange, Text)> {
    if let Some(id) = after_prefix(title, "error: internal.connection."@) {
        Some((ConnectionChange::Failed, id))
    } else if let Some(id) = after_prefix(title, "error: internal.tunnel."@) {
        Some((ConnectionChange::Failed, id))
    } else if let Some(id) = after_prefix(title, "OK: internal.connection."@) {
        Some((ConnectionChange::Recovered, id))
    } else if let Some(id) = after_prefix(title, "OK: internal.tunnel."@) {
        Some((ConnectionChange::Recovered, id))
    } else {
        None
    }
}

/// Reads from a title whether it tells of a connection, and of which server.
pub fn parse_connection_event(title: &str) -> (event: Option<(ConnectionChange, String)>)
    ensures
        event is Some <==> connection_event(title@) is Some,
        event matches Some((change, id)) ==> connection_event(title@) == Some((change, id@)),
{
    if let Some(id) = strip_prefix(title, "error: internal.connection.") {
        Some((ConnectionChange::Failed, id))
    } else if let Some(id) = strip_prefix(title, "error: internal.tunnel.") {
        Some((ConnectionChange::Failed, id))
    } else if let Some(id) = strip_prefix(title, "OK: internal.connection.") {
        Some((ConnectionChange::Recovered, id))
    } else if let Some(id) = strip_prefix(title, "OK: internal.tunnel.") {
        Some((ConnectionChange::Recovered, id))
    } else {
        None
    }
}

/// Delays notifications about connections, so that a failure that is over soon is not shown.
///
/// Notifications about anything else are shown at once.
#[derive(Debug)]
pub struct ConnectionNotificationFilter {
    delay: u128,
    servers: Table<ServerConnectionState>,
}

/// What a [`ConnectionNotificationFilter`] says.
#[verifier::ext_equal]
pub struct FilterStateModel {
    /// In nanoseconds.
    pub delay: u128,
    pub servers: Map<Text, ConnectionModel>,
}

impl View for ConnectionNotificationFilter {
    type V = FilterStateModel;

    closed spec fn view(&self) -> FilterStateModel {
        FilterStateModel { delay: self.delay, servers: self.servers@ }
    }
}

/// What is known of a server; nothing known is no failure.
pub open spec fn state_of(filter: FilterStateModel, id: Text) -> ConnectionModel {
    if filter.servers.contains_key(id) {
        filter.servers[id]
    } else {
        ConnectionModel::Idle
    }
}

/// The filter with something else known of a server.
pub open spec fn with_state(
    filter: FilterStateModel,
    id: Text,
    state: ConnectionModel,
) -> FilterStateModel {
    FilterStateModel { servers: filter.servers.insert(id, state), ..filter }
}

/// How long a delay still lasts.
pub open spec fn remaining(delay: u128, occurred_at: Timestamp, wall_now: Timestamp) -> int {
    if occurred_at + delay > wall_now {
        occurred_at + delay - wall_now
    } else {
        0
    }
}

/// Whether a delay ends within the reach of both clocks.
pub open spec fn can_delay(
    delay: u128,
    occurred_at: Timestamp,
    now: Moment,
    wall_now: Timestamp,
) -> bool {
    &&& delay <= i128::MAX
    &&& occurred_at + delay <= i128::MAX
    &&& remaining(delay, occurred_at, wall_now) <= i128::MAX
    &&& now + remaining(delay, occurred_at, wall_now) <= u128::MAX
}

/// Whether a notification starts a delay.
pub open spec fn starts_delay(filter: FilterStateModel, title: Text) -> bool {
    filter.delay > 0 && (connection_event(title) matches Some((change, id)) && change
        == ConnectionChange::Failed && state_of(filter, id) is Idle)
}

/// The filter and the action after a failure.
pub open spec fn after_failure(
    filter: FilterStateModel,
    id: Text,
    title: Text,
    body: Text,
    occurred_at: Timestamp,
    now: Moment,
    wall_now: Timestamp,
) -> (FilterStateModel, FilterModel) {
    match state_of(filter, id) {
        ConnectionModel::Idle => (
            with_state(
                filter,
                id,
                ConnectionModel::Delaying {
                    deadline: (now + remaining(filter.delay, occurred_at, wall_now)) as u128,
                    deadline_at: (occurred_at + filter.delay) as i128,
                    title,
                    body,
                },
            ),
            FilterModel::Suppress,
        ),
        ConnectionModel::Delaying { deadline, deadline_at, .. } => if occurred_at >= deadline_at {
            (
                with_state(filter, id, ConnectionModel::Notified),
                FilterModel::Send { title, body },
            )
        } else {
            (
                with_state(
                    filter,
                    id,
                    ConnectionModel::Delaying { deadline, deadline_at, title, body },
                ),
                FilterModel::Suppress,
            )
        },
        ConnectionModel::Notified => (filter, FilterModel::Suppress),
    }
}

/// The filter and the action after a recovery.
pub open spec fn after_recovery(
    filter: FilterStateModel,
    id: Text,
    title: Text,
    body: Text,
    occurred_at: Timestamp,
) -> (FilterStateModel, FilterModel) {
    let idle = with_state(filter, id, ConnectionModel::Idle);
    match state_of(filter, id) {
        ConnectionModel::Idle => (idle, FilterModel::Suppress),
        ConnectionModel::Delaying { deadline_at, title: error_title, body: error_body, .. } =>
            if occurred_at < deadline_at {
                (idle, FilterModel::Suppress)
            } else {
                (
                    idle,
                    FilterModel::SendBatch {
                        notifications: seq![(error_title, error_body), (title, body)],
                    },
                )
            },
        ConnectionModel::Notified => (idle, FilterModel::Send { title, body }),
    }
}

/// The filter and the action after a notification.
pub open spec fn filtered(
    filter: FilterStateModel,
    title: Text,
    body: Text,
    occurred_at: Timestamp,
    now: Moment,
    wall_now: Timestamp,
) -> (FilterStateModel, FilterModel) {
    match connection_event(title) {
        None => (filter, FilterModel::Send { title, body }),
        Some((change, id)) => if filter.delay == 0 {
            (
                with_state(
                    filter,
                    id,
                    match change {
                        ConnectionChange::Failed => ConnectionModel::Notified,
                        ConnectionChange::Recovered => ConnectionModel::Idle,
                    },
                ),
                FilterModel::Send { title, body },
            )
        } else {
            match change {
                ConnectionChange::Failed => after_failure(
                    filter,
                    id,
                    title,
                    body,
                    occurred_at,
                    now,
                    wall_now,
                ),
                ConnectionChange::Recovered => after_recovery(
                    filter,
                    id,
                    title,
                    body,
                    occurred_at,
                ),
            }
        },
    }
}

/// Whether a failure that waits is to be shown.
pub open spec fn is_due(state: ConnectionModel, now: Moment) -> bool {
    state matches ConnectionModel::Delaying { deadline, .. } && now >= deadline
}

/// What is known of a server once what is due was shown.
pub open spec fn drained(state: ConnectionModel, now: Moment) -> ConnectionModel {
    if is_due(state, now) {
        ConnectionModel::Notified
    } else {
        state
    }
}

/// The title and the body of a failure that waits.
pub open spec fn waiting_words(state: ConnectionModel) -> (Text, Text) {
    (state->title, state->body)
}

/// The notifications that are due, in the order of the servers' IDs.
pub open spec fn due_notifications(filter: FilterStateModel, now: Moment) -> Seq<(Text, Text)> {
    in_order(filter.servers.dom()).filter(|id: Text| is_due(filter.servers[id], now)).map_values(
        |id: Text| waiting_words(filter.servers[id]),
    )
}

/// The filter once what is due was shown.
pub open spec fn after_draining(filter: FilterStateModel, now: Moment) -> FilterStateModel {
    FilterStateModel {
        servers: filter.servers.map_values(|state: ConnectionModel| drained(state, now)),
        ..filter
    }
}

/// Whether a deadline is the earliest at which something is due.
pub open spec fn is_next_deadline(filter: FilterStateModel, deadline: Option<Moment>) -> bool {
    match deadline {
        Some(earliest) => {
            &&& exists|id: Text|
                #[trigger] filter.servers.contains_key(id) && (filter.servers[id] matches ConnectionModel::Delaying {
                    deadline,
                    ..
                } && deadline == earliest)
            &&& forall|id: Text|
                #[trigger] filter.servers.contains_key(id) ==> (filter.servers[id] matches ConnectionModel::Delaying {
                    deadline,
                    ..
                } ==> earliest <= deadline)
        },
        None => forall|id: Text|
            #[trigger] filter.servers.contains_key(id) ==> !(filter.servers[id] is Delaying),
    }
}

/// Whether failures wait only where there is a delay. It holds of every filter.
pub open spec fn waits_only_with_delay(filter: FilterStateModel) -> bool {
    filter.delay == 0 ==> forall|id: Text| #[trigger]
        filter.servers.contains_key(id) ==> !(filter.servers[id] is Delaying)
}

/// The filter once nothing is known of a server.
pub open spec fn after_reset(filter: FilterStateModel, id: Text) -> FilterStateModel {
    FilterStateModel { servers: filter.servers.remove(id), ..filter }
}

impl ConnectionNotificationFilter {
    #[verifier::type_invariant]
    spec fn sound(self) -> bool {
        waits_only_with_delay(self@)
    }

    /// A filter that delays failures so long, in nanoseconds.
    pub fn new(delay: u128) -> (filter: Self)
        ensures
            filter@ == (FilterStateModel { delay, servers: Map::empty() }),
            waits_only_with_delay(filter@),
    {
        ConnectionNotificationFilter { delay, servers: Table::new() }
    }

    fn state(&self, id: &str) -> (state: ServerConnectionState)
        ensures
            state@ == state_of(self@, id@),
    {
        match self.servers.get(id) {
            Some(state) => state.clone(),
            None => ServerConnectionState::Idle,
        }
    }

    fn set_state(&mut self, id: String, state: ServerConnectionState)
        requires
            old(self)@.delay == 0 ==> !(state@ is Delaying),
        ensures
            final(self)@ == with_state(old(self)@, id@, state@),
    {
        proof {
            use_type_invariant(&*self);
        }
        let mut servers: Table<ServerConnectionState> = Table::new();
        std::mem::swap(&mut servers, &mut self.servers);
        servers.insert(id, state);
        self.servers = servers;
    }

    /// Decides about a notification that occurred at one instant and is handled at another.
    pub fn handle_notification_at(
        &mut self,
        title: String,
        body: String,
        occurred_at: Timestamp,
        now: Moment,
        wall_now: Timestamp,
    ) -> (action: FilterAction)
        requires
            starts_delay(old(self)@, title@) ==> can_delay(
                old(self)@.delay,
                occurred_at,
                now,
                wall_now,
            ),
        ensures
            final(self)@ == filtered(old(self)@, title@, body@, occurred_at, now, wall_now).0,
            action@ == filtered(old(self)@, title@, body@, occurred_at, now, wall_now).1,
            waits_only_with_delay(final(self)@),
    {
        proof {
            use_type_invariant(&*self);
        }
        let (change, id) = match parse_connection_event(title.as_str()) {
            Some(event) => event,
            None => {
                return FilterAction::Send { title, body };
            },
        };
        if self.delay == 0 {
            let state = match change {
                ConnectionChange::Failed => ServerConnectionState::Notified,
                ConnectionChange::Recovered => ServerConnectionState::Idle,
            };
            self.set_state(id, state);
            return FilterAction::Send { title, body };
        }
        let state = self.state(id.as_str());
        match change {
            ConnectionChange::Failed => match state {
                ServerConnectionState::Idle => {
                    let deadline_at: i128 = occurred_at + self.delay as i128;
                    let left: u128 = if deadline_at > wall_now {
                        (deadline_at - wall_now) as u128
                    } else {
                        0
                    };
                    let deadline: u128 = now + left;
                    self.set_state(
                        id,
                        ServerConnectionState::Delaying { deadline, deadline_at, title, body },
                    );
                    FilterAction::Suppress
                },
                ServerConnectionState::Delaying { deadline, deadline_at, .. } => {
                    if occurred_at >= deadline_at {
                        self.set_state(id, ServerConnectionState::Notified);
                        return FilterAction::Send { title, body };
                    }
                    self.set_state(
                        id,
                        ServerConnectionState::Delaying { deadline, deadline_at, title, body },
                    );
                    FilterAction::Suppress
                },
                ServerConnectionState::Notified => FilterAction::Suppress,
            },
            ConnectionChange::Recovered => {
                self.set_state(id, ServerConnectionState::Idle);
                match state {
                    ServerConnectionState::Idle => FilterAction::Suppress,
                    ServerConnectionState::Delaying { deadline_at, title: error_title, body: error_body, .. } => {
                        if occurred_at < deadline_at {
                            return FilterAction::Suppress;
                        }
                        let ghost words = seq![(error_title@, error_body@), (title@, body@)];
                        let mut notifications: Vec<(String, String)> = Vec::new();
                        notifications.push((error_title, error_body));
                        notifications.push((title, body));
                        assert(notifications.deep_view() =~= words);
                        FilterAction::SendBatch { notifications }
                    },
                    ServerConnectionState::Notified => FilterAction::Send { title, body },
                }
            },
        }
    }

    /// The earliest moment at which a failure is due, if one waits.
    pub fn next_deadline(&self) -> (deadline: Option<Moment>)
        ensures
            is_next_deadline(self@, deadline),
            self@.delay == 0 ==> deadline is None,
    {
        proof {
            use_type_invariant(self);
        }
        let ghost servers = self.servers@;
        let count: usize = self.servers.len();
        let ghost ids = self.servers.keys();
        let mut earliest: Option<Moment> = None;
        let mut i: usize = 0;
        while i < count
            invariant
                servers == self.servers@,
                ids == self.servers.keys(),
                count == ids.len(),
                i <= count,
                forall|j: int| 0 <= j < count ==> servers.contains_key(#[trigger] ids[j]),
                match earliest {
                    Some(first) => {
                        &&& exists|j: int|
                            0 <= j < i && (servers[#[trigger] ids[j]] matches ConnectionModel::Delaying {
                                deadline,
                                ..
                            } && deadline == first)
                        &&& forall|j: int|
                            0 <= j < i ==> (servers[#[trigger] ids[j]] matches ConnectionModel::Delaying {
                                deadline,
                                ..
                            } ==> first <= deadline)
                    },
                    None => forall|j: int|
                        0 <= j < i ==> !(servers[#[trigger] ids[j]] is Delaying),
                },
            decreases count - i,
        {
            let state = self.servers.value_at(i);
            assert(servers[ids[i as int]] == state@);
            if let ServerConnectionState::Delaying { deadline, .. } = state {
                match earliest {
                    Some(first) => {
                        if *deadline < first {
                            earliest = Some(*deadline);
                        }
                    },
                    None => {
                        earliest = Some(*deadline);
                    },
                }
            }
            i += 1;
        }
        proof {
            self.servers.lemma_members();
            assert forall|id: Text| #[trigger] servers.contains_key(id) implies exists|j: int|
                0 <= j < ids.len() && ids[j] == id by {
                assert(ids.contains(id));
            }
        }
        earliest
    }

    /// Forgets what is known of a server, after a recovery that nobody was told of.
    pub fn reset_server(&mut self, server_id: &str)
        ensures
            final(self)@ == after_reset(old(self)@, server_id@),
            waits_only_with_delay(final(self)@),
    {
        proof {
            use_type_invariant(&*self);
        }
        let mut servers: Table<ServerConnectionState> = Table::new();
        std::mem::swap(&mut servers, &mut self.servers);
        let _ = servers.remove(server_id);
        self.servers = servers;
    }

    /// Takes out the notifications that are due.
    pub fn drain_due(&mut self, now: Moment) -> (due: Vec<(String, String)>)
        ensures
            due.deep_view() == due_notifications(old(self)@, now),
            final(self)@ == after_draining(old(self)@, now),
            waits_only_with_delay(final(self)@),
            old(self)@.delay == 0 ==> due@.len() == 0 && final(self)@ == old(self)@,
    {
        proof {
            use_type_invariant(&*self);
        }
        let ghost before = self.servers@;
        let ghost is = |id: Text| is_due(before[id], now);
        let ghost words = |id: Text| waiting_words(before[id]);
        let count: usize = self.servers.len();
        let ghost ids = self.servers.keys();
        let mut due: Vec<(String, String)> = Vec::new();
        let mut rest: Table<ServerConnectionState> = Table::new();
        let mut i: usize = 0;
        assert(ids.take(0) =~= Seq::<Text>::empty());
        assert(due.deep_view() =~= ids.take(0).filter(is).map_values(words));
        while i < count
            invariant
                before == self.servers@,
                self@ == old(self)@,
                ids == self.servers.keys(),
                count == ids.len(),
                ids == in_order(before.dom()),
                is == (|id: Text| is_due(before[id], now)),
                words == (|id: Text| waiting_words(before[id])),
                i <= count,
                due.deep_view() == ids.take(i as int).filter(is).map_values(words),
                rest@ == Map::new(
                    |id: Text| ids.take(i as int).contains(id),
                    |id: Text| drained(before[id], now),
                ),
            decreases count - i,
        {
            let state = self.servers.value_at(i);
            let id = self.servers.key_at(i);
            let ghost seen = ids.take(i as int);
            let ghost next = ids.take(i + 1);
            proof {
                assert(next =~= seen.push(id@));
                seen.lemma_filter_push(id@, is);
                assert(seen.filter(is).push(id@).map_values(words) =~= seen.filter(is).map_values(
                    words,
                ).push(words(id@)));
                assert forall|other: Text| next.contains(other) <==> seen.contains(other) || other
                    == id@ by {
                    if seen.contains(other) {
                        let n = choose|n: int| 0 <= n < seen.len() && seen[n] == other;
                        assert(next[n] == other);
                    }
                    assert(next[i as int] == id@);
                }
            }
            let mut kept = state.clone();
            if let ServerConnectionState::Delaying { deadline, title, body, .. } = state {
                if now >= *deadline {
                    let ghost last = due.deep_view();
                    due.push((title.clone(), body.clone()));
                    assert(due.deep_view() =~= last.push(words(id@)));
                    kept = ServerConnectionState::Notified;
                }
            }
            proof {
                assert(rest@.insert(id@, kept@) =~= Map::new(
                    |other: Text| next.contains(other),
                    |other: Text| drained(before[other], now),
                ));
            }
            rest.insert(id.to_owned(), kept);
            i += 1;
        }
        proof {
            filters_without_delay_never_wait(self@, now);
            assert(ids.take(i as int) =~= ids);
            self.servers.lemma_members();
            assert forall|id: Text| ids.contains(id) <==> before.contains_key(id) by {}
            assert(rest@ =~= after_draining(old(self)@, now).servers);
        }
        self.servers = rest;
        due
    }
}

/// Whether some effect is a notification.
pub open spec fn announces(effects: Seq<EffectModel>) -> bool {
    exists|i: int| 0 <= i < effects.len() && (#[trigger] effects[i]) is Notify
}

/// The server that connected while nobody is told, for example because its failure is snoozed. The
/// filter is to forget what it knows of it.
pub fn silent_recovery(connected: Option<String>, effects: &Vec<Effect>) -> (server_id: Option<
    String,
>)
    ensures
        server_id.deep_view() == (if announces(effects.deep_view()) {
            None
        } else {
            connected.deep_view()
        }),
{
    let ghost all = effects.deep_view();
    let mut i: usize = 0;
    while i < effects.len()
        invariant
            all == effects.deep_view(),
            i <= effects.len(),
            forall|j: int| 0 <= j < i ==> !((#[trigger] all[j]) is Notify),
        decreases effects.len() - i,
    {
        assert(all[i as int] == effects@[i as int]@);
        if let Effect::Notify { .. } = &effects[i] {
            return None;
        }
        i += 1;
    }
    connected
}

/// Notifications about anything but connections are shown at once and change nothing.
pub proof fn other_notifications_pass(
    filter: FilterStateModel,
    title: Text,
    body: Text,
    occurred_at: Timestamp,
    now: Moment,
    wall_now: Timestamp,
)
    requires
        connection_event(title) is None,
    ensures
        filtered(filter, title, body, occurred_at, now, wall_now) == (
            filter,
            FilterModel::Send { title, body },
        ),
{
}

/// What happens to the connection of one server leaves what is known of every other alone.
pub proof fn servers_are_filtered_apart(
    filter: FilterStateModel,
    title: Text,
    body: Text,
    occurred_at: Timestamp,
    now: Moment,
    wall_now: Timestamp,
    other: Text,
)
    requires
        connection_event(title) matches Some((change, id)) && id != other,
    ensures
        state_of(filtered(filter, title, body, occurred_at, now, wall_now).0, other) == state_of(
            filter,
            other,
        ),
        filtered(filter, title, body, occurred_at, now, wall_now).0.delay == filter.delay,
{
}

/// A failure that is over within the delay is never shown, and neither is its recovery: both are
/// suppressed, and nothing waits afterwards. It counts when the recovery occurred, not when it
/// was handled.
pub proof fn short_failures_are_not_shown(
    filter: FilterStateModel,
    id: Text,
    failure: Text,
    details: Text,
    failed_at: Timestamp,
    now: Moment,
    wall_now: Timestamp,
    recovery: Text,
    body: Text,
    recovered_at: Timestamp,
    later: Moment,
    wall_later: Timestamp,
)
    requires
        filter.delay > 0,
        connection_event(failure) == Some((ConnectionChange::Failed, id)),
        connection_event(recovery) == Some((ConnectionChange::Recovered, id)),
        state_of(filter, id) is Idle,
        can_delay(filter.delay, failed_at, now, wall_now),
        recovered_at < failed_at + filter.delay,
    ensures
        ({
            let (failed, first) = filtered(filter, failure, details, failed_at, now, wall_now);
            let (recovered, second) = filtered(
                failed,
                recovery,
                body,
                recovered_at,
                later,
                wall_later,
            );
            &&& first is Suppress
            &&& second is Suppress
            &&& state_of(recovered, id) is Idle
        }),
{
}

/// Further failures during a delay do not move its end; the latest of them is what will be shown.
pub proof fn repeated_failures_keep_the_deadline(
    filter: FilterStateModel,
    id: Text,
    title: Text,
    body: Text,
    occurred_at: Timestamp,
    now: Moment,
    wall_now: Timestamp,
)
    requires
        filter.delay > 0,
        connection_event(title) == Some((ConnectionChange::Failed, id)),
        state_of(filter, id) matches ConnectionModel::Delaying { deadline_at, .. } && occurred_at
            < deadline_at,
    ensures
        ({
            let (after, action) = filtered(filter, title, body, occurred_at, now, wall_now);
            &&& action is Suppress
            &&& state_of(after, id) == (ConnectionModel::Delaying {
                deadline: state_of(filter, id)->deadline,
                deadline_at: state_of(filter, id)->deadline_at,
                title,
                body,
            })
        }),
{
}

/// A failure that lasts is shown once: when it is due it is taken out, a further failure is
/// suppressed, and the recovery is shown.
pub proof fn lasting_failures_are_shown_once(
    filter: FilterStateModel,
    id: Text,
    now: Moment,
    failure: Text,
    details: Text,
    failed_at: Timestamp,
    recovery: Text,
    body: Text,
    recovered_at: Timestamp,
    wall_now: Timestamp,
)
    requires
        filter.delay > 0,
        filter.servers.contains_key(id),
        is_due(filter.servers[id], now),
        connection_event(failure) == Some((ConnectionChange::Failed, id)),
        connection_event(recovery) == Some((ConnectionChange::Recovered, id)),
    ensures
        ({
            let after = after_draining(filter, now);
            &&& state_of(after, id) is Notified
            &&& filtered(after, failure, details, failed_at, now, wall_now) == (
                after,
                FilterModel::Suppress,
            )
            &&& filtered(after, recovery, body, recovered_at, now, wall_now).1
                == (FilterModel::Send { title: recovery, body })
        }),
{
}

/// Nothing that was taken out is due again, and draining changes no failure that still waits.
pub proof fn draining_takes_only_what_is_due(filter: FilterStateModel, now: Moment, id: Text)
    ensures
        !is_due(state_of(after_draining(filter, now), id), now),
        !is_due(state_of(filter, id), now) ==> state_of(after_draining(filter, now), id)
            == state_of(filter, id),
{
}

/// A filter without a delay keeps no failure waiting: nothing is due at any moment, there is no
/// next deadline, and draining changes nothing.
pub proof fn filters_without_delay_never_wait(filter: FilterStateModel, now: Moment)
    requires
        filter.servers.dom().finite(),
        waits_only_with_delay(filter),
    ensures
        filter.delay == 0 ==> {
            &&& is_next_deadline(filter, None)
            &&& forall|deadline: Option<Moment>|
                is_next_deadline(filter, deadline) ==> deadline is None
            &&& due_notifications(filter, now).len() == 0
            &&& after_draining(filter, now) == filter
        },
{
    if filter.delay == 0 {
        let ids = in_order(filter.servers.dom());
        let is = |id: Text| is_due(filter.servers[id], now);
        in_order_has_the_members(filter.servers.dom());
        assert forall|i: int| 0 <= i < ids.len() implies filter.servers.contains_key(
            #[trigger] ids[i],
        ) by {
            assert(ids.to_set().contains(ids[i]));
        }
        lemma_nothing_due(filter, ids, now);
        assert(ids.filter(is).len() == 0);
        assert(after_draining(filter, now).servers =~= filter.servers);
    }
}

proof fn lemma_nothing_due(filter: FilterStateModel, ids: Seq<Text>, now: Moment)
    requires
        filter.delay == 0,
        waits_only_with_delay(filter),
        forall|i: int| 0 <= i < ids.len() ==> filter.servers.contains_key(#[trigger] ids[i]),
    ensures
        ids.filter(|id: Text| is_due(filter.servers[id], now)).len() == 0,
    decreases ids.len(),
{
    reveal(Seq::filter);
    if ids.len() > 0 {
        assert(filter.servers.contains_key(ids[ids.len() - 1]));
        lemma_nothing_due(filter, ids.drop_last(), now);
    }
}

/// Whatever a filter is asked for, failures wait only where there is a delay: in a new filter, and
/// after a notification, a draining or a reset.
pub proof fn failures_wait_only_with_a_delay(
    filter: FilterStateModel,
    title: Text,
    body: Text,
    occurred_at: Timestamp,
    now: Moment,
    wall_now: Timestamp,
    id: Text,
)
    requires
        waits_only_with_delay(filter),
    ensures
        waits_only_with_delay(FilterStateModel { delay: filter.delay, servers: Map::empty() }),
        waits_only_with_delay(filtered(filter, title, body, occurred_at, now, wall_now).0),
        waits_only_with_delay(after_draining(filter, now)),
        waits_only_with_delay(after_reset(filter, id)),
{
}

/// Without a delay every notification is shown at once, and the next deadline stays what it is:
/// there is none.
pub proof fn without_delay_all_is_shown_at_once(
    filter: FilterStateModel,
    title: Text,
    body: Text,
    occurred_at: Timestamp,
    now: Moment,
    wall_now: Timestamp,
)
    requires
        waits_only_with_delay(filter),
        filter.delay == 0,
    ensures
        filtered(filter, title, body, occurred_at, now, wall_now).1 == (FilterModel::Send {
            title,
            body,
        }),
        is_next_deadline(filter, None),
        is_next_deadline(filtered(filter, title, body, occurred_at, now, wall_now).0, None),
{
}

/// The titles for connections and tunnels that failed or recovered tell of which server.
pub proof fn titles_tell_whose_connection_changed(id: Text)
    ensures
        connection_event("error: internal.connection."@ + id) == Some(
            (ConnectionChange::Failed, id),
        ),
        connection_event("error: internal.tunnel."@ + id) == Some((ConnectionChange::Failed, id)),
        connection_event("OK: internal.connection."@ + id) == Some(
            (ConnectionChange::Recovered, id),
        ),
        connection_event("OK: internal.tunnel."@ + id) == Some((ConnectionChange::Recovered, id)),
{
    reveal_strlit("error: internal.connection.");
    reveal_strlit("error: internal.tunnel.");
    reveal_strlit("OK: internal.connection.");
    reveal_strlit("OK: internal.tunnel.");
    let lost = "error: internal.connection."@ + id;
    assert(lost.skip("error: internal.connection."@.len() as int) =~= id);
    let closed = "error: internal.tunnel."@ + id;
    assert(closed.skip("error: internal.tunnel."@.len() as int) =~= id);
    assert(closed[16] != "error: internal.connection."@[16]);
    let found = "OK: internal.connection."@ + id;
    assert(found.skip("OK: internal.connection."@.len() as int) =~= id);
    assert(found[0] != "error: internal.connection."@[0]);
    let opened = "OK: internal.tunnel."@ + id;
    assert(opened.skip("OK: internal.tunnel."@.len() as int) =~= id);
    assert(opened[0] != "error: internal.connection."@[0]);
    assert(opened[13] != "OK: internal.connection."@[13]);
}

/// A title that tells of a connection is one of those for connections and tunnels.
pub proof fn other_titles_tell_of_no_connection(title: Text)
    ensures
        match connection_event(title) {
            Some((ConnectionChange::Failed, id)) => title == "error: internal.connection."@ + id
                || title == "error: internal.tunnel."@ + id,
            Some((ConnectionChange::Recovered, id)) => title == "OK: internal.connection."@ + id
                || title == "OK: internal.tunnel."@ + id,
            None => true,
        },
{
    if let Some((change, id)) = connection_event(title) {
        let starts = seq![
            "error: internal.connection."@,
            "error: internal.tunnel."@,
            "OK: internal.connection."@,
            "OK: internal.tunnel."@,
        ];
        assert forall|i: int| 0 <= i < 4 && after_prefix(title, #[trigger] starts[i]) == Some(
            id,
        ) implies title == starts[i] + id by {
            assert(title =~= starts[i] + id);
        }
        assert(after_prefix(title, starts[0]) == Some(id) || after_prefix(title, starts[1]) == Some(
            id,
        ) || after_prefix(title, starts[2]) == Some(id) || after_prefix(title, starts[3]) == Some(
            id,
        ));
    }
}

/// The first failure of a connection is not shown yet. It waits, with its words, until the delay is
/// over since it occurred: as long from now as is left of it, and not at all where nothing is left.
pub proof fn first_failures_wait_for_the_delay(
    filter: FilterStateModel,
    id: Text,
    title: Text,
    body: Text,
    occurred_at: Timestamp,
    now: Moment,
    wall_now: Timestamp,
)
    requires
        0 < filter.delay <= i128::MAX,
        connection_event(title) == Some((ConnectionChange::Failed, id)),
        state_of(filter, id) is Idle,
        occurred_at + filter.delay <= i128::MAX,
        occurred_at + filter.delay - wall_now <= i128::MAX,
        now + (occurred_at + filter.delay - wall_now) <= u128::MAX,
    ensures
        can_delay(filter.delay, occurred_at, now, wall_now),
        starts_delay(filter, title),
        ({
            let (after, action) = filtered(filter, title, body, occurred_at, now, wall_now);
            &&& action is Suppress
            &&& after.servers.contains_key(id)
            &&& after.servers[id] matches ConnectionModel::Delaying {
                deadline,
                deadline_at,
                title: kept_title,
                body: kept_body,
            }
            &&& kept_title == title
            &&& kept_body == body
            &&& deadline_at == occurred_at + filter.delay
            &&& wall_now <= deadline_at ==> deadline - now == deadline_at - wall_now
            &&& wall_now > deadline_at ==> deadline == now
        }),
{
}

/// A failure that occurred when the delay was already over is shown at once, and counts as shown.
pub proof fn late_failures_are_shown(
    filter: FilterStateModel,
    id: Text,
    title: Text,
    body: Text,
    occurred_at: Timestamp,
    now: Moment,
    wall_now: Timestamp,
)
    requires
        filter.delay > 0,
        connection_event(title) == Some((ConnectionChange::Failed, id)),
        state_of(filter, id) matches ConnectionModel::Delaying { deadline_at, .. } && deadline_at
            <= occurred_at,
    ensures
        ({
            let (after, action) = filtered(filter, title, body, occurred_at, now, wall_now);
            &&& action == (FilterModel::Send { title, body })
            &&& state_of(after, id) is Notified
        }),
{
}

/// A failure that was shown is not shown again, and stays shown.
pub proof fn shown_failures_are_not_repeated(
    filter: FilterStateModel,
    id: Text,
    title: Text,
    body: Text,
    occurred_at: Timestamp,
    now: Moment,
    wall_now: Timestamp,
)
    requires
        filter.delay > 0,
        connection_event(title) == Some((ConnectionChange::Failed, id)),
        state_of(filter, id) is Notified,
    ensures
        filtered(filter, title, body, occurred_at, now, wall_now) == (
            filter,
            FilterModel::Suppress,
        ),
{
}

/// After a recovery nothing waits. It is shown where the failure was shown. Where the failure
/// still waits although the delay was over when the recovery occurred, both are shown, the failure
/// first. Otherwise nobody heard of the failure, and the recovery is not shown either.
pub proof fn recoveries_are_shown_where_failures_were(
    filter: FilterStateModel,
    id: Text,
    title: Text,
    body: Text,
    occurred_at: Timestamp,
    now: Moment,
    wall_now: Timestamp,
)
    requires
        filter.delay > 0,
        connection_event(title) == Some((ConnectionChange::Recovered, id)),
    ensures
        ({
            let (after, action) = filtered(filter, title, body, occurred_at, now, wall_now);
            &&& state_of(after, id) is Idle
            &&& match state_of(filter, id) {
                ConnectionModel::Notified => action == (FilterModel::Send { title, body }),
                ConnectionModel::Idle => action is Suppress,
                ConnectionModel::Delaying { deadline_at, title: failure, body: details, .. } => {
                    &&& occurred_at < deadline_at ==> action is Suppress
                    &&& occurred_at >= deadline_at ==> action == (FilterModel::SendBatch {
                        notifications: seq![(failure, details), (title, body)],
                    })
                },
            }
        }),
{
}

/// Whether the notifications that are due are the words of the failures of these servers, in this
/// order, and the servers are those whose deadline was reached, in the order of their IDs.
pub open spec fn are_taken(filter: FilterStateModel, now: Moment, ids: Seq<Text>) -> bool {
    &&& ascending(ids)
    &&& due_notifications(filter, now).len() == ids.len()
    &&& forall|i: int|
        0 <= i < ids.len() ==> {
            &&& filter.servers.contains_key(#[trigger] ids[i])
            &&& filter.servers[ids[i]] matches ConnectionModel::Delaying {
                deadline,
                title,
                body,
                ..
            }
            &&& deadline <= now
            &&& due_notifications(filter, now)[i] == (title, body)
        }
    &&& forall|id: Text|
        #[trigger] filter.servers.contains_key(id) && (
        filter.servers[id] matches ConnectionModel::Delaying { deadline, .. } && deadline <= now)
            ==> ids.contains(id)
}

/// What is due is taken out in the order of the servers' IDs: the words of each failure whose
/// deadline was reached, and of no other.
pub proof fn due_failures_are_taken_in_order(filter: FilterStateModel, now: Moment)
    requires
        filter.servers.dom().finite(),
    ensures
        exists|ids: Seq<Text>| #[trigger] are_taken(filter, now, ids),
{
    let all = in_order(filter.servers.dom());
    let keep = |id: Text| is_due(filter.servers[id], now);
    let ids = all.filter(keep);
    in_order_has_the_members(filter.servers.dom());
    lemma_filter_members(all, keep);
    lemma_filter_ascends(all, keep);
    assert forall|i: int| 0 <= i < ids.len() implies filter.servers.contains_key(
        #[trigger] ids[i],
    ) && keep(ids[i]) by {
        assert(all.to_set().contains(ids[i]));
    }
    assert forall|id: Text| #[trigger]
        filter.servers.contains_key(id) && is_due(filter.servers[id], now) implies ids.contains(
        id,
    ) by {
        assert(all.to_set().contains(id));
        let n = choose|n: int| 0 <= n < all.len() && all[n] == id;
        assert(keep(all[n]));
    }
    assert(are_taken(filter, now, ids));
}

/// The next deadline is the first moment at which something is due. Without one nothing is due at
/// any moment.
pub proof fn something_is_due_from_the_next_deadline_on(
    filter: FilterStateModel,
    next: Option<Moment>,
    now: Moment,
)
    requires
        filter.servers.dom().finite(),
        is_next_deadline(filter, next),
    ensures
        due_notifications(filter, now).len() > 0 <==> (next matches Some(deadline) && deadline
            <= now),
{
    due_failures_are_taken_in_order(filter, now);
    let ids = choose|ids: Seq<Text>| #[trigger] are_taken(filter, now, ids);
    if ids.len() > 0 {
        assert(filter.servers.contains_key(ids[0]));
    }
}

/// Of a server that was reset nothing is known, and what is known of the others stays.
pub proof fn reset_servers_are_forgotten(filter: FilterStateModel, id: Text, other: Text)
    ensures
        !after_reset(filter, id).servers.contains_key(id),
        state_of(after_reset(filter, id), id) is Idle,
        other != id ==> state_of(after_reset(filter, id), other) == state_of(filter, other),
        after_reset(filter, id).delay == filter.delay,
{
}

} // verus!
