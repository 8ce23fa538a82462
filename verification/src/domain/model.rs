//! Incidents, servers and the projection of the state that the user sees.

use vstd::prelude::*;
use vstd::string::*;

use crate::table::{in_order, Table};
use crate::text::{starts_with, Text};
use crate::timestamp::Timestamp;

verus! {

/// Severity that a server reports for one monitored item.
#[derive(Clone, Copy, Debug, PartialEq, Eq, PartialOrd, Ord, Structural)]
pub enum IncidentState {
    Okay,
    Warning,
    Error,
}

/// One incident, as decoded from the wire or created by the client itself.
#[derive(Debug, PartialEq, Eq)]
pub struct Incident {
    /// Stable identity of the item. Keys of server incidents are prefixed with the server's ID.
    pub key: String,
    pub state: IncidentState,
    pub details: String,
    /// RFC 3339 text.
    pub incident_started_at: String,
    /// Set when the incident is kept from the last snapshot of a server that disconnected.
    pub stale: bool,
}

/// What an [`Incident`] says.
#[verifier::ext_equal]
pub struct IncidentModel {
    pub key: Text,
    pub state: IncidentState,
    pub details: Text,
    pub incident_started_at: Text,
    pub stale: bool,
}

impl View for Incident {
    type V = IncidentModel;

    open spec fn view(&self) -> IncidentModel {
        IncidentModel {
            key: self.key@,
            state: self.state,
            details: self.details@,
            incident_started_at: self.incident_started_at@,
            stale: self.stale,
        }
    }
}

impl DeepView for Incident {
    type V = IncidentModel;

    open spec fn deep_view(&self) -> IncidentModel {
        self.view()
    }
}

impl Clone for Incident {
    fn clone(&self) -> (copy: Self)
        ensures
            copy@ == self@,
    {
        Incident {
            key: self.key.clone(),
            state: self.state,
            details: self.details.clone(),
            incident_started_at: self.incident_started_at.clone(),
            stale: self.stale,
        }
    }
}

/// The incidents of a server and the changes since its previous message.
///
/// `total` replaces what was known. The other lists drive logs and desktop notifications: the
/// server owns the meaning of a change, so nothing is derived by comparing totals.
#[derive(Clone, Debug, PartialEq, Eq)]
pub struct NotificationData {
    pub total: Vec<Incident>,
    pub added: Vec<Incident>,
    pub removed: Vec<Incident>,
    pub updated: Vec<Incident>,
    /// How many items are fine; informational.
    pub num_items_ok: usize,
}

/// What a [`NotificationData`] says.
#[verifier::ext_equal]
pub struct NotificationModel {
    pub total: Seq<IncidentModel>,
    pub added: Seq<IncidentModel>,
    pub removed: Seq<IncidentModel>,
    pub updated: Seq<IncidentModel>,
    pub num_items_ok: usize,
}

impl View for NotificationData {
    type V = NotificationModel;

    open spec fn view(&self) -> NotificationModel {
        NotificationModel {
            total: self.total.deep_view(),
            added: self.added.deep_view(),
            removed: self.removed.deep_view(),
            updated: self.updated.deep_view(),
            num_items_ok: self.num_items_ok,
        }
    }
}

/// Connection metadata of one server.
#[derive(Debug, PartialEq, Eq)]
pub struct ServerStatus {
    pub id: String,
    pub connected: bool,
    /// Tells a server that is known to be offline from one that was not heard of yet.
    pub initialized: bool,
    /// When the server last connected or disconnected.
    pub connection_changed_at: Option<Timestamp>,
    /// When the latest heartbeat was received.
    pub last_heartbeat_at: Option<Timestamp>,
}

/// What a [`ServerStatus`] says.
#[verifier::ext_equal]
pub struct ServerModel {
    pub id: Text,
    pub connected: bool,
    pub initialized: bool,
    pub connection_changed_at: Option<Timestamp>,
    pub last_heartbeat_at: Option<Timestamp>,
}

impl View for ServerStatus {
    type V = ServerModel;

    open spec fn view(&self) -> ServerModel {
        ServerModel {
            id: self.id@,
            connected: self.connected,
            initialized: self.initialized,
            connection_changed_at: self.connection_changed_at,
            last_heartbeat_at: self.last_heartbeat_at,
        }
    }
}

impl DeepView for ServerStatus {
    type V = ServerModel;

    open spec fn deep_view(&self) -> ServerModel {
        self.view()
    }
}

impl Clone for ServerStatus {
    fn clone(&self) -> (copy: Self)
        ensures
            copy@ == self@,
    {
        ServerStatus {
            id: self.id.clone(),
            connected: self.connected,
            initialized: self.initialized,
            connection_changed_at: self.connection_changed_at,
            last_heartbeat_at: self.last_heartbeat_at,
        }
    }
}

/// A server that was configured and not heard of yet.
pub open spec fn fresh_server(id: Text) -> ServerModel {
    ServerModel {
        id,
        connected: false,
        initialized: false,
        connection_changed_at: None,
        last_heartbeat_at: None,
    }
}

/// Severity of a set of incidents, as the window and the tray show it.
///
/// `InternalError` is a trouble of the client itself. It ranks below a warning or an error that a
/// monitored system reports.
#[derive(Clone, Copy, Debug, PartialEq, Eq, Structural)]
pub enum OverallState {
    Unknown,
    Okay,
    InternalError,
    Warning,
    Error,
}

/// An incident with the deadline of its snooze.
#[derive(Clone, Debug, PartialEq, Eq)]
pub struct SnoozedIncident {
    pub incident: Incident,
    /// The first instant at which the incident is shown again.
    pub until: Timestamp,
}

/// What a [`SnoozedIncident`] says.
#[verifier::ext_equal]
pub struct SnoozedModel {
    pub incident: IncidentModel,
    pub until: Timestamp,
}

impl View for SnoozedIncident {
    type V = SnoozedModel;

    open spec fn view(&self) -> SnoozedModel {
        SnoozedModel { incident: self.incident@, until: self.until }
    }
}

impl DeepView for SnoozedIncident {
    type V = SnoozedModel;

    open spec fn deep_view(&self) -> SnoozedModel {
        self.view()
    }
}

/// The state at one instant, ready for display.
#[derive(Clone, Debug, PartialEq, Eq)]
pub struct UiSnapshot {
    pub servers: Vec<ServerStatus>,
    pub active: Vec<Incident>,
    pub snoozed: Vec<SnoozedIncident>,
    /// Severity of the active incidents, or `Unknown` where there are none to speak of and some
    /// server was not heard of yet.
    pub alerting_state: OverallState,
    /// Severity of the snoozed incidents; absent where there are none.
    pub snoozed_state: Option<OverallState>,
    pub unknown_server_count: usize,
}

/// What a [`UiSnapshot`] says.
#[verifier::ext_equal]
pub struct SnapshotModel {
    pub servers: Seq<ServerModel>,
    pub active: Seq<IncidentModel>,
    pub snoozed: Seq<SnoozedModel>,
    pub alerting_state: OverallState,
    pub snoozed_state: Option<OverallState>,
    pub unknown_server_count: nat,
}

impl View for UiSnapshot {
    type V = SnapshotModel;

    open spec fn view(&self) -> SnapshotModel {
        SnapshotModel {
            servers: self.servers.deep_view(),
            active: self.active.deep_view(),
            snoozed: self.snoozed.deep_view(),
            alerting_state: self.alerting_state,
            snoozed_state: self.snoozed_state,
            unknown_server_count: self.unknown_server_count as nat,
        }
    }
}

/// The prefix of the keys of incidents that the client creates itself.
pub open spec fn internal_prefix() -> Text {
    "internal."@
}

/// How severe one incident is.
pub open spec fn severity(item: IncidentModel) -> OverallState {
    if internal_prefix().is_prefix_of(item.key) && item.state != IncidentState::Okay {
        OverallState::InternalError
    } else {
        match item.state {
            IncidentState::Okay => OverallState::Okay,
            IncidentState::Warning => OverallState::Warning,
            IncidentState::Error => OverallState::Error,
        }
    }
}

/// Whether some incident has the severity.
pub open spec fn any_is(items: Seq<IncidentModel>, state: OverallState) -> bool {
    exists|i: int| 0 <= i < items.len() && severity(#[trigger] items[i]) == state
}

/// The highest severity among incidents: errors before warnings before troubles of the client.
pub open spec fn overall(items: Seq<IncidentModel>) -> OverallState {
    if any_is(items, OverallState::Error) {
        OverallState::Error
    } else if any_is(items, OverallState::Warning) {
        OverallState::Warning
    } else if any_is(items, OverallState::InternalError) {
        OverallState::InternalError
    } else {
        OverallState::Okay
    }
}

/// The place of a severity in the order of precedence.
pub open spec fn precedence(state: OverallState) -> u8 {
    match state {
        OverallState::Unknown => 0,
        OverallState::Okay => 1,
        OverallState::InternalError => 2,
        OverallState::Warning => 3,
        OverallState::Error => 4,
    }
}

fn rank(state: OverallState) -> (place: u8)
    ensures
        place == precedence(state),
{
    match state {
        OverallState::Unknown => 0,
        OverallState::Okay => 1,
        OverallState::InternalError => 2,
        OverallState::Warning => 3,
        OverallState::Error => 4,
    }
}

/// The highest severity among incidents, by the precedence that the tray and the window use.
pub fn overall_state(items: &Vec<Incident>) -> (state: OverallState)
    ensures
        state == overall(items.deep_view()),
{
    let ghost models = items.deep_view();
    let mut highest = OverallState::Okay;
    let mut i: usize = 0;
    while i < items.len()
        invariant
            models == items.deep_view(),
            i <= items.len(),
            forall|j: int| 0 <= j < i ==> precedence(severity(#[trigger] models[j])) <= precedence(highest),
            precedence(highest) >= 1,
            highest == OverallState::Okay || exists|j: int| 0 <= j < i && severity(#[trigger] models[j]) == highest,
        decreases items.len() - i,
    {
        let item = &items[i];
        assert(models[i as int] == item@);
        let current = if starts_with(item.key.as_str(), "internal.") && item.state != IncidentState::Okay {
            OverallState::InternalError
        } else {
            match item.state {
                IncidentState::Okay => OverallState::Okay,
                IncidentState::Warning => OverallState::Warning,
                IncidentState::Error => OverallState::Error,
            }
        };
        assert(severity(models[i as int]) == current);
        if rank(current) > rank(highest) {
            highest = current;
        }
        i += 1;
    }
    highest
}

/// Everything that is known of the servers and their incidents.
pub struct AppState {
    /// The IDs of the configured servers, in the order of the configuration.
    pub server_order: Vec<String>,
    pub servers: Table<ServerStatus>,
    /// The last full list of incidents from each server.
    pub incidents: Table<Vec<Incident>>,
    /// Connection and tunnel failures that the client found itself.
    pub internal_incidents: Table<Incident>,
    /// The deadlines of snoozes by incident key, whether or not the incident is present.
    pub snoozed: Table<Timestamp>,
}

/// What an [`AppState`] says.
#[verifier::ext_equal]
pub struct StateModel {
    pub server_order: Seq<Text>,
    pub servers: Map<Text, ServerModel>,
    pub incidents: Map<Text, Seq<IncidentModel>>,
    pub internal_incidents: Map<Text, IncidentModel>,
    pub snoozed: Map<Text, Timestamp>,
}

impl View for AppState {
    type V = StateModel;

    open spec fn view(&self) -> StateModel {
        StateModel {
            server_order: self.server_order.deep_view(),
            servers: self.servers@,
            incidents: self.incidents@,
            internal_incidents: self.internal_incidents@,
            snoozed: self.snoozed@,
        }
    }
}

/// The state before any event.
pub open spec fn initial_state(ids: Seq<Text>, snoozed: Map<Text, Timestamp>) -> StateModel {
    StateModel {
        server_order: ids,
        servers: Map::new(|id: Text| ids.contains(id), |id: Text| fresh_server(id)),
        incidents: Map::empty(),
        internal_incidents: Map::empty(),
        snoozed,
    }
}

/// Whether a snooze hides the key at an instant.
pub open spec fn is_hidden(snoozed: Map<Text, Timestamp>, key: Text, now: Timestamp) -> bool {
    snoozed.contains_key(key) && snoozed[key] > now
}

/// The incidents that a server listed last.
pub open spec fn listed(incidents: Map<Text, Seq<IncidentModel>>, id: Text) -> Seq<IncidentModel> {
    if incidents.contains_key(id) {
        incidents[id]
    } else {
        Seq::empty()
    }
}

/// The client's own incidents in the order of their keys.
pub open spec fn own_incidents(internal: Map<Text, IncidentModel>) -> Seq<IncidentModel> {
    in_order(internal.dom()).map_values(|key: Text| internal[key])
}

/// All incidents: the client's own, then those of each server in the order of the configuration.
pub open spec fn all_incidents(state: StateModel) -> Seq<IncidentModel> {
    own_incidents(state.internal_incidents) + state.server_order.flat_map(
        |id: Text| listed(state.incidents, id),
    )
}

/// The servers that have a status, in the order of the configuration.
pub open spec fn listed_servers(state: StateModel) -> Seq<ServerModel> {
    state.server_order.filter(|id: Text| state.servers.contains_key(id)).map_values(
        |id: Text| state.servers[id],
    )
}

/// What the user sees of a state at an instant.
pub open spec fn snapshot_of(state: StateModel, now: Timestamp) -> SnapshotModel {
    let all = all_incidents(state);
    let active = all.filter(|item: IncidentModel| !is_hidden(state.snoozed, item.key, now));
    let hidden = all.filter(|item: IncidentModel| is_hidden(state.snoozed, item.key, now));
    let servers = listed_servers(state);
    let unknown = servers.filter(|server: ServerModel| !server.initialized).len();
    SnapshotModel {
        servers,
        active,
        snoozed: hidden.map_values(
            |item: IncidentModel| SnoozedModel { incident: item, until: state.snoozed[item.key] },
        ),
        alerting_state: if overall(active) == OverallState::Okay && unknown > 0 {
            OverallState::Unknown
        } else {
            overall(active)
        },
        snoozed_state: if hidden.len() > 0 {
            Some(overall(hidden))
        } else {
            None
        },
        unknown_server_count: unknown,
    }
}

impl AppState {
    /// The state before any event, with the snoozes that were stored.
    pub fn new(server_ids: Vec<String>, snoozed: Table<Timestamp>) -> (state: Self)
        ensures
            state@ == initial_state(server_ids.deep_view(), snoozed@),
    {
        let ghost ids = server_ids.deep_view();
        let mut servers: Table<ServerStatus> = Table::new();
        let mut i: usize = 0;
        while i < server_ids.len()
            invariant
                ids == server_ids.deep_view(),
                i <= server_ids.len(),
                servers@ == Map::new(|id: Text| ids.take(i as int).contains(id), |id: Text| fresh_server(id)),
            decreases server_ids.len() - i,
        {
            let id = &server_ids[i];
            proof {
                assert(ids[i as int] == id@);
                let seen = ids.take(i as int);
                let next = ids.take(i + 1);
                assert(next =~= seen.push(id@));
                assert forall|other: Text| next.contains(other) <==> seen.contains(other) || other == id@ by {
                    if seen.contains(other) {
                        let n = choose|n: int| 0 <= n < seen.len() && seen[n] == other;
                        assert(next[n] == other);
                    }
                    assert(next[i as int] == id@);
                }
                assert(servers@.insert(id@, fresh_server(id@)) =~= Map::new(
                    |other: Text| next.contains(other),
                    |other: Text| fresh_server(other),
                ));
            }
            servers.insert(
                id.clone(),
                ServerStatus {
                    id: id.clone(),
                    connected: false,
                    initialized: false,
                    connection_changed_at: None,
                    last_heartbeat_at: None,
                },
            );
            i += 1;
        }
        assert(ids.take(i as int) =~= ids);
        AppState {
            server_order: server_ids,
            servers,
            incidents: Table::new(),
            internal_incidents: Table::new(),
            snoozed,
        }
    }

    /// The deadlines of snoozes by incident key.
    pub fn snoozes(&self) -> (snoozes: &Table<Timestamp>)
        ensures
            snoozes@ == self@.snoozed,
    {
        &self.snoozed
    }

    /// Puts one incident into the list that it belongs to at an instant.
    fn classify(&self, incident: &Incident, now: Timestamp, active: &mut Vec<Incident>, snoozed: &mut Vec<SnoozedIncident>)
        ensures
            is_hidden(self@.snoozed, incident@.key, now) ==> {
                &&& final(active).deep_view() == old(active).deep_view()
                &&& final(snoozed).deep_view() == old(snoozed).deep_view().push(
                    SnoozedModel { incident: incident@, until: self@.snoozed[incident@.key] },
                )
            },
            !is_hidden(self@.snoozed, incident@.key, now) ==> {
                &&& final(active).deep_view() == old(active).deep_view().push(incident@)
                &&& final(snoozed).deep_view() == old(snoozed).deep_view()
            },
    {
        if let Some(until) = self.snoozed.get(incident.key.as_str()) {
            if *until > now {
                snoozed.push(SnoozedIncident { incident: incident.clone(), until: *until });
                assert(snoozed.deep_view() =~= old(snoozed).deep_view().push(
                    SnoozedModel { incident: incident@, until: self@.snoozed[incident@.key] },
                ));
                return ;
            }
        }
        active.push(incident.clone());
        assert(active.deep_view() =~= old(active).deep_view().push(incident@));
    }

    /// Projects the state, with the snoozes as they stand at `now`.
    ///
    /// A snooze that is over no longer hides its incident, though its entry stays until the
    /// removal was stored.
    pub fn snapshot(&self, now: Timestamp) -> (snapshot: UiSnapshot)
        ensures
            snapshot@ == snapshot_of(self@, now),
    {
        let ghost model = self@;
        let ghost shown = |item: IncidentModel| !is_hidden(model.snoozed, item.key, now);
        let ghost hidden = |item: IncidentModel| is_hidden(model.snoozed, item.key, now);
        let ghost paired = |item: IncidentModel| SnoozedModel { incident: item, until: model.snoozed[item.key] };
        let mut active: Vec<Incident> = Vec::new();
        let mut snoozed: Vec<SnoozedIncident> = Vec::new();
        let ghost mut seen: Seq<IncidentModel> = Seq::empty();
        let own_count: usize = self.internal_incidents.len();
        let ghost own_keys = self.internal_incidents.keys();
        let ghost own_value = |key: Text| model.internal_incidents[key];
        let mut i: usize = 0;
        assert(active.deep_view() =~= seen.filter(shown));
        assert(snoozed.deep_view() =~= seen.filter(hidden).map_values(paired));
        while i < own_count
            invariant
                model == self@,
                own_keys == self.internal_incidents.keys(),
                own_count == own_keys.len(),
                own_keys == in_order(model.internal_incidents.dom()),
                own_value == (|key: Text| model.internal_incidents[key]),
                shown == (|item: IncidentModel| !is_hidden(model.snoozed, item.key, now)),
                hidden == (|item: IncidentModel| is_hidden(model.snoozed, item.key, now)),
                paired == (|item: IncidentModel| SnoozedModel { incident: item, until: model.snoozed[item.key] }),
                i <= own_count,
                seen == own_keys.take(i as int).map_values(own_value),
                active.deep_view() == seen.filter(shown),
                snoozed.deep_view() == seen.filter(hidden).map_values(paired),
            decreases own_count - i,
        {
            let incident = self.internal_incidents.value_at(i);
            self.classify(incident, now, &mut active, &mut snoozed);
            proof {
                lemma_classified(seen, incident@, shown, hidden, paired);
                seen = seen.push(incident@);
                assert(own_keys.take(i + 1).map_values(own_value) =~= seen);
            }
            i += 1;
        }
        assert(own_keys.take(i as int) =~= own_keys);
        let ghost own = seen;
        let ghost order = model.server_order;
        let ghost of_server = |id: Text| listed(model.incidents, id);
        let mut servers: Vec<ServerStatus> = Vec::new();
        let mut unknown_server_count: usize = 0;
        let ghost known = |id: Text| model.servers.contains_key(id);
        let ghost status = |id: Text| model.servers[id];
        let ghost uninitialized = |server: ServerModel| !server.initialized;
        let mut s: usize = 0;
        proof {
            assert(order.take(0) =~= Seq::<Text>::empty());
            assert(order.take(0).flat_map(of_server) =~= Seq::<IncidentModel>::empty());
            assert(servers.deep_view() =~= order.take(0).filter(known).map_values(status));
            assert(order.take(0).filter(known).map_values(status).filter(uninitialized) =~= Seq::<ServerModel>::empty());
            assert(own + Seq::<IncidentModel>::empty() =~= own);
        }
        while s < self.server_order.len()
            invariant
                model == self@,
                order == model.server_order,
                of_server == (|id: Text| listed(model.incidents, id)),
                known == (|id: Text| model.servers.contains_key(id)),
                status == (|id: Text| model.servers[id]),
                uninitialized == (|server: ServerModel| !server.initialized),
                shown == (|item: IncidentModel| !is_hidden(model.snoozed, item.key, now)),
                hidden == (|item: IncidentModel| is_hidden(model.snoozed, item.key, now)),
                paired == (|item: IncidentModel| SnoozedModel { incident: item, until: model.snoozed[item.key] }),
                s <= self.server_order.len(),
                seen == own + order.take(s as int).flat_map(of_server),
                active.deep_view() == seen.filter(shown),
                snoozed.deep_view() == seen.filter(hidden).map_values(paired),
                servers.deep_view() == order.take(s as int).filter(known).map_values(status),
                unknown_server_count == servers.deep_view().filter(uninitialized).len(),
                unknown_server_count <= servers.len() <= s,
            decreases self.server_order.len() - s,
        {
            let id = &self.server_order[s];
            assert(order[s as int] == id@);
            let ghost before = seen;
            let ghost list = listed(model.incidents, id@);
            if let Some(incidents) = self.incidents.get(id.as_str()) {
                let mut n: usize = 0;
                assert(list == incidents.deep_view());
                assert(before + list.take(0) =~= before);
                while n < incidents.len()
                    invariant
                        model == self@,
                        list == incidents.deep_view(),
                        shown == (|item: IncidentModel| !is_hidden(model.snoozed, item.key, now)),
                        hidden == (|item: IncidentModel| is_hidden(model.snoozed, item.key, now)),
                        paired == (|item: IncidentModel| SnoozedModel { incident: item, until: model.snoozed[item.key] }),
                        n <= incidents.len(),
                        seen == before + list.take(n as int),
                        active.deep_view() == seen.filter(shown),
                        snoozed.deep_view() == seen.filter(hidden).map_values(paired),
                    decreases incidents.len() - n,
                {
                    let incident = &incidents[n];
                    self.classify(incident, now, &mut active, &mut snoozed);
                    proof {
                        lemma_classified(seen, incident@, shown, hidden, paired);
                        seen = seen.push(incident@);
                        assert(before + list.take(n + 1) =~= seen);
                    }
                    n += 1;
                }
                assert(list.take(n as int) =~= list);
            } else {
                assert(before + list =~= before);
            }
            proof {
                order.lemma_flat_map_take_append(of_server, s as int);
                assert(of_server(order[s as int]) == list);
                assert(seen =~= own + order.take(s + 1).flat_map(of_server));
                assert(order.take(s + 1) =~= order.take(s as int).push(id@));
                order.take(s as int).lemma_filter_push(id@, known);
            }
            if let Some(server) = self.servers.get(id.as_str()) {
                let ghost listed_before = servers.deep_view();
                servers.push(server.clone());
                proof {
                    assert(servers.deep_view() =~= listed_before.push(server@));
                    listed_before.lemma_filter_push(server@, uninitialized);
                    assert(order.take(s as int).filter(known).push(id@).map_values(status)
                        =~= order.take(s as int).filter(known).map_values(status).push(server@));
                }
                if !server.initialized {
                    unknown_server_count += 1;
                }
            }
            s += 1;
        }
        assert(order.take(s as int) =~= order);
        let mut alerting_state = overall_state(&active);
        if alerting_state == OverallState::Okay && unknown_server_count > 0 {
            alerting_state = OverallState::Unknown;
        }
        let snoozed_state = if snoozed.len() > 0 {
            let incidents = hidden_incidents(&snoozed);
            proof {
                assert(incidents.deep_view() =~= seen.filter(hidden)) by {
                    assert forall|i: int| 0 <= i < incidents.deep_view().len() implies incidents.deep_view()[i] == seen.filter(hidden)[i] by {
                        assert(snoozed.deep_view()[i] == paired(seen.filter(hidden)[i]));
                    }
                }
            }
            Some(overall_state(&incidents))
        } else {
            None
        };
        proof {
            assert(seen =~= all_incidents(model));
        }
        UiSnapshot { servers, active, snoozed, alerting_state, snoozed_state, unknown_server_count }
    }
}

proof fn lemma_classified(
    seen: Seq<IncidentModel>,
    item: IncidentModel,
    shown: spec_fn(IncidentModel) -> bool,
    hidden: spec_fn(IncidentModel) -> bool,
    paired: spec_fn(IncidentModel) -> SnoozedModel,
)
    ensures
        seen.push(item).filter(shown) == (if shown(item) {
            seen.filter(shown).push(item)
        } else {
            seen.filter(shown)
        }),
        seen.push(item).filter(hidden).map_values(paired) == (if hidden(item) {
            seen.filter(hidden).map_values(paired).push(paired(item))
        } else {
            seen.filter(hidden).map_values(paired)
        }),
{
    seen.lemma_filter_push(item, shown);
    seen.lemma_filter_push(item, hidden);
    assert(seen.filter(hidden).push(item).map_values(paired) =~= seen.filter(hidden).map_values(paired).push(paired(item)));
}

/// The incidents of a list of snoozes.
fn hidden_incidents(snoozed: &Vec<SnoozedIncident>) -> (incidents: Vec<Incident>)
    ensures
        incidents.deep_view() == snoozed.deep_view().map_values(|item: SnoozedModel| item.incident),
{
    let mut incidents: Vec<Incident> = Vec::new();
    let mut i: usize = 0;
    while i < snoozed.len()
        invariant
            i <= snoozed.len(),
            incidents.len() == i,
            forall|j: int| 0 <= j < i ==> (#[trigger] incidents@[j])@ == snoozed@[j].incident@,
        decreases snoozed.len() - i,
    {
        incidents.push(snoozed[i].incident.clone());
        i += 1;
    }
    assert(incidents.deep_view() =~= snoozed.deep_view().map_values(|item: SnoozedModel| item.incident));
    incidents
}

} // verus!
