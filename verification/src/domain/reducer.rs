//! The state machine that every event goes through.

use vstd::prelude::*;
use vstd::string::*;

use super::effect::{no_transition, Effect, EffectModel, SnoozeAction, SnoozeActionModel, Transition,
    TransitionModel};
use super::event::{Event, EventModel};
use super::model::{is_hidden, AppState, Incident, IncidentModel, IncidentState, NotificationModel,
    ServerModel, StateModel};
use crate::table::{in_order, Table};
use crate::text::{joined, same_text, Text};
use crate::timestamp::{format_rfc3339, in_calendar, rfc3339_text, Timestamp};

verus! {

/// The key of the incident that a failing connection raises.
pub open spec fn connection_key(id: Text) -> Text {
    "internal.connection."@ + id
}

/// The key of the incident that a failing tunnel raises.
pub open spec fn tunnel_key(id: Text) -> Text {
    "internal.tunnel."@ + id
}

/// The incident of a server under its full key.
pub open spec fn with_prefix(item: IncidentModel, id: Text) -> IncidentModel {
    IncidentModel { key: id + "."@ + item.key, ..item }
}

/// The incidents of a server under their full keys.
pub open spec fn with_prefixes(items: Seq<IncidentModel>, id: Text) -> Seq<IncidentModel> {
    items.map_values(|item: IncidentModel| with_prefix(item, id))
}

/// The word for a severity.
pub open spec fn state_word(state: IncidentState) -> Text {
    match state {
        IncidentState::Okay => "ok"@,
        IncidentState::Warning => "warning"@,
        IncidentState::Error => "error"@,
    }
}

/// The notification that an incident began.
pub open spec fn began(item: IncidentModel) -> EffectModel {
    EffectModel::Notify { title: state_word(item.state) + ": "@ + item.key, body: item.details }
}

/// The notification that the incident with a key is over.
pub open spec fn ended(key: Text) -> EffectModel {
    EffectModel::Notify { title: "OK: "@ + key, body: Seq::empty() }
}

/// The incidents that no snooze hides at an instant.
pub open spec fn audible(
    items: Seq<IncidentModel>,
    snoozed: Map<Text, Timestamp>,
    at: Timestamp,
) -> Seq<IncidentModel> {
    items.filter(|item: IncidentModel| !is_hidden(snoozed, item.key, at))
}

/// The notification that an incident is over, unless there was none or a snooze hides it.
pub open spec fn resolution(present: bool, hidden: bool, key: Text) -> Seq<EffectModel> {
    if present && !hidden {
        seq![ended(key)]
    } else {
        Seq::empty()
    }
}

/// A server that is connected from `at` on. A heartbeat that an earlier connection brought says
/// nothing about a new one.
pub open spec fn online(server: ServerModel, at: Timestamp) -> ServerModel {
    let fresh = !server.initialized || !server.connected;
    ServerModel {
        connected: true,
        initialized: true,
        connection_changed_at: if fresh {
            Some(at)
        } else {
            server.connection_changed_at
        },
        last_heartbeat_at: if fresh {
            None
        } else {
            server.last_heartbeat_at
        },
        ..server
    }
}

/// A server that is not connected from `at` on.
pub open spec fn offline(server: ServerModel, at: Timestamp) -> ServerModel {
    ServerModel {
        connected: false,
        initialized: true,
        connection_changed_at: if !server.initialized || server.connected {
            Some(at)
        } else {
            server.connection_changed_at
        },
        ..server
    }
}

/// Incidents that are kept though their server is gone.
pub open spec fn gone_stale(items: Seq<IncidentModel>) -> Seq<IncidentModel> {
    items.map_values(|item: IncidentModel| IncidentModel { stale: true, ..item })
}

/// Whether some incident is not stale.
pub open spec fn any_fresh(items: Seq<IncidentModel>) -> bool {
    exists|i: int| 0 <= i < items.len() && !(#[trigger] items[i]).stale
}

/// The lists of incidents after a server is gone: only its own list changes.
pub open spec fn stale_lists(
    incidents: Map<Text, Seq<IncidentModel>>,
    id: Text,
) -> Map<Text, Seq<IncidentModel>> {
    if incidents.contains_key(id) {
        incidents.insert(id, gone_stale(incidents[id]))
    } else {
        incidents
    }
}

/// An incident of the client itself.
pub open spec fn own_incident(key: Text, details: Text, at: Timestamp) -> IncidentModel {
    IncidentModel {
        key,
        state: IncidentState::Error,
        details,
        incident_started_at: rfc3339_text(at),
        stale: false,
    }
}

/// The client's own incidents after a failure: one is created, or has its details replaced.
pub open spec fn raised(
    internal: Map<Text, IncidentModel>,
    key: Text,
    details: Text,
    at: Timestamp,
) -> Map<Text, IncidentModel> {
    if internal.contains_key(key) {
        internal.insert(key, IncidentModel { details, ..internal[key] })
    } else {
        internal.insert(key, own_incident(key, details, at))
    }
}

/// Whether a failure changes the client's own incidents.
pub open spec fn raise_matters(internal: Map<Text, IncidentModel>, key: Text, details: Text) -> bool {
    !internal.contains_key(key) || internal[key].details != details
}

/// A failure is announced when its incident is created, and not when it is repeated.
pub open spec fn raise_effects(
    internal: Map<Text, IncidentModel>,
    key: Text,
    details: Text,
    hidden: bool,
) -> Seq<EffectModel> {
    if !internal.contains_key(key) && !hidden {
        seq![EffectModel::Notify { title: "error: "@ + key, body: details }]
    } else {
        Seq::empty()
    }
}

/// The snoozes that are not over at an instant.
pub open spec fn unexpired(snoozed: Map<Text, Timestamp>, at: Timestamp) -> Map<Text, Timestamp> {
    Map::new(|key: Text| is_hidden(snoozed, key, at), |key: Text| snoozed[key])
}

/// The keys of the snoozes that are over at an instant, in order.
pub open spec fn expired(snoozed: Map<Text, Timestamp>, at: Timestamp) -> Seq<Text> {
    in_order(snoozed.dom()).filter(|key: Text| snoozed[key] <= at)
}

/// The proposal to write snoozes.
pub open spec fn proposal(
    snoozes: Map<Text, Timestamp>,
    action: SnoozeActionModel,
) -> TransitionModel {
    TransitionModel {
        changed: false,
        effects: seq![EffectModel::PersistSnoozes { snoozes, action }],
    }
}

/// Whether an incident stays when the stale incident with a key is forgotten.
pub open spec fn survives(item: IncidentModel, key: Text) -> bool {
    item.key != key || !item.stale
}

/// A list of incidents without the stale one that has a key.
pub open spec fn forgotten(items: Seq<IncidentModel>, key: Text) -> Seq<IncidentModel> {
    items.filter(|item: IncidentModel| survives(item, key))
}

/// The lists of incidents without the stale one that has a key.
pub open spec fn forgotten_lists(
    incidents: Map<Text, Seq<IncidentModel>>,
    key: Text,
) -> Map<Text, Seq<IncidentModel>> {
    incidents.map_values(|items: Seq<IncidentModel>| forgotten(items, key))
}

/// Whether some list loses an incident when the stale one that has a key is forgotten.
pub open spec fn forgets_some(incidents: Map<Text, Seq<IncidentModel>>, key: Text) -> bool {
    exists|id: Text|
        #[trigger] incidents.contains_key(id) && forgotten(incidents[id], key).len()
            != incidents[id].len()
}

/// The state and the outcome when a server connects.
pub open spec fn after_connected(state: StateModel, id: Text, at: Timestamp) -> (
    StateModel,
    TransitionModel,
) {
    let key = connection_key(id);
    let server = state.servers[id];
    let present = state.internal_incidents.contains_key(key);
    (
        StateModel {
            servers: state.servers.insert(id, online(server, at)),
            internal_incidents: state.internal_incidents.remove(key),
            ..state
        },
        TransitionModel {
            changed: !server.initialized || !server.connected || present,
            effects: resolution(present, is_hidden(state.snoozed, key, at), key),
        },
    )
}

/// The state and the outcome when a server disconnects. Without an error the cause is known
/// already, and no connection incident stays beside it.
pub open spec fn after_disconnected(
    state: StateModel,
    id: Text,
    at: Timestamp,
    error: Text,
) -> (StateModel, TransitionModel) {
    let key = connection_key(id);
    let server = state.servers[id];
    let internal = state.internal_incidents;
    let silent = error.len() == 0;
    (
        StateModel {
            servers: state.servers.insert(id, offline(server, at)),
            incidents: stale_lists(state.incidents, id),
            internal_incidents: if silent {
                internal.remove(key)
            } else {
                raised(internal, key, error, at)
            },
            ..state
        },
        TransitionModel {
            changed: {
                ||| !server.initialized
                ||| server.connected
                ||| state.incidents.contains_key(id) && any_fresh(state.incidents[id])
                ||| if silent {
                    internal.contains_key(key)
                } else {
                    raise_matters(internal, key, error)
                }
            },
            effects: if silent {
                Seq::empty()
            } else {
                raise_effects(internal, key, error, is_hidden(state.snoozed, key, at))
            },
        },
    )
}

/// The state and the outcome when a tunnel is ready.
pub open spec fn after_tunnel_ready(state: StateModel, id: Text, at: Timestamp) -> (
    StateModel,
    TransitionModel,
) {
    let key = tunnel_key(id);
    let present = state.internal_incidents.contains_key(key);
    (
        StateModel { internal_incidents: state.internal_incidents.remove(key), ..state },
        TransitionModel {
            changed: present,
            effects: resolution(present, is_hidden(state.snoozed, key, at), key),
        },
    )
}

/// The state and the outcome when a tunnel fails. The tunnel is the cause, so a connection
/// incident of the same server goes away.
pub open spec fn after_tunnel_failed(
    state: StateModel,
    id: Text,
    at: Timestamp,
    error: Text,
) -> (StateModel, TransitionModel) {
    let key = tunnel_key(id);
    let server = state.servers[id];
    let internal = state.internal_incidents.remove(connection_key(id));
    (
        StateModel {
            servers: state.servers.insert(id, offline(server, at)),
            incidents: stale_lists(state.incidents, id),
            internal_incidents: raised(internal, key, error, at),
            ..state
        },
        TransitionModel {
            changed: {
                ||| !server.initialized
                ||| server.connected
                ||| state.incidents.contains_key(id) && any_fresh(state.incidents[id])
                ||| state.internal_incidents.contains_key(connection_key(id))
                ||| raise_matters(internal, key, error)
            },
            effects: raise_effects(internal, key, error, is_hidden(state.snoozed, key, at)),
        },
    )
}

/// The state and the outcome when a heartbeat arrives.
pub open spec fn after_heartbeat(state: StateModel, id: Text, at: Timestamp) -> (
    StateModel,
    TransitionModel,
) {
    let server = state.servers[id];
    (
        StateModel {
            servers: state.servers.insert(
                id,
                ServerModel { last_heartbeat_at: Some(at), ..server },
            ),
            ..state
        },
        TransitionModel {
            changed: server.last_heartbeat_at != Some(at),
            effects: Seq::empty(),
        },
    )
}

/// The state and the outcome when a server sends its incidents. The full list replaces what was
/// known of this server; the additions and removals are announced.
pub open spec fn after_notification(
    state: StateModel,
    id: Text,
    data: NotificationModel,
    at: Timestamp,
) -> (StateModel, TransitionModel) {
    let added = audible(with_prefixes(data.added, id), state.snoozed, at);
    let removed = audible(with_prefixes(data.removed, id), state.snoozed, at);
    (
        StateModel {
            incidents: state.incidents.insert(id, with_prefixes(data.total, id)),
            ..state
        },
        TransitionModel {
            changed: true,
            effects: added.map_values(|item: IncidentModel| began(item)) + removed.map_values(
                |item: IncidentModel| ended(item.key),
            ),
        },
    )
}

/// The state and the outcome of an event.
pub open spec fn step(state: StateModel, event: EventModel) -> (StateModel, TransitionModel) {
    match event {
        EventModel::Connected { server_id, at } => if state.servers.contains_key(server_id) {
            after_connected(state, server_id, at)
        } else {
            (state, no_transition())
        },
        EventModel::Disconnected { server_id, at, error } => if state.servers.contains_key(
            server_id,
        ) {
            after_disconnected(state, server_id, at, error)
        } else {
            (state, no_transition())
        },
        EventModel::TunnelReady { server_id, at } => if state.servers.contains_key(server_id) {
            after_tunnel_ready(state, server_id, at)
        } else {
            (state, no_transition())
        },
        EventModel::TunnelFailed { server_id, at, error } => if state.servers.contains_key(
            server_id,
        ) {
            after_tunnel_failed(state, server_id, at, error)
        } else {
            (state, no_transition())
        },
        EventModel::Heartbeat { server_id, at } => if state.servers.contains_key(server_id) {
            after_heartbeat(state, server_id, at)
        } else {
            (state, no_transition())
        },
        EventModel::Notification { server_id, data, at } => if state.servers.contains_key(
            server_id,
        ) {
            after_notification(state, server_id, data, at)
        } else {
            (state, no_transition())
        },
        EventModel::Snooze { key, until } => (
            state,
            if state.snoozed.contains_key(key) && state.snoozed[key] == until {
                no_transition()
            } else {
                proposal(
                    state.snoozed.insert(key, until),
                    SnoozeActionModel::SetDeadline { key, until },
                )
            },
        ),
        EventModel::Unsnooze { key } => (
            state,
            if state.snoozed.contains_key(key) {
                proposal(state.snoozed.remove(key), SnoozeActionModel::Remove { key })
            } else {
                no_transition()
            },
        ),
        EventModel::SnoozesPersisted { snoozes } => (
            StateModel { snoozed: snoozes, ..state },
            TransitionModel { changed: state.snoozed != snoozes, effects: Seq::empty() },
        ),
        EventModel::ForgetStale { key } => (
            StateModel { incidents: forgotten_lists(state.incidents, key), ..state },
            TransitionModel {
                changed: forgets_some(state.incidents, key),
                effects: Seq::empty(),
            },
        ),
        EventModel::Tick { at } => (
            state,
            if expired(state.snoozed, at).len() == 0 {
                no_transition()
            } else {
                proposal(
                    unexpired(state.snoozed, at),
                    SnoozeActionModel::Expire { keys: expired(state.snoozed, at) },
                )
            },
        ),
    }
}

/// Whether the instant of an event has an RFC 3339 text where a new incident is dated with it.
pub open spec fn is_datable(state: StateModel, event: EventModel) -> bool {
    match event {
        EventModel::Disconnected { server_id, at, error } => {
            state.servers.contains_key(server_id) && error.len() > 0
                && !state.internal_incidents.contains_key(connection_key(server_id))
                ==> in_calendar(at)
        },
        EventModel::TunnelFailed { server_id, at, error } => {
            state.servers.contains_key(server_id)
                && !state.internal_incidents.contains_key(tunnel_key(server_id)) ==> in_calendar(at)
        },
        _ => true,
    }
}

/// Serial state machine for network events and user actions.
///
/// A snooze is written before it takes effect: a request only proposes what to write, and the
/// event that tells of the completed write commits it.
pub struct Reducer {
    state: AppState,
}

impl View for Reducer {
    type V = StateModel;

    closed spec fn view(&self) -> StateModel {
        self.state@
    }
}

impl Reducer {
    pub fn new(state: AppState) -> (reducer: Self)
        ensures
            reducer@ == state@,
    {
        Reducer { state }
    }

    pub fn state(&self) -> (state: &AppState)
        ensures
            state@ == self@,
    {
        &self.state
    }

    /// Applies one event and tells what is to be published and done.
    ///
    /// Events of servers that are not configured are ignored.
    pub fn reduce(&mut self, event: Event) -> (transition: Transition)
        requires
            is_datable(old(self)@, event@),
        ensures
            final(self)@ == step(old(self)@, event@).0,
            transition@ == step(old(self)@, event@).1,
    {
        match event {
            Event::Connected { server_id, at } => self.connected(server_id.as_str(), at),
            Event::Disconnected { server_id, at, error } => self.disconnected(
                server_id.as_str(),
                at,
                error,
            ),
            Event::TunnelReady { server_id, at } => self.tunnel_ready(server_id.as_str(), at),
            Event::TunnelFailed { server_id, at, error } => self.tunnel_failed(
                server_id.as_str(),
                at,
                error,
            ),
            Event::Heartbeat { server_id, at } => self.heartbeat(server_id.as_str(), at),
            Event::Notification { server_id, data, at } => {
                if !self.state.servers.contains_key(server_id.as_str()) {
                    return Transition::default();
                }
                let ghost id = server_id@;
                let mut effects: Vec<Effect> = Vec::new();
                assert(effects.deep_view() =~= Seq::<EffectModel>::empty());
                self.announce_added(&data.added, server_id.as_str(), at, &mut effects);
                self.announce_removed(&data.removed, server_id.as_str(), at, &mut effects);
                let total = prefixed_all(&data.total, server_id.as_str());
                self.state.incidents.insert(server_id, total);
                proof {
                    let goal = step(old(self)@, event@);
                    assert(self@.incidents =~= goal.0.incidents);
                    assert(effects.deep_view() =~= goal.1.effects);
                }
                Transition { changed: true, effects }
            },
            Event::Snooze { key, until } => {
                if let Some(deadline) = self.state.snoozed.get(key.as_str()) {
                    if *deadline == until {
                        return Transition::default();
                    }
                }
                let mut snoozes = self.state.snoozed.duplicate();
                snoozes.insert(key.clone(), until);
                propose(snoozes, SnoozeAction::SetDeadline { key, until })
            },
            Event::Unsnooze { key } => {
                if !self.state.snoozed.contains_key(key.as_str()) {
                    return Transition::default();
                }
                let mut snoozes = self.state.snoozed.duplicate();
                let _ = snoozes.remove(key.as_str());
                propose(snoozes, SnoozeAction::Remove { key })
            },
            Event::SnoozesPersisted { snoozes } => {
                let changed = !self.state.snoozed.same(&snoozes);
                if changed {
                    self.state.snoozed = snoozes;
                }
                let effects: Vec<Effect> = Vec::new();
                assert(effects.deep_view() =~= Seq::<EffectModel>::empty());
                Transition { changed, effects }
            },
            Event::ForgetStale { key } => {
                let changed = self.forget(key.as_str());
                let effects: Vec<Effect> = Vec::new();
                assert(effects.deep_view() =~= Seq::<EffectModel>::empty());
                Transition { changed, effects }
            },
            Event::Tick { at } => self.tick(at),
        }
    }

    /// Tests the deadline of a snooze; an entry that is over may still be stored.
    fn is_snoozed(&self, key: &str, now: Timestamp) -> (snoozed: bool)
        ensures
            snoozed == is_hidden(self@.snoozed, key@, now),
    {
        match self.state.snoozed.get(key) {
            Some(until) => *until > now,
            None => false,
        }
    }

    /// Adds a notification for each incident that began and is not snoozed.
    fn announce_added(&self, items: &Vec<Incident>, id: &str, at: Timestamp, effects: &mut Vec<Effect>)
        ensures
            final(effects).deep_view() == old(effects).deep_view() + audible(
                with_prefixes(items.deep_view(), id@),
                self@.snoozed,
                at,
            ).map_values(|item: IncidentModel| began(item)),
    {
        let ghost full = with_prefixes(items.deep_view(), id@);
        let ghost shown = |item: IncidentModel| !is_hidden(self@.snoozed, item.key, at);
        let ghost told = |item: IncidentModel| began(item);
        let ghost before = effects.deep_view();
        let mut i: usize = 0;
        assert(full.take(0) =~= Seq::<IncidentModel>::empty());
        assert(before + full.take(0).filter(shown).map_values(told) =~= before);
        while i < items.len()
            invariant
                full == with_prefixes(items.deep_view(), id@),
                shown == (|item: IncidentModel| !is_hidden(self@.snoozed, item.key, at)),
                told == (|item: IncidentModel| began(item)),
                i <= items.len(),
                effects.deep_view() == before + full.take(i as int).filter(shown).map_values(told),
            decreases items.len() - i,
        {
            let item = prefixed(&items[i], id);
            proof {
                assert(full[i as int] == item@);
                lemma_announced(full, i as int, shown, told);
            }
            if !self.is_snoozed(item.key.as_str(), at) {
                let title = joined(state_name(item.state), ": ").concat(item.key.as_str());
                let ghost last = effects.deep_view();
                effects.push(Effect::Notify { title, body: item.details });
                assert(effects.deep_view() =~= last.push(began(full[i as int])));
            }
            assert(effects.deep_view() =~= before + full.take(i + 1).filter(shown).map_values(told));
            i += 1;
        }
        assert(full.take(i as int) =~= full);
    }

    /// Adds a notification for each incident that is over and was not snoozed.
    fn announce_removed(&self, items: &Vec<Incident>, id: &str, at: Timestamp, effects: &mut Vec<Effect>)
        ensures
            final(effects).deep_view() == old(effects).deep_view() + audible(
                with_prefixes(items.deep_view(), id@),
                self@.snoozed,
                at,
            ).map_values(|item: IncidentModel| ended(item.key)),
    {
        let ghost full = with_prefixes(items.deep_view(), id@);
        let ghost shown = |item: IncidentModel| !is_hidden(self@.snoozed, item.key, at);
        let ghost told = |item: IncidentModel| ended(item.key);
        let ghost before = effects.deep_view();
        let mut i: usize = 0;
        assert(full.take(0) =~= Seq::<IncidentModel>::empty());
        assert(before + full.take(0).filter(shown).map_values(told) =~= before);
        while i < items.len()
            invariant
                full == with_prefixes(items.deep_view(), id@),
                shown == (|item: IncidentModel| !is_hidden(self@.snoozed, item.key, at)),
                told == (|item: IncidentModel| ended(item.key)),
                i <= items.len(),
                effects.deep_view() == before + full.take(i as int).filter(shown).map_values(told),
            decreases items.len() - i,
        {
            let item = prefixed(&items[i], id);
            proof {
                assert(full[i as int] == item@);
                lemma_announced(full, i as int, shown, told);
            }
            if !self.is_snoozed(item.key.as_str(), at) {
                let ghost last = effects.deep_view();
                let effect = ended_effect(item.key.as_str());
                effects.push(effect);
                assert(effects.deep_view() =~= last.push(ended(full[i as int].key)));
            }
            assert(effects.deep_view() =~= before + full.take(i + 1).filter(shown).map_values(told));
            i += 1;
        }
        assert(full.take(i as int) =~= full);
    }

    /// Starts a new connection and resolves its incident.
    fn connected(&mut self, id: &str, at: Timestamp) -> (transition: Transition)
        ensures
            final(self)@ == step(old(self)@, EventModel::Connected { server_id: id@, at }).0,
            transition@ == step(old(self)@, EventModel::Connected { server_id: id@, at }).1,
    {
        let incident_key = joined("internal.connection.", id);
        let hidden = self.is_snoozed(incident_key.as_str(), at);
        let mut server = match self.state.servers.get(id) {
            Some(server) => server.clone(),
            None => {
                return Transition::default();
            },
        };
        let changed = !server.initialized || !server.connected;
        server.initialized = true;
        server.connected = true;
        if changed {
            server.connection_changed_at = Some(at);
            server.last_heartbeat_at = None;
        }
        self.state.servers.insert(id.to_owned(), server);
        let removed = self.state.internal_incidents.remove(incident_key.as_str());
        let effects = resolution_effects(removed, hidden, incident_key.as_str());
        Transition { changed: changed || removed, effects }
    }

    /// Keeps the incidents of a server that is gone, as stale, and raises the failure of its
    /// connection. A failure that repeats replaces the details and is not announced again.
    fn disconnected(&mut self, id: &str, at: Timestamp, error: String) -> (transition: Transition)
        requires
            is_datable(old(self)@, EventModel::Disconnected { server_id: id@, at, error: error@ }),
        ensures
            final(self)@ == step(
                old(self)@,
                EventModel::Disconnected { server_id: id@, at, error: error@ },
            ).0,
            transition@ == step(
                old(self)@,
                EventModel::Disconnected { server_id: id@, at, error: error@ },
            ).1,
    {
        let key = joined("internal.connection.", id);
        let hidden = self.is_snoozed(key.as_str(), at);
        if !self.state.servers.contains_key(id) {
            return Transition::default();
        }
        let status_changed = self.take_offline(id, at);
        let stale_changed = self.mark_stale(id);
        let ghost cause = error@;
        if error.as_str().is_empty() {
            let removed = self.state.internal_incidents.remove(key.as_str());
            let effects: Vec<Effect> = Vec::new();
            assert(effects.deep_view() =~= Seq::<EffectModel>::empty());
            Transition { changed: status_changed || stale_changed || removed, effects }
        } else {
            let (internal_changed, effects) = self.raise(key, error, at, hidden);
            Transition { changed: status_changed || stale_changed || internal_changed, effects }
        }
    }

    /// Resolves the incident of a tunnel.
    fn tunnel_ready(&mut self, id: &str, at: Timestamp) -> (transition: Transition)
        ensures
            final(self)@ == step(old(self)@, EventModel::TunnelReady { server_id: id@, at }).0,
            transition@ == step(old(self)@, EventModel::TunnelReady { server_id: id@, at }).1,
    {
        if !self.state.servers.contains_key(id) {
            return Transition::default();
        }
        let key = joined("internal.tunnel.", id);
        let hidden = self.is_snoozed(key.as_str(), at);
        let removed = self.state.internal_incidents.remove(key.as_str());
        let effects = resolution_effects(removed, hidden, key.as_str());
        Transition { changed: removed, effects }
    }

    /// Makes the failure of the tunnel the only incident of the client for a server.
    fn tunnel_failed(&mut self, id: &str, at: Timestamp, error: String) -> (transition: Transition)
        requires
            is_datable(old(self)@, EventModel::TunnelFailed { server_id: id@, at, error: error@ }),
        ensures
            final(self)@ == step(
                old(self)@,
                EventModel::TunnelFailed { server_id: id@, at, error: error@ },
            ).0,
            transition@ == step(
                old(self)@,
                EventModel::TunnelFailed { server_id: id@, at, error: error@ },
            ).1,
    {
        let key = joined("internal.tunnel.", id);
        let hidden = self.is_snoozed(key.as_str(), at);
        if !self.state.servers.contains_key(id) {
            return Transition::default();
        }
        let status_changed = self.take_offline(id, at);
        let stale_changed = self.mark_stale(id);
        let derived = joined("internal.connection.", id);
        let connection_removed = self.state.internal_incidents.remove(derived.as_str());
        proof {
            keys_of_failures_differ(id@);
        }
        let (internal_changed, effects) = self.raise(key, error, at, hidden);
        Transition {
            changed: status_changed || stale_changed || connection_removed || internal_changed,
            effects,
        }
    }

    fn heartbeat(&mut self, id: &str, at: Timestamp) -> (transition: Transition)
        ensures
            final(self)@ == step(old(self)@, EventModel::Heartbeat { server_id: id@, at }).0,
            transition@ == step(old(self)@, EventModel::Heartbeat { server_id: id@, at }).1,
    {
        let mut server = match self.state.servers.get(id) {
            Some(server) => server.clone(),
            None => {
                return Transition::default();
            },
        };
        let changed = match server.last_heartbeat_at {
            Some(last) => last != at,
            None => true,
        };
        server.last_heartbeat_at = Some(at);
        self.state.servers.insert(id.to_owned(), server);
        let effects: Vec<Effect> = Vec::new();
        assert(effects.deep_view() =~= Seq::<EffectModel>::empty());
        Transition { changed, effects }
    }

    /// Records that a server is not connected. Tells whether that is news.
    fn take_offline(&mut self, id: &str, at: Timestamp) -> (changed: bool)
        requires
            old(self)@.servers.contains_key(id@),
        ensures
            changed == (!old(self)@.servers[id@].initialized || old(self)@.servers[id@].connected),
            final(self)@ == (StateModel {
                servers: old(self)@.servers.insert(id@, offline(old(self)@.servers[id@], at)),
                ..old(self)@
            }),
    {
        let mut server = match self.state.servers.get(id) {
            Some(server) => server.clone(),
            None => {
                return false;
            },
        };
        let changed = !server.initialized || server.connected;
        server.initialized = true;
        server.connected = false;
        if changed {
            server.connection_changed_at = Some(at);
        }
        self.state.servers.insert(id.to_owned(), server);
        changed
    }

    /// Marks the incidents of a server stale. Tells whether any was not.
    fn mark_stale(&mut self, id: &str) -> (changed: bool)
        ensures
            changed == (old(self)@.incidents.contains_key(id@) && any_fresh(
                old(self)@.incidents[id@],
            )),
            final(self)@ == (StateModel {
                incidents: stale_lists(old(self)@.incidents, id@),
                ..old(self)@
            }),
    {
        let mut marked: Vec<Incident> = Vec::new();
        let mut changed = false;
        match self.state.incidents.get(id) {
            Some(items) => {
                let ghost models = items.deep_view();
                let mut i: usize = 0;
                while i < items.len()
                    invariant
                        models == items.deep_view(),
                        i <= items.len(),
                        marked.deep_view() == gone_stale(models.take(i as int)),
                        changed == exists|j: int| 0 <= j < i && !(#[trigger] models[j]).stale,
                    decreases items.len() - i,
                {
                    let mut item = items[i].clone();
                    assert(models[i as int] == item@);
                    if !item.stale {
                        item.stale = true;
                        changed = true;
                    }
                    let ghost last = marked.deep_view();
                    marked.push(item);
                    proof {
                        assert(marked.deep_view() =~= last.push(item@));
                        assert(marked.deep_view() =~= gone_stale(models.take(i + 1)));
                    }
                    i += 1;
                }
                assert(models.take(i as int) =~= models);
            },
            None => {
                return false;
            },
        }
        self.state.incidents.insert(id.to_owned(), marked);
        changed
    }

    /// Creates an incident of the client, or replaces its details.
    fn raise(&mut self, key: String, details: String, at: Timestamp, hidden: bool) -> (outcome: (
        bool,
        Vec<Effect>,
    ))
        requires
            !old(self)@.internal_incidents.contains_key(key@) ==> in_calendar(at),
        ensures
            outcome.0 == raise_matters(old(self)@.internal_incidents, key@, details@),
            outcome.1.deep_view() == raise_effects(
                old(self)@.internal_incidents,
                key@,
                details@,
                hidden,
            ),
            final(self)@ == (StateModel {
                internal_incidents: raised(old(self)@.internal_incidents, key@, details@, at),
                ..old(self)@
            }),
    {
        let mut effects: Vec<Effect> = Vec::new();
        assert(effects.deep_view() =~= Seq::<EffectModel>::empty());
        let known = match self.state.internal_incidents.get(key.as_str()) {
            Some(incident) => Some(incident.clone()),
            None => None,
        };
        match known {
            Some(mut incident) => {
                if incident.details == details {
                    proof {
                        let internal = self@.internal_incidents;
                        assert(raised(internal, key@, details@, at) =~= internal);
                    }
                    (false, effects)
                } else {
                    incident.details = details;
                    self.state.internal_incidents.insert(key, incident);
                    (true, effects)
                }
            },
            None => {
                if !hidden {
                    effects.push(
                        Effect::Notify {
                            title: joined("error: ", key.as_str()),
                            body: details.clone(),
                        },
                    );
                    assert(effects.deep_view() =~= raise_effects(self@.internal_incidents, key@, details@, hidden));
                }
                let incident_started_at = match format_rfc3339(at) {
                    Ok(text) => text,
                    Err(_) => String::new(),
                };
                let incident = Incident {
                    key: key.clone(),
                    state: IncidentState::Error,
                    details,
                    incident_started_at,
                    stale: false,
                };
                self.state.internal_incidents.insert(key, incident);
                (true, effects)
            },
        }
    }

    /// Drops the stale incident that has a key. Tells whether there was one.
    fn forget(&mut self, key: &str) -> (changed: bool)
        ensures
            changed == forgets_some(old(self)@.incidents, key@),
            final(self)@ == (StateModel {
                incidents: forgotten_lists(old(self)@.incidents, key@),
                ..old(self)@
            }),
    {
        let ghost before = self@.incidents;
        let mut kept: Table<Vec<Incident>> = Table::new();
        let mut changed = false;
        let count: usize = self.state.incidents.len();
        let ghost ids = self.state.incidents.keys();
        let mut i: usize = 0;
        assert(ids.take(0) =~= Seq::<Text>::empty());
        while i < count
            invariant
                before == self@.incidents,
                self@ == old(self)@,
                ids == self.state.incidents.keys(),
                count == ids.len(),
                i <= count,
                forall|j: int| 0 <= j < count ==> before.contains_key(#[trigger] ids[j]),
                kept@ == Map::new(
                    |id: Text| ids.take(i as int).contains(id),
                    |id: Text| forgotten(before[id], key@),
                ),
                changed == exists|j: int|
                    0 <= j < i && forgotten(before[#[trigger] ids[j]], key@).len() != before[ids[j]].len(),
            decreases count - i,
        {
            let items = self.state.incidents.value_at(i);
            let id = self.state.incidents.key_at(i);
            let rest = without_stale(items, key);
            proof {
                let seen = ids.take(i as int);
                let next = ids.take(i + 1);
                assert(next =~= seen.push(id@));
                assert forall|other: Text| next.contains(other) <==> seen.contains(other) || other == id@ by {
                    if seen.contains(other) {
                        let n = choose|n: int| 0 <= n < seen.len() && seen[n] == other;
                        assert(next[n] == other);
                    }
                    assert(next[i as int] == id@);
                }
                assert(kept@.insert(id@, rest.deep_view()) =~= Map::new(
                    |other: Text| next.contains(other),
                    |other: Text| forgotten(before[other], key@),
                ));
            }
            assert(rest.deep_view().len() == rest.len());
            assert(items.deep_view().len() == items.len());
            if rest.len() != items.len() {
                changed = true;
                assert(forgotten(before[ids[i as int]], key@).len() != before[ids[i as int]].len());
            }
            kept.insert(id.to_owned(), rest);
            i += 1;
        }
        proof {
            assert(ids.take(i as int) =~= ids);
            self.state.incidents.lemma_members();
            assert(kept@ =~= forgotten_lists(before, key@)) by {
                assert forall|id: Text| ids.contains(id) <==> before.contains_key(id) by {}
            }
            if forgets_some(before, key@) {
                let id = choose|id: Text| #[trigger] before.contains_key(id) && forgotten(before[id], key@).len() != before[id].len();
                assert(ids.contains(id));
                let j = choose|j: int| 0 <= j < ids.len() && ids[j] == id;
                assert(forgotten(before[ids[j]], key@).len() != before[ids[j]].len());
            }
        }
        self.state.incidents = kept;
        changed
    }

    /// Proposes to drop the snoozes that are over.
    fn tick(&self, at: Timestamp) -> (transition: Transition)
        ensures
            transition@ == step(self@, EventModel::Tick { at }).1,
    {
        let ghost snoozed = self@.snoozed;
        let ghost over = |key: Text| snoozed[key] <= at;
        let mut expired_keys: Vec<String> = Vec::new();
        let mut kept: Table<Timestamp> = Table::new();
        let count: usize = self.state.snoozed.len();
        let ghost keys = self.state.snoozed.keys();
        let mut i: usize = 0;
        assert(keys.take(0) =~= Seq::<Text>::empty());
        assert(expired_keys.deep_view() =~= keys.take(0).filter(over));
        while i < count
            invariant
                snoozed == self@.snoozed,
                over == (|key: Text| snoozed[key] <= at),
                keys == self.state.snoozed.keys(),
                count == keys.len(),
                keys == in_order(snoozed.dom()),
                i <= count,
                forall|j: int| 0 <= j < count ==> snoozed.contains_key(#[trigger] keys[j]),
                expired_keys.deep_view() == keys.take(i as int).filter(over),
                kept@ == Map::new(
                    |key: Text| keys.take(i as int).contains(key) && snoozed[key] > at,
                    |key: Text| snoozed[key],
                ),
            decreases count - i,
        {
            let key = self.state.snoozed.key_at(i);
            let until: Timestamp = *self.state.snoozed.value_at(i);
            let ghost seen = keys.take(i as int);
            let ghost next = keys.take(i + 1);
            proof {
                assert(next =~= seen.push(key@));
                seen.lemma_filter_push(key@, over);
                assert forall|other: Text| next.contains(other) <==> seen.contains(other) || other == key@ by {
                    if seen.contains(other) {
                        let n = choose|n: int| 0 <= n < seen.len() && seen[n] == other;
                        assert(next[n] == other);
                    }
                    assert(next[i as int] == key@);
                }
            }
            if until <= at {
                let ghost last = expired_keys.deep_view();
                expired_keys.push(key.to_owned());
                assert(expired_keys.deep_view() =~= last.push(key@));
                assert(kept@ =~= Map::new(
                    |other: Text| next.contains(other) && snoozed[other] > at,
                    |other: Text| snoozed[other],
                ));
            } else {
                assert(kept@.insert(key@, until) =~= Map::new(
                    |other: Text| next.contains(other) && snoozed[other] > at,
                    |other: Text| snoozed[other],
                ));
                kept.insert(key.to_owned(), until);
            }
            i += 1;
        }
        proof {
            assert(keys.take(i as int) =~= keys);
            self.state.snoozed.lemma_members();
            assert forall|key: Text| keys.contains(key) <==> snoozed.contains_key(key) by {}
            assert(kept@ =~= unexpired(snoozed, at));
            assert(expired_keys.deep_view().len() == expired_keys.len());
        }
        if expired_keys.len() == 0 {
            return Transition::default();
        }
        propose(kept, SnoozeAction::Expire { keys: expired_keys })
    }
}

/// The keys of the two failures of one server are different.
pub proof fn keys_of_failures_differ(id: Text)
    ensures
        connection_key(id) != tunnel_key(id),
{
    reveal_strlit("internal.connection.");
    reveal_strlit("internal.tunnel.");
    assert(connection_key(id)[9] == 'c');
    assert(tunnel_key(id)[9] == 't');
}

proof fn lemma_announced(
    full: Seq<IncidentModel>,
    i: int,
    shown: spec_fn(IncidentModel) -> bool,
    told: spec_fn(IncidentModel) -> EffectModel,
)
    requires
        0 <= i < full.len(),
    ensures
        full.take(i + 1).filter(shown).map_values(told) == (if shown(full[i]) {
            full.take(i).filter(shown).map_values(told).push(told(full[i]))
        } else {
            full.take(i).filter(shown).map_values(told)
        }),
{
    let seen = full.take(i);
    assert(full.take(i + 1) =~= seen.push(full[i]));
    seen.lemma_filter_push(full[i], shown);
    assert(seen.filter(shown).push(full[i]).map_values(told) =~= seen.filter(shown).map_values(told).push(told(full[i])));
}

/// The proposal to write snoozes.
fn propose(snoozes: Table<Timestamp>, action: SnoozeAction) -> (transition: Transition)
    ensures
        transition@ == proposal(snoozes@, action@),
{
    let ghost effect = EffectModel::PersistSnoozes { snoozes: snoozes@, action: action@ };
    let mut effects: Vec<Effect> = Vec::new();
    effects.push(Effect::PersistSnoozes { snoozes, action });
    assert(effects.deep_view() =~= seq![effect]);
    Transition { changed: false, effects }
}

fn ended_effect(key: &str) -> (effect: Effect)
    ensures
        effect@ == ended(key@),
{
    let body = String::new();
    assert(body@ =~= Seq::<char>::empty());
    Effect::Notify { title: joined("OK: ", key), body }
}

fn resolution_effects(present: bool, hidden: bool, key: &str) -> (effects: Vec<Effect>)
    ensures
        effects.deep_view() == resolution(present, hidden, key@),
{
    let mut effects: Vec<Effect> = Vec::new();
    if present && !hidden {
        effects.push(ended_effect(key));
    }
    assert(effects.deep_view() =~= resolution(present, hidden, key@));
    effects
}

/// The incidents of a list without the stale ones that have a key.
fn without_stale(items: &Vec<Incident>, key: &str) -> (rest: Vec<Incident>)
    ensures
        rest.deep_view() == forgotten(items.deep_view(), key@),
{
    let ghost models = items.deep_view();
    let ghost stays = |item: IncidentModel| survives(item, key@);
    let mut rest: Vec<Incident> = Vec::new();
    let mut i: usize = 0;
    assert(rest.deep_view() =~= models.take(0).filter(stays));
    while i < items.len()
        invariant
            models == items.deep_view(),
            stays == (|item: IncidentModel| survives(item, key@)),
            i <= items.len(),
            rest.deep_view() == models.take(i as int).filter(stays),
        decreases items.len() - i,
    {
        let item = &items[i];
        proof {
            assert(models[i as int] == item@);
            assert(models.take(i + 1) =~= models.take(i as int).push(item@));
            models.take(i as int).lemma_filter_push(item@, stays);
        }
        if !same_text(item.key.as_str(), key) || !item.stale {
            let ghost last = rest.deep_view();
            rest.push(item.clone());
            assert(rest.deep_view() =~= last.push(item@));
        }
        i += 1;
    }
    assert(models.take(i as int) =~= models);
    rest
}

/// The incident of a server under its full key.
fn prefixed(item: &Incident, id: &str) -> (full: Incident)
    ensures
        full@ == with_prefix(item@, id@),
{
    let key = joined(id, ".").concat(item.key.as_str());
    Incident {
        key,
        state: item.state,
        details: item.details.clone(),
        incident_started_at: item.incident_started_at.clone(),
        stale: item.stale,
    }
}

fn prefixed_all(items: &Vec<Incident>, id: &str) -> (full: Vec<Incident>)
    ensures
        full.deep_view() == with_prefixes(items.deep_view(), id@),
{
    let mut full: Vec<Incident> = Vec::new();
    let mut i: usize = 0;
    while i < items.len()
        invariant
            i <= items.len(),
            full.len() == i,
            forall|j: int| 0 <= j < i ==> (#[trigger] full@[j])@ == with_prefix(items@[j]@, id@),
        decreases items.len() - i,
    {
        full.push(prefixed(&items[i], id));
        i += 1;
    }
    assert(full.deep_view() =~= with_prefixes(items.deep_view(), id@));
    full
}

/// The word for a severity.
pub fn state_name(state: IncidentState) -> (name: &'static str)
    ensures
        name@ == state_word(state),
{
    match state {
        IncidentState::Okay => "ok",
        IncidentState::Warning => "warning",
        IncidentState::Error => "error",
    }
}

} // verus!
