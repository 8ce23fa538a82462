//! What comes of each event: the laws of the state machine, event by event.

use vstd::prelude::*;

use super::effect::{EffectModel, SnoozeActionModel};
use super::event::EventModel;
use super::laws::lemma_filter_members;
use super::model::{all_incidents, initial_state, is_hidden, overall, severity, snapshot_of,
    IncidentModel, IncidentState, NotificationModel, OverallState, ServerModel, SnoozedModel,
    StateModel};
use super::reducer::{expired, step};
use crate::table::{ascending, in_order, in_order_has_the_members};
use crate::text::Text;
use crate::timestamp::{rfc3339_text, Timestamp};

verus! {

/// Forgetting changes nothing but lists of incidents, tells nobody, and is worth a fresh snapshot
/// exactly where some list became shorter.
pub proof fn forgetting_tells_whether_it_dropped(state: StateModel, key: Text)
    ensures
        ({
            let (after, transition) = step(state, EventModel::ForgetStale { key });
            &&& after.server_order == state.server_order
            &&& after.servers == state.servers
            &&& after.internal_incidents == state.internal_incidents
            &&& after.snoozed == state.snoozed
            &&& after.incidents.dom() == state.incidents.dom()
            &&& transition.effects.len() == 0
            &&& transition.changed <==> exists|id: Text, i: int|
                state.incidents.dom().contains(id) && 0 <= i < state.incidents[id].len() && (
                #[trigger] state.incidents[id][i]).key == key && state.incidents[id][i].stale
        }),
{
    let (after, transition) = step(state, EventModel::ForgetStale { key });
    let keep = |item: IncidentModel| super::reducer::survives(item, key);
    assert(after.incidents.dom() =~= state.incidents.dom());
    assert forall|id: Text| state.incidents.dom().contains(id) implies (state.incidents[id].filter(
        keep,
    ).len() != state.incidents[id].len() <==> exists|i: int|
        0 <= i < state.incidents[id].len() && !keep(#[trigger] state.incidents[id][i])) by {
        lemma_shorter(state.incidents[id], keep);
    }
    if transition.changed {
        let id = choose|id: Text| #[trigger]
            state.incidents.contains_key(id) && super::reducer::forgotten(
                state.incidents[id],
                key,
            ).len() != state.incidents[id].len();
        assert(state.incidents[id].filter(keep).len() != state.incidents[id].len());
        let i = choose|i: int|
            0 <= i < state.incidents[id].len() && !keep(#[trigger] state.incidents[id][i]);
        assert(state.incidents[id][i].key == key);
    }
    if exists|id: Text, i: int|
        state.incidents.dom().contains(id) && 0 <= i < state.incidents[id].len() && (
        #[trigger] state.incidents[id][i]).key == key && state.incidents[id][i].stale {
        let (id, i) = choose|id: Text, i: int|
            state.incidents.dom().contains(id) && 0 <= i < state.incidents[id].len() && (
            #[trigger] state.incidents[id][i]).key == key && state.incidents[id][i].stale;
        assert(!keep(state.incidents[id][i]));
        assert(state.incidents.contains_key(id));
        assert(super::reducer::forgotten(state.incidents[id], key)
            == state.incidents[id].filter(keep));
    }
}

/// A filter shortens a sequence exactly where it drops something.
proof fn lemma_shorter<A>(items: Seq<A>, keep: spec_fn(A) -> bool)
    ensures
        items.filter(keep).len() <= items.len(),
        items.filter(keep).len() != items.len() <==> exists|i: int|
            0 <= i < items.len() && !keep(#[trigger] items[i]),
    decreases items.len(),
{
    reveal(Seq::filter);
    if items.len() > 0 {
        let front = items.drop_last();
        lemma_shorter(front, keep);
        if front.filter(keep).len() != front.len() {
            let i = choose|i: int| 0 <= i < front.len() && !keep(#[trigger] front[i]);
            assert(!keep(items[i]));
        }
        if exists|i: int| 0 <= i < items.len() && !keep(#[trigger] items[i]) {
            let i = choose|i: int| 0 <= i < items.len() && !keep(#[trigger] items[i]);
            if i < front.len() {
                assert(!keep(front[i]));
            }
        }
        assert(items[items.len() - 1] == items.last());
    }
}

/// Whether a deadline lies ahead, so that nobody is told of the incident.
pub open spec fn is_silenced(state: StateModel, key: Text, at: Timestamp) -> bool {
    state.snoozed.dom().contains(key) && at < state.snoozed[key]
}

/// Nothing is known yet of any configured server, there is no incident, and the stored snoozes
/// are in effect.
pub proof fn programs_start_without_knowledge(
    ids: Seq<Text>,
    snoozed: Map<Text, Timestamp>,
    id: Text,
)
    ensures
        ({
            let state = initial_state(ids, snoozed);
            &&& state.server_order == ids
            &&& state.servers.dom().contains(id) <==> ids.contains(id)
            &&& ids.contains(id) ==> state.servers[id].id == id && !state.servers[id].connected
                && !state.servers[id].initialized && state.servers[id].connection_changed_at is None
                && state.servers[id].last_heartbeat_at is None
            &&& forall|other: Text| !state.incidents.dom().contains(other)
            &&& forall|key: Text| !state.internal_incidents.dom().contains(key)
            &&& state.snoozed == snoozed
        }),
{
}

/// What is known of the servers differs only in one of them, and what else is known of that one
/// stays.
pub open spec fn only_server_changes(state: StateModel, after: StateModel, id: Text) -> bool {
    &&& after.server_order == state.server_order
    &&& after.snoozed == state.snoozed
    &&& after.servers.dom() == state.servers.dom()
    &&& forall|other: Text|
        other != id && state.servers.dom().contains(other) ==> #[trigger] after.servers[other]
            == state.servers[other]
    &&& after.servers[id].id == state.servers[id].id
}

/// The client's own incidents are the same but for the ones with these two keys.
pub open spec fn own_incidents_stay_but(
    state: StateModel,
    after: StateModel,
    one: Text,
    two: Text,
) -> bool {
    forall|key: Text|
        key != one && key != two ==> (after.internal_incidents.dom().contains(key)
            <==> state.internal_incidents.dom().contains(key)) && (
        state.internal_incidents.dom().contains(key) ==> #[trigger] after.internal_incidents[key]
            == state.internal_incidents[key])
}

/// A server that connects is online from then on. Its heartbeat is forgotten unless it was online
/// before. Its connection incident is over, which is told once unless it is snoozed; every other
/// incident stays as it is.
pub proof fn connected_servers_are_online(state: StateModel, id: Text, at: Timestamp)
    requires
        state.servers.dom().contains(id),
    ensures
        ({
            let (after, transition) = step(state, EventModel::Connected { server_id: id, at });
            let was = state.servers[id];
            let new = after.servers[id];
            let key = "internal.connection."@ + id;
            let present = state.internal_incidents.dom().contains(key);
            &&& only_server_changes(state, after, id)
            &&& new.connected && new.initialized
            &&& was.connected && was.initialized ==> new == was
            &&& !(was.connected && was.initialized) ==> new.connection_changed_at == Some(at)
                && new.last_heartbeat_at is None
            &&& after.incidents == state.incidents
            &&& own_incidents_stay_but(state, after, key, key)
            &&& !after.internal_incidents.dom().contains(key)
            &&& transition.changed <==> present || !was.connected || !was.initialized
            &&& present && !is_silenced(state, key, at) ==> transition.effects == seq![
                EffectModel::Notify { title: "OK: "@ + key, body: Seq::empty() },
            ]
            &&& !present || is_silenced(state, key, at) ==> transition.effects.len() == 0
        }),
{
    let (after, transition) = step(state, EventModel::Connected { server_id: id, at });
    assert(after.servers.dom() =~= state.servers.dom());
    if state.servers[id].connected && state.servers[id].initialized {
        assert(after.servers[id] == state.servers[id]);
    }
}

/// A tunnel that is ready has no incident any more, which is told once where there was one and no
/// snooze hides it. Nothing else changes.
pub proof fn ready_tunnels_resolve_their_incident(state: StateModel, id: Text, at: Timestamp)
    requires
        state.servers.dom().contains(id),
    ensures
        ({
            let (after, transition) = step(state, EventModel::TunnelReady { server_id: id, at });
            let key = "internal.tunnel."@ + id;
            let present = state.internal_incidents.dom().contains(key);
            &&& after.server_order == state.server_order
            &&& after.servers == state.servers
            &&& after.incidents == state.incidents
            &&& after.snoozed == state.snoozed
            &&& own_incidents_stay_but(state, after, key, key)
            &&& !after.internal_incidents.dom().contains(key)
            &&& transition.changed <==> present
            &&& present && !is_silenced(state, key, at) ==> transition.effects == seq![
                EffectModel::Notify { title: "OK: "@ + key, body: Seq::empty() },
            ]
            &&& !present || is_silenced(state, key, at) ==> transition.effects.len() == 0
        }),
{
}

/// Whether a server is offline, from an instant on where it was not known to be before.
pub open spec fn went_offline(was: ServerModel, new: ServerModel, at: Timestamp) -> bool {
    &&& !new.connected && new.initialized
    &&& new.last_heartbeat_at == was.last_heartbeat_at
    &&& was.connected || !was.initialized ==> new.connection_changed_at == Some(at)
    &&& !was.connected && was.initialized ==> new.connection_changed_at
        == was.connection_changed_at
}

/// Whether the lists of incidents are the same but that those of one server are stale.
pub open spec fn only_goes_stale(state: StateModel, after: StateModel, id: Text) -> bool {
    &&& after.incidents.dom() == state.incidents.dom()
    &&& forall|other: Text|
        other != id && state.incidents.dom().contains(other) ==> #[trigger] after.incidents[other]
            == state.incidents[other]
    &&& state.incidents.dom().contains(id) ==> after.incidents[id].len()
        == state.incidents[id].len()
    &&& forall|i: int|
        state.incidents.dom().contains(id) && 0 <= i < state.incidents[id].len() ==> {
            let new = #[trigger] after.incidents[id][i];
            let was = state.incidents[id][i];
            new.stale && new.key == was.key && new.state == was.state && new.details == was.details
                && new.incident_started_at == was.incident_started_at
        }
}

/// Whether some listed incident of a server is not stale yet.
pub open spec fn has_fresh(state: StateModel, id: Text) -> bool {
    state.incidents.dom().contains(id) && exists|i: int|
        0 <= i < state.incidents[id].len() && !(#[trigger] state.incidents[id][i]).stale
}

/// Whether a failure has an incident under a key: a new one dated with the instant, or the one
/// that was there with the new details.
pub open spec fn is_raised(
    state: StateModel,
    after: StateModel,
    key: Text,
    at: Timestamp,
    error: Text,
) -> bool {
    let was = state.internal_incidents[key];
    let new = after.internal_incidents[key];
    &&& after.internal_incidents.dom().contains(key)
    &&& new.details == error
    &&& state.internal_incidents.dom().contains(key) ==> new.key == was.key && new.state == was.state
        && new.stale == was.stale && new.incident_started_at == was.incident_started_at
    &&& !state.internal_incidents.dom().contains(key) ==> new.key == key && new.state
        == IncidentState::Error && !new.stale && new.incident_started_at == rfc3339_text(at)
}

/// A server that is gone is offline and its incidents are stale. With an error it has a connection
/// incident, which is told once unless it is snoozed; without one it has none, and nobody is told.
pub proof fn disconnected_servers_are_offline(
    state: StateModel,
    id: Text,
    at: Timestamp,
    error: Text,
)
    requires
        state.servers.dom().contains(id),
    ensures
        ({
            let (after, transition) = step(
                state,
                EventModel::Disconnected { server_id: id, at, error },
            );
            let was = state.servers[id];
            let key = "internal.connection."@ + id;
            let present = state.internal_incidents.dom().contains(key);
            let own_changes = if error.len() == 0 {
                present
            } else {
                !present || state.internal_incidents[key].details != error
            };
            &&& only_server_changes(state, after, id)
            &&& went_offline(was, after.servers[id], at)
            &&& only_goes_stale(state, after, id)
            &&& own_incidents_stay_but(state, after, key, key)
            &&& error.len() == 0 ==> !after.internal_incidents.dom().contains(key)
            &&& error.len() > 0 ==> is_raised(state, after, key, at, error)
            &&& transition.changed <==> was.connected || !was.initialized || has_fresh(state, id)
                || own_changes
            &&& error.len() > 0 && !present && !is_silenced(state, key, at) ==> transition.effects
                == seq![EffectModel::Notify { title: "error: "@ + key, body: error }]
            &&& error.len() == 0 || present || is_silenced(state, key, at)
                ==> transition.effects.len() == 0
        }),
{
    let (after, transition) = step(state, EventModel::Disconnected { server_id: id, at, error });
    assert(after.servers.dom() =~= state.servers.dom());
    assert(after.incidents.dom() =~= state.incidents.dom());
}

/// A tunnel that fails leaves its server offline and its incidents stale. The failure of the
/// tunnel is told once unless it is snoozed, and takes the place of a failure of the connection.
pub proof fn failed_tunnels_are_told_as_the_cause(
    state: StateModel,
    id: Text,
    at: Timestamp,
    error: Text,
)
    requires
        state.servers.dom().contains(id),
    ensures
        ({
            let (after, transition) = step(
                state,
                EventModel::TunnelFailed { server_id: id, at, error },
            );
            let was = state.servers[id];
            let key = "internal.tunnel."@ + id;
            let derived = "internal.connection."@ + id;
            let present = state.internal_incidents.dom().contains(key);
            &&& only_server_changes(state, after, id)
            &&& went_offline(was, after.servers[id], at)
            &&& only_goes_stale(state, after, id)
            &&& own_incidents_stay_but(state, after, key, derived)
            &&& !after.internal_incidents.dom().contains(derived)
            &&& is_raised(state, after, key, at, error)
            &&& transition.changed <==> was.connected || !was.initialized || has_fresh(state, id)
                || state.internal_incidents.dom().contains(derived) || !present
                || state.internal_incidents[key].details != error
            &&& !present && !is_silenced(state, key, at) ==> transition.effects == seq![
                EffectModel::Notify { title: "error: "@ + key, body: error },
            ]
            &&& present || is_silenced(state, key, at) ==> transition.effects.len() == 0
        }),
{
    super::reducer::keys_of_failures_differ(id);
    let (after, transition) = step(state, EventModel::TunnelFailed { server_id: id, at, error });
    assert(after.servers.dom() =~= state.servers.dom());
    assert(after.incidents.dom() =~= state.incidents.dom());
}

/// A heartbeat dates the last sign of life of its server and changes nothing else.
pub proof fn heartbeats_are_dated(state: StateModel, id: Text, at: Timestamp)
    requires
        state.servers.dom().contains(id),
    ensures
        ({
            let (after, transition) = step(state, EventModel::Heartbeat { server_id: id, at });
            let was = state.servers[id];
            let new = after.servers[id];
            &&& only_server_changes(state, after, id)
            &&& new.last_heartbeat_at == Some(at)
            &&& new.connected == was.connected && new.initialized == was.initialized
                && new.connection_changed_at == was.connection_changed_at
            &&& after.incidents == state.incidents
            &&& after.internal_incidents == state.internal_incidents
            &&& transition.changed <==> was.last_heartbeat_at != Some(at)
            &&& transition.effects.len() == 0
        }),
{
    let (after, transition) = step(state, EventModel::Heartbeat { server_id: id, at });
    assert(after.servers.dom() =~= state.servers.dom());
}

/// Whether a notification tells that an incident of a server began.
pub open spec fn tells_of_start(effect: EffectModel, item: IncidentModel, id: Text) -> bool {
    let word = if item.state == IncidentState::Error {
        "error"@
    } else if item.state == IncidentState::Warning {
        "warning"@
    } else {
        "ok"@
    };
    effect == (EffectModel::Notify {
        title: word + ": "@ + (id + "."@ + item.key),
        body: item.details,
    })
}

/// Whether a notification tells that an incident of a server is over.
pub open spec fn tells_of_end(effect: EffectModel, item: IncidentModel, id: Text) -> bool {
    effect == (EffectModel::Notify {
        title: "OK: "@ + (id + "."@ + item.key),
        body: Seq::empty(),
    })
}

/// What a server lists is known of it afterwards, each incident under the name of its server, and
/// nothing else changes.
pub proof fn lists_are_taken_over(
    state: StateModel,
    id: Text,
    data: NotificationModel,
    at: Timestamp,
    i: int,
    other: Text,
)
    requires
        state.servers.dom().contains(id),
        other != id,
    ensures
        ({
            let (after, transition) = step(
                state,
                EventModel::Notification { server_id: id, data, at },
            );
            &&& after.server_order == state.server_order
            &&& after.servers == state.servers
            &&& after.internal_incidents == state.internal_incidents
            &&& after.snoozed == state.snoozed
            &&& after.incidents.dom().contains(id)
            &&& after.incidents[id].len() == data.total.len()
            &&& 0 <= i < data.total.len() ==> {
                let new = after.incidents[id][i];
                let was = data.total[i];
                &&& new.key == id + "."@ + was.key
                &&& new.state == was.state && new.details == was.details && new.stale == was.stale
                &&& new.incident_started_at == was.incident_started_at
            }
            &&& after.incidents.dom().contains(other) <==> state.incidents.dom().contains(other)
            &&& state.incidents.dom().contains(other) ==> after.incidents[other]
                == state.incidents[other]
            &&& transition.changed
        }),
{
}

/// Each addition and each removal that no snooze hides is told, and nothing else is: first the
/// additions, then the removals, each in the order of the message.
pub proof fn changes_are_told_in_order(
    state: StateModel,
    id: Text,
    data: NotificationModel,
    at: Timestamp,
)
    requires
        state.servers.dom().contains(id),
    ensures
        ({
            let effects = step(
                state,
                EventModel::Notification { server_id: id, data, at },
            ).1.effects;
            let heard = |item: IncidentModel| !is_silenced(state, id + "."@ + item.key, at);
            let added = data.added.filter(heard);
            let removed = data.removed.filter(heard);
            &&& effects.len() == added.len() + removed.len()
            &&& forall|i: int|
                0 <= i < added.len() ==> tells_of_start(#[trigger] effects[i], added[i], id)
            &&& forall|i: int|
                added.len() <= i < effects.len() ==> tells_of_end(
                    #[trigger] effects[i],
                    removed[i - added.len()],
                    id,
                )
        }),
{
    let heard = |item: IncidentModel| !is_silenced(state, id + "."@ + item.key, at);
    let shown = |item: IncidentModel| !super::model::is_hidden(state.snoozed, item.key, at);
    let full = |item: IncidentModel| super::reducer::with_prefix(item, id);
    lemma_filter_of_map(data.added, full, heard, shown);
    lemma_filter_of_map(data.removed, full, heard, shown);
    let effects = step(state, EventModel::Notification { server_id: id, data, at }).1.effects;
    let added = data.added.filter(heard);
    let removed = data.removed.filter(heard);
    assert(super::reducer::with_prefixes(data.added, id) == data.added.map_values(full));
    assert(super::reducer::with_prefixes(data.removed, id) == data.removed.map_values(full));
    assert(effects.len() == added.len() + removed.len());
    assert forall|i: int| 0 <= i < added.len() implies tells_of_start(
        #[trigger] effects[i],
        added[i],
        id,
    ) by {
        assert(effects[i] == super::reducer::began(full(added[i])));
    }
    assert forall|i: int| added.len() <= i < effects.len() implies tells_of_end(
        #[trigger] effects[i],
        removed[i - added.len()],
        id,
    ) by {
        assert(effects[i] == super::reducer::ended(full(removed[i - added.len()]).key));
    }
}

/// To rename items and pick some of them is to pick them and rename them.
proof fn lemma_filter_of_map<A>(
    items: Seq<A>,
    rename: spec_fn(A) -> A,
    before: spec_fn(A) -> bool,
    after: spec_fn(A) -> bool,
)
    requires
        forall|item: A| #[trigger] before(item) == after(rename(item)),
    ensures
        items.map_values(rename).filter(after) == items.filter(before).map_values(rename),
    decreases items.len(),
{
    reveal(Seq::filter);
    let renamed = items.map_values(rename);
    if items.len() > 0 {
        lemma_filter_of_map(items.drop_last(), rename, before, after);
        assert(renamed.drop_last() =~= items.drop_last().map_values(rename));
        assert(renamed.last() == rename(items.last()));
        assert(before(items.last()) == after(rename(items.last())));
        if before(items.last()) {
            assert(items.drop_last().filter(before).push(items.last()).map_values(rename)
                =~= items.drop_last().filter(before).map_values(rename).push(
                rename(items.last()),
            ));
        }
    } else {
        assert(renamed.filter(after) =~= items.filter(before).map_values(rename));
    }
}

/// Whether what comes of an event is the proposal to write snoozes, and nothing else.
pub open spec fn only_proposes(
    state: StateModel,
    event: EventModel,
    snoozes: Map<Text, Timestamp>,
    action: SnoozeActionModel,
) -> bool {
    let (after, transition) = step(state, event);
    &&& after == state
    &&& !transition.changed
    &&& transition.effects == seq![EffectModel::PersistSnoozes { snoozes, action }]
}

/// Whether nothing comes of an event.
pub open spec fn does_nothing(state: StateModel, event: EventModel) -> bool {
    let (after, transition) = step(state, event);
    after == state && !transition.changed && transition.effects.len() == 0
}

/// A snooze that is asked for is proposed with its deadline beside all others, unless it has this
/// deadline already. The end of one is proposed where there is one.
pub proof fn snoozes_are_proposed_as_asked(
    state: StateModel,
    key: Text,
    until: Timestamp,
    snoozes: Map<Text, Timestamp>,
    rest: Map<Text, Timestamp>,
)
    requires
        snoozes.dom().contains(key) && snoozes[key] == until,
        !rest.dom().contains(key),
        forall|other: Text|
            other != key ==> (#[trigger] snoozes.dom().contains(other)
                <==> state.snoozed.dom().contains(other)) && (snoozes.dom().contains(other)
                ==> snoozes[other] == state.snoozed[other]),
        forall|other: Text|
            other != key ==> (#[trigger] rest.dom().contains(other)
                <==> state.snoozed.dom().contains(other)) && (rest.dom().contains(other)
                ==> rest[other] == state.snoozed[other]),
    ensures
        state.snoozed == snoozes ==> does_nothing(state, EventModel::Snooze { key, until }),
        state.snoozed != snoozes ==> only_proposes(
            state,
            EventModel::Snooze { key, until },
            snoozes,
            SnoozeActionModel::SetDeadline { key, until },
        ),
        state.snoozed == rest ==> does_nothing(state, EventModel::Unsnooze { key }),
        state.snoozed != rest ==> only_proposes(
            state,
            EventModel::Unsnooze { key },
            rest,
            SnoozeActionModel::Remove { key },
        ),
{
    lemma_inserted(state.snoozed, snoozes, key);
    lemma_removed(state.snoozed, rest, key);
    if state.snoozed.dom().contains(key) && state.snoozed[key] == until {
        assert(state.snoozed.insert(key, until) =~= state.snoozed);
    }
    if !state.snoozed.dom().contains(key) {
        assert(state.snoozed.remove(key) =~= state.snoozed);
    }
}

proof fn lemma_inserted(before: Map<Text, Timestamp>, after: Map<Text, Timestamp>, key: Text)
    requires
        after.dom().contains(key),
        forall|other: Text|
            other != key ==> (#[trigger] after.dom().contains(other)
                <==> before.dom().contains(other)) && (after.dom().contains(other)
                ==> after[other] == before[other]),
    ensures
        before.insert(key, after[key]) == after,
{
    let map = before.insert(key, after[key]);
    assert forall|other: Text| #[trigger] map.dom().contains(other) == after.dom().contains(
        other,
    ) by {
        if other != key {
            assert(after.dom().contains(other) <==> before.dom().contains(other));
        }
    }
    assert(map.dom() =~= after.dom());
    assert forall|other: Text| #[trigger] map.dom().contains(other) implies map[other]
        == after[other] by {
        assert(after.dom().contains(other));
    }
    assert(map =~= after);
}

proof fn lemma_removed(before: Map<Text, Timestamp>, after: Map<Text, Timestamp>, key: Text)
    requires
        !after.dom().contains(key),
        forall|other: Text|
            other != key ==> (#[trigger] after.dom().contains(other)
                <==> before.dom().contains(other)) && (after.dom().contains(other)
                ==> after[other] == before[other]),
    ensures
        before.remove(key) == after,
{
    let map = before.remove(key);
    assert forall|other: Text| #[trigger] map.dom().contains(other) == after.dom().contains(
        other,
    ) by {
        if other != key {
            assert(after.dom().contains(other) <==> before.dom().contains(other));
        }
    }
    assert(map.dom() =~= after.dom());
    assert forall|other: Text| #[trigger] map.dom().contains(other) implies map[other]
        == after[other] by {
        assert(after.dom().contains(other));
    }
    assert(map =~= after);
}

/// A tick proposes to drop the snoozes whose deadline is reached, and names each of them once, in
/// the order of their keys. Where none is reached it does nothing.
pub proof fn reached_deadlines_are_dropped(state: StateModel, at: Timestamp, key: Text)
    requires
        state.snoozed.dom().finite(),
    ensures
        ({
            let event = EventModel::Tick { at };
            let effects = step(state, event).1.effects;
            &&& does_nothing(state, event) <==> forall|k: Text| #[trigger]
                state.snoozed.dom().contains(k) ==> state.snoozed[k] > at
            &&& effects.len() > 0 ==> {
                &&& effects[0] is PersistSnoozes
                &&& effects[0]->action is Expire
                &&& only_proposes(state, event, effects[0]->snoozes, effects[0]->action)
                &&& effects[0]->snoozes.dom().contains(key) <==> is_silenced(state, key, at)
                &&& is_silenced(state, key, at) ==> effects[0]->snoozes[key] == state.snoozed[key]
                &&& ascending(effects[0]->action->keys)
                &&& effects[0]->action->keys.contains(key) <==> state.snoozed.dom().contains(key)
                    && state.snoozed[key] <= at
            }
        }),
{
    let over = |k: Text| state.snoozed[k] <= at;
    let keys = in_order(state.snoozed.dom());
    in_order_has_the_members(state.snoozed.dom());
    lemma_filter_members(keys, over);
    lemma_filter_ascends(keys, over);
    let dropped = expired(state.snoozed, at);
    assert(dropped == keys.filter(over));
    assert forall|k: Text| dropped.contains(k) <==> state.snoozed.dom().contains(k)
        && state.snoozed[k] <= at by {
        if dropped.contains(k) {
            let i = choose|i: int| 0 <= i < dropped.len() && dropped[i] == k;
            assert(over(dropped[i]));
            assert(keys.contains(dropped[i]));
            assert(keys.to_set().contains(k));
        }
        if state.snoozed.dom().contains(k) && state.snoozed[k] <= at {
            assert(keys.to_set().contains(k));
            let i = choose|i: int| 0 <= i < keys.len() && keys[i] == k;
            assert(over(keys[i]));
        }
    }
    if dropped.len() > 0 {
        assert(dropped.contains(dropped[0]));
    }
    if !(forall|k: Text| #[trigger] state.snoozed.dom().contains(k) ==> state.snoozed[k] > at) {
        let k = choose|k: Text| #[trigger] state.snoozed.dom().contains(k) && state.snoozed[k] <= at;
        assert(dropped.contains(k));
    }
}

pub(crate) proof fn lemma_filter_ascends(keys: Seq<Text>, keep: spec_fn(Text) -> bool)
    requires
        ascending(keys),
    ensures
        ascending(keys.filter(keep)),
    decreases keys.len(),
{
    reveal(Seq::filter);
    if keys.len() > 0 {
        let front = keys.drop_last();
        assert(ascending(front)) by {
            assert forall|i: int, j: int| 0 <= i < j < front.len() implies crate::text::precedes(
                #[trigger] front[i],
                #[trigger] front[j],
            ) by {
                assert(front[i] == keys[i] && front[j] == keys[j]);
            }
        }
        lemma_filter_ascends(front, keep);
        lemma_filter_members(front, keep);
        let kept = front.filter(keep);
        assert forall|i: int, j: int| 0 <= i < j < keys.filter(keep).len() implies crate::text::precedes(
            #[trigger] keys.filter(keep)[i],
            #[trigger] keys.filter(keep)[j],
        ) by {
            assert(keys.filter(keep)[i] == kept[i]);
            if j < kept.len() {
                assert(keys.filter(keep)[j] == kept[j]);
            } else {
                assert(front.contains(kept[i]));
                let n = choose|n: int| 0 <= n < front.len() && front[n] == kept[i];
                assert(crate::text::precedes(keys[n], keys[keys.len() - 1]));
            }
        }
    }
}

/// How bad an incident is: troubles of the client itself are kept apart from what servers report,
/// and what is fine is fine wherever it comes from.
pub proof fn severities_follow_the_reports(item: IncidentModel)
    ensures
        severity(item) == OverallState::Okay <==> item.state == IncidentState::Okay,
        severity(item) == OverallState::InternalError <==> "internal."@.is_prefix_of(item.key)
            && item.state != IncidentState::Okay,
        severity(item) == OverallState::Warning <==> !"internal."@.is_prefix_of(item.key)
            && item.state == IncidentState::Warning,
        severity(item) == OverallState::Error <==> !"internal."@.is_prefix_of(item.key)
            && item.state == IncidentState::Error,
{
}

/// One more incident never makes things look better: errors outrank warnings, these outrank
/// troubles of the client, and these outrank what is fine.
pub proof fn incidents_add_up_to_the_worst(items: Seq<IncidentModel>, item: IncidentModel)
    ensures
        overall(Seq::empty()) == OverallState::Okay,
        overall(items.push(item)) == (if severity(item) == OverallState::Error || overall(items)
            == OverallState::Error {
            OverallState::Error
        } else if severity(item) == OverallState::Warning || overall(items)
            == OverallState::Warning {
            OverallState::Warning
        } else if severity(item) == OverallState::InternalError || overall(items)
            == OverallState::InternalError {
            OverallState::InternalError
        } else {
            OverallState::Okay
        }),
{
    let more = items.push(item);
    assert forall|state: OverallState| super::model::any_is(more, state) <==> severity(item)
        == state || super::model::any_is(items, state) by {
        if super::model::any_is(items, state) {
            let i = choose|i: int| 0 <= i < items.len() && severity(#[trigger] items[i]) == state;
            assert(more[i] == items[i]);
        }
        assert(more[items.len() as int] == item);
        if super::model::any_is(more, state) {
            let i = choose|i: int| 0 <= i < more.len() && severity(#[trigger] more[i]) == state;
            if i < items.len() {
                assert(items[i] == more[i]);
            }
        }
    }
}

/// Incidents stand in one order: the client's own by their keys, then those of each server in the
/// order of the configuration. One more server adds its list at the end.
pub proof fn incidents_stand_in_order(state: StateModel, id: Text)
    requires
        state.internal_incidents.dom().finite(),
    ensures
        ({
            let alone = StateModel { server_order: Seq::empty(), ..state };
            let longer = StateModel { server_order: state.server_order.push(id), ..state };
            let own = all_incidents(alone);
            let keys = in_order(state.internal_incidents.dom());
            &&& ascending(keys)
            &&& keys.to_set() == state.internal_incidents.dom()
            &&& own.len() == keys.len()
            &&& forall|i: int|
                0 <= i < own.len() ==> #[trigger] own[i] == state.internal_incidents[keys[i]]
            &&& state.incidents.dom().contains(id) ==> all_incidents(longer) == all_incidents(state)
                + state.incidents[id]
            &&& !state.incidents.dom().contains(id) ==> all_incidents(longer) == all_incidents(
                state,
            )
        }),
{
    in_order_has_the_members(state.internal_incidents.dom());
    let of_server = |server: Text| super::model::listed(state.incidents, server);
    let alone = StateModel { server_order: Seq::empty(), ..state };
    let longer = StateModel { server_order: state.server_order.push(id), ..state };
    let order = longer.server_order;
    let before = state.server_order.len() as int;
    order.lemma_flat_map_take_append(of_server, before);
    assert(order.take(before) =~= state.server_order);
    assert(order.take(before + 1) =~= order);
    assert(of_server(order[before]) == super::model::listed(state.incidents, id));
    assert(Seq::<Text>::empty().flat_map(of_server) =~= Seq::<IncidentModel>::empty());
    assert(all_incidents(longer) =~= all_incidents(state) + super::model::listed(
        state.incidents,
        id,
    ));
}

/// A snapshot has each server's status in the order of the configuration, and counts those that
/// were not heard of. One more configured server is shown last.
pub proof fn servers_stand_in_order(state: StateModel, id: Text, now: Timestamp)
    requires
        state.servers.dom().contains(id),
    ensures
        ({
            let longer = StateModel { server_order: state.server_order.push(id), ..state };
            let none = StateModel { server_order: Seq::empty(), ..state };
            let before = snapshot_of(state, now);
            let after = snapshot_of(longer, now);
            &&& snapshot_of(none, now).servers.len() == 0
            &&& snapshot_of(none, now).unknown_server_count == 0
            &&& after.servers == before.servers.push(state.servers[id])
            &&& after.unknown_server_count == before.unknown_server_count + (
            if state.servers[id].initialized {
                0int
            } else {
                1int
            })
        }),
{
    let longer = StateModel { server_order: state.server_order.push(id), ..state };
    let none = StateModel { server_order: Seq::empty(), ..state };
    let known = |other: Text| state.servers.contains_key(other);
    let status = |other: Text| state.servers[other];
    let unheard = |server: ServerModel| !server.initialized;
    state.server_order.lemma_filter_push(id, known);
    let listed = state.server_order.filter(known).map_values(status);
    assert(longer.server_order.filter(known).map_values(status) =~= listed.push(state.servers[id]));
    listed.lemma_filter_push(state.servers[id], unheard);
    reveal(Seq::filter);
    assert(none.server_order.filter(known).map_values(status) =~= Seq::<ServerModel>::empty());
    assert(Seq::<ServerModel>::empty().filter(unheard) =~= Seq::<ServerModel>::empty());
}

/// What is snoozed adds up to a severity of its own, to which nothing else contributes. Each snoozed
/// incident is shown with the deadline of its snooze.
pub proof fn snoozed_incidents_add_up_apart(state: StateModel, now: Timestamp, i: int)
    ensures
        ({
            let snapshot = snapshot_of(state, now);
            let incidents = snapshot.snoozed.map_values(|item: SnoozedModel| item.incident);
            &&& snapshot.snoozed.len() == 0 ==> snapshot.snoozed_state is None
            &&& snapshot.snoozed.len() > 0 ==> snapshot.snoozed_state == Some(overall(incidents))
            &&& 0 <= i < snapshot.snoozed.len() ==> {
                let item = snapshot.snoozed[i];
                &&& state.snoozed.dom().contains(item.incident.key)
                &&& item.until == state.snoozed[item.incident.key]
                &&& item.until > now
                &&& all_incidents(state).contains(item.incident)
            }
            &&& 0 <= i < snapshot.active.len() ==> {
                let item = snapshot.active[i];
                &&& !(state.snoozed.dom().contains(item.key) && state.snoozed[item.key] > now)
                &&& all_incidents(state).contains(item)
            }
        }),
{
    let all = all_incidents(state);
    let hides = |item: IncidentModel| is_hidden(state.snoozed, item.key, now);
    let shows = |item: IncidentModel| !is_hidden(state.snoozed, item.key, now);
    lemma_filter_members(all, hides);
    lemma_filter_members(all, shows);
    let snapshot = snapshot_of(state, now);
    let hidden = all.filter(hides);
    assert(snapshot.snoozed.map_values(|item: SnoozedModel| item.incident) =~= hidden);
    if 0 <= i < hidden.len() {
        assert(hides(hidden[i]));
        assert(snapshot.snoozed[i].incident == hidden[i]);
    }
    if 0 <= i < snapshot.active.len() {
        assert(shows(all.filter(shows)[i]));
    }
}

} // verus!
