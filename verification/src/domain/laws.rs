//! What holds of the state machine as a whole.

use vstd::prelude::*;

use super::effect::{no_transition, EffectModel, TransitionModel};
use super::event::EventModel;
use super::model::{all_incidents, any_is, fresh_server, initial_state, is_hidden, listed,
    listed_servers, overall, precedence, severity, snapshot_of, IncidentModel, IncidentState,
    NotificationModel, OverallState, ServerModel, SnoozedModel, StateModel};
use super::reducer::{any_fresh, began, connection_key, ended, expired, forgotten, gone_stale,
    keys_of_failures_differ, stale_lists, step, survives, tunnel_key, unexpired, with_prefixes};
use crate::table::in_order;
use crate::text::Text;
use crate::timestamp::Timestamp;

verus! {

/// Whether each configured server has a status under its own ID.
pub open spec fn is_complete(state: StateModel) -> bool {
    forall|i: int|
        0 <= i < state.server_order.len() ==> state.servers.contains_key(
            #[trigger] state.server_order[i],
        ) && state.servers[state.server_order[i]].id == state.server_order[i]
}

/// The server that an event comes from, if it comes from one.
pub open spec fn source(event: EventModel) -> Option<Text> {
    match event {
        EventModel::Connected { server_id, .. } => Some(server_id),
        EventModel::Disconnected { server_id, .. } => Some(server_id),
        EventModel::TunnelReady { server_id, .. } => Some(server_id),
        EventModel::TunnelFailed { server_id, .. } => Some(server_id),
        EventModel::Heartbeat { server_id, .. } => Some(server_id),
        EventModel::Notification { server_id, .. } => Some(server_id),
        _ => None,
    }
}

/// A new state knows every configured server, and shows it as not heard of yet.
pub proof fn initial_state_is_complete(ids: Seq<Text>, snoozed: Map<Text, Timestamp>)
    ensures
        is_complete(initial_state(ids, snoozed)),
        forall|i: int|
            0 <= i < ids.len() ==> initial_state(ids, snoozed).servers[#[trigger] ids[i]]
                == fresh_server(ids[i]),
{
    assert forall|i: int| 0 <= i < ids.len() implies ids.contains(#[trigger] ids[i]) by {}
}

/// No event loses a server or changes the order of the servers.
pub proof fn events_keep_the_servers(state: StateModel, event: EventModel)
    requires
        is_complete(state),
    ensures
        is_complete(step(state, event).0),
        step(state, event).0.server_order == state.server_order,
        step(state, event).0.servers.dom() == state.servers.dom(),
{
    assert(step(state, event).0.servers.dom() =~= state.servers.dom());
}

/// A snapshot of a complete state lists the configured servers in the order of the configuration.
pub proof fn snapshot_lists_servers_in_order(state: StateModel, now: Timestamp)
    requires
        is_complete(state),
    ensures
        snapshot_of(state, now).servers.len() == state.server_order.len(),
        forall|i: int|
            0 <= i < state.server_order.len() ==> (#[trigger] snapshot_of(state, now).servers[i]).id
                == state.server_order[i],
{
    let order = state.server_order;
    let known = |id: Text| state.servers.contains_key(id);
    lemma_filter_keeps_all(order, known);
    assert(listed_servers(state) =~= order.map_values(|id: Text| state.servers[id]));
}

pub(crate) proof fn lemma_filter_members<A>(items: Seq<A>, keep: spec_fn(A) -> bool)
    ensures
        forall|i: int|
            0 <= i < items.filter(keep).len() ==> keep(#[trigger] items.filter(keep)[i])
                && items.contains(items.filter(keep)[i]),
        forall|i: int|
            0 <= i < items.len() && keep(#[trigger] items[i]) ==> items.filter(keep).contains(items[i]),
    decreases items.len(),
{
    reveal(Seq::filter);
    if items.len() > 0 {
        let front = items.drop_last();
        let last = items.last();
        let kept = items.filter(keep);
        lemma_filter_members(front, keep);
        assert forall|i: int| 0 <= i < kept.len() implies keep(#[trigger] kept[i]) && items.contains(kept[i]) by {
            if i < front.filter(keep).len() {
                assert(kept[i] == front.filter(keep)[i]);
                let n = choose|n: int| 0 <= n < front.len() && front[n] == kept[i];
                assert(items[n] == kept[i]);
            } else {
                assert(kept[i] == last);
                assert(items[items.len() - 1] == last);
            }
        }
        assert forall|i: int| 0 <= i < items.len() && keep(#[trigger] items[i]) implies kept.contains(items[i]) by {
            if i < front.len() {
                assert(front[i] == items[i]);
                let n = choose|n: int| 0 <= n < front.filter(keep).len() && front.filter(keep)[n] == items[i];
                assert(kept[n] == items[i]);
            } else {
                assert(kept[kept.len() - 1] == last);
            }
        }
    }
}

proof fn lemma_filter_keeps_all<A>(items: Seq<A>, keep: spec_fn(A) -> bool)
    requires
        forall|i: int| 0 <= i < items.len() ==> keep(#[trigger] items[i]),
    ensures
        items.filter(keep) == items,
    decreases items.len(),
{
    reveal(Seq::filter);
    if items.len() > 0 {
        let front = items.drop_last();
        assert forall|i: int| 0 <= i < front.len() implies keep(#[trigger] front[i]) by {
            assert(front[i] == items[i]);
        }
        lemma_filter_keeps_all(front, keep);
        assert(keep(items[items.len() - 1]));
        assert(front.push(items.last()) =~= items);
    }
}

/// Events of servers that are not configured change nothing and ask for nothing.
pub proof fn unknown_servers_are_ignored(state: StateModel, event: EventModel)
    requires
        source(event) matches Some(id) && !state.servers.contains_key(id),
    ensures
        step(state, event) == (state, no_transition()),
{
}

/// An event of one server leaves the status and the incidents of every other server alone.
pub proof fn servers_do_not_affect_each_other(state: StateModel, event: EventModel, other: Text)
    requires
        source(event) matches Some(id) && id != other,
    ensures
        step(state, event).0.servers.contains_key(other) == state.servers.contains_key(other),
        state.servers.contains_key(other) ==> step(state, event).0.servers[other]
            == state.servers[other],
        listed(step(state, event).0.incidents, other) == listed(state.incidents, other),
{
}

/// Asking for a snooze, for its end or for the removal of those that are over changes nothing
/// by itself: all that comes of it is at most one proposal of what to write.
pub proof fn snooze_requests_change_nothing(state: StateModel, event: EventModel)
    requires
        event is Snooze || event is Unsnooze || event is Tick,
    ensures
        step(state, event).0 == state,
        !step(state, event).1.changed,
        step(state, event).1.effects.len() <= 1,
        forall|i: int|
            0 <= i < step(state, event).1.effects.len() ==> (#[trigger] step(
                state,
                event,
            ).1.effects[i]) is PersistSnoozes,
{
}

/// The news that snoozes were written puts exactly these into effect and changes nothing else.
/// It asks for nothing, and is worth a fresh snapshot exactly where the snoozes differ.
pub proof fn written_snoozes_are_committed(state: StateModel, snoozes: Map<Text, Timestamp>)
    ensures
        step(state, EventModel::SnoozesPersisted { snoozes }).0 == (StateModel {
            snoozed: snoozes,
            ..state
        }),
        step(state, EventModel::SnoozesPersisted { snoozes }).1 == (TransitionModel {
            changed: snoozes != state.snoozed,
            effects: Seq::empty(),
        }),
{
}

/// The snoozes that an event proposes, or those in effect where it proposes none.
pub open spec fn proposed(state: StateModel, event: EventModel) -> Map<Text, Timestamp> {
    let effects = step(state, event).1.effects;
    if effects.len() == 1 && effects[0] is PersistSnoozes {
        effects[0]->snoozes
    } else {
        state.snoozed
    }
}

/// The state once what an event proposes was written and acknowledged.
pub open spec fn committed(state: StateModel, event: EventModel) -> StateModel {
    step(step(state, event).0, EventModel::SnoozesPersisted { snoozes: proposed(state, event) }).0
}

/// A snooze that was written hides its incident up to the deadline and no longer, and concerns
/// no other incident.
pub proof fn snooze_hides_until_its_deadline(
    state: StateModel,
    key: Text,
    until: Timestamp,
    other: Text,
    now: Timestamp,
)
    requires
        other != key,
    ensures
        is_hidden(committed(state, EventModel::Snooze { key, until }).snoozed, key, now) <==> now
            < until,
        is_hidden(committed(state, EventModel::Snooze { key, until }).snoozed, other, now)
            <==> is_hidden(state.snoozed, other, now),
{
}

/// The end of a snooze that was written shows its incident again, and concerns no other.
pub proof fn unsnooze_shows_the_incident(state: StateModel, key: Text, other: Text, now: Timestamp)
    requires
        other != key,
    ensures
        !is_hidden(committed(state, EventModel::Unsnooze { key }).snoozed, key, now),
        is_hidden(committed(state, EventModel::Unsnooze { key }).snoozed, other, now)
            <==> is_hidden(state.snoozed, other, now),
{
}

/// A snooze and its end undo each other where there was no snooze before.
pub proof fn unsnooze_undoes_snooze(state: StateModel, key: Text, until: Timestamp)
    requires
        !state.snoozed.contains_key(key),
    ensures
        committed(committed(state, EventModel::Snooze { key, until }), EventModel::Unsnooze { key })
            == state,
{
    let snoozed = committed(state, EventModel::Snooze { key, until });
    assert(snoozed.snoozed =~= state.snoozed.insert(key, until));
    assert(snoozed.snoozed.remove(key) =~= state.snoozed);
}

/// The removal of snoozes that are over drops exactly these: what is hidden at the instant of the
/// tick or later stays hidden, and the next tick at this instant finds nothing to do.
pub proof fn tick_drops_what_is_over(
    state: StateModel,
    at: Timestamp,
    key: Text,
    now: Timestamp,
)
    requires
        state.snoozed.dom().finite(),
        at <= now,
    ensures
        committed(state, EventModel::Tick { at }).snoozed == unexpired(state.snoozed, at),
        is_hidden(committed(state, EventModel::Tick { at }).snoozed, key, now) <==> is_hidden(
            state.snoozed,
            key,
            now,
        ),
        step(committed(state, EventModel::Tick { at }), EventModel::Tick { at }).1
            == no_transition(),
{
    let over = |k: Text| state.snoozed[k] <= at;
    let keys = in_order(state.snoozed.dom());
    crate::table::in_order_has_the_members(state.snoozed.dom());
    if expired(state.snoozed, at).len() == 0 {
        assert forall|k: Text| state.snoozed.contains_key(k) implies state.snoozed[k] > at by {
            assert(keys.to_set().contains(k));
            let i = choose|i: int| 0 <= i < keys.len() && keys[i] == k;
            if over(keys[i]) {
                lemma_filter_members(keys, over);
                assert(keys.filter(over).contains(keys[i]));
            }
        }
        assert(unexpired(state.snoozed, at) =~= state.snoozed);
    }
    let left = unexpired(state.snoozed, at);
    let left_over = |k: Text| left[k] <= at;
    assert(left.dom().subset_of(state.snoozed.dom()));
    vstd::set_lib::lemma_set_subset_finite(state.snoozed.dom(), left.dom());
    let left_keys = in_order(left.dom());
    crate::table::in_order_has_the_members(left.dom());
    assert(expired(left, at).len() == 0) by {
        lemma_filter_members(left_keys, left_over);
        if left_keys.filter(left_over).len() > 0 {
            let k = left_keys.filter(left_over)[0];
            assert(left_over(k));
            assert(left_keys.contains(k));
            assert(left_keys.to_set().contains(k));
        }
    }
}

/// When a server is gone its incidents stay, all of them stale and otherwise as they were.
pub proof fn disconnection_keeps_incidents_as_stale(
    state: StateModel,
    id: Text,
    at: Timestamp,
    error: Text,
)
    requires
        state.servers.contains_key(id),
    ensures
        ({
            let after = step(
                state,
                EventModel::Disconnected { server_id: id, at, error },
            ).0;
            &&& listed(after.incidents, id) == gone_stale(listed(state.incidents, id))
            &&& after.incidents.dom() == state.incidents.dom()
            &&& after.snoozed == state.snoozed
        }),
        ({
            let after = step(
                state,
                EventModel::TunnelFailed { server_id: id, at, error },
            ).0;
            &&& listed(after.incidents, id) == gone_stale(listed(state.incidents, id))
            &&& after.incidents.dom() == state.incidents.dom()
            &&& after.snoozed == state.snoozed
        }),
{
    assert(gone_stale(Seq::<IncidentModel>::empty()) =~= Seq::<IncidentModel>::empty());
    assert(stale_lists(state.incidents, id).dom() =~= state.incidents.dom());
}

/// Connecting again does not make kept incidents fresh, nor does it end snoozes.
pub proof fn connection_does_not_freshen_incidents(state: StateModel, id: Text, at: Timestamp)
    ensures
        step(state, EventModel::Connected { server_id: id, at }).0.incidents == state.incidents,
        step(state, EventModel::Connected { server_id: id, at }).0.snoozed == state.snoozed,
{
}

/// A connection that is reported twice is one connection: the second report changes nothing.
pub proof fn repeated_connection_changes_nothing(
    state: StateModel,
    id: Text,
    first: Timestamp,
    second: Timestamp,
)
    ensures
        ({
            let connected = step(state, EventModel::Connected { server_id: id, at: first }).0;
            step(connected, EventModel::Connected { server_id: id, at: second }) == (
                connected,
                no_transition(),
            )
        }),
{
    let connected = step(state, EventModel::Connected { server_id: id, at: first }).0;
    let again = step(connected, EventModel::Connected { server_id: id, at: second }).0;
    if state.servers.contains_key(id) {
        assert(again.servers =~= connected.servers);
        assert(again.internal_incidents =~= connected.internal_incidents);
    }
}

/// A failure that is reported twice with the same error changes nothing the second time.
pub proof fn repeated_disconnection_changes_nothing(
    state: StateModel,
    id: Text,
    first: Timestamp,
    second: Timestamp,
    error: Text,
)
    ensures
        ({
            let event = |at: Timestamp| EventModel::Disconnected { server_id: id, at, error };
            let gone = step(state, event(first)).0;
            step(gone, event(second)) == (gone, no_transition())
        }),
{
    let gone = step(state, EventModel::Disconnected { server_id: id, at: first, error }).0;
    let again = step(gone, EventModel::Disconnected { server_id: id, at: second, error }).0;
    if state.servers.contains_key(id) {
        let key = connection_key(id);
        assert(again.servers =~= gone.servers);
        if gone.incidents.contains_key(id) {
            let items = gone.incidents[id];
            assert(items == gone_stale(state.incidents[id]));
            assert(gone_stale(items) =~= items);
            assert(!any_fresh(items));
        }
        assert(again.incidents =~= gone.incidents);
        assert(again.internal_incidents =~= gone.internal_incidents);
    }
}

/// Only the first report of a failure is announced: while its incident is there, a further report
/// notifies nobody, whatever its error.
pub proof fn failures_are_announced_once(
    state: StateModel,
    id: Text,
    at: Timestamp,
    error: Text,
)
    ensures
        state.internal_incidents.contains_key(connection_key(id)) ==> step(
            state,
            EventModel::Disconnected { server_id: id, at, error },
        ).1.effects.len() == 0,
        state.internal_incidents.contains_key(tunnel_key(id)) ==> step(
            state,
            EventModel::TunnelFailed { server_id: id, at, error },
        ).1.effects.len() == 0,
{
    keys_of_failures_differ(id);
}

/// While a tunnel is down, the failure of the tunnel is the only incident of the client for its
/// server, and a silent disconnection keeps it so.
pub proof fn tunnel_failure_is_the_only_cause(
    state: StateModel,
    id: Text,
    at: Timestamp,
    error: Text,
    later: Timestamp,
)
    requires
        state.servers.contains_key(id),
    ensures
        ({
            let failed = step(state, EventModel::TunnelFailed { server_id: id, at, error }).0;
            let gone = step(
                failed,
                EventModel::Disconnected { server_id: id, at: later, error: Seq::empty() },
            ).0;
            &&& failed.internal_incidents.contains_key(tunnel_key(id))
            &&& failed.internal_incidents[tunnel_key(id)].details == error
            &&& !failed.internal_incidents.contains_key(connection_key(id))
            &&& gone.internal_incidents == failed.internal_incidents
        }),
{
    keys_of_failures_differ(id);
    let failed = step(state, EventModel::TunnelFailed { server_id: id, at, error }).0;
    let gone = step(
        failed,
        EventModel::Disconnected { server_id: id, at: later, error: Seq::empty() },
    ).0;
    assert(gone.internal_incidents =~= failed.internal_incidents);
}

/// A server that connects after a failure has no connection incident any more, and the user is
/// told once that it is over unless a snooze hides it.
pub proof fn connection_resolves_its_incident(state: StateModel, id: Text, at: Timestamp)
    requires
        state.servers.contains_key(id),
    ensures
        ({
            let (after, transition) = step(state, EventModel::Connected { server_id: id, at });
            let key = connection_key(id);
            &&& !after.internal_incidents.contains_key(key)
            &&& transition.effects == (if state.internal_incidents.contains_key(key) && !is_hidden(
                state.snoozed,
                key,
                at,
            ) {
                seq![ended(key)]
            } else {
                Seq::empty()
            })
        }),
{
}

/// Forgetting drops an incident only where it is stale and has the key. Everything else stays, in
/// its order; a server whose incidents are all fresh loses none.
pub proof fn forgetting_drops_only_the_stale_incident(
    state: StateModel,
    key: Text,
    id: Text,
    item: IncidentModel,
)
    ensures
        ({
            let before = listed(state.incidents, id);
            let after = listed(step(state, EventModel::ForgetStale { key }).0.incidents, id);
            &&& after.contains(item) <==> before.contains(item) && !(item.key == key && item.stale)
            &&& after == before.filter(|it: IncidentModel| !(it.key == key && it.stale))
            &&& (forall|i: int| 0 <= i < before.len() ==> !(#[trigger] before[i]).stale) ==> after
                == before
        }),
{
    let before = listed(state.incidents, id);
    let after = listed(step(state, EventModel::ForgetStale { key }).0.incidents, id);
    let stays = |it: IncidentModel| survives(it, key);
    let other = |it: IncidentModel| !(it.key == key && it.stale);
    assert(forgotten(Seq::<IncidentModel>::empty(), key) =~= Seq::<IncidentModel>::empty());
    assert(after == before.filter(stays));
    lemma_same_filter(before, stays, other);
    lemma_filter_members(before, stays);
    if before.contains(item) && stays(item) {
        let i = choose|i: int| 0 <= i < before.len() && before[i] == item;
        assert(after.contains(before[i]));
    }
    if after.contains(item) {
        let i = choose|i: int| 0 <= i < after.len() && after[i] == item;
        assert(stays(after[i]));
        assert(before.contains(after[i]));
    }
    if forall|i: int| 0 <= i < before.len() ==> !(#[trigger] before[i]).stale {
        lemma_filter_keeps_all(before, stays);
    }
}

proof fn lemma_same_filter<A>(items: Seq<A>, p: spec_fn(A) -> bool, q: spec_fn(A) -> bool)
    requires
        forall|item: A| #[trigger] p(item) == q(item),
    ensures
        items.filter(p) == items.filter(q),
    decreases items.len(),
{
    reveal(Seq::filter);
    if items.len() > 0 {
        lemma_same_filter(items.drop_last(), p, q);
    }
}

/// A server's own list decides: whatever was known or forgotten of it before, afterwards exactly
/// the incidents of the message are known, under full keys and as fresh as the message says.
pub proof fn notification_replaces_what_was_known(
    state: StateModel,
    id: Text,
    data: NotificationModel,
    at: Timestamp,
)
    requires
        state.servers.contains_key(id),
    ensures
        listed(
            step(state, EventModel::Notification { server_id: id, data, at }).0.incidents,
            id,
        ) == with_prefixes(data.total, id),
        step(state, EventModel::Notification { server_id: id, data, at }).0.snoozed
            == state.snoozed,
{
}

/// Whether an effect announces the start or the end of an incident that no snooze hides.
pub open spec fn announces_audible(
    effect: EffectModel,
    snoozed: Map<Text, Timestamp>,
    at: Timestamp,
) -> bool {
    exists|item: IncidentModel|
        #![trigger is_hidden(snoozed, item.key, at)]
        !is_hidden(snoozed, item.key, at) && (effect == began(item) || effect == ended(item.key))
}

/// No notification speaks of an incident that a snooze hides when it is received, and an update
/// without additions and removals notifies nobody.
pub proof fn snoozed_incidents_are_not_announced(
    state: StateModel,
    id: Text,
    data: NotificationModel,
    at: Timestamp,
)
    requires
        state.servers.contains_key(id),
    ensures
        ({
            let effects = step(
                state,
                EventModel::Notification { server_id: id, data, at },
            ).1.effects;
            &&& forall|i: int|
                0 <= i < effects.len() ==> announces_audible(
                    #[trigger] effects[i],
                    state.snoozed,
                    at,
                )
            &&& data.added.len() == 0 && data.removed.len() == 0 ==> effects.len() == 0
        }),
{
    let shown = |item: IncidentModel| !is_hidden(state.snoozed, item.key, at);
    let added = with_prefixes(data.added, id);
    let removed = with_prefixes(data.removed, id);
    lemma_filter_members(added, shown);
    lemma_filter_members(removed, shown);
    let effects = step(state, EventModel::Notification { server_id: id, data, at }).1.effects;
    assert forall|i: int| 0 <= i < effects.len() implies announces_audible(
        #[trigger] effects[i],
        state.snoozed,
        at,
    ) by {
        let count = added.filter(shown).len();
        if i < count {
            let item = added.filter(shown)[i];
            assert(shown(item));
            assert(!is_hidden(state.snoozed, item.key, at));
            assert(effects[i] == began(item));
        } else {
            let item = removed.filter(shown)[i - count];
            assert(shown(item));
            assert(!is_hidden(state.snoozed, item.key, at));
            assert(effects[i] == ended(item.key));
        }
    }
    added.lemma_filter_len(shown);
    removed.lemma_filter_len(shown);
}

/// Each incident is either active or snoozed: the two lists of a snapshot hold every incident
/// exactly once, in the common order.
pub proof fn snapshot_parts_the_incidents(state: StateModel, now: Timestamp, item: IncidentModel)
    ensures
        ({
            let all = all_incidents(state);
            let snapshot = snapshot_of(state, now);
            &&& snapshot.active.len() + snapshot.snoozed.len() == all.len()
            &&& snapshot.active.contains(item) <==> all.contains(item) && !is_hidden(
                state.snoozed,
                item.key,
                now,
            )
            &&& snapshot.snoozed.contains(
                SnoozedModel { incident: item, until: state.snoozed[item.key] },
            ) <==> all.contains(item) && is_hidden(state.snoozed, item.key, now)
        }),
{
    let all = all_incidents(state);
    let snapshot = snapshot_of(state, now);
    let shown = |it: IncidentModel| !is_hidden(state.snoozed, it.key, now);
    let hidden = |it: IncidentModel| is_hidden(state.snoozed, it.key, now);
    let paired = |it: IncidentModel| SnoozedModel { incident: it, until: state.snoozed[it.key] };
    lemma_parts(all, shown, hidden);
    lemma_filter_members(all, shown);
    lemma_filter_members(all, hidden);
    if all.contains(item) {
        let i = choose|i: int| 0 <= i < all.len() && all[i] == item;
        if shown(item) {
            assert(all.filter(shown).contains(all[i]));
        } else {
            assert(all.filter(hidden).contains(all[i]));
            let j = choose|j: int| 0 <= j < all.filter(hidden).len() && all.filter(hidden)[j] == item;
            assert(snapshot.snoozed[j] == paired(item));
        }
    }
    if snapshot.active.contains(item) {
        let i = choose|i: int| 0 <= i < snapshot.active.len() && snapshot.active[i] == item;
        assert(shown(all.filter(shown)[i]));
        assert(all.contains(all.filter(shown)[i]));
    }
    let pair = paired(item);
    if snapshot.snoozed.contains(pair) {
        let i = choose|i: int| 0 <= i < snapshot.snoozed.len() && snapshot.snoozed[i] == pair;
        assert(snapshot.snoozed[i] == paired(all.filter(hidden)[i]));
        assert(hidden(all.filter(hidden)[i]));
        assert(all.contains(all.filter(hidden)[i]));
    }
}

proof fn lemma_parts<A>(items: Seq<A>, p: spec_fn(A) -> bool, q: spec_fn(A) -> bool)
    requires
        forall|item: A| #[trigger] p(item) == !q(item),
    ensures
        items.filter(p).len() + items.filter(q).len() == items.len(),
    decreases items.len(),
{
    reveal(Seq::filter);
    if items.len() > 0 {
        lemma_parts(items.drop_last(), p, q);
    }
}

/// The severity of a set of incidents is that of its most severe one, by precedence.
pub proof fn overall_is_the_highest_severity(items: Seq<IncidentModel>, item: IncidentModel)
    ensures
        items.contains(item) ==> precedence(severity(item)) <= precedence(overall(items)),
        overall(items) == OverallState::Okay || any_is(items, overall(items)),
{
    if items.contains(item) {
        let i = choose|i: int| 0 <= i < items.len() && items[i] == item;
        assert(any_is(items, severity(items[i])));
    }
}

/// A snapshot shows an alert exactly where an active incident is one, whether or not every server
/// was heard of; snoozed incidents never raise it.
pub proof fn alerts_come_from_active_incidents(state: StateModel, now: Timestamp)
    ensures
        ({
            let snapshot = snapshot_of(state, now);
            let alert = snapshot.alerting_state;
            &&& alert == OverallState::Error <==> any_is(snapshot.active, OverallState::Error)
            &&& alert == OverallState::Okay || alert == OverallState::Unknown <==> overall(
                snapshot.active,
            ) == OverallState::Okay
            &&& alert == OverallState::Unknown <==> overall(snapshot.active) == OverallState::Okay
                && snapshot.unknown_server_count > 0
            &&& snapshot.snoozed_state is None <==> snapshot.snoozed.len() == 0
        }),
{
}

/// Whether a key belongs to a failure of a configured server: of its connection or of its tunnel.
pub open spec fn is_failure_key(ids: Seq<Text>, key: Text) -> bool {
    exists|i: int|
        0 <= i < ids.len() && (key == connection_key(#[trigger] ids[i]) || key == tunnel_key(
            ids[i],
        ))
}

/// Whether an incident stands under the name of its server.
pub open spec fn is_named_after(item: IncidentModel, id: Text) -> bool {
    (id + "."@).is_prefix_of(item.key)
}

/// Whether a server has its own ID, and is connected only once it was heard of.
pub open spec fn is_sound_server(server: ServerModel, id: Text) -> bool {
    server.id == id && (server.connected ==> server.initialized)
}

/// Whether an incident of the client itself stands under its own key, is a fresh error, and tells
/// of a failure of a configured server.
pub open spec fn is_sound_failure(ids: Seq<Text>, item: IncidentModel, key: Text) -> bool {
    &&& item.key == key
    &&& item.state == IncidentState::Error
    &&& !item.stale
    &&& is_failure_key(ids, key)
}

/// What holds of every state of a program with these servers.
pub open spec fn is_sound(ids: Seq<Text>, state: StateModel) -> bool {
    &&& state.server_order == ids
    &&& forall|id: Text| #[trigger] state.servers.contains_key(id) <==> ids.contains(id)
    &&& forall|id: Text| #[trigger]
        state.servers.contains_key(id) ==> is_sound_server(state.servers[id], id)
    &&& forall|id: Text| #[trigger] state.incidents.contains_key(id) ==> ids.contains(id)
    &&& forall|id: Text, i: int|
        state.incidents.contains_key(id) && 0 <= i < state.incidents[id].len() ==> is_named_after(
            #[trigger] state.incidents[id][i],
            id,
        )
    &&& forall|key: Text| #[trigger]
        state.internal_incidents.contains_key(key) ==> is_sound_failure(
            ids,
            state.internal_incidents[key],
            key,
        )
}

/// The state after a number of events.
pub open spec fn after_events(state: StateModel, events: Seq<EventModel>) -> StateModel
    decreases events.len(),
{
    if events.len() == 0 {
        state
    } else {
        step(after_events(state, events.drop_last()), events.last()).0
    }
}

/// Every state that events lead to is sound: the servers are those of the configuration, in its
/// order and under their own IDs; what a server listed stands under its name; and the client's
/// own incidents are fresh errors about configured servers, each under its own key.
pub proof fn reachable_states_are_sound(
    ids: Seq<Text>,
    snoozed: Map<Text, Timestamp>,
    events: Seq<EventModel>,
)
    ensures
        is_sound(ids, after_events(initial_state(ids, snoozed), events)),
    decreases events.len(),
{
    if events.len() > 0 {
        reachable_states_are_sound(ids, snoozed, events.drop_last());
        events_keep_states_sound(
            ids,
            after_events(initial_state(ids, snoozed), events.drop_last()),
            events.last(),
        );
    }
}

/// An event leads from a sound state to a sound state.
pub proof fn events_keep_states_sound(ids: Seq<Text>, state: StateModel, event: EventModel)
    requires
        is_sound(ids, state),
    ensures
        is_sound(ids, step(state, event).0),
{
    let next = step(state, event).0;
    if let Some(id) = source(event) {
        if state.servers.contains_key(id) {
            let n = choose|n: int| 0 <= n < ids.len() && ids[n] == id;
            assert(is_failure_key(ids, connection_key(ids[n])));
            assert(is_failure_key(ids, tunnel_key(ids[n])));
        }
    }
    assert forall|id: Text, i: int|
        next.incidents.contains_key(id) && 0 <= i < next.incidents[id].len() implies is_named_after(
        #[trigger] next.incidents[id][i],
        id,
    ) by {
        lemma_names_stay(ids, state, event, id, i);
    }
}

proof fn lemma_names_stay(
    ids: Seq<Text>,
    state: StateModel,
    event: EventModel,
    id: Text,
    i: int,
)
    requires
        is_sound(ids, state),
        step(state, event).0.incidents.contains_key(id),
        0 <= i < step(state, event).0.incidents[id].len(),
    ensures
        is_named_after(step(state, event).0.incidents[id][i], id),
{
    let next = step(state, event).0.incidents[id];
    match event {
        EventModel::Notification { server_id, data, .. } => {
            if state.servers.contains_key(server_id) && server_id == id {
                assert(next == with_prefixes(data.total, id));
                assert(next[i].key == id + "."@ + data.total[i].key);
                assert((id + "."@).is_prefix_of(next[i].key));
            } else {
                assert(next == state.incidents[id]);
                assert(is_named_after(state.incidents[id][i], id));
            }
        },
        EventModel::ForgetStale { key } => {
            let before = state.incidents[id];
            let keep = |item: IncidentModel| survives(item, key);
            assert(next == before.filter(keep));
            lemma_filter_members(before, keep);
            let n = choose|n: int| 0 <= n < before.len() && before[n] == next[i];
            assert(is_named_after(state.incidents[id][n], id));
        },
        _ => {
            assert(next.len() == state.incidents[id].len());
            assert(is_named_after(state.incidents[id][i], id));
            assert(next[i].key == state.incidents[id][i].key);
        },
    }
}

/// Where an event reports no change, the state is as it was.
pub proof fn unchanged_states_are_kept(state: StateModel, event: EventModel)
    requires
        !step(state, event).1.changed,
    ensures
        step(state, event).0 == state,
{
    let next = step(state, event).0;
    assert(next.servers =~= state.servers);
    assert forall|id: Text| #[trigger]
        state.incidents.contains_key(id) implies next.incidents[id] == state.incidents[id] by {
        match event {
            EventModel::ForgetStale { key } => {
                let keep = |item: IncidentModel| survives(item, key);
                assert(next.incidents[id] == state.incidents[id].filter(keep));
                lemma_full_filter(state.incidents[id], keep);
            },
            _ => {
                assert(next.incidents[id] =~= state.incidents[id]);
            },
        }
    }
    assert(next.incidents =~= state.incidents);
    assert(next.internal_incidents =~= state.internal_incidents);
}

proof fn lemma_full_filter<A>(items: Seq<A>, keep: spec_fn(A) -> bool)
    ensures
        items.filter(keep).len() <= items.len(),
        items.filter(keep).len() == items.len() ==> items.filter(keep) == items,
    decreases items.len(),
{
    reveal(Seq::filter);
    if items.len() > 0 {
        lemma_full_filter(items.drop_last(), keep);
        assert(items.drop_last().push(items.last()) =~= items);
    }
}

} // verus!
