//! What the texts and rows of the window tell.

use vstd::prelude::*;

use super::projection::{absolute_words, are_active_rows, are_server_rows, are_snoozed_rows,
    duration_words, heartbeat_look, instant_to_millis, is_incident_row, is_server_row, may_be_local,
    online_count, relative_words, seconds_to_millis, summary_words, tells, tells_wire_time,
    timestamp_words, tray_severity, two_digits, CivilTime, HeartbeatStatus, IncidentView, Row,
    ServerView};
use crate::domain::model;
use crate::domain::model::{IncidentModel, IncidentState, ServerModel, SnoozedModel};
use crate::text::{all_digits, decimal, digits_value, numerals_are_read_back, signed_decimal,
    signed_value, Text};
use crate::timestamp::{rfc3339_reading, Timestamp};
use crate::tray::OverallState;

verus! {

/// From a day on, a length is told in whole days and hours: the numbers named add up to the length,
/// rounded down to the hour. Hours are left out where there are none.
pub proof fn long_times_are_told_in_days_and_hours(seconds: int, days: int, hours: int)
    requires
        days >= 1,
        0 <= hours < 24,
        days * 86_400 + hours * 3_600 <= seconds < days * 86_400 + (hours + 1) * 3_600,
    ensures
        hours == 0 ==> duration_words(seconds) == decimal(days as nat) + "d"@,
        hours > 0 ==> duration_words(seconds) == decimal(days as nat) + "d"@ + " "@ + decimal(
            hours as nat,
        ) + "h"@,
{
    assert(seconds / 86_400 == days);
    assert(seconds / 3_600 == days * 24 + hours);
    assert((days * 24 + hours) % 24 == hours);
}

/// From an hour to a day, a length is told in whole hours and minutes: the numbers named add up to
/// the length, rounded down to the minute. Minutes are left out where there are none.
pub proof fn hours_are_told_with_their_minutes(seconds: int, hours: int, minutes: int)
    requires
        1 <= hours < 24,
        0 <= minutes < 60,
        hours * 3_600 + minutes * 60 <= seconds < hours * 3_600 + (minutes + 1) * 60,
    ensures
        minutes == 0 ==> duration_words(seconds) == decimal(hours as nat) + "h"@,
        minutes > 0 ==> duration_words(seconds) == decimal(hours as nat) + "h"@ + " "@ + decimal(
            minutes as nat,
        ) + "m"@,
{
    assert(seconds / 3_600 == hours);
    assert(seconds / 60 == hours * 60 + minutes);
    assert((hours * 60 + minutes) % 60 == minutes);
}

/// From a minute to an hour, a length is told in whole minutes. From a quarter of a minute on it is
/// told in quarters, and a shorter one is only told to be short.
pub proof fn short_times_are_told_in_one_unit(seconds: int, minutes: int, quarters: int)
    ensures
        1 <= minutes < 60 && minutes * 60 <= seconds < (minutes + 1) * 60 ==> duration_words(
            seconds,
        ) == decimal(minutes as nat) + "m"@,
        1 <= quarters < 4 && quarters * 15 <= seconds < (quarters + 1) * 15 ==> duration_words(
            seconds,
        ) == decimal((quarters * 15) as nat) + "s"@,
        seconds < 15 ==> duration_words(seconds) == "<15s"@,
{
}

/// What is past is told as so long ago, rounded down to the second; what is ahead as so far ahead,
/// rounded up.
pub proof fn distances_are_told_from_now(value_millis: int, now_millis: int, seconds: int)
    ensures
        value_millis <= now_millis && seconds * 1000 <= now_millis - value_millis < (seconds + 1)
            * 1000 ==> relative_words(value_millis, now_millis) == duration_words(seconds)
            + " ago"@,
        value_millis > now_millis && (seconds - 1) * 1000 < value_millis - now_millis <= seconds
            * 1000 ==> relative_words(value_millis, now_millis) == "in "@ + duration_words(seconds),
{
}

/// The time of day is told with two digits each, whose values are those of the clock.
pub proof fn clocks_have_two_digits(number: nat)
    requires
        number < 100,
    ensures
        two_digits(number).len() == 2,
        all_digits(two_digits(number)),
        digits_value(two_digits(number)) == number,
{
    reveal_strlit("0");
    numerals_are_read_back(number);
    reveal_with_fuel(decimal, 3);
    let text = two_digits(number);
    reveal_with_fuel(digits_value, 3);
    if number < 10 {
        assert(text =~= seq!['0', decimal(number)[0]]);
        assert(text.drop_last() =~= seq!['0']);
        assert(text.drop_last().drop_last() =~= Seq::<char>::empty());
        assert(decimal(number).drop_last() =~= Seq::<char>::empty());
    } else {
        assert(decimal(number / 10).len() == 1);
    }
}

/// A date and time is told with the time of day at its end. What comes before is nothing on the
/// same day, the month and the day in the same year, and the year too in another.
pub proof fn dates_are_told_as_far_as_they_differ(value: CivilTime, now: CivilTime)
    ensures
        ({
            let clock = two_digits(value.hour as nat) + ":"@ + two_digits(value.minute as nat)
                + ":"@ + two_digits(value.second as nat);
            let words = absolute_words(value, now);
            let same_year = value.year == now.year;
            let same_day = same_year && value.month == now.month && value.day == now.day;
            let date = super::projection::month_word(value.month as int) + " "@ + decimal(
                value.day as nat,
            );
            &&& same_day ==> words == clock
            &&& same_year && !same_day ==> words == date + ", "@ + clock
            &&& !same_year ==> words == date + ", "@ + signed_decimal(value.year as int) + ", "@
                + clock
        }),
{
}

/// The months have their own names, each other than the rest.
pub proof fn months_are_told_apart(month: int, other: int)
    requires
        1 <= month < other <= 12,
    ensures
        super::projection::month_word(month) != super::projection::month_word(other),
        super::projection::month_word(month).len() == 3,
{
    reveal_strlit("Jan");
    reveal_strlit("Feb");
    reveal_strlit("Mar");
    reveal_strlit("Apr");
    reveal_strlit("May");
    reveal_strlit("Jun");
    reveal_strlit("Jul");
    reveal_strlit("Aug");
    reveal_strlit("Sep");
    reveal_strlit("Oct");
    reveal_strlit("Nov");
    reveal_strlit("Dec");
    let a = super::projection::month_word(month);
    let b = super::projection::month_word(other);
    assert(a[0] != b[0] || a[1] != b[1] || a[2] != b[2]);
}

/// An instant with a date is told by that date and by its distance; one without by its number.
pub proof fn instants_are_told_twice(
    value_millis: int,
    now_millis: int,
    value: Option<CivilTime>,
    now: Option<CivilTime>,
)
    ensures
        value is Some && now is Some ==> timestamp_words(value_millis, now_millis, value, now)
            == absolute_words(value->0, now->0) + " ("@ + relative_words(value_millis, now_millis)
            + ")"@,
        value is None || now is None ==> timestamp_words(value_millis, now_millis, value, now)
            == signed_decimal(value_millis),
{
}

/// Seconds and instants become milliseconds that lie in them: nothing but the part of a
/// millisecond is lost, as long as the number fits.
pub proof fn milliseconds_lie_in_their_instants(seconds: i64, at: Timestamp)
    ensures
        i64::MIN <= seconds * 1000 <= i64::MAX ==> seconds_to_millis(seconds) == seconds * 1000,
        seconds * 1000 > i64::MAX ==> seconds_to_millis(seconds) == i64::MAX,
        seconds * 1000 < i64::MIN ==> seconds_to_millis(seconds) == i64::MIN,
        i64::MIN * 1_000_000 <= at < (i64::MAX + 1) * 1_000_000 ==> instant_to_millis(at)
            * 1_000_000 <= at < (instant_to_millis(at) + 1) * 1_000_000,
{
}

/// A start that a server sent is told as an instant where it is one in RFC 3339 or a number of
/// seconds; any other text stands for itself, and an empty one for never.
pub proof fn starts_are_told_or_stand_for_themselves(
    text: Text,
    value: Text,
    reading: Result<i128, Text>,
    now_millis: int,
)
    requires
        tells_wire_time(text, value, reading, now_millis),
    ensures
        value.len() == 0 ==> text == "never"@,
        value.len() > 0 && reading is Err && signed_value(value) is None ==> text == value,
        value.len() > 0 && reading is Err && signed_value(value) is Some ==> tells(
            text,
            seconds_to_millis(signed_value(value)->0) as int,
            now_millis,
        ),
        value.len() > 0 && reading is Ok && i64::MIN <= reading->Ok_0 as int / 1_000_000 <= i64::MAX
            ==> tells(text, reading->Ok_0 as int / 1_000_000, now_millis),
        value.len() > 0 && reading is Ok && !(i64::MIN <= reading->Ok_0 as int / 1_000_000
            <= i64::MAX) ==> text == value,
{
}

/// A told instant names a date and a time less than a day away from the instant in UTC, and its
/// distance from now; without a date it is its number.
pub proof fn told_instants_are_near(text: Text, value_millis: int, now_millis: int)
    requires
        tells(text, value_millis, now_millis),
    ensures
        exists|value: Option<CivilTime>, now: Option<CivilTime>| #[trigger]
            may_be_local(value, value_millis) && #[trigger] may_be_local(now, now_millis) && (
            value is Some && now is Some ==> text == absolute_words(value->0, now->0) + " ("@
                + relative_words(value_millis, now_millis) + ")"@) && (value is None || now is None
                ==> text == signed_decimal(value_millis)),
{
    let (value, now) = choose|value: Option<CivilTime>, now: Option<CivilTime>|
        #![trigger timestamp_words(value_millis, now_millis, value, now)]
        may_be_local(value, value_millis) && may_be_local(now, now_millis) && text
            == timestamp_words(value_millis, now_millis, value, now);
    assert(may_be_local(value, value_millis) && may_be_local(now, now_millis));
}

/// A heartbeat is fine for a quarter of a minute, then a warning for another, and then overdue.
pub proof fn heartbeats_age_in_two_steps(value: i64, now_millis: int)
    ensures
        heartbeat_look(None, now_millis) == HeartbeatStatus::Normal,
        heartbeat_look(Some(value), now_millis) == HeartbeatStatus::Normal <==> now_millis < value
            + 15_000,
        heartbeat_look(Some(value), now_millis) == HeartbeatStatus::Warning <==> value + 15_000
            <= now_millis < value + 30_000,
        heartbeat_look(Some(value), now_millis) == HeartbeatStatus::Overdue <==> value + 30_000
            <= now_millis,
{
}

/// A server's row has its ID, says online exactly where it is connected and connecting where it
/// was not heard of, and marks its heartbeat by its age.
pub proof fn server_rows_tell_the_truth(view: ServerView, server: ServerModel, now_millis: int)
    requires
        is_server_row(view, server, now_millis),
    ensures
        view.id@ == server.id,
        view.connected <==> server.connected,
        server.connected ==> view.connection@ == "online"@,
        !server.connected && server.initialized ==> view.connection@ == "offline"@,
        !server.connected && !server.initialized ==> view.connection@ == "connecting"@,
        server.last_heartbeat_at is None ==> view.last_heartbeat@ == "never"@
            && !view.heartbeat_warning && !view.heartbeat_overdue,
        server.last_heartbeat_at matches Some(at) ==> {
            let age = now_millis - instant_to_millis(at);
            &&& tells(view.last_heartbeat@, instant_to_millis(at) as int, now_millis)
            &&& view.heartbeat_warning <==> 15_000 <= age < 30_000
            &&& view.heartbeat_overdue <==> 30_000 <= age
        },
{
}

/// An incident's row has its key and details, names its state, and says that it is stale or
/// snoozed where it is. The client's own troubles have a colour of their own.
pub proof fn incident_rows_tell_the_truth(
    view: IncidentView,
    incident: IncidentModel,
    snoozed_until: Option<Timestamp>,
    now_millis: int,
)
    requires
        is_incident_row(view, incident, snoozed_until, now_millis),
    ensures
        ({
            let word = if incident.state == IncidentState::Error {
                "error"@
            } else if incident.state == IncidentState::Warning {
                "warning"@
            } else {
                "ok"@
            };
            let own = "internal."@.is_prefix_of(incident.key);
            &&& view.key@ == incident.key
            &&& view.details@ == incident.details
            &&& tells_wire_time(
                view.started_at@,
                incident.incident_started_at,
                rfc3339_reading(incident.incident_started_at),
                now_millis,
            )
            &&& view.stale == incident.stale
            &&& view.snoozed <==> snoozed_until is Some
            &&& incident.stale ==> view.state@ == word + " (STALE)"@
            &&& !incident.stale && snoozed_until is Some ==> view.state@ == word + " (SNOOZED)"@
            &&& !incident.stale && snoozed_until is None ==> view.state@ == word
            &&& snoozed_until is None ==> view.snoozed_until@.len() == 0
            &&& snoozed_until matches Some(until) ==> tells(
                view.snoozed_until@,
                instant_to_millis(until) as int,
                now_millis,
            )
            &&& incident.state == IncidentState::Okay ==> view.severity == 1
            &&& incident.state == IncidentState::Warning && !own ==> view.severity == 2
            &&& incident.state == IncidentState::Error && !own ==> view.severity == 3
            &&& incident.state != IncidentState::Okay && own ==> view.severity == 4
        }),
{
}

/// One more server is counted as online exactly where it is connected, and the line above the list
/// names both counts.
pub proof fn online_servers_are_counted(servers: Seq<ServerModel>, server: ServerModel)
    ensures
        online_count(Seq::empty()) == 0,
        server.connected ==> online_count(servers.push(server)) == online_count(servers) + 1,
        !server.connected ==> online_count(servers.push(server)) == online_count(servers),
        online_count(servers) <= servers.len(),
        summary_words(online_count(servers), servers.len()) == decimal(online_count(servers))
            + "/"@ + decimal(servers.len()) + " servers are online"@,
    decreases servers.len(),
{
    assert(servers.push(server).drop_last() =~= servers);
    if servers.len() > 0 {
        online_servers_are_counted(servers.drop_last(), server);
    }
}

/// The tray shows the severity that the state machine found, whichever it is.
pub proof fn the_tray_shows_what_was_found(state: model::OverallState)
    ensures
        tray_severity(state) == OverallState::Error <==> state == model::OverallState::Error,
        tray_severity(state) == OverallState::Warning <==> state == model::OverallState::Warning,
        tray_severity(state) == OverallState::InternalError <==> state
            == model::OverallState::InternalError,
        tray_severity(state) == OverallState::Unknown <==> state == model::OverallState::Unknown,
        tray_severity(state) == OverallState::Okay <==> state == model::OverallState::Okay,
{
}

/// Each thing in a snapshot has one row, and the rows stand in the order of the things: for servers,
/// for incidents that are not snoozed, and for those that are.
pub proof fn rows_stand_for_the_snapshot(
    servers: Seq<ServerModel>,
    server_views: Seq<ServerView>,
    active: Seq<IncidentModel>,
    active_views: Seq<IncidentView>,
    snoozed: Seq<SnoozedModel>,
    snoozed_views: Seq<IncidentView>,
    now_millis: int,
    i: int,
)
    requires
        are_server_rows(server_views, servers, now_millis),
        are_active_rows(active_views, active, now_millis),
        are_snoozed_rows(snoozed_views, snoozed, now_millis),
    ensures
        server_views.len() == servers.len(),
        active_views.len() == active.len(),
        snoozed_views.len() == snoozed.len(),
        0 <= i < servers.len() ==> server_views[i].id@ == servers[i].id && server_views[i].connected
            == servers[i].connected,
        0 <= i < active.len() ==> active_views[i].key@ == active[i].key && active_views[i].details@
            == active[i].details && !active_views[i].snoozed,
        0 <= i < snoozed.len() ==> snoozed_views[i].key@ == snoozed[i].incident.key
            && snoozed_views[i].details@ == snoozed[i].incident.details && snoozed_views[i].snoozed
            && tells(
            snoozed_views[i].snoozed_until@,
            instant_to_millis(snoozed[i].until) as int,
            now_millis,
        ),
{
}

/// Two rows show the same only where everything about them is the same, and they stand for the same
/// thing only where its name is.
pub proof fn rows_show_everything_about_them(
    server: ServerView,
    other_server: ServerView,
    incident: IncidentView,
    other_incident: IncidentView,
)
    ensures
        server.identity() == other_server.identity() <==> server.id@ == other_server.id@,
        incident.identity() == other_incident.identity() <==> incident.key@ == other_incident.key@,
        server.shows(&other_server) <==> server.id@ == other_server.id@ && server.connection@
            == other_server.connection@ && server.last_heartbeat@ == other_server.last_heartbeat@
            && server.connected == other_server.connected && server.heartbeat_warning
            == other_server.heartbeat_warning && server.heartbeat_overdue
            == other_server.heartbeat_overdue,
        incident.shows(&other_incident) <==> incident.key@ == other_incident.key@ && incident.state@
            == other_incident.state@ && incident.details@ == other_incident.details@
            && incident.started_at@ == other_incident.started_at@ && incident.snoozed_until@
            == other_incident.snoozed_until@ && incident.severity == other_incident.severity
            && incident.stale == other_incident.stale && incident.snoozed
            == other_incident.snoozed,
{
}

} // verus!
