//! The event pump: what is logged, written, announced and published for each event.

use vstd::prelude::*;
use vstd::string::*;

use crate::domain::effect::{Effect, SnoozeAction, SnoozeActionModel};
use crate::domain::event::{Event, EventModel};
use crate::domain::model::{AppState, Incident, IncidentModel, NotificationModel, StateModel,
    UiSnapshot};
use crate::domain::reducer::{is_datable, state_name, state_word, step, Reducer};
use crate::logging::Level;
use crate::table::Table;
use crate::text::{chars_of, code_point, decimal, decimal_text, is_control, is_control_char,
    joined, push_char, signed_decimal, signed_decimal_text, Text};
use crate::timestamp::Timestamp;

verus! {

/// An instant of a clock that never goes back, in nanoseconds.
pub type Moment = u128;

/// How many characters of incident details a log line holds.
pub const MAX_LOG_DETAILS_CHARS: usize = 1_000;

/// How long the automatic removal of snoozes waits after a write failed, in nanoseconds.
pub const EXPIRY_PERSISTENCE_RETRY_DELAY: u128 = 10_000_000_000;

const NANOSECONDS_PER_SECOND: i128 = 1_000_000_000;

/// One line for the log.
#[derive(Debug, PartialEq, Eq)]
pub struct EventLogLine {
    pub level: Level,
    pub message: String,
}

/// What an [`EventLogLine`] says.
#[verifier::ext_equal]
pub struct LineModel {
    pub level: Level,
    pub message: Text,
}

impl View for EventLogLine {
    type V = LineModel;

    open spec fn view(&self) -> LineModel {
        LineModel { level: self.level, message: self.message@ }
    }
}

impl DeepView for EventLogLine {
    type V = LineModel;

    open spec fn deep_view(&self) -> LineModel {
        self.view()
    }
}

/// A line of level `Info`.
pub open spec fn info_line(message: Text) -> LineModel {
    LineModel { level: Level::Info, message }
}

/// A line of level `Info`.
pub fn info(message: String) -> (line: EventLogLine)
    ensures
        line@ == info_line(message@),
{
    EventLogLine { level: Level::Info, message }
}

// ---------------------------------------------------------------------------------------------
// Lines for incidents
// ---------------------------------------------------------------------------------------------

/// A character as it stands in a log: one that could break or forge a line is a space.
pub open spec fn log_char(ch: char) -> char {
    if is_control(ch) || ch == '\u{2028}' || ch == '\u{2029}' {
        ' '
    } else {
        ch
    }
}

/// Details as they stand in a log: one line of bounded length.
pub open spec fn logged_details(details: Text) -> Text {
    let flat = details.map_values(|ch: char| log_char(ch));
    if flat.len() > MAX_LOG_DETAILS_CHARS {
        flat.take(MAX_LOG_DETAILS_CHARS as int).push('\u{2026}')
    } else {
        flat
    }
}

/// Puts details, which a server is free to choose, into one line of bounded length.
pub fn log_details(details: &str) -> (limited: String)
    ensures
        limited@ == logged_details(details@),
{
    let chars = chars_of(details);
    let ghost flat = details@.map_values(|ch: char| log_char(ch));
    let mut limited = String::new();
    let mut i: usize = 0;
    while i < chars.len() && i < MAX_LOG_DETAILS_CHARS
        invariant
            chars@ == details@,
            flat == details@.map_values(|ch: char| log_char(ch)),
            i <= chars.len(),
            i <= MAX_LOG_DETAILS_CHARS,
            limited@ == flat.take(i as int),
        decreases chars.len() - i,
    {
        let ch: char = chars[i];
        let number: u32 = code_point(ch);
        if is_control_char(ch) || number == 0x2028 || number == 0x2029 {
            push_char(&mut limited, ' ');
        } else {
            push_char(&mut limited, ch);
        }
        assert(limited@ =~= flat.take(i + 1));
        i += 1;
    }
    if chars.len() > MAX_LOG_DETAILS_CHARS {
        push_char(&mut limited, '\u{2026}');
    } else {
        assert(flat.take(i as int) =~= flat);
    }
    limited
}

/// No details break a log line or make it long.
pub proof fn logged_details_are_one_short_line(details: Text)
    ensures
        logged_details(details).len() <= MAX_LOG_DETAILS_CHARS + 1,
        forall|i: int|
            0 <= i < logged_details(details).len() ==> !is_control(
                #[trigger] logged_details(details)[i],
            ) && logged_details(details)[i] != '\u{2028}' && logged_details(details)[i]
                != '\u{2029}',
{
}

/// The line that tells what became of an incident.
pub open spec fn incident_message(server_id: Text, action: Text, incident: IncidentModel) -> Text {
    let head = "server "@ + server_id + " "@ + action + " incident "@ + incident.key + " ("@
        + state_word(incident.state) + ")"@;
    if incident.details.len() > 0 {
        head + ": "@ + logged_details(incident.details)
    } else {
        head
    }
}

/// Tells what became of an incident.
pub fn incident_line(server_id: &str, action: &str, incident: &Incident) -> (line: String)
    ensures
        line@ == incident_message(server_id@, action@, incident@),
{
    let head = joined("server ", server_id).concat(" ").concat(action).concat(" incident ").concat(
        incident.key.as_str(),
    ).concat(" (").concat(state_name(incident.state)).concat(")");
    if !incident.details.as_str().is_empty() {
        let details = log_details(incident.details.as_str());
        head.concat(": ").concat(details.as_str())
    } else {
        head
    }
}

/// The line that tells of an incident that is over.
pub open spec fn resolved_message(server_id: Text, key: Text) -> Text {
    "server "@ + server_id + " resolved incident "@ + key
}

/// What the log remembers of the servers; it is kept apart from the state.
pub struct EventLogState {
    /// Servers whose next message is their full list, after they connected.
    awaiting_snapshot: Table<()>,
    /// Servers that sent a list before.
    synchronized: Table<()>,
}

/// What an [`EventLogState`] says.
#[verifier::ext_equal]
pub struct LogModel {
    pub awaiting_snapshot: Set<Text>,
    pub synchronized: Set<Text>,
}

impl View for EventLogState {
    type V = LogModel;

    closed spec fn view(&self) -> LogModel {
        LogModel {
            awaiting_snapshot: self.awaiting_snapshot@.dom(),
            synchronized: self.synchronized@.dom(),
        }
    }
}

/// Whether the next message of a server is logged as a full list.
pub open spec fn starts_over(logs: LogModel, server_id: Text) -> bool {
    logs.awaiting_snapshot.contains(server_id) || !logs.synchronized.contains(server_id)
}

/// A line for each incident of a list.
pub open spec fn incident_lines(
    server_id: Text,
    action: Text,
    items: Seq<IncidentModel>,
) -> Seq<LineModel> {
    items.map_values(
        |item: IncidentModel| info_line(incident_message(server_id, action, item)),
    )
}

/// A line for each incident that is over.
pub open spec fn resolved_lines(server_id: Text, items: Seq<IncidentModel>) -> Seq<LineModel> {
    items.map_values(|item: IncidentModel| info_line(resolved_message(server_id, item.key)))
}

/// The lines for an event.
pub open spec fn event_lines(logs: LogModel, event: EventModel) -> Seq<LineModel> {
    match event {
        EventModel::Notification { server_id, data, .. } => if starts_over(logs, server_id) {
            seq![
                info_line(
                    "server "@ + server_id + " synchronized: "@ + decimal(data.total.len())
                        + " ongoing incidents"@,
                ),
            ] + incident_lines(server_id, "ongoing"@, data.total)
        } else {
            seq![
                info_line(
                    "server "@ + server_id + " incident update: "@ + decimal(data.added.len())
                        + " added, "@ + decimal(data.updated.len()) + " updated, "@ + decimal(
                        data.removed.len(),
                    ) + " resolved; "@ + decimal(data.total.len()) + " ongoing incidents"@,
                ),
            ] + incident_lines(server_id, "added"@, data.added) + incident_lines(
                server_id,
                "updated"@,
                data.updated,
            ) + resolved_lines(server_id, data.removed)
        },
        EventModel::Heartbeat { server_id, .. } => seq![
            LineModel {
                level: Level::Debug,
                message: "server "@ + server_id + " received heartbeat"@,
            },
        ],
        EventModel::ForgetStale { key } => seq![info_line("forgot stale incident "@ + key)],
        _ => Seq::empty(),
    }
}

/// What the log remembers after an event.
pub open spec fn logs_after(logs: LogModel, event: EventModel) -> LogModel {
    match event {
        EventModel::Connected { server_id, .. } => LogModel {
            awaiting_snapshot: logs.awaiting_snapshot.insert(server_id),
            ..logs
        },
        EventModel::Notification { server_id, .. } => LogModel {
            awaiting_snapshot: logs.awaiting_snapshot.remove(server_id),
            synchronized: logs.synchronized.insert(server_id),
        },
        _ => logs,
    }
}

fn push_incident_lines(
    lines: &mut Vec<EventLogLine>,
    server_id: &str,
    action: &str,
    items: &Vec<Incident>,
)
    ensures
        final(lines).deep_view() == old(lines).deep_view() + incident_lines(
            server_id@,
            action@,
            items.deep_view(),
        ),
{
    let ghost before = lines.deep_view();
    let ghost added = incident_lines(server_id@, action@, items.deep_view());
    let mut i: usize = 0;
    assert(before + added.take(0) =~= before);
    while i < items.len()
        invariant
            added == incident_lines(server_id@, action@, items.deep_view()),
            i <= items.len(),
            lines.deep_view() == before + added.take(i as int),
        decreases items.len() - i,
    {
        let ghost last = lines.deep_view();
        let line = info(incident_line(server_id, action, &items[i]));
        assert(added[i as int] == line@);
        lines.push(line);
        assert(lines.deep_view() =~= last.push(added[i as int]));
        assert(lines.deep_view() =~= before + added.take(i + 1));
        i += 1;
    }
    assert(added.take(i as int) =~= added);
}

fn push_resolved_lines(lines: &mut Vec<EventLogLine>, server_id: &str, items: &Vec<Incident>)
    ensures
        final(lines).deep_view() == old(lines).deep_view() + resolved_lines(
            server_id@,
            items.deep_view(),
        ),
{
    let ghost before = lines.deep_view();
    let ghost added = resolved_lines(server_id@, items.deep_view());
    let mut i: usize = 0;
    assert(before + added.take(0) =~= before);
    while i < items.len()
        invariant
            added == resolved_lines(server_id@, items.deep_view()),
            i <= items.len(),
            lines.deep_view() == before + added.take(i as int),
        decreases items.len() - i,
    {
        let ghost last = lines.deep_view();
        let line = info(
            joined("server ", server_id).concat(" resolved incident ").concat(items[i].key.as_str()),
        );
        assert(added[i as int] == line@);
        lines.push(line);
        assert(lines.deep_view() =~= last.push(added[i as int]));
        assert(lines.deep_view() =~= before + added.take(i + 1));
        i += 1;
    }
    assert(added.take(i as int) =~= added);
}

fn single(line: EventLogLine) -> (lines: Vec<EventLogLine>)
    ensures
        lines.deep_view() == seq![line@],
{
    let ghost model = line@;
    let mut lines: Vec<EventLogLine> = Vec::new();
    lines.push(line);
    assert(lines.deep_view() =~= seq![model]);
    lines
}

fn no_lines() -> (lines: Vec<EventLogLine>)
    ensures
        lines.deep_view() == Seq::<LineModel>::empty(),
{
    let lines: Vec<EventLogLine> = Vec::new();
    assert(lines.deep_view() =~= Seq::<LineModel>::empty());
    lines
}

fn count_text(items: &Vec<Incident>) -> (text: String)
    ensures
        text@ == decimal(items.deep_view().len()),
{
    decimal_text(items.len() as u128)
}

impl EventLogState {
    /// Nothing was logged yet.
    pub fn new() -> (logs: Self)
        ensures
            logs@ == (LogModel { awaiting_snapshot: Set::empty(), synchronized: Set::empty() }),
    {
        let logs = EventLogState { awaiting_snapshot: Table::new(), synchronized: Table::new() };
        assert(logs@.awaiting_snapshot =~= Set::empty());
        assert(logs@.synchronized =~= Set::empty());
        logs
    }

    /// The lines for an event that is about to be handled.
    pub fn lines(&mut self, event: &Event) -> (lines: Vec<EventLogLine>)
        ensures
            lines.deep_view() == event_lines(old(self)@, event@),
            final(self)@ == logs_after(old(self)@, event@),
    {
        match event {
            Event::Connected { server_id, .. } => {
                self.awaiting_snapshot.insert(server_id.clone(), ());
                assert(self@.awaiting_snapshot =~= logs_after(old(self)@, event@).awaiting_snapshot);
                no_lines()
            },
            Event::Notification { server_id, data, .. } => {
                let was_awaiting = self.awaiting_snapshot.remove(server_id.as_str());
                let first_snapshot = !self.synchronized.contains_key(server_id.as_str());
                self.synchronized.insert(server_id.clone(), ());
                proof {
                    let goal = logs_after(old(self)@, event@);
                    assert(self@.awaiting_snapshot =~= goal.awaiting_snapshot);
                    assert(self@.synchronized =~= goal.synchronized);
                }
                let id = server_id.as_str();
                let total = count_text(&data.total);
                if was_awaiting || first_snapshot {
                    let mut lines = single(
                        info(
                            joined("server ", id).concat(" synchronized: ").concat(
                                total.as_str(),
                            ).concat(" ongoing incidents"),
                        ),
                    );
                    push_incident_lines(&mut lines, id, "ongoing", &data.total);
                    lines
                } else {
                    let added = count_text(&data.added);
                    let updated = count_text(&data.updated);
                    let removed = count_text(&data.removed);
                    let mut lines = single(
                        info(
                            joined("server ", id).concat(" incident update: ").concat(
                                added.as_str(),
                            ).concat(" added, ").concat(updated.as_str()).concat(
                                " updated, ",
                            ).concat(removed.as_str()).concat(" resolved; ").concat(
                                total.as_str(),
                            ).concat(" ongoing incidents"),
                        ),
                    );
                    push_incident_lines(&mut lines, id, "added", &data.added);
                    push_incident_lines(&mut lines, id, "updated", &data.updated);
                    push_resolved_lines(&mut lines, id, &data.removed);
                    lines
                }
            },
            Event::Heartbeat { server_id, .. } => single(
                EventLogLine {
                    level: Level::Debug,
                    message: joined("server ", server_id.as_str()).concat(" received heartbeat"),
                },
            ),
            Event::ForgetStale { key } => single(
                info(joined("forgot stale incident ", key.as_str())),
            ),
            _ => no_lines(),
        }
    }
}

/// A request to snooze, to end a snooze or to clean up is not logged as if it had succeeded.
pub proof fn snooze_requests_are_not_logged(logs: LogModel, event: EventModel)
    requires
        event is Snooze || event is Unsnooze || event is Tick || event is SnoozesPersisted,
    ensures
        event_lines(logs, event).len() == 0,
        logs_after(logs, event) == logs,
{
}

/// After a server connected, its next list is logged in full, and the one after that by its
/// changes unless the server connected again in between.
pub proof fn each_connection_logs_one_full_list(
    logs: LogModel,
    server_id: Text,
    connected: EventModel,
    listed: EventModel,
)
    requires
        connected matches EventModel::Connected { server_id: id, .. } && id == server_id,
        listed matches EventModel::Notification { server_id: id, .. } && id == server_id,
    ensures
        starts_over(logs_after(logs, connected), server_id),
        !starts_over(logs_after(logs, listed), server_id),
{
}

// ---------------------------------------------------------------------------------------------
// Writing snoozes
// ---------------------------------------------------------------------------------------------

/// The seconds of an instant since the start of 1970, rounded down.
pub open spec fn whole_seconds(at: Timestamp) -> int {
    at as int / 1_000_000_000
}

fn seconds_of(at: Timestamp) -> (seconds: i128)
    ensures
        seconds == whole_seconds(at),
{
    if at >= 0 {
        at / 1_000_000_000
    } else {
        let size: i128 = -(at + 1);
        assert(at as int / 1_000_000_000 == -(size as int / 1_000_000_000) - 1) by (nonlinear_arith)
            requires
                size == -(at + 1),
        ;
        -(size / 1_000_000_000) - 1
    }
}

/// The lines for snoozes that were written. A deadline is told in seconds.
pub open spec fn success_lines(action: SnoozeActionModel) -> Seq<LineModel> {
    match action {
        SnoozeActionModel::SetDeadline { key, until } => seq![
            info_line(
                "snoozed incident "@ + key + " until "@ + signed_decimal(whole_seconds(until)),
            ),
        ],
        SnoozeActionModel::Remove { key } => seq![info_line("unsnoozed incident "@ + key)],
        SnoozeActionModel::Expire { keys } => keys.map_values(
            |key: Text| info_line("snooze expired for incident "@ + key),
        ),
    }
}

/// The lines for snoozes that were written.
pub fn snooze_success_lines(action: &SnoozeAction) -> (lines: Vec<EventLogLine>)
    ensures
        lines.deep_view() == success_lines(action@),
{
    match action {
        SnoozeAction::SetDeadline { key, until } => {
            let deadline = signed_decimal_text(seconds_of(*until));
            single(
                info(
                    joined("snoozed incident ", key.as_str()).concat(" until ").concat(
                        deadline.as_str(),
                    ),
                ),
            )
        },
        SnoozeAction::Remove { key } => single(info(joined("unsnoozed incident ", key.as_str()))),
        SnoozeAction::Expire { keys } => {
            let ghost all = success_lines(action@);
            let mut lines = no_lines();
            let mut i: usize = 0;
            assert(lines.deep_view() =~= all.take(0));
            while i < keys.len()
                invariant
                    all == keys.deep_view().map_values(
                        |key: Text| info_line("snooze expired for incident "@ + key),
                    ),
                    i <= keys.len(),
                    lines.deep_view() == all.take(i as int),
                decreases keys.len() - i,
            {
                let ghost last = lines.deep_view();
                let line = info(joined("snooze expired for incident ", keys[i].as_str()));
                assert(all[i as int] == line@);
                lines.push(line);
                assert(lines.deep_view() =~= last.push(all[i as int]));
                assert(lines.deep_view() =~= all.take(i + 1));
                i += 1;
            }
            assert(all.take(i as int) =~= all);
            lines
        },
    }
}

/// The notification for snoozes that could not be written. The automatic removal is tried again
/// by itself, so nobody is bothered with it.
pub open spec fn failure_notification(action: SnoozeActionModel, details: Text) -> Option<
    (Text, Text),
> {
    let body = "The snooze state was not changed.\n\n"@ + details;
    match action {
        SnoozeActionModel::SetDeadline { key, .. } => Some(
            ("Failed to snooze incident "@ + key, body),
        ),
        SnoozeActionModel::Remove { key } => Some(("Failed to unsnooze incident "@ + key, body)),
        SnoozeActionModel::Expire { .. } => None,
    }
}

/// The notification for snoozes that could not be written: its title and its body.
pub fn snooze_failure_notification(action: &SnoozeAction, details: &str) -> (notification: Option<
    (String, String),
>)
    ensures
        notification.deep_view() == failure_notification(action@, details@),
{
    let title = match action {
        SnoozeAction::SetDeadline { key, .. } => joined("Failed to snooze incident ", key.as_str()),
        SnoozeAction::Remove { key } => joined("Failed to unsnooze incident ", key.as_str()),
        SnoozeAction::Expire { .. } => {
            return None;
        },
    };
    Some((title, joined("The snooze state was not changed.\n\n", details)))
}

/// Whether a write is to be tried now. What the user asked for always is.
pub open spec fn is_due(
    action: SnoozeActionModel,
    expiry_retry_not_before: Option<Moment>,
    now: Moment,
) -> bool {
    action is Expire ==> (expiry_retry_not_before matches Some(deadline) ==> now >= deadline)
}

/// Whether a write is to be tried now: only the automatic removal waits after a failure.
pub fn snooze_persistence_is_due(
    action: &SnoozeAction,
    expiry_retry_not_before: Option<Moment>,
    now: Moment,
) -> (due: bool)
    ensures
        due == is_due(action@, expiry_retry_not_before, now),
{
    match action {
        SnoozeAction::Expire { .. } => match expiry_retry_not_before {
            Some(deadline) => now >= deadline,
            None => true,
        },
        _ => true,
    }
}

/// What came of an attempt to write snoozes.
pub enum WriteOutcome {
    /// Exactly these were written.
    Written(Table<Timestamp>),
    /// The write failed, with these details.
    Failed(String),
    /// The worker that was to write did not finish, with this error.
    WorkerFailed(String),
}

/// What a [`WriteOutcome`] says.
pub enum WriteModel {
    Written(Map<Text, Timestamp>),
    Failed(Text),
    WorkerFailed(Text),
}

impl View for WriteOutcome {
    type V = WriteModel;

    open spec fn view(&self) -> WriteModel {
        match self {
            WriteOutcome::Written(snoozes) => WriteModel::Written(snoozes@),
            WriteOutcome::Failed(details) => WriteModel::Failed(details@),
            WriteOutcome::WorkerFailed(error) => WriteModel::WorkerFailed(error@),
        }
    }
}

// ---------------------------------------------------------------------------------------------
// The pump
// ---------------------------------------------------------------------------------------------

/// The sole owner of the state: it takes one event after the other.
pub struct Pump {
    reducer: Reducer,
    event_logs: EventLogState,
    expiry_retry_not_before: Option<Moment>,
}

/// What a [`Pump`] says.
#[verifier::ext_equal]
pub struct PumpModel {
    pub state: StateModel,
    pub logs: LogModel,
    pub expiry_retry_not_before: Option<Moment>,
}

impl View for Pump {
    type V = PumpModel;

    closed spec fn view(&self) -> PumpModel {
        PumpModel {
            state: self.reducer@,
            logs: self.event_logs@,
            expiry_retry_not_before: self.expiry_retry_not_before,
        }
    }
}

/// What is to be done for one event: log the lines, carry out the effects in order, and publish a
/// snapshot at the end if `publish` says so or the settlement of a write does.
pub struct Round {
    pub lines: Vec<EventLogLine>,
    pub effects: Vec<Effect>,
    pub publish: bool,
}

/// What is to be done once an attempt to write snoozes is over.
pub struct Settlement {
    pub lines: Vec<EventLogLine>,
    /// Title and body of a notification.
    pub notification: Option<(String, String)>,
    pub publish: bool,
}

/// The lines for an attempt to write snoozes.
pub open spec fn write_lines(action: SnoozeActionModel, outcome: WriteModel) -> Seq<LineModel> {
    match outcome {
        WriteModel::Written(_) => success_lines(action),
        WriteModel::Failed(details) => seq![
            LineModel { level: Level::Error, message: "failed to persist snoozes: "@ + details },
        ],
        WriteModel::WorkerFailed(error) => seq![
            LineModel {
                level: Level::Error,
                message: "snooze persistence worker failed: "@ + error,
            },
        ],
    }
}

/// The notification for an attempt to write snoozes.
pub open spec fn write_notification(action: SnoozeActionModel, outcome: WriteModel) -> Option<
    (Text, Text),
> {
    match outcome {
        WriteModel::Written(_) => None,
        WriteModel::Failed(details) => failure_notification(action, details),
        WriteModel::WorkerFailed(error) => failure_notification(
            action,
            "snooze persistence worker failed: "@ + error,
        ),
    }
}

/// The pump after an attempt to write snoozes. Only a completed write touches the state.
pub open spec fn after_write(
    pump: PumpModel,
    action: SnoozeActionModel,
    outcome: WriteModel,
    now: Moment,
) -> PumpModel {
    match outcome {
        WriteModel::Written(snoozes) => PumpModel {
            state: step(pump.state, EventModel::SnoozesPersisted { snoozes }).0,
            expiry_retry_not_before: None,
            ..pump
        },
        _ => if action is Expire {
            PumpModel {
                expiry_retry_not_before: Some((now + EXPIRY_PERSISTENCE_RETRY_DELAY) as u128),
                ..pump
            }
        } else {
            pump
        },
    }
}

impl Pump {
    /// A pump for the configured servers and the snoozes that were stored.
    pub fn new(server_ids: Vec<String>, snoozes: Table<Timestamp>) -> (pump: Self)
        ensures
            pump@ == (PumpModel {
                state: crate::domain::model::initial_state(server_ids.deep_view(), snoozes@),
                logs: LogModel { awaiting_snapshot: Set::empty(), synchronized: Set::empty() },
                expiry_retry_not_before: None,
            }),
    {
        Pump {
            reducer: Reducer::new(AppState::new(server_ids, snoozes)),
            event_logs: EventLogState::new(),
            expiry_retry_not_before: None,
        }
    }

    /// What the user is to see at an instant.
    pub fn snapshot(&self, now: Timestamp) -> (snapshot: UiSnapshot)
        ensures
            snapshot@ == crate::domain::model::snapshot_of(self@.state, now),
    {
        self.reducer.state().snapshot(now)
    }

    /// Takes one event. The tick is published though nothing changed, so that relative times
    /// advance.
    pub fn begin(&mut self, event: Event) -> (round: Round)
        requires
            is_datable(old(self)@.state, event@),
        ensures
            round.lines.deep_view() == event_lines(old(self)@.logs, event@),
            round.effects.deep_view() == step(old(self)@.state, event@).1.effects,
            round.publish == (step(old(self)@.state, event@).1.changed || event@ is Tick),
            final(self)@ == (PumpModel {
                state: step(old(self)@.state, event@).0,
                logs: logs_after(old(self)@.logs, event@),
                expiry_retry_not_before: old(self)@.expiry_retry_not_before,
            }),
    {
        let refresh = match &event {
            Event::Tick { .. } => true,
            _ => false,
        };
        let lines = self.event_logs.lines(&event);
        let transition = self.reducer.reduce(event);
        Round { lines, effects: transition.effects, publish: transition.changed || refresh }
    }

    /// Whether a proposed write is to be tried now.
    pub fn is_due(&self, action: &SnoozeAction, now: Moment) -> (due: bool)
        ensures
            due == is_due(action@, self@.expiry_retry_not_before, now),
    {
        snooze_persistence_is_due(action, self.expiry_retry_not_before, now)
    }

    /// Takes the outcome of an attempt to write proposed snoozes.
    pub fn settle(&mut self, action: &SnoozeAction, outcome: WriteOutcome, now: Moment) -> (
        settlement: Settlement)
        requires
            now + EXPIRY_PERSISTENCE_RETRY_DELAY <= u128::MAX,
        ensures
            settlement.lines.deep_view() == write_lines(action@, outcome@),
            settlement.notification.deep_view() == write_notification(action@, outcome@),
            settlement.publish == (outcome@ matches WriteModel::Written(snoozes) && snoozes != old(
                self,
            )@.state.snoozed),
            final(self)@ == after_write(old(self)@, action@, outcome@, now),
    {
        let automatic_expiry = match action {
            SnoozeAction::Expire { .. } => true,
            _ => false,
        };
        match outcome {
            WriteOutcome::Written(snoozes) => {
                self.expiry_retry_not_before = None;
                let committed = self.reducer.reduce(Event::SnoozesPersisted { snoozes });
                Settlement {
                    lines: snooze_success_lines(action),
                    notification: None,
                    publish: committed.changed,
                }
            },
            WriteOutcome::Failed(details) => {
                if automatic_expiry {
                    self.expiry_retry_not_before = Some(now + EXPIRY_PERSISTENCE_RETRY_DELAY);
                }
                let message = joined("failed to persist snoozes: ", details.as_str());
                Settlement {
                    lines: single(EventLogLine { level: Level::Error, message }),
                    notification: snooze_failure_notification(action, details.as_str()),
                    publish: false,
                }
            },
            WriteOutcome::WorkerFailed(error) => {
                if automatic_expiry {
                    self.expiry_retry_not_before = Some(now + EXPIRY_PERSISTENCE_RETRY_DELAY);
                }
                let details = joined("snooze persistence worker failed: ", error.as_str());
                let notification = snooze_failure_notification(action, details.as_str());
                Settlement {
                    lines: single(EventLogLine { level: Level::Error, message: details }),
                    notification,
                    publish: false,
                }
            },
        }
    }
}

/// A write that fails leaves the state as it was: no snooze takes effect that was not written.
pub proof fn failed_writes_change_no_snooze(
    pump: PumpModel,
    action: SnoozeActionModel,
    outcome: WriteModel,
    now: Moment,
)
    requires
        !(outcome is Written),
    ensures
        after_write(pump, action, outcome, now).state == pump.state,
{
}

/// After a failed automatic removal the next one waits the whole delay, while what the user asks
/// for is tried at once.
pub proof fn failed_removal_waits(
    pump: PumpModel,
    failed: SnoozeActionModel,
    outcome: WriteModel,
    now: Moment,
    action: SnoozeActionModel,
    later: Moment,
)
    requires
        failed is Expire,
        !(outcome is Written),
        now + EXPIRY_PERSISTENCE_RETRY_DELAY <= u128::MAX,
    ensures
        is_due(action, after_write(pump, failed, outcome, now).expiry_retry_not_before, later)
            <==> !(action is Expire) || later >= now + EXPIRY_PERSISTENCE_RETRY_DELAY,
{
}

// ---------------------------------------------------------------------------------------------
// Commands
// ---------------------------------------------------------------------------------------------

/// What the user can do about an incident.
#[derive(Debug, PartialEq, Eq)]
pub enum Command {
    /// Hide it for a time, which starts when the command is handled.
    Snooze { key: String, seconds: i64 },
    Unsnooze { key: String },
    ForgetStale { key: String },
}

/// What a [`Command`] says.
pub enum CommandModel {
    Snooze { key: Text, seconds: i64 },
    Unsnooze { key: Text },
    ForgetStale { key: Text },
}

impl View for Command {
    type V = CommandModel;

    open spec fn view(&self) -> CommandModel {
        match self {
            Command::Snooze { key, seconds } => CommandModel::Snooze {
                key: key@,
                seconds: *seconds,
            },
            Command::Unsnooze { key } => CommandModel::Unsnooze { key: key@ },
            Command::ForgetStale { key } => CommandModel::ForgetStale { key: key@ },
        }
    }
}

/// A number of seconds after an instant, as far as instants reach.
pub open spec fn seconds_after(at: Timestamp, seconds: i64) -> Timestamp {
    let exact = at + seconds * 1_000_000_000;
    if exact > i128::MAX {
        i128::MAX
    } else if exact < i128::MIN {
        i128::MIN
    } else {
        exact as i128
    }
}

/// The event for a command that is handled at `now`.
pub fn command_event(command: Command, now: Timestamp) -> (event: Event)
    ensures
        event@ == (match command@ {
            CommandModel::Snooze { key, seconds } => EventModel::Snooze {
                key,
                until: seconds_after(now, seconds),
            },
            CommandModel::Unsnooze { key } => EventModel::Unsnooze { key },
            CommandModel::ForgetStale { key } => EventModel::ForgetStale { key },
        }),
{
    match command {
        Command::Snooze { key, seconds } => {
            let distance: i128 = seconds as i128 * NANOSECONDS_PER_SECOND;
            let until: i128 = if distance >= 0 && now > i128::MAX - distance {
                i128::MAX
            } else if distance < 0 && now < i128::MIN - distance {
                i128::MIN
            } else {
                now + distance
            };
            Event::Snooze { key, until }
        },
        Command::Unsnooze { key } => Event::Unsnooze { key },
        Command::ForgetStale { key } => Event::ForgetStale { key },
    }
}

/// The seconds that `std::time::SystemTime::now` is past the start of 1970; zero where the clock
/// stands before it. Nothing is claimed of the result: it is whatever the clock says.
#[verifier::external_body]
fn system_seconds() -> u64 {
    std::time::SystemTime::now().duration_since(std::time::UNIX_EPOCH).unwrap_or_default().as_secs()
}

/// The seconds of a clock as a signed number, or the largest one there is.
pub fn unix_seconds(seconds: u64) -> (signed: i64)
    ensures
        signed == (if seconds <= i64::MAX {
            seconds as int
        } else {
            i64::MAX as int
        }),
{
    if seconds <= i64::MAX as u64 {
        seconds as i64
    } else {
        i64::MAX
    }
}

/// The current time in seconds since the start of 1970; zero where the clock stands before it.
/// Which number it is rests on the clock; [`unix_seconds`] tells what becomes of each.
pub fn unix_now() -> (now: i64)
    ensures
        0 <= now,
{
    unix_seconds(system_seconds())
}

// ---------------------------------------------------------------------------------------------
// What is logged and written
// ---------------------------------------------------------------------------------------------

/// Whether a line is informational and has a message.
pub open spec fn informs(line: LineModel, message: Text) -> bool {
    line.level == Level::Info && line.message == message
}

/// Details keep their place in the log, character by character up to the limit: only what could
/// break a line is replaced, by a space. What is cut off is marked, and nothing else is.
pub proof fn logged_details_keep_their_text(details: Text, i: int)
    ensures
        details.len() <= MAX_LOG_DETAILS_CHARS ==> logged_details(details).len() == details.len(),
        details.len() > MAX_LOG_DETAILS_CHARS ==> logged_details(details).len()
            == MAX_LOG_DETAILS_CHARS + 1 && logged_details(details).last() == '\u{2026}',
        0 <= i < details.len() && i < MAX_LOG_DETAILS_CHARS ==> {
            let breaks = is_control(details[i]) || details[i] == '\u{2028}' || details[i]
                == '\u{2029}';
            &&& breaks ==> logged_details(details)[i] == ' '
            &&& !breaks ==> logged_details(details)[i] == details[i]
        },
{
}

/// The first list after a connection is logged in full: how many incidents there are, then each of
/// them, in the order of the list.
pub proof fn full_lists_are_logged_in_full(
    logs: LogModel,
    server_id: Text,
    data: NotificationModel,
    at: Timestamp,
    i: int,
)
    requires
        logs.awaiting_snapshot.contains(server_id) || !logs.synchronized.contains(server_id),
    ensures
        ({
            let lines = event_lines(logs, EventModel::Notification { server_id, data, at });
            &&& lines.len() == 1 + data.total.len()
            &&& informs(
                lines[0],
                "server "@ + server_id + " synchronized: "@ + decimal(data.total.len())
                    + " ongoing incidents"@,
            )
            &&& 0 <= i < data.total.len() ==> informs(
                lines[i + 1],
                incident_message(server_id, "ongoing"@, data.total[i]),
            )
        }),
{
}

/// Any other list is logged by its changes: how many there are, then each addition, each update and
/// each resolution, in the order of their lists.
pub proof fn other_lists_are_logged_by_their_changes(
    logs: LogModel,
    server_id: Text,
    data: NotificationModel,
    at: Timestamp,
    i: int,
)
    requires
        !logs.awaiting_snapshot.contains(server_id),
        logs.synchronized.contains(server_id),
    ensures
        ({
            let lines = event_lines(logs, EventModel::Notification { server_id, data, at });
            let added = data.added.len();
            let updated = data.updated.len();
            let removed = data.removed.len();
            &&& lines.len() == 1 + added + updated + removed
            &&& informs(
                lines[0],
                "server "@ + server_id + " incident update: "@ + decimal(added) + " added, "@
                    + decimal(updated) + " updated, "@ + decimal(removed) + " resolved; "@
                    + decimal(data.total.len()) + " ongoing incidents"@,
            )
            &&& 0 <= i < added ==> informs(
                lines[1 + i],
                incident_message(server_id, "added"@, data.added[i]),
            )
            &&& 0 <= i < updated ==> informs(
                lines[1 + added + i],
                incident_message(server_id, "updated"@, data.updated[i]),
            )
            &&& 0 <= i < removed ==> informs(
                lines[1 + added + updated + i],
                "server "@ + server_id + " resolved incident "@ + data.removed[i].key,
            )
        }),
{
}

/// The line for an incident names the server, what became of the incident, its key and its state,
/// and then its details where it has any.
pub proof fn incident_lines_name_what_matters(
    server_id: Text,
    action: Text,
    incident: IncidentModel,
)
    ensures
        ({
            let word = if incident.state == crate::domain::model::IncidentState::Error {
                "error"@
            } else if incident.state == crate::domain::model::IncidentState::Warning {
                "warning"@
            } else {
                "ok"@
            };
            let head = "server "@ + server_id + " "@ + action + " incident "@ + incident.key
                + " ("@ + word + ")"@;
            &&& incident.details.len() == 0 ==> incident_message(server_id, action, incident)
                == head
            &&& incident.details.len() > 0 ==> incident_message(server_id, action, incident)
                == head + ": "@ + logged_details(incident.details)
        }),
{
}

/// A connection makes the next list of its server a full one, a list makes the one after it no full
/// one, and neither concerns another server. No other event changes what is remembered.
pub proof fn logs_remember_each_server(logs: LogModel, event: EventModel, id: Text)
    ensures
        ({
            let after = logs_after(logs, event);
            let full = after.awaiting_snapshot.contains(id) || !after.synchronized.contains(id);
            let was_full = logs.awaiting_snapshot.contains(id) || !logs.synchronized.contains(id);
            &&& (event matches EventModel::Connected { server_id, .. } && server_id == id) ==> full
            &&& (event matches EventModel::Notification { server_id, .. } && server_id == id)
                ==> !full
            &&& (event matches EventModel::Connected { server_id, .. } ==> server_id != id) && (
            event matches EventModel::Notification { server_id, .. } ==> server_id != id) ==> full
                == was_full
        }),
{
}

/// Snoozes that were written take effect as they were written, end the wait for another attempt,
/// and are told in the log and to nobody else.
pub proof fn written_snoozes_take_effect(
    pump: PumpModel,
    action: SnoozeActionModel,
    snoozes: Map<Text, Timestamp>,
    now: Moment,
)
    ensures
        ({
            let outcome = WriteModel::Written(snoozes);
            let after = after_write(pump, action, outcome, now);
            let lines = write_lines(action, outcome);
            &&& after.state.snoozed == snoozes
            &&& after.state.servers == pump.state.servers
            &&& after.state.incidents == pump.state.incidents
            &&& after.state.internal_incidents == pump.state.internal_incidents
            &&& after.expiry_retry_not_before is None
            &&& after.logs == pump.logs
            &&& write_notification(action, outcome) is None
            &&& action matches SnoozeActionModel::SetDeadline { key, until } ==> lines.len() == 1
                && informs(
                lines[0],
                "snoozed incident "@ + key + " until "@ + signed_decimal(
                    until as int / 1_000_000_000,
                ),
            )
            &&& action matches SnoozeActionModel::Remove { key } ==> lines.len() == 1 && informs(
                lines[0],
                "unsnoozed incident "@ + key,
            )
            &&& action matches SnoozeActionModel::Expire { keys } ==> lines.len() == keys.len()
                && forall|i: int|
                0 <= i < keys.len() ==> informs(
                    #[trigger] lines[i],
                    "snooze expired for incident "@ + keys[i],
                )
        }),
{
}

/// Snoozes that could not be written are told in the log with the reason. Where the user asked for
/// them the user is told too, with the same reason; the automatic removal bothers nobody.
pub proof fn failed_writes_are_told(
    pump: PumpModel,
    action: SnoozeActionModel,
    outcome: WriteModel,
    now: Moment,
)
    requires
        !(outcome is Written),
    ensures
        ({
            let lines = write_lines(action, outcome);
            let told = match outcome {
                WriteModel::Failed(details) => "failed to persist snoozes: "@ + details,
                WriteModel::WorkerFailed(error) => "snooze persistence worker failed: "@ + error,
                _ => Seq::empty(),
            };
            let reason = match outcome {
                WriteModel::Failed(details) => details,
                _ => told,
            };
            let body = "The snooze state was not changed.\n\n"@ + reason;
            &&& lines == seq![LineModel { level: Level::Error, message: told }]
            &&& action matches SnoozeActionModel::SetDeadline { key, .. } ==> write_notification(
                action,
                outcome,
            ) == Some(("Failed to snooze incident "@ + key, body))
            &&& action matches SnoozeActionModel::Remove { key } ==> write_notification(
                action,
                outcome,
            ) == Some(("Failed to unsnooze incident "@ + key, body))
            &&& action is Expire ==> write_notification(action, outcome) is None
            &&& !(action is Expire) ==> after_write(pump, action, outcome, now) == pump
        }),
{
}

/// A snooze lasts as many seconds as were asked for, from the instant at which it is handled; a
/// longer one ends with the last instant there is.
pub proof fn snoozes_last_as_long_as_asked(now: Timestamp, seconds: i64)
    ensures
        i128::MIN <= now + seconds * 1_000_000_000 <= i128::MAX ==> seconds_after(now, seconds)
            - now == seconds * 1_000_000_000,
        now + seconds * 1_000_000_000 > i128::MAX ==> seconds_after(now, seconds) == i128::MAX,
        now + seconds * 1_000_000_000 < i128::MIN ==> seconds_after(now, seconds) == i128::MIN,
{
}

} // verus!
