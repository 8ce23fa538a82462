//! What keeps the way to a server up: the laws of connections and tunnels, signal by signal.

use vstd::prelude::*;
use vstd::utf8::{decode_utf8, encode_utf8, valid_utf8};

use super::client::{after_signal, handshake_refusal, handshake_words, host_in_uri, is_ascii_space,
    is_header_char, is_header_text, port_refusal_words, request_refusal_words, request_url,
    split_refusal, status_words, token_problem, trust_refusal, url_authority, utf8_refusal_words,
    ActionModel, ConnectionSetup, Frame, HandshakeFailure, LoopModel, PhaseModel, Signal, StepModel,
    TokenProblem};
use super::protocol::{incidents_of, list_error, message_error, Envelope, ListName, Notification,
    Payload, ProtocolErrorModel};
use super::tunnel::{after_tunnel_signal, cleaned, command_for, is_probe_line, last_bytes, lines_of,
    longer_tail, marked_text, occurs, probe_at, ssh_command, useful_output, with_newlines,
    without_return, ExitModel, TailModel, TunnelAction, TunnelModel, TunnelPhaseModel, TunnelSignal,
    TunnelStepModel};
use crate::address::{address_parts, addresses_are_taken_apart_again};
use crate::config::{ServerConfig, SshTunnelConfig};
use crate::domain::event::EventModel;
use crate::domain::model::{Incident, IncidentModel};
use crate::logging::Level;
use crate::runtime::LineModel;
use crate::text::{backward_searches_find_the_last, debug_text, decimal, split_on,
    texts_are_split_before_their_last_part, trimmed, unsigned_value, Text};
use crate::timestamp::{rfc3339_reading, Timestamp};

verus! {

// ---------------------------------------------------------------------------------------------
// Connections
// ---------------------------------------------------------------------------------------------

/// Whether one line was logged about the server, with these words.
pub open spec fn logs_one(lines: Seq<LineModel>, level: Level, id: Text, words: Text) -> bool {
    lines == seq![LineModel { level, message: "server "@ + id + " "@ + words }]
}

/// Whether a connection waits before it is tried again: longer by one step than before, but not
/// longer than the limit, and not at all where the pause has no length.
pub open spec fn tries_again(state: LoopModel, next: LoopModel, action: ActionModel) -> bool {
    let sum = state.reconnect_delay + state.options.reconnect_step;
    &&& next.reconnect_delay <= state.options.max_reconnect_delay
    &&& sum <= state.options.max_reconnect_delay ==> next.reconnect_delay == sum
    &&& sum > state.options.max_reconnect_delay ==> next.reconnect_delay
        == state.options.max_reconnect_delay
    &&& next.reconnect_delay > 0 ==> next.phase is Pausing && action == ActionModel::Pause(
        next.reconnect_delay,
    )
    &&& next.reconnect_delay == 0 ==> next.phase is Preparing && action is Prepare
}

/// Whether a disconnection is reported with an error.
pub open spec fn reports(state: LoopModel, step: StepModel, at: Timestamp, error: Text) -> bool {
    step.event == Some(EventModel::Disconnected { server_id: state.server_id, at, error })
}

/// Whether a failure is dealt with: at once and told in the log, or over a tunnel once there was
/// time for news of the tunnel.
pub open spec fn is_dealt_with(
    state: LoopModel,
    next: LoopModel,
    step: StepModel,
    at: Timestamp,
    error: Text,
    was_connected: bool,
) -> bool {
    &&& !state.tunneled ==> reports(state, step, at, error) && tries_again(
        state,
        next,
        step.action,
    )
    &&& state.tunneled ==> step.event is None && next.phase == PhaseModel::Settling(
        error,
        was_connected,
    ) && step.action is Settle && next.reconnect_delay == state.reconnect_delay
}

/// Every signal that ends a connection ends it: silence beyond the limit, the end of the stream,
/// an error and a closing frame all leave the reading phase. Without a tunnel the disconnection is
/// reported with its error and the connection is tried again; over a tunnel it waits for news of
/// the tunnel.
pub proof fn ended_connections_are_opened_again(state: LoopModel, signal: Signal, at: Timestamp)
    requires
        state.phase is Reading,
        signal is ReadTimedOut || signal is Ended || signal is ReadFailed || signal
            == Signal::Received(Frame::Close),
    ensures
        ({
            let (next, step) = after_signal(state, signal, at);
            let error = match signal {
                Signal::ReadTimedOut => "no server data received for "@ + decimal(
                    (state.options.read_timeout / 1_000_000_000) as nat,
                ) + " seconds; reconnecting"@,
                Signal::ReadFailed(words) => words@,
                _ => "WebSocket connection closed"@,
            };
            &&& !(next.phase is Reading)
            &&& !(step.action is Read)
            &&& is_dealt_with(state, next, step, at, error, true)
            &&& logs_one(step.lines, Level::Warn, state.server_id, "connection lost: "@ + error)
            &&& !(signal is ReadFailed) ==> error.len() > 0
        }),
{
    reveal_strlit("no server data received for ");
    reveal_strlit("WebSocket connection closed");
}

/// A message that is too long, or bytes that are no text, end a connection too. Any other message
/// is handed on as it came, a single zero byte is a sign of life, and every other frame is passed
/// over.
pub proof fn frames_are_read_for_what_they_are(state: LoopModel, frame: Frame, at: Timestamp)
    requires
        state.phase is Reading,
    ensures
        ({
            let (next, step) = after_signal(state, Signal::Received(frame), at);
            match frame {
                Frame::Text(text) => if encode_utf8(text@).len()
                    <= state.options.max_message_bytes {
                    &&& next == (LoopModel { phase: PhaseModel::Decoding, ..state })
                    &&& step.action == ActionModel::Decode(text@)
                    &&& step.event is None && step.lines.len() == 0
                } else {
                    is_dealt_with(state, next, step, at, "server message exceeds 1 MiB"@, true)
                },
                Frame::Binary(bytes) => if bytes@.len() == 1 && bytes@[0] == 0 {
                    &&& next == state
                    &&& step.event == Some(
                        EventModel::Heartbeat { server_id: state.server_id, at },
                    )
                    &&& step.must_deliver && step.action is Read && step.lines.len() == 0
                } else if valid_utf8(bytes@) {
                    &&& next == (LoopModel { phase: PhaseModel::Decoding, ..state })
                    &&& step.action == ActionModel::Decode(decode_utf8(bytes@))
                    &&& step.event is None && step.lines.len() == 0
                } else {
                    is_dealt_with(
                        state,
                        next,
                        step,
                        at,
                        "decoding server message: "@ + utf8_refusal_words(bytes@),
                        true,
                    )
                },
                Frame::Close => !(next.phase is Reading),
                Frame::Other => next == state && step.event is None && step.action is Read
                    && step.lines.len() == 0,
            }
        }),
{
    if let Frame::Binary(bytes) = frame {
        if bytes@.len() == 1 && bytes@[0] == 0 {
            assert(bytes@ =~= seq![0u8]);
        } else if bytes@ == seq![0u8] {
            assert(bytes@[0] == 0);
        }
    }
}

/// What a message says is passed on unchanged, under the name of the server and with the instant
/// of its arrival; reading goes on. A message to ignore leaves no trace, and one that cannot be
/// understood ends the connection.
pub proof fn messages_are_passed_on(state: LoopModel, signal: Signal, at: Timestamp)
    requires
        state.phase is Decoding,
    ensures
        ({
            let (next, step) = after_signal(state, signal, at);
            match signal {
                Signal::Decoded(Some(data)) => {
                    &&& next == (LoopModel { phase: PhaseModel::Reading, ..state })
                    &&& step.event == Some(
                        EventModel::Notification { server_id: state.server_id, data: data@, at },
                    )
                    &&& step.must_deliver && step.action is Read && step.lines.len() == 0
                },
                Signal::Decoded(None) => {
                    &&& next == (LoopModel { phase: PhaseModel::Reading, ..state })
                    &&& step.event is None && step.action is Read && step.lines.len() == 0
                },
                Signal::DecodeFailed(words) => {
                    &&& is_dealt_with(state, next, step, at, words@, true)
                    &&& logs_one(
                        step.lines,
                        Level::Warn,
                        state.server_id,
                        "connection lost: "@ + words@,
                    )
                },
                _ => true,
            }
        }),
{
}

/// An attempt that succeeds is reported, resets the pause and is read from; one that fails or
/// takes too long is reported and repeated.
pub proof fn attempts_succeed_or_are_repeated(state: LoopModel, signal: Signal, at: Timestamp)
    requires
        state.phase is Connecting,
    ensures
        ({
            let (next, step) = after_signal(state, signal, at);
            let late = "connection attempt timed out after "@ + decimal(
                (state.options.connect_timeout / 1_000_000_000) as nat,
            ) + " seconds"@;
            match signal {
                Signal::Opened => {
                    &&& next == (LoopModel {
                        phase: PhaseModel::Reading,
                        reconnect_delay: 0,
                        ..state
                    })
                    &&& step.event == Some(
                        EventModel::Connected { server_id: state.server_id, at },
                    )
                    &&& step.must_deliver && step.action is Read
                    &&& logs_one(step.lines, Level::Info, state.server_id, "connected"@)
                },
                Signal::OpenFailed(words) => {
                    &&& is_dealt_with(state, next, step, at, words@, false)
                    &&& !state.tunneled ==> logs_one(
                        step.lines,
                        Level::Warn,
                        state.server_id,
                        "connection failed: "@ + words@,
                    )
                    &&& state.tunneled ==> step.lines.len() == 0
                },
                Signal::OpenTimedOut => {
                    &&& is_dealt_with(state, next, step, at, late, false)
                    &&& !state.tunneled ==> logs_one(
                        step.lines,
                        Level::Warn,
                        state.server_id,
                        "connection failed: "@ + late,
                    )
                    &&& state.tunneled ==> step.lines.len() == 0
                },
                _ => true,
            }
        }),
{
}

/// A failure that waited for news of the tunnel is reported with its own error once the tunnel
/// turns out to stand, and the connection is tried again. Where the tunnel stopped, the connection
/// ends and reports nothing.
pub proof fn settled_failures_are_reported_or_dropped(
    state: LoopModel,
    error: Text,
    was_connected: bool,
    at: Timestamp,
)
    requires
        state.phase == PhaseModel::Settling(error, was_connected),
    ensures
        ({
            let (next, step) = after_signal(state, Signal::Settled(false), at);
            &&& reports(state, step, at, error)
            &&& tries_again(state, next, step.action)
            &&& was_connected ==> step.lines.len() == 0
            &&& !was_connected ==> logs_one(
                step.lines,
                Level::Warn,
                state.server_id,
                "connection failed: "@ + error,
            )
        }),
        ({
            let (next, step) = after_signal(state, Signal::Settled(true), at);
            next.phase is Stopped && step.event is None && step.action is Stop && step.lines.len()
                == 0
        }),
{
}

/// A connection that cannot be prepared is reported and given up for good; one that is prepared is
/// attempted, and once its pause is over it is prepared.
pub proof fn preparation_leads_to_an_attempt(state: LoopModel, signal: Signal, at: Timestamp)
    ensures
        ({
            let (next, step) = after_signal(state, signal, at);
            let refused = match signal {
                Signal::SetupFailed(words) => Some(words@),
                Signal::RequestFailed(words) => Some(words@),
                _ => None,
            };
            &&& (state.phase is Preparing && (refused matches Some(words))) ==> {
                let error = "preparing connection: "@ + refused->0;
                &&& next.phase is Stopped && step.action is Stop
                &&& reports(state, step, at, error)
                &&& logs_one(step.lines, Level::Error, state.server_id, error)
            }
            &&& (state.phase is Preparing && signal is RequestReady) ==> {
                &&& next == (LoopModel { phase: PhaseModel::Connecting, ..state })
                &&& step.action is Connect && step.event is None
                &&& logs_one(
                    step.lines,
                    Level::Info,
                    state.server_id,
                    "connecting to "@ + signal->RequestReady_0@,
                )
            }
            &&& (state.phase is Pausing && signal is PauseOver) ==> {
                &&& next == (LoopModel { phase: PhaseModel::Preparing, ..state })
                &&& step.action is Prepare && step.event is None && step.lines.len() == 0
            }
        }),
{
}

/// What is done next always fits the phase, so that no connection waits for what cannot come.
pub proof fn actions_fit_the_phase(state: LoopModel, signal: Signal, at: Timestamp)
    ensures
        ({
            let (next, step) = after_signal(state, signal, at);
            match next.phase {
                PhaseModel::Pausing => step.action == ActionModel::Pause(next.reconnect_delay),
                PhaseModel::Preparing => step.action is Prepare,
                PhaseModel::Connecting => step.action is Connect,
                PhaseModel::Reading => step.action is Read,
                PhaseModel::Decoding => step.action is Decode || next == state,
                PhaseModel::Settling(_, _) => step.action is Settle,
                PhaseModel::Stopped => step.action is Stop,
            }
        }),
{
}

/// Whether a signal can come in a phase.
pub open spec fn is_expected(phase: PhaseModel, signal: Signal) -> bool {
    signal is ShutDown || match phase {
        PhaseModel::Pausing => signal is PauseOver,
        PhaseModel::Preparing => signal is SetupFailed || signal is RequestFailed || signal
            is RequestReady,
        PhaseModel::Connecting => signal is Opened || signal is OpenFailed || signal
            is OpenTimedOut,
        PhaseModel::Reading => signal is ReadTimedOut || signal is Ended || signal is ReadFailed
            || signal is Received,
        PhaseModel::Decoding => signal is Decoded || signal is DecodeFailed,
        PhaseModel::Settling(_, _) => signal is Settled,
        PhaseModel::Stopped => false,
    }
}

/// A signal that cannot come changes nothing; every other but a frame that is read and done with
/// leads to another phase.
pub proof fn signals_move_connections_on(state: LoopModel, signal: Signal, at: Timestamp)
    ensures
        ({
            let (next, step) = after_signal(state, signal, at);
            &&& !is_expected(state.phase, signal) ==> next == state && step.event is None
                && step.lines.len() == 0
            &&& is_expected(state.phase, signal) && !(signal is Received) && !(state.phase
                is Stopped) ==> next.phase != state.phase
        }),
{
}

/// A connection that has ended stays ended and does nothing more.
pub proof fn ended_connections_stay_ended(state: LoopModel, signal: Signal, at: Timestamp)
    requires
        state.phase is Stopped,
    ensures
        ({
            let (next, step) = after_signal(state, signal, at);
            next == state && step.event is None && step.action is Stop && step.lines.len() == 0
        }),
{
}

// ---------------------------------------------------------------------------------------------
// Tunnels
// ---------------------------------------------------------------------------------------------

/// Whether the process of a tunnel runs.
pub open spec fn has_process(state: TunnelModel) -> bool {
    state.phase is AwaitingProbe || state.phase is Ready
}

/// Whether nothing is told.
pub open spec fn is_untold(step: TunnelStepModel) -> bool {
    step.event is None && step.lines.len() == 0
}

/// How the end of a process is told.
pub open spec fn tells_ending(words: Text, exit: ExitModel) -> bool {
    match exit {
        ExitModel::Success => words == "Tunnel command exited unexpectedly"@,
        ExitModel::Failure(status) => words == "Tunnel command exited: "@ + status,
        ExitModel::WaitFailed(error) => words == "Waiting for tunnel command failed: "@ + error,
    }
}

/// A process that ends, wherever it stands, has its output collected; this is told as the failure
/// of the tunnel with how the process ended and what it printed last, and the tunnel is started
/// again after the pause.
pub proof fn ended_processes_are_replaced(
    state: TunnelModel,
    signal: TunnelSignal,
    at: Timestamp,
    collected: TunnelSignal,
    later: Timestamp,
    much_later: Timestamp,
)
    requires
        has_process(state),
        signal is Exited,
        collected is Collected,
    ensures
        ({
            let (ended, first) = after_tunnel_signal(state, signal, at);
            let (failed, second) = after_tunnel_signal(ended, collected, later);
            let (again, third) = after_tunnel_signal(failed, TunnelSignal::WaitOver, much_later);
            let exit = signal->Exited_0@;
            let output = useful_output(
                collected->stderr@,
                collected->stdout@,
                state.readiness_probe,
            );
            &&& first.action is Collect && is_untold(first)
            &&& ended == (TunnelModel { phase: TunnelPhaseModel::Collecting(exit), ..state })
            &&& second.action == TunnelAction::Wait(state.restart_delay)
            &&& failed.phase is Waiting
            &&& second.event matches Some(event) && event is TunnelFailed && event->TunnelFailed_at
                == later && event->TunnelFailed_server_id == state.server_id && exists|words: Text|
                #[trigger] tells_ending(words, exit) && event->TunnelFailed_error == words + (
                if collected->timed_out {
                    "\n\nTunnel output pipes remained open after the command exited"@
                } else {
                    Seq::empty()
                }) + (if output.len() > 0 {
                    "\n\n"@ + output
                } else {
                    Seq::empty()
                })
            &&& third.action is Start && again == (TunnelModel {
                phase: TunnelPhaseModel::Starting,
                ..state
            })
        }),
{
    let (ended, first) = after_tunnel_signal(state, signal, at);
    let (failed, second) = after_tunnel_signal(ended, collected, later);
    let exit = signal->Exited_0@;
    let words = match exit {
        ExitModel::Success => "Tunnel command exited unexpectedly"@,
        ExitModel::Failure(status) => "Tunnel command exited: "@ + status,
        ExitModel::WaitFailed(error) => "Waiting for tunnel command failed: "@ + error,
    };
    assert(tells_ending(words, exit));
    let output = useful_output(collected->stderr@, collected->stdout@, state.readiness_probe);
    let note = if collected->timed_out {
        "\n\nTunnel output pipes remained open after the command exited"@
    } else {
        Seq::empty()
    };
    let rest = if output.len() > 0 {
        "\n\n"@ + output
    } else {
        Seq::empty()
    };
    let event = second.event->0;
    assert(event->TunnelFailed_error =~= words + note + rest);
}

/// A tunnel is started, waits for its probe if it has one, and is ready once the probe was seen;
/// without a probe it is ready at once. Being ready is told.
pub proof fn tunnels_become_ready(state: TunnelModel, signal: TunnelSignal, at: Timestamp)
    ensures
        ({
            let (next, step) = after_tunnel_signal(state, signal, at);
            let ready = {
                &&& next == (TunnelModel { phase: TunnelPhaseModel::Ready, ..state })
                &&& step.event == Some(EventModel::TunnelReady { server_id: state.server_id, at })
                &&& step.action is RunClient
                &&& logs_one(step.lines, Level::Info, state.server_id, "tunnel is ready"@)
            };
            &&& state.phase is Starting && signal is Begin ==> {
                &&& next == (TunnelModel { phase: TunnelPhaseModel::Spawning, ..state })
                &&& step.action is Spawn && step.event is None
                &&& logs_one(
                    step.lines,
                    Level::Info,
                    state.server_id,
                    "starting tunnel with "@ + state.program,
                )
            }
            &&& state.phase is Spawning && signal is Spawned && state.readiness_probe is None
                ==> ready
            &&& state.phase is Spawning && signal is Spawned && state.readiness_probe is Some
                ==> next == (TunnelModel { phase: TunnelPhaseModel::AwaitingProbe, ..state })
                && step.action is AwaitProbe && is_untold(step)
            &&& state.phase is AwaitingProbe && signal is ProbeSeen ==> ready
        }),
{
}

/// A process that cannot be started is told as the failure of the tunnel, and another start is
/// tried after the pause.
pub proof fn failed_starts_are_repeated(state: TunnelModel, signal: TunnelSignal, at: Timestamp)
    requires
        state.phase is Spawning,
        signal is SpawnFailed,
    ensures
        ({
            let (next, step) = after_tunnel_signal(state, signal, at);
            let error = "Failed to start tunnel command: "@ + signal->SpawnFailed_0@;
            &&& next == (TunnelModel { phase: TunnelPhaseModel::Waiting, ..state })
            &&& step.action == TunnelAction::Wait(state.restart_delay)
            &&& step.event == Some(
                EventModel::TunnelFailed { server_id: state.server_id, at, error },
            )
            &&& step.lines == seq![
                LineModel {
                    level: Level::Error,
                    message: "server "@ + state.server_id + ": "@ + error,
                },
            ]
        }),
{
}

/// The shutdown ends a tunnel: a process that runs is torn down first, and without one the tunnel
/// stops at once. So does a tunnel whose connection ended for good or whose news nobody takes.
pub proof fn shutdowns_end_tunnels(state: TunnelModel, signal: TunnelSignal, at: Timestamp)
    ensures
        ({
            let (next, step) = after_tunnel_signal(state, signal, at);
            let stop = signal is ShutDown || signal is Undelivered;
            &&& has_process(state) && signal is ShutDown || state.phase is Ready && (signal
                is Undelivered || signal is ClientStopped) ==> next.phase is TearingDown
                && step.action is TearDown && is_untold(step)
            &&& state.phase is Waiting && stop || state.phase is Starting && signal is ShutDown
                ==> next.phase is Stopped && step.action is Stop && is_untold(step)
            &&& state.phase is TearingDown && signal is TornDown ==> next.phase is Stopped
                && step.action is Stop && step.event is None && (signal->TornDown_0 ==> logs_one(
                step.lines,
                Level::Warn,
                state.server_id,
                "tunnel output pipes remained open after termination; continuing teardown"@,
            )) && (!signal->TornDown_0 ==> step.lines.len() == 0)
            &&& next.phase is Stopped ==> step.action is Stop
            &&& state.phase is Stopped ==> next == state && is_untold(step)
        }),
{
}

/// What is done next always fits the phase of a tunnel, and nothing about a tunnel changes but its
/// phase.
pub proof fn tunnel_actions_fit_the_phase(state: TunnelModel, signal: TunnelSignal, at: Timestamp)
    ensures
        ({
            let (next, step) = after_tunnel_signal(state, signal, at);
            &&& next == (TunnelModel { phase: next.phase, ..state })
            &&& match next.phase {
                TunnelPhaseModel::Starting => step.action is Start,
                TunnelPhaseModel::Spawning => step.action is Spawn,
                TunnelPhaseModel::AwaitingProbe => step.action is AwaitProbe,
                TunnelPhaseModel::Ready => step.action is RunClient,
                TunnelPhaseModel::Collecting(_) => step.action is Collect,
                TunnelPhaseModel::TearingDown => step.action is TearDown,
                TunnelPhaseModel::Waiting => step.action == TunnelAction::Wait(
                    state.restart_delay,
                ),
                TunnelPhaseModel::Stopped => step.action is Stop,
            }
        }),
{
}

// ---------------------------------------------------------------------------------------------
// Messages
// ---------------------------------------------------------------------------------------------

/// The incidents of a message are kept in the lists in which they came: what is listed in total
/// stays in total, what was added stays added, what was removed stays removed and what was updated
/// stays updated, each in its order. The count of what is fine is kept too.
pub proof fn lists_keep_their_meaning(notification: Notification, i: int)
    ensures
        ({
            let ongoing = notification.ongoing_incidents;
            let data = incidents_of(notification);
            &&& data.total.len() == ongoing.total@.len()
            &&& data.added.len() == ongoing.added@.len()
            &&& data.removed.len() == ongoing.removed@.len()
            &&& data.updated.len() == ongoing.updated@.len()
            &&& 0 <= i < data.total.len() ==> says(data.total[i], ongoing.total@[i])
            &&& 0 <= i < data.added.len() ==> says(data.added[i], ongoing.added@[i])
            &&& 0 <= i < data.removed.len() ==> says(data.removed[i], ongoing.removed@[i])
            &&& 0 <= i < data.updated.len() ==> says(data.updated[i], ongoing.updated@[i])
            &&& 0 <= ongoing.num_items_ok <= usize::MAX ==> data.num_items_ok
                == ongoing.num_items_ok
        }),
{
}

/// Whether a model says what an incident holds.
pub open spec fn says(model: IncidentModel, item: Incident) -> bool {
    &&& model.key == item.key@
    &&& model.state == item.state
    &&& model.details == item.details@
    &&& model.incident_started_at == item.incident_started_at@
    &&& model.stale == item.stale
}

/// Whether an incident can be taken: it has a key and a start that can be read.
pub open spec fn is_wellformed(item: IncidentModel) -> bool {
    item.key.len() > 0 && rfc3339_reading(item.incident_started_at) is Ok
}

/// A list is refused for its first incident without a key or without a start that can be read,
/// and only for such a one.
pub proof fn lists_are_refused_for_their_first_fault(items: Seq<IncidentModel>, list: ListName)
    ensures
        list_error(items, list, 0) is None <==> forall|i: int|
            0 <= i < items.len() ==> is_wellformed(#[trigger] items[i]),
        list_error(items, list, 0) matches Some(error) ==> exists|i: int|
            0 <= i < items.len() && first_fault(#[trigger] items[i], list, i, error) && forall|
                j: int,
            |
                0 <= j < i ==> is_wellformed(#[trigger] items[j]),
{
    lemma_first_fault(items, list, 0);
}

/// Whether an error tells the fault of an incident in a list.
pub open spec fn first_fault(
    item: IncidentModel,
    list: ListName,
    index: int,
    error: ProtocolErrorModel,
) -> bool {
    if item.key.len() == 0 {
        error == (ProtocolErrorModel::EmptyKey { list, index })
    } else {
        rfc3339_reading(item.incident_started_at) matches Err(reason) && error
            == (ProtocolErrorModel::InvalidStart { list, index, reason })
    }
}

proof fn lemma_first_fault(items: Seq<IncidentModel>, list: ListName, from: int)
    requires
        0 <= from <= items.len(),
    ensures
        list_error(items, list, from) is None <==> forall|i: int|
            from <= i < items.len() ==> is_wellformed(#[trigger] items[i]),
        list_error(items, list, from) matches Some(error) ==> exists|i: int|
            from <= i < items.len() && first_fault(#[trigger] items[i], list, i, error) && forall|
                j: int,
            |
                from <= j < i ==> is_wellformed(#[trigger] items[j]),
    decreases items.len() - from,
{
    if from < items.len() {
        if is_wellformed(items[from]) {
            lemma_first_fault(items, list, from + 1);
            if let Some(error) = list_error(items, list, from) {
                let i = choose|i: int|
                    from + 1 <= i < items.len() && first_fault(#[trigger] items[i], list, i, error)
                        && forall|j: int| from + 1 <= j < i ==> is_wellformed(#[trigger] items[j]);
                assert(first_fault(items[i], list, i, error));
            }
        } else {
            assert(first_fault(items[from], list, from, list_error(items, list, from)->0));
        }
    }
}

/// Whether every incident of a list can be taken.
pub open spec fn all_wellformed(items: Seq<IncidentModel>) -> bool {
    forall|i: int| 0 <= i < items.len() ==> is_wellformed(#[trigger] items[i])
}

/// A message is refused exactly where it is about incidents and its data are missing or not of
/// their shape, its time cannot be read, its count is negative, or some incident of some list
/// cannot be taken. Messages about anything else are never refused.
pub proof fn only_faulty_messages_are_refused(envelope: Envelope)
    ensures
        envelope.event@ != "OngoingIncidentsSnapshot"@ && envelope.event@
            != "OngoingIncidentsUpdate"@ ==> message_error(envelope) is None,
        envelope.event@ == "OngoingIncidentsSnapshot"@ || envelope.event@
            == "OngoingIncidentsUpdate"@ ==> match envelope.data {
            Payload::Null => message_error(envelope) == Some(
                ProtocolErrorModel::NullData { event: envelope.event@ },
            ),
            Payload::Malformed(words) => message_error(envelope) == Some(
                ProtocolErrorModel::MalformedData { event: envelope.event@, reason: words@ },
            ),
            Payload::Notification(notification) => {
                let ongoing = notification.ongoing_incidents;
                message_error(envelope) is None <==> {
                    &&& notification.time matches Some(time) ==> rfc3339_reading(time@) is Ok
                    &&& ongoing.num_items_ok >= 0
                    &&& all_wellformed(ongoing.total.deep_view())
                    &&& all_wellformed(ongoing.added.deep_view())
                    &&& all_wellformed(ongoing.removed.deep_view())
                    &&& all_wellformed(ongoing.updated.deep_view())
                }
            },
        },
{
    if let Payload::Notification(notification) = envelope.data {
        let ongoing = notification.ongoing_incidents;
        lists_are_refused_for_their_first_fault(ongoing.total.deep_view(), ListName::Total);
        lists_are_refused_for_their_first_fault(ongoing.added.deep_view(), ListName::Added);
        lists_are_refused_for_their_first_fault(ongoing.removed.deep_view(), ListName::Removed);
        lists_are_refused_for_their_first_fault(ongoing.updated.deep_view(), ListName::Updated);
    }
}

// ---------------------------------------------------------------------------------------------
// What tunnels run and print
// ---------------------------------------------------------------------------------------------

/// Whether a signal says something new about a tunnel in its phase.
pub open spec fn is_awaited(state: TunnelModel, signal: TunnelSignal) -> bool {
    match state.phase {
        TunnelPhaseModel::Starting => signal is Begin || signal is ShutDown,
        TunnelPhaseModel::Spawning => signal is Spawned || signal is SpawnFailed,
        TunnelPhaseModel::AwaitingProbe => signal is ProbeSeen || signal is Exited || signal
            is ShutDown,
        TunnelPhaseModel::Ready => signal is Exited || signal is ClientStopped || signal
            is Undelivered || signal is ShutDown,
        TunnelPhaseModel::Collecting(_) => signal is Collected,
        TunnelPhaseModel::TearingDown => signal is TornDown,
        TunnelPhaseModel::Waiting => signal is WaitOver || signal is ShutDown || signal
            is Undelivered,
        TunnelPhaseModel::Stopped => false,
    }
}

/// A signal moves a tunnel to another phase where it is awaited, and changes and tells nothing
/// where it is not.
pub proof fn awaited_signals_move_tunnels_on(
    state: TunnelModel,
    signal: TunnelSignal,
    at: Timestamp,
)
    ensures
        ({
            let (next, step) = after_tunnel_signal(state, signal, at);
            &&& is_awaited(state, signal) ==> next.phase != state.phase
            &&& !is_awaited(state, signal) ==> next == state && is_untold(step)
        }),
{
}

/// The failure of a tunnel whose output was collected is logged as an error with its details, and
/// output that could not be waited for is logged as a warning before it.
pub proof fn failed_tunnels_are_logged(
    state: TunnelModel,
    collected: TunnelSignal,
    at: Timestamp,
)
    requires
        state.phase is Collecting,
        collected is Collected,
    ensures
        ({
            let step = after_tunnel_signal(state, collected, at).1;
            let start = "server "@ + state.server_id + " "@;
            &&& step.event matches Some(event)
            &&& event is TunnelFailed
            &&& step.lines.len() == (if collected->timed_out {
                2int
            } else {
                1int
            })
            &&& step.lines.last() == (LineModel {
                level: Level::Error,
                message: start + ("tunnel failed: "@ + event->TunnelFailed_error),
            })
            &&& collected->timed_out ==> step.lines[0] == (LineModel {
                level: Level::Warn,
                message: start
                    + "tunnel output pipes remained open after command exit; continuing restart"@,
            })
        }),
{
}

/// OpenSSH is told to fail where the forward cannot be made and to ask nothing, to forward the
/// local address to the remote one, and which port to use: the usual one where none is configured.
/// It prints what the tunnel waits for. The user's arguments and the destination come last.
pub proof fn ssh_forwards_the_address(addr: Text, ssh: SshTunnelConfig)
    ensures
        ({
            let command = ssh_command(addr, ssh);
            let extra = ssh.extra_ssh_args.deep_view();
            &&& command.program == "ssh"@
            &&& command.args.len() == 21 + extra.len()
            &&& command.args[0] == "-N"@
            &&& command.args[1] == "-T"@
            &&& has_option(command.args, "BatchMode=yes"@)
            &&& has_option(command.args, "ExitOnForwardFailure=yes"@)
            &&& has_option(command.args, "ConnectTimeout=15"@)
            &&& has_option(command.args, "ServerAliveInterval=10"@)
            &&& has_option(command.args, "ServerAliveCountMax=3"@)
            &&& has_option(command.args, "PermitLocalCommand=yes"@)
            &&& command.readiness_probe matches Some(probe)
            &&& probe == "SALMON_TUNNEL_READY"@
            &&& has_option(command.args, "LocalCommand=echo "@ + probe)
            &&& has_pair(command.args, "-p"@, decimal(
                if ssh.port == 0 {
                    22
                } else {
                    ssh.port as nat
                },
            ))
            &&& has_pair(command.args, "-L"@, addr + ":"@ + ssh.remote_salmon_addr@)
            &&& command.args.subrange(20, 20int + extra.len()) == extra
            &&& command.args.last() == ssh.user@ + "@"@ + ssh.host@
        }),
{
    let command = ssh_command(addr, ssh);
    let args = command.args;
    let extra = ssh.extra_ssh_args.deep_view();
    assert(args.subrange(20, 20int + extra.len()) =~= extra);
    assert(args[2] == "-o"@ && args[3] == "BatchMode=yes"@);
    assert(args[4] == "-o"@ && args[5] == "ExitOnForwardFailure=yes"@);
    assert(args[6] == "-o"@ && args[7] == "ConnectTimeout=15"@);
    assert(args[8] == "-o"@ && args[9] == "ServerAliveInterval=10"@);
    assert(args[10] == "-o"@ && args[11] == "ServerAliveCountMax=3"@);
    assert(args[12] == "-o"@ && args[13] == "PermitLocalCommand=yes"@);
    assert(args[14] == "-o"@ && args[15] == "LocalCommand=echo "@ + "SALMON_TUNNEL_READY"@);
    assert(args[16] == "-p"@ && args[18] == "-L"@);
}

/// Whether a value stands behind its flag before any argument of the user.
pub open spec fn has_pair(args: Seq<Text>, flag: Text, value: Text) -> bool {
    exists|i: int| 0 <= i < 19 && #[trigger] args[i] == flag && args[i + 1] == value
}

/// Whether OpenSSH is given an option.
pub open spec fn has_option(args: Seq<Text>, option: Text) -> bool {
    has_pair(args, "-o"@, option)
}

/// A custom command is run as it is configured: the first word is the program, and the others are
/// its arguments, in their order. It waits for the configured output, if there is any. Where both
/// kinds of tunnels are configured it is the custom one, and without a tunnel there is no command.
pub proof fn custom_commands_are_run_as_configured(server: ServerConfig)
    requires
        server.tunnel matches Some(tunnel) ==> (tunnel.custom_command matches Some(custom)
            ==> custom.command@.len() > 0),
    ensures
        server.tunnel is None <==> command_for(server) is None,
        server.tunnel matches Some(tunnel) ==> match tunnel.custom_command {
            Some(custom) => {
                &&& command_for(server) matches Some(command)
                &&& seq![command.program] + command.args == custom.command.deep_view()
                &&& custom.readiness_probe is None ==> command.readiness_probe is None
                &&& custom.readiness_probe matches Some(probe) ==> command.readiness_probe == Some(
                    probe.contains_output@,
                )
            },
            None => tunnel.ssh matches Some(ssh) ==> command_for(server) == Some(
                ssh_command(server.addr@, ssh),
            ),
        },
{
    if let Some(tunnel) = server.tunnel {
        if let Some(custom) = tunnel.custom_command {
            let words = custom.command.deep_view();
            assert(seq![words[0]] + words.skip(1) =~= words);
        }
    }
}

/// A probe occurs in an output where it is printed between other things, and nowhere else.
pub proof fn probes_occur_where_they_are_printed(
    before: Seq<u8>,
    probe: Seq<u8>,
    after: Seq<u8>,
    output: Seq<u8>,
)
    ensures
        occurs(before + probe + after, probe),
        occurs(output, probe) ==> exists|start: Seq<u8>, end: Seq<u8>|
            output == #[trigger] (start + probe + end),
{
    let whole = before + probe + after;
    assert(whole.subrange(before.len() as int, before.len() as int + probe.len()) =~= probe);
    assert(probe_at(whole, probe, before.len() as int));
    if occurs(output, probe) {
        let at = choose|at: int| #[trigger] probe_at(output, probe, at);
        let start = output.take(at);
        let end = output.skip(at + probe.len());
        assert(output =~= start + probe + end) by {
            assert forall|i: int| at <= i < at + probe.len() implies output[i] == probe[i - at] by {
                assert(output.subrange(at, at + probe.len())[i - at] == output[i]);
            }
        }
    }
}

/// The last bytes of an output are what it ends with: as many as asked for, or all where there are
/// not so many.
pub proof fn last_bytes_end_the_output(output: Seq<u8>, count: int)
    requires
        count >= 0,
    ensures
        last_bytes(output, count).len() <= count,
        last_bytes(output, count).len() == count || last_bytes(output, count) == output,
        exists|front: Seq<u8>| output == #[trigger] (front + last_bytes(output, count)),
{
    let front = output.take(output.len() - last_bytes(output, count).len());
    assert(output =~= front + last_bytes(output, count));
}

/// A tail is marked where output was lost before it, and stays marked. As long as all the output is
/// shorter than the limit, none is lost and nothing is marked.
pub proof fn tails_are_marked_where_output_is_lost(
    tail: TailModel,
    output: Seq<u8>,
    bytes: Seq<u8>,
)
    requires
        tail.bytes == last_bytes(output, 1024),
    ensures
        tail.truncated ==> longer_tail(tail, bytes).truncated,
        (output + bytes).len() > 1024 ==> longer_tail(tail, bytes).truncated || output.len() > 1024,
        !tail.truncated && (output + bytes).len() < 1024 ==> longer_tail(tail, bytes)
            == (TailModel { bytes: output + bytes, truncated: false }),
{
    if (output + bytes).len() < 1024 {
        assert(longer_tail(tail, bytes).bytes =~= output + bytes);
    }
}

/// The text of a tail is the output without the white space around it, after an ellipsis where
/// output is missing before it.
pub proof fn missing_output_is_told_by_an_ellipsis(text: Text)
    ensures
        marked_text(text, false) == trimmed(text),
        trimmed(text).len() == 0 ==> marked_text(text, true).len() == 0,
        trimmed(text).len() > 0 ==> marked_text(text, true) == seq!['\u{2026}'] + trimmed(text),
{
}

/// Lines end at newlines, with or without a carriage return before them. What follows the last
/// newline is a line too, unless it is empty.
pub proof fn lines_end_at_newlines(text: Text, line: Text)
    requires
        !line.contains('\n'),
    ensures
        ({
            let before = lines_of(text.push('\n'));
            let whole = text.push('\n') + line;
            &&& line.len() > 0 ==> lines_of(whole) == before.push(line)
            &&& line.len() == 0 || line.last() != '\r' ==> lines_of(whole.push('\n'))
                == before.push(line)
            &&& lines_of(whole + seq!['\r', '\n']) == before.push(line)
            &&& line.len() > 0 ==> lines_of(line) == seq![line]
            &&& lines_of(Seq::empty()).len() == 0
        }),
{
    let start = text.push('\n');
    let whole = start + line;
    let returned = line.push('\r');
    texts_are_split_before_their_last_part(text, '\n', Seq::empty());
    texts_are_split_before_their_last_part(text, '\n', line);
    texts_are_split_before_their_last_part(whole, '\n', Seq::empty());
    texts_are_split_before_their_last_part(text, '\n', returned);
    assert(start + Seq::<char>::empty() =~= start);
    assert(whole.push('\n') + Seq::<char>::empty() =~= whole.push('\n'));
    let ended = start + returned;
    texts_are_split_before_their_last_part(ended, '\n', Seq::empty());
    assert(ended.push('\n') + Seq::<char>::empty() =~= whole + seq!['\r', '\n']);
    let parts = split_on(text, '\n');
    let strip = |line: Text| without_return(line);
    assert(parts.push(Seq::empty()).drop_last() =~= parts);
    assert(parts.push(line).drop_last() =~= parts);
    assert(parts.push(returned).drop_last() =~= parts);
    assert(parts.push(line).push(Seq::empty()).drop_last() =~= parts.push(line));
    assert(parts.push(returned).push(Seq::empty()).drop_last() =~= parts.push(returned));
    assert(parts.push(line).map_values(strip) =~= parts.map_values(strip).push(
        without_return(line),
    ));
    assert(returned.take(returned.len() - 1) =~= line);
    assert(parts.push(returned).map_values(strip) =~= parts.map_values(strip).push(line));
    backward_searches_find_the_last(line, '\n', line.len() as int);
    assert(split_on(line, '\n') =~= seq![line]);
    assert(seq![line].drop_last().map_values(strip).push(line) =~= seq![line]);
    let nothing = Seq::<char>::empty();
    assert(split_on(nothing, '\n') =~= seq![nothing]);
    assert(seq![nothing].drop_last().map_values(strip) =~= Seq::<Text>::empty());
}

/// The output that a person sees lacks the lines that hold what the tunnel waits for and nothing
/// else, and keeps every other line, in order. Errors are shown before anything else is.
pub proof fn only_probes_are_left_out(
    text: Text,
    line: Text,
    probe: Option<Text>,
    errors: Text,
    rest: Text,
)
    requires
        !line.contains('\n'),
        line.len() > 0,
    ensures
        ({
            let start = text.push('\n');
            let kept = lines_of(start).filter(|line: Text| !is_probe_line(line, probe));
            &&& probe == Some(trimmed(line)) ==> cleaned(start + line, probe) == cleaned(
                start,
                probe,
            )
            &&& probe != Some(trimmed(line)) ==> cleaned(start + line, probe) == trimmed(
                with_newlines(kept.push(line)),
            )
            &&& probe is None ==> kept == lines_of(start)
        }),
        trimmed(line) != Seq::<char>::empty() && probe != Some(trimmed(line)) ==> cleaned(line, probe)
            == trimmed(line),
        cleaned(errors, probe).len() > 0 ==> useful_output(errors, rest, probe) == cleaned(
            errors,
            probe,
        ),
        cleaned(errors, probe).len() == 0 ==> useful_output(errors, rest, probe) == cleaned(
            rest,
            probe,
        ),
{
    let start = text.push('\n');
    let keep = |line: Text| !is_probe_line(line, probe);
    lines_end_at_newlines(text, line);
    lines_of(start).lemma_filter_push(line, keep);
    Seq::<Text>::empty().lemma_filter_push(line, keep);
    reveal(Seq::filter);
    assert(Seq::<Text>::empty().push(line) =~= seq![line]);
    assert(Seq::<Text>::empty().filter(keep) =~= Seq::<Text>::empty());
    if probe is None {
        lemma_all_are_kept(lines_of(start), keep);
    }
}

proof fn lemma_all_are_kept(lines: Seq<Text>, keep: spec_fn(Text) -> bool)
    requires
        forall|line: Text| #[trigger] keep(line),
    ensures
        lines.filter(keep) == lines,
    decreases lines.len(),
{
    reveal(Seq::filter);
    if lines.len() > 0 {
        lemma_all_are_kept(lines.drop_last(), keep);
        assert(keep(lines.last()));
        assert(lines.drop_last().push(lines.last()) =~= lines);
    }
    assert(lines.filter(keep) =~= lines);
}

// ---------------------------------------------------------------------------------------------
// Requests
// ---------------------------------------------------------------------------------------------

/// An address is taken apart where it has a host and a port, and otherwise refused for the one of
/// them that is missing or wrong.
pub proof fn addresses_are_refused_for_what_is_wrong(host: Text, port: nat, address: Text)
    requires
        host.len() > 0,
        !host.contains('/'),
        !host.contains(':'),
        host[0] != '[',
        1 <= port <= 65535,
    ensures
        split_refusal(host + seq![':'] + decimal(port)) is None,
        address_parts(address) is None <==> split_refusal(address) == Some(
            "address must be host:port"@,
        ),
        address_parts(address) matches Some(parts) ==> (unsigned_value(parts.1, 65535) is None
            ==> split_refusal(address) == Some(
            "address port is invalid: "@ + port_refusal_words(parts.1),
        )),
{
    addresses_are_taken_apart_again(host, port);
    reveal_strlit("address must be host:port");
    reveal_strlit("address port is invalid: ");
    if let Some(parts) = address_parts(address) {
        if let Some(words) = split_refusal(address) {
            assert(words[8] != "address must be host:port"@[8]);
        }
    }
}

/// A host in a URI can be told from the port behind it: a name and an IPv4 address stand as they
/// are, and an IPv6 address stands in brackets, once.
pub proof fn hosts_stand_apart_from_ports(host: Text)
    ensures
        !host.contains(':') ==> host_in_uri(host) == host,
        host.contains(':') && host[0] != '[' ==> host_in_uri(host) == seq!['['] + host + seq![']'],
        host.contains(':') && host[0] == '[' ==> host_in_uri(host) == host,
        host_in_uri(host_in_uri(host)) == host_in_uri(host),
{
    reveal_strlit("[");
    reveal_strlit("]");
    if host.contains(':') && host[0] != '[' {
        assert(host_in_uri(host) =~= seq!['['] + host + seq![']']);
        assert(host_in_uri(host)[0] == '[');
    }
}

/// A token is what a file holds between white space. It is not empty, holds no white space itself,
/// and can stand in a header; what is told of any other file is true of it.
pub proof fn tokens_can_stand_in_headers(contents: Text)
    ensures
        ({
            let token = trimmed(contents);
            let has_space = exists|i: int|
                0 <= i < token.len() && (#[trigger] token[i] == ' ' || token[i] == '\t' || token[i]
                    == '\n' || token[i] == '\u{c}' || token[i] == '\r');
            let has_control = exists|i: int|
                0 <= i < token.len() && (#[trigger] (token[i] as int) < 32 || token[i] as int
                    == 127);
            match token_problem(contents) {
                None => token.len() > 0 && !has_space && !has_control,
                Some(TokenProblem::Empty) => token.len() == 0,
                Some(TokenProblem::WhiteSpace) => has_space,
                Some(TokenProblem::NotAHeader) => token.len() > 0 && !has_space && has_control,
            }
        }),
{
    let token = trimmed(contents);
    let header = "Bearer "@ + token;
    reveal_strlit("Bearer ");
    assert(header.len() == 7 + token.len());
    assert forall|i: int| 0 <= i < token.len() implies #[trigger] token[i] == header[i + 7] by {}
    if exists|i: int| 0 <= i < token.len() && is_ascii_space(#[trigger] token[i]) {
        let i = choose|i: int| 0 <= i < token.len() && is_ascii_space(#[trigger] token[i]);
        assert(token[i] == header[i + 7]);
    } else if !is_header_text(header) {
        let i = choose|i: int| 0 <= i < header.len() && !is_header_char(#[trigger] header[i]);
        assert(i >= 7);
        assert(token[i - 7] == header[i]);
        assert((token[i - 7] as int) < 32 || token[i - 7] as int == 127);
    } else {
        assert forall|i: int| 0 <= i < token.len() implies is_header_char(#[trigger] token[i])
            && !is_ascii_space(token[i]) by {
            assert(token[i] == header[i + 7]);
            assert(is_header_char(header[i + 7]));
        }
    }
}

/// A request goes to the fixed path at the configured address. Where another name is to be
/// verified, that name stands in the URL in place of the host, with the port of the address.
pub proof fn requests_go_to_the_server(setup: ConnectionSetup, addr: Text)
    ensures
        setup.tls_server_name is None ==> url_authority(setup, addr) == Some(addr),
        setup.tls_server_name matches Some(name) ==> match address_parts(addr) {
            None => url_authority(setup, addr) is None,
            Some((host, port)) => match unsigned_value(port, 65535) {
                None => url_authority(setup, addr) is None,
                Some(number) => url_authority(setup, addr) == Some(
                    host_in_uri(name@) + seq![':'] + decimal(number),
                ),
            },
        },
        url_authority(setup, addr) matches Some(authority) ==> request_url(setup, authority)
            == setup.scheme@ + "://"@ + authority + "/api/v1/wsconnect"@,
        handshake_refusal(setup, addr) is None ==> {
            &&& url_authority(setup, addr) matches Some(authority)
            &&& request_refusal_words(request_url(setup, authority)) is None
            &&& forall|i: int|
                0 <= i < addr.len() ==> (#[trigger] addr[i] as int == 9 || addr[i] as int >= 32)
                    && addr[i] as int != 127
        },
{
    reveal_strlit(":");
    if let Some(name) = setup.tls_server_name {
        if let Some((host, port)) = address_parts(addr) {
            if let Some(number) = unsigned_value(port, 65535) {
                assert(host_in_uri(name@) + ":"@ + decimal(number) =~= host_in_uri(name@)
                    + seq![':'] + decimal(number));
            }
        }
    }
    if handshake_refusal(setup, addr) is None {
        assert forall|i: int| 0 <= i < addr.len() implies (#[trigger] addr[i] as int == 9
            || addr[i] as int >= 32) && addr[i] as int != 127 by {
            assert(is_header_char(addr[i]));
        }
    }
}

/// A request is refused for an address that cannot be taken apart where another name is to be
/// verified, for a URL that makes none, and for an address that cannot stand in a header: in this
/// order, and for nothing else.
pub proof fn requests_are_refused_for_what_is_wrong(setup: ConnectionSetup, addr: Text)
    ensures
        match url_authority(setup, addr) {
            None => handshake_refusal(setup, addr) == split_refusal(addr) && split_refusal(addr)
                is Some,
            Some(authority) => {
                let url = setup.scheme@ + "://"@ + authority + "/api/v1/wsconnect"@;
                match request_refusal_words(url) {
                    Some(words) => handshake_refusal(setup, addr) == Some(
                        "build WebSocket request for "@ + url + ": "@ + words,
                    ),
                    None => {
                        ||| is_header_text(addr) && handshake_refusal(setup, addr) is None
                        ||| !is_header_text(addr) && handshake_refusal(setup, addr) == Some(
                            "invalid WebSocket Host header: failed to parse header value"@,
                        )
                    },
                }
            },
        },
{
}

/// A server that asks for a token is told apart from one that refuses the token it was given, and
/// both from any other failure.
pub proof fn missing_and_refused_tokens_are_told_apart(failure: HandshakeFailure, with_token: bool)
    ensures
        handshake_words(HandshakeFailure::Http(401), true)
            == "server rejected the configured bearer token"@,
        handshake_words(HandshakeFailure::Http(401), false)
            == "server requires authentication, but no bearer token is configured"@,
        failure matches HandshakeFailure::Http(code) ==> (code != 401 ==> handshake_words(
            failure,
            with_token,
        ) == "WebSocket handshake failed: "@ + status_words(code)),
        failure matches HandshakeFailure::Other(words) ==> handshake_words(failure, with_token)
            == words@,
{
}

/// Servers are trusted only where there is a certificate to trust: one of the configured file, or
/// without a file, one of the system. A file that cannot be read or has none is refused, whatever
/// the system has.
pub proof fn trust_needs_a_certificate(
    ca_file: Text,
    reading: Result<Seq<Seq<u8>>, Text>,
    of_file: nat,
    of_system: nat,
)
    ensures
        trust_refusal(ca_file, reading, of_file, of_system) is None <==> {
            ||| ca_file.len() > 0 && reading is Ok && of_file > 0
            ||| ca_file.len() == 0 && of_system > 0
        },
        ca_file.len() == 0 && of_system == 0 ==> trust_refusal(ca_file, reading, of_file, of_system)
            == Some("load system CA certificates: no trusted certificates were found"@),
        ca_file.len() > 0 ==> match reading {
            Err(words) => trust_refusal(ca_file, reading, of_file, of_system) == Some(
                "read TLS CA file "@ + debug_text(ca_file) + ": "@ + words,
            ),
            Ok(_) => of_file == 0 ==> trust_refusal(ca_file, reading, of_file, of_system) == Some(
                "TLS CA file "@ + debug_text(ca_file) + " contains no valid certificates"@,
            ),
        },
{
}

} // verus!
