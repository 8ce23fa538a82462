//! The process that a connection may run through.

use vstd::prelude::*;
use vstd::string::*;
use vstd::utf8::{decode_utf8, valid_utf8};

use super::client::{server_line, Span};
use crate::config::{CustomTunnelCommandConfig, ServerConfig, SshTunnelConfig};
use crate::domain::event::{Event, EventModel};
use crate::domain::laws::source;
use crate::logging::Level;
use crate::runtime::{EventLogLine, LineModel};
use crate::text::{decimal, decimal_text, joined, push_char, same_text, split_on, split_text, trim,
    trimmed, Text};
use crate::timestamp::Timestamp;

verus! {

/// What OpenSSH prints once the forward is accepted.
pub const READY_MARKER: &'static str = "SALMON_TUNNEL_READY";

/// How much output of a failed tunnel is kept.
pub const MAX_FAILURE_OUTPUT_BYTES: usize = 1024;

/// The pause before a tunnel is started again.
pub const DEFAULT_RESTART_DELAY: u128 = 5_000_000_000;

/// How long the output of an ended tunnel is waited for.
pub const OUTPUT_DRAIN_TIMEOUT: u128 = 1_000_000_000;

// ---------------------------------------------------------------------------------------------
// The command
// ---------------------------------------------------------------------------------------------

/// A command that makes a tunnel.
#[derive(Debug, PartialEq, Eq)]
pub struct CommandSpec {
    pub program: String,
    /// All arguments, which no shell interprets.
    pub args: Vec<String>,
    /// Output that tells that the tunnel is ready; without it, it is at once.
    pub readiness_probe: Option<String>,
}

/// What a [`CommandSpec`] says.
#[verifier::ext_equal]
pub struct CommandModel {
    pub program: Text,
    pub args: Seq<Text>,
    pub readiness_probe: Option<Text>,
}

impl View for CommandSpec {
    type V = CommandModel;

    open spec fn view(&self) -> CommandModel {
        CommandModel {
            program: self.program@,
            args: self.args.deep_view(),
            readiness_probe: self.readiness_probe.deep_view(),
        }
    }
}

/// The port of an SSH server.
pub open spec fn ssh_port(ssh: SshTunnelConfig) -> nat {
    if ssh.port == 0 {
        22
    } else {
        ssh.port as nat
    }
}

/// The OpenSSH command for a server. It prints the marker only once it has a session and has
/// accepted the forward, and it ends where the forward cannot be made. The destination comes last.
pub open spec fn ssh_command(addr: Text, ssh: SshTunnelConfig) -> CommandModel {
    CommandModel {
        program: "ssh"@,
        args: seq![
            "-N"@,
            "-T"@,
            "-o"@,
            "BatchMode=yes"@,
            "-o"@,
            "ExitOnForwardFailure=yes"@,
            "-o"@,
            "ConnectTimeout=15"@,
            "-o"@,
            "ServerAliveInterval=10"@,
            "-o"@,
            "ServerAliveCountMax=3"@,
            "-o"@,
            "PermitLocalCommand=yes"@,
            "-o"@,
            "LocalCommand=echo "@ + READY_MARKER@,
            "-p"@,
            decimal(ssh_port(ssh)),
            "-L"@,
            addr + ":"@ + ssh.remote_salmon_addr@,
        ] + ssh.extra_ssh_args.deep_view() + seq![ssh.user@ + "@"@ + ssh.host@],
        readiness_probe: Some(READY_MARKER@),
    }
}

/// The custom command for a server.
pub open spec fn custom_command(custom: CustomTunnelCommandConfig) -> CommandModel {
    CommandModel {
        program: custom.command.deep_view()[0],
        args: custom.command.deep_view().skip(1),
        readiness_probe: match custom.readiness_probe {
            Some(probe) => Some(probe.contains_output@),
            None => None,
        },
    }
}

/// The command for the tunnel of a server, if it has one.
pub open spec fn command_for(server: ServerConfig) -> Option<CommandModel> {
    match server.tunnel {
        None => None,
        Some(tunnel) => match tunnel.custom_command {
            Some(custom) => Some(custom_command(custom)),
            None => Some(ssh_command(server.addr@, tunnel.ssh.unwrap())),
        },
    }
}

fn push_all(args: &mut Vec<String>, more: &Vec<String>, from: usize)
    requires
        from <= more.len(),
    ensures
        final(args).deep_view() == old(args).deep_view() + more.deep_view().skip(from as int),
{
    let ghost before = args.deep_view();
    let ghost added = more.deep_view().skip(from as int);
    let mut i: usize = from;
    assert(before + added.take(0) =~= before);
    while i < more.len()
        invariant
            added == more.deep_view().skip(from as int),
            from <= i <= more.len(),
            args.deep_view() == before + added.take(i - from),
        decreases more.len() - i,
    {
        let ghost last = args.deep_view();
        let text = more[i].clone();
        assert(added[i - from] == text@);
        args.push(text);
        assert(args.deep_view() =~= last.push(added[i - from]));
        assert(args.deep_view() =~= before + added.take(i - from + 1));
        i += 1;
    }
    assert(added.take(i - from) =~= added);
}

impl CommandSpec {
    /// The command for the tunnel of a server, if it has one.
    pub fn for_server(server: &ServerConfig) -> (command: Option<Self>)
        requires
            server.tunnel matches Some(tunnel) ==> match tunnel.custom_command {
                Some(custom) => custom.command@.len() > 0,
                None => tunnel.ssh is Some,
            },
        ensures
            command is Some <==> server.tunnel is Some,
            command matches Some(spec) ==> Some(spec@) == command_for(*server),
    {
        let tunnel = match &server.tunnel {
            Some(tunnel) => tunnel,
            None => {
                return None;
            },
        };
        if let Some(custom) = &tunnel.custom_command {
            let program = custom.command[0].clone();
            let mut args: Vec<String> = Vec::new();
            push_all(&mut args, &custom.command, 1);
            let readiness_probe = match &custom.readiness_probe {
                Some(probe) => Some(probe.contains_output.clone()),
                None => None,
            };
            let spec = CommandSpec { program, args, readiness_probe };
            assert(spec@.args =~= custom_command(*custom).args);
            assert(spec@.program == custom_command(*custom).program);
            return Some(spec);
        }
        match &tunnel.ssh {
            Some(ssh) => Some(Self::for_ssh(server, ssh)),
            None => None,
        }
    }

    fn for_ssh(server: &ServerConfig, ssh: &SshTunnelConfig) -> (command: Self)
        ensures
            command@ == ssh_command(server.addr@, *ssh),
    {
        let port: u16 = if ssh.port == 0 {
            22
        } else {
            ssh.port
        };
        let forward = joined(server.addr.as_str(), ":").concat(ssh.remote_salmon_addr.as_str());
        let mut args: Vec<String> = vec![
            "-N".to_owned(),
            "-T".to_owned(),
            "-o".to_owned(),
            "BatchMode=yes".to_owned(),
            "-o".to_owned(),
            "ExitOnForwardFailure=yes".to_owned(),
            "-o".to_owned(),
            "ConnectTimeout=15".to_owned(),
            "-o".to_owned(),
            "ServerAliveInterval=10".to_owned(),
            "-o".to_owned(),
            "ServerAliveCountMax=3".to_owned(),
            "-o".to_owned(),
            "PermitLocalCommand=yes".to_owned(),
            "-o".to_owned(),
            joined("LocalCommand=echo ", READY_MARKER),
            "-p".to_owned(),
            decimal_text(port as u128),
            "-L".to_owned(),
            forward,
        ];
        let ghost goal = ssh_command(server.addr@, *ssh);
        let ghost fixed = args.deep_view();
        assert(fixed.len() == 20);
        assert(fixed =~= goal.args.take(20));
        push_all(&mut args, &ssh.extra_ssh_args, 0);
        let destination = joined(ssh.user.as_str(), "@").concat(ssh.host.as_str());
        let ghost most = args.deep_view();
        args.push(destination);
        assert(args.deep_view() =~= most.push(goal.args.last()));
        let command = CommandSpec {
            program: "ssh".to_owned(),
            args,
            readiness_probe: Some(READY_MARKER.to_owned()),
        };
        proof {
            assert(ssh.extra_ssh_args.deep_view().skip(0) =~= ssh.extra_ssh_args.deep_view());
            assert(command@.args =~= goal.args);
        }
        command
    }
}

/// The user's own arguments and the destination come last: nothing that the user names as host or
/// user can stand where OpenSSH reads its own options.
pub proof fn ssh_destination_comes_last(addr: Text, ssh: SshTunnelConfig)
    ensures
        ssh_command(addr, ssh).args.last() == ssh.user@ + "@"@ + ssh.host@,
        ssh_command(addr, ssh).args.len() == 21 + ssh.extra_ssh_args@.len(),
{
}

// ---------------------------------------------------------------------------------------------
// The probe
// ---------------------------------------------------------------------------------------------

/// Whether a probe stands at a position of the output.
pub open spec fn probe_at(output: Seq<u8>, probe: Seq<u8>, at: int) -> bool {
    0 <= at && at + probe.len() <= output.len() && output.subrange(at, at + probe.len()) == probe
}

/// Whether a probe occurs in the output.
pub open spec fn occurs(output: Seq<u8>, probe: Seq<u8>) -> bool {
    exists|at: int| #[trigger] probe_at(output, probe, at)
}

/// The last bytes of an output, at most so many.
pub open spec fn last_bytes(output: Seq<u8>, count: int) -> Seq<u8> {
    if output.len() > count {
        output.skip(output.len() - count)
    } else {
        output
    }
}

/// Finds a probe in output that comes in pieces.
pub struct ProbeMatcher {
    probe: Vec<u8>,
    tail: Vec<u8>,
    complete: bool,
}

/// What a [`ProbeMatcher`] says.
#[verifier::ext_equal]
pub struct MatcherModel {
    pub probe: Seq<u8>,
    /// The last bytes of the output, as far as a probe may start in them.
    pub tail: Seq<u8>,
    pub complete: bool,
}

impl View for ProbeMatcher {
    type V = MatcherModel;

    closed spec fn view(&self) -> MatcherModel {
        MatcherModel { probe: self.probe@, tail: self.tail@, complete: self.complete }
    }
}

/// A matcher that has seen nothing.
pub open spec fn fresh_matcher(probe: Seq<u8>) -> MatcherModel {
    MatcherModel { probe, tail: Seq::empty(), complete: probe.len() == 0 }
}

/// Whether a piece completes the probe.
pub open spec fn completes(matcher: MatcherModel, bytes: Seq<u8>) -> bool {
    !matcher.complete && occurs(matcher.tail + bytes, matcher.probe)
}

/// The matcher after a piece.
pub open spec fn after_piece(matcher: MatcherModel, bytes: Seq<u8>) -> MatcherModel {
    if matcher.complete {
        matcher
    } else if completes(matcher, bytes) {
        MatcherModel { tail: Seq::empty(), complete: true, ..matcher }
    } else {
        MatcherModel {
            tail: last_bytes(matcher.tail + bytes, matcher.probe.len() - 1),
            ..matcher
        }
    }
}

/// Whether a matcher has seen exactly this output.
pub open spec fn has_seen(matcher: MatcherModel, output: Seq<u8>) -> bool {
    if matcher.complete {
        occurs(output, matcher.probe)
    } else {
        &&& matcher.probe.len() > 0
        &&& !occurs(output, matcher.probe)
        &&& matcher.tail == last_bytes(output, matcher.probe.len() - 1)
    }
}

fn contains_bytes(output: &Vec<u8>, probe: &Vec<u8>) -> (found: bool)
    ensures
        found == occurs(output@, probe@),
{
    if probe.len() > output.len() {
        return false;
    }
    let last: usize = output.len() - probe.len();
    let mut at: usize = 0;
    while at <= last
        invariant
            last == output.len() - probe.len(),
            probe.len() <= output.len(),
            at <= last + 1,
            forall|i: int| 0 <= i < at ==> !probe_at(output@, probe@, i),
        decreases last + 1 - at,
    {
        if bytes_stand(output, probe, at) {
            assert(probe_at(output@, probe@, at as int));
            return true;
        }
        if at == last {
            proof {
                assert forall|i: int| !probe_at(output@, probe@, i) by {}
            }
            return false;
        }
        at += 1;
    }
    false
}

fn bytes_stand(output: &Vec<u8>, probe: &Vec<u8>, at: usize) -> (stand: bool)
    requires
        at + probe.len() <= output.len(),
    ensures
        stand == probe_at(output@, probe@, at as int),
{
    let mut i: usize = 0;
    while i < probe.len()
        invariant
            i <= probe.len(),
            at + probe.len() <= output.len(),
            forall|j: int| 0 <= j < i ==> output@[at + j] == probe@[j],
        decreases probe.len() - i,
    {
        if output[at + i] != probe[i] {
            assert(output@.subrange(at as int, at + probe@.len())[i as int] != probe@[i as int]);
            return false;
        }
        i += 1;
    }
    assert(output@.subrange(at as int, at + probe@.len()) =~= probe@);
    true
}

fn bytes_of(bytes: &[u8]) -> (copy: Vec<u8>)
    ensures
        copy@ == bytes@,
{
    let mut copy: Vec<u8> = Vec::new();
    push_bytes(&mut copy, bytes);
    assert(copy@ =~= bytes@);
    copy
}

fn push_bytes(buffer: &mut Vec<u8>, bytes: &[u8])
    ensures
        final(buffer)@ == old(buffer)@ + bytes@,
{
    let mut i: usize = 0;
    assert(buffer@ + bytes@.take(0) =~= buffer@);
    while i < bytes.len()
        invariant
            i <= bytes.len(),
            buffer@ == old(buffer)@ + bytes@.take(i as int),
        decreases bytes.len() - i,
    {
        buffer.push(bytes[i]);
        assert(buffer@ =~= old(buffer)@ + bytes@.take(i + 1));
        i += 1;
    }
    assert(bytes@.take(i as int) =~= bytes@);
}

fn last_bytes_of(output: &Vec<u8>, count: usize) -> (last: Vec<u8>)
    ensures
        last@ == last_bytes(output@, count as int),
{
    let start: usize = if output.len() > count {
        output.len() - count
    } else {
        0
    };
    let mut last: Vec<u8> = Vec::new();
    let mut i: usize = start;
    while i < output.len()
        invariant
            start <= i <= output.len(),
            last@ == output@.subrange(start as int, i as int),
        decreases output.len() - i,
    {
        last.push(output[i]);
        assert(last@ =~= output@.subrange(start as int, i + 1));
        i += 1;
    }
    assert(last@ =~= last_bytes(output@, count as int));
    last
}

impl ProbeMatcher {
    /// A matcher that has seen nothing.
    pub fn new(probe: &[u8]) -> (matcher: Self)
        ensures
            matcher@ == fresh_matcher(probe@),
    {
        let matcher = ProbeMatcher {
            probe: bytes_of(probe),
            tail: Vec::new(),
            complete: probe.len() == 0,
        };
        assert(matcher@.tail =~= Seq::<u8>::empty());
        matcher
    }

    /// Takes one piece. Tells, once, that the probe is complete.
    pub fn push(&mut self, bytes: &[u8]) -> (found: bool)
        ensures
            found == completes(old(self)@, bytes@),
            final(self)@ == after_piece(old(self)@, bytes@),
    {
        if self.complete {
            return false;
        }
        let mut combined: Vec<u8> = Vec::new();
        push_bytes(&mut combined, self.tail.as_slice());
        push_bytes(&mut combined, bytes);
        assert(combined@ =~= self.tail@ + bytes@);
        if contains_bytes(&combined, &self.probe) {
            self.complete = true;
            self.tail = Vec::new();
            assert(self@ =~= after_piece(old(self)@, bytes@));
            return true;
        }
        proof {
            if self.probe@.len() == 0 {
                assert(probe_at(combined@, self.probe@, 0)) by {
                    assert(combined@.subrange(0, 0) =~= self.probe@);
                }
            }
        }
        let keep: usize = self.probe.len() - 1;
        self.tail = last_bytes_of(&combined, keep);
        false
    }
}

/// A new matcher has seen the empty output.
pub proof fn fresh_matchers_have_seen_nothing(probe: Seq<u8>)
    ensures
        has_seen(fresh_matcher(probe), Seq::empty()),
{
    let empty = Seq::<u8>::empty();
    if probe.len() == 0 {
        assert(empty.subrange(0, 0) =~= probe);
        assert(probe_at(empty, probe, 0));
    } else {
        assert(last_bytes(empty, probe.len() - 1) =~= empty);
    }
}

/// However the output is cut into pieces, the probe is told of exactly once: with the piece that
/// completes its first occurrence in the whole output.
pub proof fn pieces_match_like_the_whole(
    matcher: MatcherModel,
    output: Seq<u8>,
    bytes: Seq<u8>,
)
    requires
        has_seen(matcher, output),
    ensures
        has_seen(after_piece(matcher, bytes), output + bytes),
        completes(matcher, bytes) <==> !matcher.complete && occurs(output + bytes, matcher.probe),
{
    let probe = matcher.probe;
    let whole = output + bytes;
    if matcher.complete {
        let at = choose|at: int| probe_at(output, probe, at);
        assert(whole.subrange(at, at + probe.len()) =~= output.subrange(at, at + probe.len()));
        assert(probe_at(whole, probe, at));
    } else {
        let keep = probe.len() - 1;
        let tail = matcher.tail;
        let combined = tail + bytes;
        let gone = output.len() - tail.len();
        assert(combined =~= whole.skip(gone));
        if occurs(combined, probe) {
            let at = choose|at: int| probe_at(combined, probe, at);
            assert(whole.subrange(at + gone, at + gone + probe.len()) =~= combined.subrange(
                at,
                at + probe.len(),
            ));
            assert(probe_at(whole, probe, at + gone));
        }
        if occurs(whole, probe) {
            let at = choose|at: int| probe_at(whole, probe, at);
            if at + probe.len() <= output.len() {
                assert(output.subrange(at, at + probe.len()) =~= whole.subrange(
                    at,
                    at + probe.len(),
                ));
                assert(probe_at(output, probe, at));
            }
            assert(at >= gone);
            assert(combined.subrange(at - gone, at - gone + probe.len()) =~= whole.subrange(
                at,
                at + probe.len(),
            ));
            assert(probe_at(combined, probe, at - gone));
        }
        if !occurs(combined, probe) {
            assert(last_bytes(combined, keep) =~= last_bytes(whole, keep));
        }
    }
}

// ---------------------------------------------------------------------------------------------
// Output for a failure
// ---------------------------------------------------------------------------------------------

/// The last part of a process's output.
pub struct TailBuffer {
    bytes: Vec<u8>,
    truncated: bool,
}

/// What a [`TailBuffer`] says.
#[verifier::ext_equal]
pub struct TailModel {
    pub bytes: Seq<u8>,
    /// Whether output may be missing before these bytes.
    pub truncated: bool,
}

impl View for TailBuffer {
    type V = TailModel;

    closed spec fn view(&self) -> TailModel {
        TailModel { bytes: self.bytes@, truncated: self.truncated }
    }
}

/// A tail with more output.
pub open spec fn longer_tail(tail: TailModel, bytes: Seq<u8>) -> TailModel {
    TailModel {
        bytes: last_bytes(tail.bytes + bytes, MAX_FAILURE_OUTPUT_BYTES as int),
        truncated: tail.truncated || bytes.len() >= MAX_FAILURE_OUTPUT_BYTES || tail.bytes.len()
            + bytes.len() > MAX_FAILURE_OUTPUT_BYTES,
    }
}

/// What `String::from_utf8_lossy` reads from bytes.
pub uninterp spec fn lossy_text(bytes: Seq<u8>) -> Seq<char>;

/// Reads bytes with `String::from_utf8_lossy`, which replaces what is no UTF-8 and keeps the rest.
#[verifier::external_body]
fn read_lossy(bytes: &[u8]) -> (text: String)
    ensures
        text@ == lossy_text(bytes@),
        valid_utf8(bytes@) ==> text@ == decode_utf8(bytes@),
{
    String::from_utf8_lossy(bytes).into_owned()
}

/// A tail as a text, marked where output is missing.
pub open spec fn marked_text(text: Text, truncated: bool) -> Text {
    let inner = trimmed(text);
    if truncated && inner.len() > 0 {
        seq!['\u{2026}'] + inner
    } else {
        inner
    }
}

/// Takes away the white space around a text and marks it where output is missing before it.
pub fn mark_text(text: &str, truncated: bool) -> (marked: String)
    ensures
        marked@ == marked_text(text@, truncated),
{
    let inner = trim(text);
    if truncated && !inner.as_str().is_empty() {
        let mut marked = String::new();
        push_char(&mut marked, '\u{2026}');
        assert(marked@ =~= seq!['\u{2026}']);
        marked.concat(inner.as_str())
    } else {
        inner
    }
}

impl Default for TailBuffer {
    fn default() -> (tail: Self)
        ensures
            tail@ == (TailModel { bytes: Seq::empty(), truncated: false }),
    {
        let tail = TailBuffer { bytes: Vec::new(), truncated: false };
        assert(tail@.bytes =~= Seq::<u8>::empty());
        tail
    }
}

impl TailBuffer {
    /// Takes more output and keeps the newest.
    pub fn push(&mut self, bytes: &[u8])
        ensures
            final(self)@ == longer_tail(old(self)@, bytes@),
    {
        let total: bool = bytes.len() >= MAX_FAILURE_OUTPUT_BYTES || self.bytes.len()
            > MAX_FAILURE_OUTPUT_BYTES - bytes.len();
        if total {
            self.truncated = true;
        }
        push_bytes(&mut self.bytes, bytes);
        self.bytes = last_bytes_of(&self.bytes, MAX_FAILURE_OUTPUT_BYTES);
    }

    /// The tail as a text, marked where output is missing.
    pub fn text(&self) -> (text: String)
        ensures
            text@ == marked_text(lossy_text(self@.bytes), self@.truncated),
            valid_utf8(self@.bytes) ==> text@ == marked_text(
                decode_utf8(self@.bytes),
                self@.truncated,
            ),
    {
        mark_text(read_lossy(self.bytes.as_slice()).as_str(), self.truncated)
    }
}

/// A tail holds the last bytes of all the output that it took, and no more than the limit.
pub proof fn tails_hold_the_last_output(tail: TailModel, output: Seq<u8>, bytes: Seq<u8>)
    requires
        tail.bytes == last_bytes(output, MAX_FAILURE_OUTPUT_BYTES as int),
    ensures
        longer_tail(tail, bytes).bytes == last_bytes(
            output + bytes,
            MAX_FAILURE_OUTPUT_BYTES as int,
        ),
        longer_tail(tail, bytes).bytes.len() <= MAX_FAILURE_OUTPUT_BYTES,
        !longer_tail(tail, bytes).truncated && !tail.truncated ==> (tail.bytes == output
            ==> longer_tail(tail, bytes).bytes == output + bytes),
{
    assert(longer_tail(tail, bytes).bytes =~= last_bytes(
        output + bytes,
        MAX_FAILURE_OUTPUT_BYTES as int,
    ));
}

/// What was read of one output of a process.
pub struct CapturedOutput {
    pub tail: TailBuffer,
}

impl Default for CapturedOutput {
    fn default() -> (output: Self)
        ensures
            output.tail@ == (TailModel { bytes: Seq::empty(), truncated: false }),
    {
        CapturedOutput { tail: TailBuffer::default() }
    }
}

impl CapturedOutput {
    /// The output as a text.
    pub fn text(&self) -> (text: String)
        ensures
            text@ == marked_text(lossy_text(self.tail@.bytes), self.tail@.truncated),
    {
        self.tail.text()
    }
}

/// A line without the carriage return that it ends with.
pub open spec fn without_return(line: Text) -> Text {
    if line.len() > 0 && line[line.len() - 1] == '\r' {
        line.take(line.len() - 1)
    } else {
        line
    }
}

/// The lines of a text, as `str::lines` has them: each ends at a newline, with or without a
/// carriage return before it, and the last one may lack it.
pub open spec fn lines_of(text: Text) -> Seq<Text> {
    let parts = split_on(text, '\n');
    let ended = parts.drop_last().map_values(|line: Text| without_return(line));
    if parts.last().len() == 0 {
        ended
    } else {
        ended.push(parts.last())
    }
}

/// Lines with newlines between them.
pub open spec fn with_newlines(lines: Seq<Text>) -> Text
    decreases lines.len(),
{
    if lines.len() == 0 {
        Seq::empty()
    } else if lines.len() == 1 {
        lines[0]
    } else {
        with_newlines(lines.drop_last()) + "\n"@ + lines.last()
    }
}

/// Whether a line holds the probe alone.
pub open spec fn is_probe_line(line: Text, probe: Option<Text>) -> bool {
    probe == Some(trimmed(line))
}

/// Output without the lines that hold the probe alone.
pub open spec fn cleaned(output: Text, probe: Option<Text>) -> Text {
    trimmed(with_newlines(lines_of(output).filter(|line: Text| !is_probe_line(line, probe))))
}

/// What a person should see of a failed tunnel's output: errors, or else anything.
pub open spec fn useful_output(stderr: Text, stdout: Text, probe: Option<Text>) -> Text {
    if cleaned(stderr, probe).len() > 0 {
        cleaned(stderr, probe)
    } else {
        cleaned(stdout, probe)
    }
}

fn strip_return(line: &str) -> (rest: String)
    ensures
        rest@ == without_return(line@),
{
    let chars = crate::text::chars_of(line);
    if chars.len() > 0 && chars[chars.len() - 1] == '\r' {
        let rest = crate::text::slice_of(&chars, 0, chars.len() - 1);
        assert(rest@ =~= line@.take(line@.len() - 1));
        rest
    } else {
        line.to_owned()
    }
}

/// Splits a text into its lines.
pub fn split_lines(text: &str) -> (lines: Vec<String>)
    ensures
        lines.deep_view() == lines_of(text@),
{
    let parts = split_text(text, '\n');
    let ghost all = parts.deep_view();
    let ghost ended = all.drop_last().map_values(|line: Text| without_return(line));
    assert(all.len() >= 1);
    assert(all.len() == parts.len());
    let last: usize = parts.len() - 1;
    let mut lines: Vec<String> = Vec::new();
    let mut i: usize = 0;
    assert(lines.deep_view() =~= ended.take(0));
    while i < last
        invariant
            all == parts.deep_view(),
            last == parts.len() - 1,
            ended == all.drop_last().map_values(|line: Text| without_return(line)),
            i <= last,
            lines.deep_view() == ended.take(i as int),
        decreases last - i,
    {
        let ghost before = lines.deep_view();
        let line = strip_return(parts[i].as_str());
        assert(ended[i as int] == line@);
        lines.push(line);
        assert(lines.deep_view() =~= before.push(ended[i as int]));
        assert(lines.deep_view() =~= ended.take(i + 1));
        i += 1;
    }
    assert(ended.take(i as int) =~= ended);
    assert(all.last() == parts@[last as int]@);
    if !parts[last].as_str().is_empty() {
        let ghost before = lines.deep_view();
        lines.push(parts[last].clone());
        assert(lines.deep_view() =~= before.push(all.last()));
    }
    lines
}

fn is_probe(line: &str, probe: Option<&str>) -> (is: bool)
    ensures
        is == is_probe_line(line@, probe.deep_view()),
{
    match probe {
        Some(text) => same_text(trim(line).as_str(), text),
        None => false,
    }
}

fn clean(output: &str, probe: Option<&str>) -> (text: String)
    ensures
        text@ == cleaned(output@, probe.deep_view()),
{
    let lines = split_lines(output);
    let ghost all = lines.deep_view();
    let ghost keeps = |line: Text| !is_probe_line(line, probe.deep_view());
    let ghost mut kept: Seq<Text> = Seq::empty();
    let mut joined_lines = String::new();
    let mut first = true;
    let mut i: usize = 0;
    assert(all.take(0) =~= Seq::<Text>::empty());
    assert(joined_lines@ =~= with_newlines(kept));
    assert(kept =~= all.take(0).filter(keeps));
    while i < lines.len()
        invariant
            all == lines.deep_view(),
            keeps == (|line: Text| !is_probe_line(line, probe.deep_view())),
            i <= lines.len(),
            kept == all.take(i as int).filter(keeps),
            first == (kept.len() == 0),
            joined_lines@ == with_newlines(kept),
        decreases lines.len() - i,
    {
        let line = lines[i].as_str();
        proof {
            assert(all[i as int] == line@);
            assert(all.take(i + 1) =~= all.take(i as int).push(line@));
            all.take(i as int).lemma_filter_push(line@, keeps);
        }
        if !is_probe(line, probe) {
            if first {
                joined_lines = line.to_owned();
                first = false;
            } else {
                joined_lines = joined_lines.concat("\n").concat(line);
            }
            proof {
                let more = kept.push(line@);
                assert(more.drop_last() =~= kept);
                kept = more;
            }
        }
        i += 1;
    }
    assert(all.take(i as int) =~= all);
    trim(joined_lines.as_str())
}

/// Picks what a person should see of a failed tunnel's output: errors rather than other output,
/// and not the probe.
pub fn failure_output(stderr: &str, stdout: &str, readiness_probe: Option<&str>) -> (text: String)
    ensures
        text@ == useful_output(stderr@, stdout@, readiness_probe.deep_view()),
{
    let errors = clean(stderr, readiness_probe);
    if errors.as_str().is_empty() {
        clean(stdout, readiness_probe)
    } else {
        errors
    }
}

// ---------------------------------------------------------------------------------------------
// Keeping the tunnel up
// ---------------------------------------------------------------------------------------------

/// How a tunnel process ended.
#[derive(Debug, PartialEq, Eq)]
pub enum Exit {
    Success,
    /// With this status, in words.
    Failure(String),
    /// It is not known, in words.
    WaitFailed(String),
}

/// What an [`Exit`] says.
pub enum ExitModel {
    Success,
    Failure(Text),
    WaitFailed(Text),
}

impl View for Exit {
    type V = ExitModel;

    open spec fn view(&self) -> ExitModel {
        match self {
            Exit::Success => ExitModel::Success,
            Exit::Failure(status) => ExitModel::Failure(status@),
            Exit::WaitFailed(error) => ExitModel::WaitFailed(error@),
        }
    }
}

/// The details of a failed tunnel: how it ended, and what it printed last.
pub open spec fn details_of(
    exit: ExitModel,
    timed_out: bool,
    stderr: Text,
    stdout: Text,
    probe: Option<Text>,
) -> Text {
    let ending = match exit {
        ExitModel::Success => "Tunnel command exited unexpectedly"@,
        ExitModel::Failure(status) => "Tunnel command exited: "@ + status,
        ExitModel::WaitFailed(error) => "Waiting for tunnel command failed: "@ + error,
    };
    let noted = if timed_out {
        ending + "\n\nTunnel output pipes remained open after the command exited"@
    } else {
        ending
    };
    let output = useful_output(stderr, stdout, probe);
    if output.len() > 0 {
        noted + "\n\n"@ + output
    } else {
        noted
    }
}

/// The details of a failed tunnel.
pub fn failure_details(
    exit: &Exit,
    timed_out: bool,
    stderr: &str,
    stdout: &str,
    readiness_probe: Option<&str>,
) -> (details: String)
    ensures
        details@ == details_of(exit@, timed_out, stderr@, stdout@, readiness_probe.deep_view()),
{
    let mut details = match exit {
        Exit::Success => "Tunnel command exited unexpectedly".to_owned(),
        Exit::Failure(status) => joined("Tunnel command exited: ", status.as_str()),
        Exit::WaitFailed(error) => joined("Waiting for tunnel command failed: ", error.as_str()),
    };
    if timed_out {
        details = details.concat(
            "\n\nTunnel output pipes remained open after the command exited",
        );
    }
    let output = failure_output(stderr, stdout, readiness_probe);
    if !output.as_str().is_empty() {
        details = details.concat("\n\n").concat(output.as_str());
    }
    details
}

/// What happened to a tunnel.
#[derive(Debug)]
pub enum TunnelSignal {
    /// Nothing stands in the way of a start.
    Begin,
    Spawned,
    /// The process could not be started, in words.
    SpawnFailed(String),
    /// The probe was seen.
    ProbeSeen,
    Exited(Exit),
    /// The connection over the tunnel ended for good.
    ClientStopped,
    /// The output of the ended process, and whether some of it could not be waited for.
    Collected { timed_out: bool, stderr: String, stdout: String },
    /// The process is gone; with whether its output could not be waited for.
    TornDown(bool),
    /// The pause is over.
    WaitOver,
    /// Nobody took the event.
    Undelivered,
    ShutDown,
}

/// Where a tunnel stands.
#[derive(Debug)]
pub enum TunnelPhase {
    Starting,
    Spawning,
    AwaitingProbe,
    Ready,
    Collecting(Exit),
    TearingDown,
    Waiting,
    Stopped,
}

/// What a [`TunnelPhase`] says.
pub enum TunnelPhaseModel {
    Starting,
    Spawning,
    AwaitingProbe,
    Ready,
    Collecting(ExitModel),
    TearingDown,
    Waiting,
    Stopped,
}

impl View for TunnelPhase {
    type V = TunnelPhaseModel;

    open spec fn view(&self) -> TunnelPhaseModel {
        match self {
            TunnelPhase::Starting => TunnelPhaseModel::Starting,
            TunnelPhase::Spawning => TunnelPhaseModel::Spawning,
            TunnelPhase::AwaitingProbe => TunnelPhaseModel::AwaitingProbe,
            TunnelPhase::Ready => TunnelPhaseModel::Ready,
            TunnelPhase::Collecting(exit) => TunnelPhaseModel::Collecting(exit@),
            TunnelPhase::TearingDown => TunnelPhaseModel::TearingDown,
            TunnelPhase::Waiting => TunnelPhaseModel::Waiting,
            TunnelPhase::Stopped => TunnelPhaseModel::Stopped,
        }
    }
}

/// What to do about a tunnel.
#[derive(Clone, Copy, Debug, PartialEq, Eq, Structural)]
pub enum TunnelAction {
    /// Begin, unless the shutdown came.
    Start,
    /// Start the process.
    Spawn,
    /// Wait for the probe, the end of the process or the shutdown.
    AwaitProbe,
    /// Keep the connection up until the process or the connection ends or the shutdown comes.
    RunClient,
    /// End the connection and what is left of the process, and collect its output.
    Collect,
    /// End the connection and the process.
    TearDown,
    /// Wait so long, or until the shutdown.
    Wait(Span),
    Stop,
}

/// What came of a signal about a tunnel.
pub struct TunnelStep {
    pub lines: Vec<EventLogLine>,
    /// The event to send, which must be delivered.
    pub event: Option<Event>,
    pub action: TunnelAction,
}

/// What a [`TunnelStep`] says.
#[verifier::ext_equal]
pub struct TunnelStepModel {
    pub lines: Seq<LineModel>,
    pub event: Option<EventModel>,
    pub action: TunnelAction,
}

impl View for TunnelStep {
    type V = TunnelStepModel;

    open spec fn view(&self) -> TunnelStepModel {
        TunnelStepModel {
            lines: self.lines.deep_view(),
            event: match self.event {
                Some(event) => Some(event@),
                None => None,
            },
            action: self.action,
        }
    }
}

/// Keeps one tunnel up, and the connection over it only while the tunnel is ready.
pub struct TunnelLoop {
    server_id: String,
    program: String,
    readiness_probe: Option<String>,
    restart_delay: Span,
    phase: TunnelPhase,
}

/// What a [`TunnelLoop`] says.
#[verifier::ext_equal]
pub struct TunnelModel {
    pub server_id: Text,
    pub program: Text,
    pub readiness_probe: Option<Text>,
    pub restart_delay: Span,
    pub phase: TunnelPhaseModel,
}

impl View for TunnelLoop {
    type V = TunnelModel;

    closed spec fn view(&self) -> TunnelModel {
        TunnelModel {
            server_id: self.server_id@,
            program: self.program@,
            readiness_probe: self.readiness_probe.deep_view(),
            restart_delay: self.restart_delay,
            phase: self.phase@,
        }
    }
}

/// A step that only goes on.
pub open spec fn quiet_tunnel(action: TunnelAction) -> TunnelStepModel {
    TunnelStepModel { lines: Seq::empty(), event: None, action }
}

/// A tunnel in another phase.
pub open spec fn in_phase(state: TunnelModel, phase: TunnelPhaseModel) -> TunnelModel {
    TunnelModel { phase, ..state }
}

/// The tunnel is ready.
pub open spec fn tunnel_is_ready(state: TunnelModel, at: Timestamp) -> (
    TunnelModel,
    TunnelStepModel,
) {
    (
        in_phase(state, TunnelPhaseModel::Ready),
        TunnelStepModel {
            lines: seq![server_line(Level::Info, state.server_id, "tunnel is ready"@)],
            event: Some(EventModel::TunnelReady { server_id: state.server_id, at }),
            action: TunnelAction::RunClient,
        },
    )
}

/// The tunnel failed and is to be started again after a pause.
pub open spec fn tunnel_has_failed(
    state: TunnelModel,
    lines: Seq<LineModel>,
    details: Text,
    at: Timestamp,
) -> (TunnelModel, TunnelStepModel) {
    (
        in_phase(state, TunnelPhaseModel::Waiting),
        TunnelStepModel {
            lines,
            event: Some(
                EventModel::TunnelFailed { server_id: state.server_id, at, error: details },
            ),
            action: TunnelAction::Wait(state.restart_delay),
        },
    )
}

/// The lines about a tunnel that failed.
pub open spec fn failure_lines(server_id: Text, timed_out: bool, details: Text) -> Seq<LineModel> {
    let failure = server_line(Level::Error, server_id, "tunnel failed: "@ + details);
    if timed_out {
        seq![
            server_line(
                Level::Warn,
                server_id,
                "tunnel output pipes remained open after command exit; continuing restart"@,
            ),
            failure,
        ]
    } else {
        seq![failure]
    }
}

/// What to do in a phase.
pub open spec fn pending_for_tunnel(state: TunnelModel) -> TunnelAction {
    match state.phase {
        TunnelPhaseModel::Starting => TunnelAction::Start,
        TunnelPhaseModel::Spawning => TunnelAction::Spawn,
        TunnelPhaseModel::AwaitingProbe => TunnelAction::AwaitProbe,
        TunnelPhaseModel::Ready => TunnelAction::RunClient,
        TunnelPhaseModel::Collecting(_) => TunnelAction::Collect,
        TunnelPhaseModel::TearingDown => TunnelAction::TearDown,
        TunnelPhaseModel::Waiting => TunnelAction::Wait(state.restart_delay),
        TunnelPhaseModel::Stopped => TunnelAction::Stop,
    }
}

/// The state and the step after a signal. One that does not belong to the phase changes nothing.
pub open spec fn after_tunnel_signal(state: TunnelModel, signal: TunnelSignal, at: Timestamp) -> (
    TunnelModel,
    TunnelStepModel,
) {
    let torn_down = (
        in_phase(state, TunnelPhaseModel::TearingDown),
        quiet_tunnel(TunnelAction::TearDown),
    );
    let stopped = (
        in_phase(state, TunnelPhaseModel::Stopped),
        quiet_tunnel(TunnelAction::Stop),
    );
    match (state.phase, signal) {
        (TunnelPhaseModel::Starting, TunnelSignal::Begin) => (
            in_phase(state, TunnelPhaseModel::Spawning),
            TunnelStepModel {
                lines: seq![
                    server_line(
                        Level::Info,
                        state.server_id,
                        "starting tunnel with "@ + state.program,
                    ),
                ],
                ..quiet_tunnel(TunnelAction::Spawn)
            },
        ),
        (TunnelPhaseModel::Starting, TunnelSignal::ShutDown) => stopped,
        (TunnelPhaseModel::Spawning, TunnelSignal::SpawnFailed(error)) => {
            let details = "Failed to start tunnel command: "@ + error@;
            tunnel_has_failed(
                state,
                seq![
                    LineModel {
                        level: Level::Error,
                        message: "server "@ + state.server_id + ": "@ + details,
                    },
                ],
                details,
                at,
            )
        },
        (TunnelPhaseModel::Spawning, TunnelSignal::Spawned) => if state.readiness_probe is None {
            tunnel_is_ready(state, at)
        } else {
            (
                in_phase(state, TunnelPhaseModel::AwaitingProbe),
                quiet_tunnel(TunnelAction::AwaitProbe),
            )
        },
        (TunnelPhaseModel::AwaitingProbe, TunnelSignal::ProbeSeen) => tunnel_is_ready(state, at),
        (TunnelPhaseModel::AwaitingProbe, TunnelSignal::Exited(exit)) => (
            in_phase(state, TunnelPhaseModel::Collecting(exit@)),
            quiet_tunnel(TunnelAction::Collect),
        ),
        (TunnelPhaseModel::AwaitingProbe, TunnelSignal::ShutDown) => torn_down,
        (TunnelPhaseModel::Ready, TunnelSignal::Exited(exit)) => (
            in_phase(state, TunnelPhaseModel::Collecting(exit@)),
            quiet_tunnel(TunnelAction::Collect),
        ),
        (TunnelPhaseModel::Ready, TunnelSignal::ClientStopped) => torn_down,
        (TunnelPhaseModel::Ready, TunnelSignal::Undelivered) => torn_down,
        (TunnelPhaseModel::Ready, TunnelSignal::ShutDown) => torn_down,
        (
            TunnelPhaseModel::Collecting(exit),
            TunnelSignal::Collected { timed_out, stderr, stdout },
        ) => {
            let details = details_of(exit, timed_out, stderr@, stdout@, state.readiness_probe);
            tunnel_has_failed(
                state,
                failure_lines(state.server_id, timed_out, details),
                details,
                at,
            )
        },
        (TunnelPhaseModel::TearingDown, TunnelSignal::TornDown(timed_out)) => (
            in_phase(state, TunnelPhaseModel::Stopped),
            TunnelStepModel {
                lines: if timed_out {
                    seq![
                        server_line(
                            Level::Warn,
                            state.server_id,
                            "tunnel output pipes remained open after termination; continuing teardown"@,
                        ),
                    ]
                } else {
                    Seq::empty()
                },
                ..quiet_tunnel(TunnelAction::Stop)
            },
        ),
        (TunnelPhaseModel::Waiting, TunnelSignal::WaitOver) => (
            in_phase(state, TunnelPhaseModel::Starting),
            quiet_tunnel(TunnelAction::Start),
        ),
        (TunnelPhaseModel::Waiting, TunnelSignal::ShutDown) => stopped,
        (TunnelPhaseModel::Waiting, TunnelSignal::Undelivered) => stopped,
        _ => (state, quiet_tunnel(pending_for_tunnel(state))),
    }
}

fn no_lines() -> (lines: Vec<EventLogLine>)
    ensures
        lines.deep_view() == Seq::<LineModel>::empty(),
{
    let lines: Vec<EventLogLine> = Vec::new();
    assert(lines.deep_view() =~= Seq::<LineModel>::empty());
    lines
}

fn quiet_step(action: TunnelAction) -> (step: TunnelStep)
    ensures
        step@ == quiet_tunnel(action),
{
    TunnelStep { lines: no_lines(), event: None, action }
}

impl TunnelLoop {
    /// A tunnel that is about to be started.
    pub fn new(server_id: String, command: &CommandSpec, restart_delay: Span) -> (state: Self)
        ensures
            state@ == (TunnelModel {
                server_id: server_id@,
                program: command@.program,
                readiness_probe: command@.readiness_probe,
                restart_delay,
                phase: TunnelPhaseModel::Starting,
            }),
    {
        let readiness_probe = match &command.readiness_probe {
            Some(probe) => Some(probe.clone()),
            None => None,
        };
        TunnelLoop {
            server_id,
            program: command.program.clone(),
            readiness_probe,
            restart_delay,
            phase: TunnelPhase::Starting,
        }
    }

    /// What to do next.
    pub fn action(&self) -> (action: TunnelAction)
        ensures
            action == pending_for_tunnel(self@),
    {
        match &self.phase {
            TunnelPhase::Starting => TunnelAction::Start,
            TunnelPhase::Spawning => TunnelAction::Spawn,
            TunnelPhase::AwaitingProbe => TunnelAction::AwaitProbe,
            TunnelPhase::Ready => TunnelAction::RunClient,
            TunnelPhase::Collecting(_) => TunnelAction::Collect,
            TunnelPhase::TearingDown => TunnelAction::TearDown,
            TunnelPhase::Waiting => TunnelAction::Wait(self.restart_delay),
            TunnelPhase::Stopped => TunnelAction::Stop,
        }
    }

    fn push_line(&self, lines: &mut Vec<EventLogLine>, level: Level, words: &str)
        ensures
            final(lines).deep_view() == old(lines).deep_view().push(
                server_line(level, self@.server_id, words@),
            ),
    {
        let message = joined("server ", self.server_id.as_str()).concat(" ").concat(words);
        let ghost before = lines.deep_view();
        lines.push(EventLogLine { level, message });
        assert(lines.deep_view() =~= before.push(server_line(level, self@.server_id, words@)));
    }

    fn line(&self, level: Level, words: &str) -> (lines: Vec<EventLogLine>)
        ensures
            lines.deep_view() == seq![server_line(level, self@.server_id, words@)],
    {
        let mut lines = no_lines();
        self.push_line(&mut lines, level, words);
        assert(lines.deep_view() =~= seq![server_line(level, self@.server_id, words@)]);
        lines
    }

    fn ready(&mut self, at: Timestamp) -> (step: TunnelStep)
        ensures
            final(self)@ == tunnel_is_ready(old(self)@, at).0,
            step@ == tunnel_is_ready(old(self)@, at).1,
    {
        let lines = self.line(Level::Info, "tunnel is ready");
        let event = Event::TunnelReady { server_id: self.server_id.clone(), at };
        self.phase = TunnelPhase::Ready;
        TunnelStep { lines, event: Some(event), action: TunnelAction::RunClient }
    }

    fn fail(&mut self, lines: Vec<EventLogLine>, details: String, at: Timestamp) -> (step:
        TunnelStep)
        ensures
            final(self)@ == tunnel_has_failed(old(self)@, lines.deep_view(), details@, at).0,
            step@ == tunnel_has_failed(old(self)@, lines.deep_view(), details@, at).1,
    {
        let event = Event::TunnelFailed {
            server_id: self.server_id.clone(),
            at,
            error: details,
        };
        self.phase = TunnelPhase::Waiting;
        TunnelStep { lines, event: Some(event), action: TunnelAction::Wait(self.restart_delay) }
    }

    fn enter(&mut self, phase: TunnelPhase, action: TunnelAction) -> (step: TunnelStep)
        ensures
            final(self)@ == in_phase(old(self)@, phase@),
            step@ == quiet_tunnel(action),
    {
        self.phase = phase;
        quiet_step(action)
    }

    fn collected(&mut self, exit: Exit, timed_out: bool, stderr: &str, stdout: &str, at: Timestamp) -> (
        step: TunnelStep)
        ensures
            ({
                let before = old(self)@;
                let details = details_of(
                    exit@,
                    timed_out,
                    stderr@,
                    stdout@,
                    before.readiness_probe,
                );
                let goal = tunnel_has_failed(
                    before,
                    failure_lines(before.server_id, timed_out, details),
                    details,
                    at,
                );
                final(self)@ == goal.0 && step@ == goal.1
            }),
    {
        let probe = match &self.readiness_probe {
            Some(probe) => Some(probe.as_str()),
            None => None,
        };
        let details = failure_details(&exit, timed_out, stderr, stdout, probe);
        let mut lines = no_lines();
        if timed_out {
            self.push_line(
                &mut lines,
                Level::Warn,
                "tunnel output pipes remained open after command exit; continuing restart",
            );
        }
        self.push_line(
            &mut lines,
            Level::Error,
            joined("tunnel failed: ", details.as_str()).as_str(),
        );
        assert(lines.deep_view() =~= failure_lines(self@.server_id, timed_out, details@));
        self.fail(lines, details, at)
    }

    /// Takes a signal. `at` is the instant at which it came.
    pub fn advance(&mut self, signal: TunnelSignal, at: Timestamp) -> (step: TunnelStep)
        ensures
            final(self)@ == after_tunnel_signal(old(self)@, signal, at).0,
            step@ == after_tunnel_signal(old(self)@, signal, at).1,
    {
        let mut ended: Option<Exit> = None;
        let phase: u8 = match &self.phase {
            TunnelPhase::Starting => 0,
            TunnelPhase::Spawning => 1,
            TunnelPhase::AwaitingProbe => 2,
            TunnelPhase::Ready => 3,
            TunnelPhase::Collecting(exit) => {
                ended = Some(
                    match exit {
                        Exit::Success => Exit::Success,
                        Exit::Failure(status) => Exit::Failure(status.clone()),
                        Exit::WaitFailed(error) => Exit::WaitFailed(error.clone()),
                    },
                );
                4
            },
            TunnelPhase::TearingDown => 5,
            TunnelPhase::Waiting => 6,
            TunnelPhase::Stopped => 7,
        };
        match signal {
            TunnelSignal::Begin => if phase == 0 {
                let words = joined("starting tunnel with ", self.program.as_str());
                let lines = self.line(Level::Info, words.as_str());
                self.phase = TunnelPhase::Spawning;
                TunnelStep { lines, event: None, action: TunnelAction::Spawn }
            } else {
                quiet_step(self.action())
            },
            TunnelSignal::SpawnFailed(error) => if phase == 1 {
                let details = joined("Failed to start tunnel command: ", error.as_str());
                let message = joined("server ", self.server_id.as_str()).concat(": ").concat(
                    details.as_str(),
                );
                let mut lines: Vec<EventLogLine> = Vec::new();
                let line = EventLogLine { level: Level::Error, message };
                let ghost model = line@;
                lines.push(line);
                assert(lines.deep_view() =~= seq![model]);
                self.fail(lines, details, at)
            } else {
                quiet_step(self.action())
            },
            TunnelSignal::Spawned => if phase == 1 {
                if self.readiness_probe.is_none() {
                    self.ready(at)
                } else {
                    self.enter(TunnelPhase::AwaitingProbe, TunnelAction::AwaitProbe)
                }
            } else {
                quiet_step(self.action())
            },
            TunnelSignal::ProbeSeen => if phase == 2 {
                self.ready(at)
            } else {
                quiet_step(self.action())
            },
            TunnelSignal::Exited(exit) => if phase == 2 || phase == 3 {
                self.enter(TunnelPhase::Collecting(exit), TunnelAction::Collect)
            } else {
                quiet_step(self.action())
            },
            TunnelSignal::ClientStopped => if phase == 3 {
                self.enter(TunnelPhase::TearingDown, TunnelAction::TearDown)
            } else {
                quiet_step(self.action())
            },
            TunnelSignal::Collected { timed_out, stderr, stdout } => match ended {
                Some(exit) => self.collected(
                    exit,
                    timed_out,
                    stderr.as_str(),
                    stdout.as_str(),
                    at,
                ),
                None => quiet_step(self.action()),
            },
            TunnelSignal::TornDown(timed_out) => if phase == 5 {
                let lines = if timed_out {
                    self.line(
                        Level::Warn,
                        "tunnel output pipes remained open after termination; continuing teardown",
                    )
                } else {
                    no_lines()
                };
                self.phase = TunnelPhase::Stopped;
                TunnelStep { lines, event: None, action: TunnelAction::Stop }
            } else {
                quiet_step(self.action())
            },
            TunnelSignal::WaitOver => if phase == 6 {
                self.enter(TunnelPhase::Starting, TunnelAction::Start)
            } else {
                quiet_step(self.action())
            },
            TunnelSignal::Undelivered => if phase == 3 {
                self.enter(TunnelPhase::TearingDown, TunnelAction::TearDown)
            } else if phase == 6 {
                self.enter(TunnelPhase::Stopped, TunnelAction::Stop)
            } else {
                quiet_step(self.action())
            },
            TunnelSignal::ShutDown => if phase == 2 || phase == 3 {
                self.enter(TunnelPhase::TearingDown, TunnelAction::TearDown)
            } else if phase == 0 || phase == 6 {
                self.enter(TunnelPhase::Stopped, TunnelAction::Stop)
            } else {
                quiet_step(self.action())
            },
        }
    }
}

/// The connection over a tunnel is run only while the tunnel is ready: after the process started,
/// and where there is a probe, after the probe was seen.
pub proof fn connections_wait_for_the_tunnel(state: TunnelModel, signal: TunnelSignal, at: Timestamp)
    requires
        !(state.phase is Ready),
        after_tunnel_signal(state, signal, at).1.action == TunnelAction::RunClient,
    ensures
        after_tunnel_signal(state, signal, at).0.phase is Ready,
        after_tunnel_signal(state, signal, at).1.event == Some(
            EventModel::TunnelReady { server_id: state.server_id, at },
        ),
        signal is ProbeSeen || (signal is Spawned && state.readiness_probe is None),
{
}

/// A process that was started is collected or torn down before another is started and before the
/// tunnel stops: from the phases in which it runs, each signal leads to one of these phases, to
/// the process being ready, or nowhere.
pub proof fn no_process_is_left_behind(state: TunnelModel, signal: TunnelSignal, at: Timestamp)
    requires
        state.phase is AwaitingProbe || state.phase is Ready,
    ensures
        ({
            let next = after_tunnel_signal(state, signal, at).0.phase;
            ||| next == state.phase
            ||| next is Ready
            ||| next is Collecting
            ||| next is TearingDown
        }),
{
}

/// Every event of a tunnel is about its own server, and one that failed is started again after
/// the pause.
pub proof fn failed_tunnels_are_started_again(state: TunnelModel, signal: TunnelSignal, at: Timestamp)
    ensures
        ({
            let (next, step) = after_tunnel_signal(state, signal, at);
            &&& step.event matches Some(event) ==> source(event) == Some(state.server_id)
            &&& (step.event matches Some(event) && event is TunnelFailed) ==> {
                &&& next.phase is Waiting
                &&& step.action == TunnelAction::Wait(state.restart_delay)
                &&& after_tunnel_signal(next, TunnelSignal::WaitOver, at).1.action
                    == TunnelAction::Start
            }
        }),
{
}

} // verus!
