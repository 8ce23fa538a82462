//! The configuration and what makes it usable.

use vstd::prelude::*;
use vstd::string::*;

use crate::address::{address_parts, address_problem, host_is_loopback, is_loopback,
    validate_host_port, AddressProblem};
use crate::domain::model::internal_prefix;
use crate::text::{chars_of, code_point, contains_char, debug_text, decimal, decimal_text, joined, quoted,
    same_text, Text};

verus! {

/// The whole configuration.
#[derive(Clone, Debug)]
pub struct Config {
    pub ws_client: WsClientConfig,
}

/// The servers to watch, each by itself.
#[derive(Clone, Debug)]
pub struct WsClientConfig {
    pub servers: Vec<ServerConfig>,
}

/// One server and the layers of the way to it.
#[derive(Clone, Debug)]
pub struct ServerConfig {
    /// Prefix of the keys of its incidents.
    pub id: String,
    /// `host:port` without a scheme. With a tunnel, the near end of the tunnel. Empty where it
    /// was left out.
    pub addr: String,
    pub tls: Option<TlsConfig>,
    pub auth: Option<AuthConfig>,
    pub tunnel: Option<TunnelConfig>,
}

/// How the server's certificate is verified.
#[derive(Clone, Debug)]
pub struct TlsConfig {
    /// Certificates that are trusted besides those of the system; may be empty.
    pub ca_file: String,
    /// Name to verify in place of the host of `addr`; may be empty.
    pub server_name: String,
}

/// Bearer authentication. The token stands in a file, not in the configuration.
#[derive(Clone, Debug)]
pub struct AuthConfig {
    pub bearer_token_file: String,
}

/// How a tunnel is made: exactly one of the two ways.
#[derive(Clone, Debug)]
pub struct TunnelConfig {
    /// By OpenSSH.
    pub ssh: Option<SshTunnelConfig>,
    /// By any other process that offers the configured endpoint.
    pub custom_command: Option<CustomTunnelCommandConfig>,
}

/// A tunnel process that is run as it is, without a shell.
#[derive(Clone, Debug)]
pub struct CustomTunnelCommandConfig {
    /// The executable, then its arguments.
    pub command: Vec<String>,
    /// What tells that the tunnel is ready; without it, it is as soon as the process runs.
    pub readiness_probe: Option<TunnelReadinessProbeConfig>,
}

/// Output that tells that a tunnel is ready.
#[derive(Clone, Debug)]
pub struct TunnelReadinessProbeConfig {
    pub contains_output: String,
}

/// An OpenSSH local forward.
#[derive(Clone, Debug)]
pub struct SshTunnelConfig {
    pub host: String,
    pub user: String,
    /// Zero stands for the usual port.
    pub port: u16,
    /// Where the server listens, as seen from the SSH host.
    pub remote_salmon_addr: String,
    /// Further arguments, put before the destination.
    pub extra_ssh_args: Vec<String>,
}

/// What is wrong with the ID of a server.
#[derive(Clone, Copy, Debug, PartialEq, Eq, Structural)]
pub enum IdProblem {
    Missing,
    /// It has a character other than letters, digits, underscores and hyphens.
    Characters,
    /// It is `internal`, under which the client keeps its own incidents.
    Reserved,
}

/// What is wrong with the configuration of a server.
#[derive(Clone, Copy, Debug, PartialEq, Eq, Structural)]
pub enum ServerProblem {
    Id(IdProblem),
    DuplicateId,
    AddrMissing,
    AddrIsUrl,
    Addr(AddressProblem),
    TokenFileMissing,
    TunnelChoice,
    CommandMissing,
    ProbeEmpty,
    SshHostMissing,
    SshHostHyphen,
    SshUserMissing,
    SshUserHyphen,
    RemoteAddr(AddressProblem),
    SshAddr(AddressProblem),
    NotLoopback,
}

/// What is wrong with a configuration.
#[derive(Clone, Copy, Debug, PartialEq, Eq, Structural)]
pub enum ConfigError {
    NoServers,
    /// The server with an index.
    Server { index: usize, problem: ServerProblem },
}

/// The characters of IDs.
pub open spec fn is_id_char(ch: char) -> bool {
    ||| 'a' <= ch <= 'z'
    ||| 'A' <= ch <= 'Z'
    ||| '0' <= ch <= '9'
    ||| ch == '_'
    ||| ch == '-'
}

/// What is wrong with an ID, if anything is.
pub open spec fn id_problem(id: Text) -> Option<IdProblem> {
    if id.len() == 0 {
        Some(IdProblem::Missing)
    } else if exists|i: int| 0 <= i < id.len() && !is_id_char(#[trigger] id[i]) {
        Some(IdProblem::Characters)
    } else if id == "internal"@ {
        Some(IdProblem::Reserved)
    } else {
        None
    }
}

/// Tests a server's ID.
pub fn validate_server_id(id: &str) -> (outcome: Result<(), IdProblem>)
    ensures
        outcome is Ok <==> id_problem(id@) is None,
        outcome matches Err(problem) ==> id_problem(id@) == Some(problem),
{
    if id.is_empty() {
        return Err(IdProblem::Missing);
    }
    let chars = chars_of(id);
    let mut i: usize = 0;
    while i < chars.len()
        invariant
            chars@ == id@,
            id@.len() > 0,
            i <= chars.len(),
            forall|j: int| 0 <= j < i ==> is_id_char(#[trigger] id@[j]),
        decreases chars.len() - i,
    {
        let code: u32 = code_point(chars[i]);
        let valid = (97 <= code && code <= 122) || (65 <= code && code <= 90) || (48 <= code && code
            <= 57) || code == 95 || code == 45;
        if !valid {
            assert(!is_id_char(id@[i as int]));
            return Err(IdProblem::Characters);
        }
        i += 1;
    }
    if same_text(id, "internal") {
        return Err(IdProblem::Reserved);
    }
    Ok(())
}

/// Whether the tunnel of a server is made by OpenSSH alone.
pub open spec fn is_ssh_only(server: ServerConfig) -> bool {
    server.tunnel matches Some(tunnel) && tunnel.ssh is Some && tunnel.custom_command is None
}

/// Whether the near end of a server's tunnel is for the client to choose.
pub open spec fn chooses_address(server: ServerConfig) -> bool {
    server.addr@.len() == 0 && is_ssh_only(server)
}

/// What is wrong with the address of a server, if anything is.
pub open spec fn addr_problem(server: ServerConfig) -> Option<ServerProblem> {
    if chooses_address(server) {
        None
    } else if server.addr@.len() == 0 {
        Some(ServerProblem::AddrMissing)
    } else if server.addr@.contains('/') {
        Some(ServerProblem::AddrIsUrl)
    } else {
        match address_problem(server.addr@) {
            Some(problem) => Some(ServerProblem::Addr(problem)),
            None => None,
        }
    }
}

/// What is wrong with a custom tunnel, if anything is.
pub open spec fn command_problem(custom: CustomTunnelCommandConfig) -> Option<ServerProblem> {
    if custom.command@.len() == 0 || custom.command@[0]@.len() == 0 {
        Some(ServerProblem::CommandMissing)
    } else if custom.readiness_probe matches Some(probe) && probe.contains_output@.len() == 0 {
        Some(ServerProblem::ProbeEmpty)
    } else {
        None
    }
}

/// What is wrong with an SSH tunnel, if anything is. Its near end must not be open to other
/// machines.
pub open spec fn ssh_problem(addr: Text, ssh: SshTunnelConfig) -> Option<ServerProblem> {
    if ssh.host@.len() == 0 {
        Some(ServerProblem::SshHostMissing)
    } else if ssh.host@[0] == '-' {
        Some(ServerProblem::SshHostHyphen)
    } else if ssh.user@.len() == 0 {
        Some(ServerProblem::SshUserMissing)
    } else if ssh.user@[0] == '-' {
        Some(ServerProblem::SshUserHyphen)
    } else {
        match address_problem(ssh.remote_salmon_addr@) {
            Some(problem) => Some(ServerProblem::RemoteAddr(problem)),
            None => if addr.len() == 0 {
                None
            } else {
                match address_problem(addr) {
                    Some(problem) => Some(ServerProblem::SshAddr(problem)),
                    None => if address_parts(addr) matches Some(parts) && is_loopback(parts.0) {
                        None
                    } else {
                        Some(ServerProblem::NotLoopback)
                    },
                }
            },
        }
    }
}

/// What is wrong with the tunnel of a server, if anything is.
pub open spec fn tunnel_problem(server: ServerConfig) -> Option<ServerProblem> {
    match server.tunnel {
        None => None,
        Some(tunnel) => match (tunnel.ssh, tunnel.custom_command) {
            (Some(ssh), None) => ssh_problem(server.addr@, ssh),
            (None, Some(custom)) => command_problem(custom),
            _ => Some(ServerProblem::TunnelChoice),
        },
    }
}

/// Whether a server has the ID of one before it.
pub open spec fn is_duplicate(servers: Seq<ServerConfig>, index: int) -> bool {
    exists|i: int| 0 <= i < index && (#[trigger] servers[i]).id@ == servers[index].id@
}

/// What is wrong with a server, if anything is.
pub open spec fn server_problem(servers: Seq<ServerConfig>, index: int) -> Option<ServerProblem> {
    let server = servers[index];
    match id_problem(server.id@) {
        Some(problem) => Some(ServerProblem::Id(problem)),
        None => if is_duplicate(servers, index) {
            Some(ServerProblem::DuplicateId)
        } else {
            match addr_problem(server) {
                Some(problem) => Some(problem),
                None => if server.auth matches Some(auth) && auth.bearer_token_file@.len() == 0 {
                    Some(ServerProblem::TokenFileMissing)
                } else {
                    tunnel_problem(server)
                },
            }
        },
    }
}

/// What is wrong with the first server from `from` on with which something is.
pub open spec fn first_error(servers: Seq<ServerConfig>, from: int) -> Option<ConfigError>
    decreases servers.len() - from,
{
    if from >= servers.len() {
        None
    } else {
        match server_problem(servers, from) {
            Some(problem) => Some(ConfigError::Server { index: from as usize, problem }),
            None => first_error(servers, from + 1),
        }
    }
}

/// What is wrong with a configuration, if anything is.
pub open spec fn config_error(config: Config) -> Option<ConfigError> {
    if config.ws_client.servers@.len() == 0 {
        Some(ConfigError::NoServers)
    } else {
        first_error(config.ws_client.servers@, 0)
    }
}

fn starts_with_hyphen(text: &str) -> (hyphen: bool)
    requires
        text@.len() > 0,
    ensures
        hyphen == (text@[0] == '-'),
{
    let chars = chars_of(text);
    chars[0] == '-'
}

fn validate_addr(server: &ServerConfig) -> (outcome: Result<(), ServerProblem>)
    ensures
        outcome is Ok <==> addr_problem(*server) is None,
        outcome matches Err(problem) ==> addr_problem(*server) == Some(problem),
{
    if server.chooses_local_address() {
        return Ok(());
    }
    if server.addr.as_str().is_empty() {
        return Err(ServerProblem::AddrMissing);
    }
    if contains_char(server.addr.as_str(), '/') {
        return Err(ServerProblem::AddrIsUrl);
    }
    match validate_host_port(server.addr.as_str()) {
        Ok(_) => Ok(()),
        Err(problem) => Err(ServerProblem::Addr(problem)),
    }
}

fn validate_command(custom: &CustomTunnelCommandConfig) -> (outcome: Result<(), ServerProblem>)
    ensures
        outcome is Ok <==> command_problem(*custom) is None,
        outcome matches Err(problem) ==> command_problem(*custom) == Some(problem),
{
    if custom.command.len() == 0 || custom.command[0].as_str().is_empty() {
        return Err(ServerProblem::CommandMissing);
    }
    match &custom.readiness_probe {
        Some(probe) => {
            if probe.contains_output.as_str().is_empty() {
                Err(ServerProblem::ProbeEmpty)
            } else {
                Ok(())
            }
        },
        None => Ok(()),
    }
}

fn validate_ssh_tunnel(addr: &str, ssh: &SshTunnelConfig) -> (outcome: Result<(), ServerProblem>)
    ensures
        outcome is Ok <==> ssh_problem(addr@, *ssh) is None,
        outcome matches Err(problem) ==> ssh_problem(addr@, *ssh) == Some(problem),
{
    if ssh.host.as_str().is_empty() {
        return Err(ServerProblem::SshHostMissing);
    }
    if starts_with_hyphen(ssh.host.as_str()) {
        return Err(ServerProblem::SshHostHyphen);
    }
    if ssh.user.as_str().is_empty() {
        return Err(ServerProblem::SshUserMissing);
    }
    if starts_with_hyphen(ssh.user.as_str()) {
        return Err(ServerProblem::SshUserHyphen);
    }
    match validate_host_port(ssh.remote_salmon_addr.as_str()) {
        Ok(_) => {},
        Err(problem) => {
            return Err(ServerProblem::RemoteAddr(problem));
        },
    }
    if addr.is_empty() {
        return Ok(());
    }
    match validate_host_port(addr) {
        Ok((host, _)) => {
            if host_is_loopback(host.as_str()) {
                Ok(())
            } else {
                Err(ServerProblem::NotLoopback)
            }
        },
        Err(problem) => Err(ServerProblem::SshAddr(problem)),
    }
}

fn validate_tunnel(server: &ServerConfig) -> (outcome: Result<(), ServerProblem>)
    ensures
        outcome is Ok <==> tunnel_problem(*server) is None,
        outcome matches Err(problem) ==> tunnel_problem(*server) == Some(problem),
{
    match &server.tunnel {
        None => Ok(()),
        Some(tunnel) => match (&tunnel.ssh, &tunnel.custom_command) {
            (Some(ssh), None) => validate_ssh_tunnel(server.addr.as_str(), ssh),
            (None, Some(custom)) => validate_command(custom),
            _ => Err(ServerProblem::TunnelChoice),
        },
    }
}

fn has_duplicate_id(servers: &Vec<ServerConfig>, index: usize) -> (duplicate: bool)
    requires
        index < servers.len(),
    ensures
        duplicate == is_duplicate(servers@, index as int),
{
    let mut i: usize = 0;
    while i < index
        invariant
            i <= index < servers.len(),
            forall|j: int| 0 <= j < i ==> (#[trigger] servers@[j]).id@ != servers@[index as int].id@,
        decreases index - i,
    {
        if same_text(servers[i].id.as_str(), servers[index].id.as_str()) {
            assert(servers@[i as int].id@ == servers@[index as int].id@);
            return true;
        }
        i += 1;
    }
    false
}

fn validate_server(servers: &Vec<ServerConfig>, index: usize) -> (outcome: Result<(), ServerProblem>)
    requires
        index < servers.len(),
    ensures
        outcome is Ok <==> server_problem(servers@, index as int) is None,
        outcome matches Err(problem) ==> server_problem(servers@, index as int) == Some(problem),
{
    let server = &servers[index];
    match validate_server_id(server.id.as_str()) {
        Ok(_) => {},
        Err(problem) => {
            return Err(ServerProblem::Id(problem));
        },
    }
    if has_duplicate_id(servers, index) {
        return Err(ServerProblem::DuplicateId);
    }
    match validate_addr(server) {
        Ok(_) => {},
        Err(problem) => {
            return Err(problem);
        },
    }
    if let Some(auth) = &server.auth {
        if auth.bearer_token_file.as_str().is_empty() {
            return Err(ServerProblem::TokenFileMissing);
        }
    }
    validate_tunnel(server)
}

impl Config {
    /// Tests what the shape of the configuration alone does not ensure.
    pub fn validate(&self) -> (outcome: Result<(), ConfigError>)
        ensures
            outcome is Ok <==> config_error(*self) is None,
            outcome matches Err(error) ==> config_error(*self) == Some(error),
    {
        let servers = &self.ws_client.servers;
        if servers.len() == 0 {
            return Err(ConfigError::NoServers);
        }
        let mut index: usize = 0;
        while index < servers.len()
            invariant
                servers@ == self.ws_client.servers@,
                servers@.len() > 0,
                index <= servers.len(),
                first_error(servers@, 0) == first_error(servers@, index as int),
            decreases servers.len() - index,
        {
            match validate_server(servers, index) {
                Ok(_) => {},
                Err(problem) => {
                    return Err(ConfigError::Server { index, problem });
                },
            }
            index += 1;
        }
        Ok(())
    }

    /// The IDs of the servers, in order.
    pub fn server_ids(&self) -> (ids: Vec<String>)
        ensures
            ids.deep_view() == self.ws_client.servers@.map_values(|server: ServerConfig| server.id@),
    {
        let servers = &self.ws_client.servers;
        let mut ids: Vec<String> = Vec::new();
        let mut i: usize = 0;
        while i < servers.len()
            invariant
                i <= servers.len(),
                ids.len() == i,
                forall|j: int| 0 <= j < i ==> (#[trigger] ids@[j])@ == servers@[j].id@,
            decreases servers.len() - i,
        {
            ids.push(servers[i].id.clone());
            i += 1;
        }
        assert(ids.deep_view() =~= servers@.map_values(|server: ServerConfig| server.id@));
        ids
    }
}

impl ServerConfig {
    /// Whether the near end of the tunnel is for the client to choose: the address was left out
    /// and the tunnel is made by OpenSSH.
    pub fn chooses_local_address(&self) -> (chooses: bool)
        ensures
            chooses == chooses_address(*self),
    {
        if !self.addr.as_str().is_empty() {
            return false;
        }
        match &self.tunnel {
            Some(tunnel) => tunnel.ssh.is_some() && tunnel.custom_command.is_none(),
            None => false,
        }
    }

    /// Puts the near end of the tunnel on a port of this machine.
    pub fn use_local_port(&mut self, port: u16)
        ensures
            final(self).addr@ == "127.0.0.1:"@ + decimal(port as nat),
            final(self).id == old(self).id,
            final(self).tls == old(self).tls,
            final(self).auth == old(self).auth,
            final(self).tunnel == old(self).tunnel,
    {
        let number = decimal_text(port as u128);
        self.addr = joined("127.0.0.1:", number.as_str());
    }
}

// ---------------------------------------------------------------------------------------------
// Messages
// ---------------------------------------------------------------------------------------------

/// The words for a problem with an ID.
pub open spec fn id_words(problem: IdProblem, id: Text) -> Text {
    match problem {
        IdProblem::Missing => "is required"@,
        IdProblem::Characters => debug_text(id)
            + " must contain only letters, digits, underscores, or hyphens"@,
        IdProblem::Reserved => debug_text(id) + " is reserved"@,
    }
}

/// The words for a problem with a server, after its place in the configuration.
pub open spec fn problem_words(problem: ServerProblem, id: Text) -> Text {
    match problem {
        ServerProblem::Id(problem) => ".id: "@ + id_words(problem, id),
        ServerProblem::DuplicateId => ".id "@ + debug_text(id) + " is duplicated"@,
        ServerProblem::AddrMissing => ".addr is required"@,
        ServerProblem::AddrIsUrl => ".addr must be a host:port address, not a URL"@,
        ServerProblem::Addr(problem) => ".addr: "@ + problem.words(),
        ServerProblem::TokenFileMissing => ".auth.bearerTokenFile is required"@,
        ServerProblem::TunnelChoice =>
            ".tunnel must contain exactly one of ssh or customCommand"@,
        ServerProblem::CommandMissing =>
            ".tunnel.customCommand.command must start with an executable"@,
        ServerProblem::ProbeEmpty =>
            ".tunnel.customCommand.readinessProbe.containsOutput must not be empty"@,
        ServerProblem::SshHostMissing => ".tunnel.ssh.host is required"@,
        ServerProblem::SshHostHyphen => ".tunnel.ssh.host must not start with a hyphen"@,
        ServerProblem::SshUserMissing => ".tunnel.ssh.user is required"@,
        ServerProblem::SshUserHyphen => ".tunnel.ssh.user must not start with a hyphen"@,
        ServerProblem::RemoteAddr(problem) => ".tunnel.ssh.remoteSalmonAddr: "@ + problem.words(),
        ServerProblem::SshAddr(problem) => ".addr for an SSH tunnel: "@ + problem.words(),
        ServerProblem::NotLoopback => ".addr must use a loopback host for an SSH tunnel"@,
    }
}

impl IdProblem {
    /// The words for a problem with an ID.
    pub fn message(self, id: &str) -> (message: String)
        ensures
            message@ == id_words(self, id@),
    {
        match self {
            IdProblem::Missing => "is required".to_owned(),
            IdProblem::Characters => quoted(id).concat(
                " must contain only letters, digits, underscores, or hyphens",
            ),
            IdProblem::Reserved => quoted(id).concat(" is reserved"),
        }
    }
}

impl ServerProblem {
    /// The words for a problem with a server, after its place in the configuration.
    pub fn message(self, id: &str) -> (message: String)
        ensures
            message@ == problem_words(self, id@),
    {
        match self {
            ServerProblem::Id(problem) => joined(".id: ", problem.message(id).as_str()),
            ServerProblem::DuplicateId => joined(".id ", quoted(id).as_str()).concat(
                " is duplicated",
            ),
            ServerProblem::AddrMissing => ".addr is required".to_owned(),
            ServerProblem::AddrIsUrl =>
                ".addr must be a host:port address, not a URL".to_owned(),
            ServerProblem::Addr(problem) => joined(".addr: ", problem.message()),
            ServerProblem::TokenFileMissing => ".auth.bearerTokenFile is required".to_owned(),
            ServerProblem::TunnelChoice =>
                ".tunnel must contain exactly one of ssh or customCommand".to_owned(),
            ServerProblem::CommandMissing =>
                ".tunnel.customCommand.command must start with an executable".to_owned(),
            ServerProblem::ProbeEmpty =>
                ".tunnel.customCommand.readinessProbe.containsOutput must not be empty".to_owned(),
            ServerProblem::SshHostMissing => ".tunnel.ssh.host is required".to_owned(),
            ServerProblem::SshHostHyphen =>
                ".tunnel.ssh.host must not start with a hyphen".to_owned(),
            ServerProblem::SshUserMissing => ".tunnel.ssh.user is required".to_owned(),
            ServerProblem::SshUserHyphen =>
                ".tunnel.ssh.user must not start with a hyphen".to_owned(),
            ServerProblem::RemoteAddr(problem) => joined(
                ".tunnel.ssh.remoteSalmonAddr: ",
                problem.message(),
            ),
            ServerProblem::SshAddr(problem) => joined(
                ".addr for an SSH tunnel: ",
                problem.message(),
            ),
            ServerProblem::NotLoopback =>
                ".addr must use a loopback host for an SSH tunnel".to_owned(),
        }
    }
}

impl ConfigError {
    /// The words for what is wrong with a configuration.
    pub open spec fn words(self, config: Config) -> Text {
        match self {
            ConfigError::NoServers => "wsClient.servers must not be empty"@,
            ConfigError::Server { index, problem } => "wsClient.servers["@ + decimal(index as nat)
                + "]"@ + problem_words(problem, config.ws_client.servers@[index as int].id@),
        }
    }

    /// The words for what is wrong with a configuration.
    pub fn message(self, config: &Config) -> (message: String)
        requires
            self matches ConfigError::Server { index, .. } ==> index
                < config.ws_client.servers@.len(),
        ensures
            message@ == self.words(*config),
    {
        match self {
            ConfigError::NoServers => "wsClient.servers must not be empty".to_owned(),
            ConfigError::Server { index, problem } => {
                let number = decimal_text(index as u128);
                let words = problem.message(config.ws_client.servers[index].id.as_str());
                joined("wsClient.servers[", number.as_str()).concat("]").concat(words.as_str())
            },
        }
    }
}

// ---------------------------------------------------------------------------------------------
// What a valid configuration ensures
// ---------------------------------------------------------------------------------------------

/// Every server of a valid configuration is valid, and no two have the same ID.
pub proof fn valid_configurations_have_valid_servers(config: Config, i: int, j: int)
    requires
        config_error(config) is None,
        0 <= i <= j < config.ws_client.servers@.len(),
    ensures
        server_problem(config.ws_client.servers@, i) is None,
        server_problem(config.ws_client.servers@, j) is None,
        i < j ==> config.ws_client.servers@[i].id@ != config.ws_client.servers@[j].id@,
{
    let servers = config.ws_client.servers@;
    lemma_no_error(servers, 0, i);
    lemma_no_error(servers, 0, j);
    assert(!is_duplicate(servers, j));
    assert(i < j ==> servers[i].id@ != servers[j].id@);
}

proof fn lemma_no_error(servers: Seq<ServerConfig>, from: int, i: int)
    requires
        0 <= from <= i < servers.len(),
        first_error(servers, from) is None,
    ensures
        server_problem(servers, i) is None,
    decreases i - from,
{
    if from < i {
        lemma_no_error(servers, from + 1, i);
    }
}

/// The error that is reported speaks of a server that exists.
pub proof fn errors_speak_of_existing_servers(config: Config)
    requires
        config.ws_client.servers@.len() <= usize::MAX,
    ensures
        config_error(config) matches Some(ConfigError::Server { index, .. }) ==> index
            < config.ws_client.servers@.len(),
{
    lemma_error_index(config.ws_client.servers@, 0);
}

proof fn lemma_error_index(servers: Seq<ServerConfig>, from: int)
    requires
        0 <= from,
        servers.len() <= usize::MAX,
    ensures
        first_error(servers, from) matches Some(ConfigError::Server { index, .. }) ==> index
            < servers.len(),
    decreases servers.len() - from,
{
    if from < servers.len() {
        lemma_error_index(servers, from + 1);
    }
}

/// The near end of an SSH tunnel of a valid configuration is not open to other machines: it is on
/// this machine, or left for the client to choose there.
pub proof fn ssh_tunnels_stay_on_this_machine(servers: Seq<ServerConfig>, index: int)
    requires
        server_problem(servers, index) is None,
        is_ssh_only(servers[index]),
    ensures
        chooses_address(servers[index]) || (address_parts(servers[index].addr@) matches Some(parts)
            && is_loopback(parts.0)),
{
}

/// The full keys of incidents tell the servers apart: under valid IDs, equal full keys belong to
/// the same server and the same incident, and no server's key looks like one of the client's own.
pub proof fn full_keys_are_unambiguous(id: Text, key: Text, other_id: Text, other_key: Text)
    requires
        id_problem(id) is None,
        id_problem(other_id) is None,
    ensures
        id + "."@ + key == other_id + "."@ + other_key ==> id == other_id && key == other_key,
        !internal_prefix().is_prefix_of(id + "."@ + key),
{
    reveal_strlit(".");
    reveal_strlit("internal");
    reveal_strlit("internal.");
    let full = id + "."@ + key;
    let other = other_id + "."@ + other_key;
    assert(full[id.len() as int] == '.');
    assert(other[other_id.len() as int] == '.');
    assert(!is_id_char('.'));
    if full == other {
        if id.len() < other_id.len() {
            assert(other[id.len() as int] == other_id[id.len() as int]);
            assert(!is_id_char(other_id[id.len() as int]));
        } else if other_id.len() < id.len() {
            assert(full[other_id.len() as int] == id[other_id.len() as int]);
            assert(!is_id_char(id[other_id.len() as int]));
        }
        assert(id =~= full.take(id.len() as int));
        assert(other_id =~= other.take(other_id.len() as int));
        assert(key =~= full.skip(id.len() as int + 1));
        assert(other_key =~= other.skip(other_id.len() as int + 1));
    }
    let prefix = internal_prefix();
    if prefix.is_prefix_of(full) {
        assert(prefix =~= full.subrange(0, 9));
        assert(prefix[8] == '.');
        assert(full[8] == prefix[8]);
        if id.len() > 8 {
            assert(full[8] == id[8]);
            assert(!is_id_char(id[8]));
        }
        if id.len() < 8 {
            assert(full[id.len() as int] == prefix[id.len() as int]);
        }
        assert(id.len() == 8);
        assert forall|i: int| 0 <= i < 8 implies id[i] == "internal"@[i] by {
            assert(full[i] == prefix[i]);
        }
        assert(id =~= "internal"@);
    }
}

/// Whether a text is an ID that can be used: letters, digits, underscores and hyphens, and not the
/// name under which the client keeps its own incidents.
pub open spec fn is_usable_id(id: Text) -> bool {
    &&& id.len() > 0
    &&& id != "internal"@
    &&& forall|i: int|
        0 <= i < id.len() ==> {
            let number = #[trigger] id[i] as int;
            ||| 97 <= number <= 122
            ||| 65 <= number <= 90
            ||| 48 <= number <= 57
            ||| number == 95
            ||| number == 45
        }
}

/// Whether an OpenSSH tunnel can be made: its host and user are given and cannot be taken for
/// options, it leads to an address, and it begins on this machine.
pub open spec fn is_usable_ssh(addr: Text, ssh: SshTunnelConfig) -> bool {
    &&& ssh.host@.len() > 0 && ssh.host@[0] != '-'
    &&& ssh.user@.len() > 0 && ssh.user@[0] != '-'
    &&& address_problem(ssh.remote_salmon_addr@) is None
    &&& addr.len() > 0 ==> address_problem(addr) is None && (address_parts(addr) matches Some(
        parts,
    ) && is_loopback(parts.0))
}

/// Whether a tunnel can be made: by OpenSSH or by a command, but not by both.
pub open spec fn is_usable_tunnel(addr: Text, tunnel: TunnelConfig) -> bool {
    match (tunnel.ssh, tunnel.custom_command) {
        (Some(ssh), None) => is_usable_ssh(addr, ssh),
        (None, Some(custom)) => {
            &&& custom.command@.len() > 0 && custom.command@[0]@.len() > 0
            &&& custom.readiness_probe matches Some(probe) ==> probe.contains_output@.len() > 0
        },
        _ => false,
    }
}

/// Whether a server can be used, apart from the others.
pub open spec fn is_usable_server(server: ServerConfig) -> bool {
    let by_ssh = server.tunnel matches Some(tunnel) && tunnel.ssh is Some
        && tunnel.custom_command is None;
    &&& is_usable_id(server.id@)
    &&& server.addr@.len() == 0 ==> by_ssh
    &&& server.addr@.len() > 0 ==> address_problem(server.addr@) is None && !server.addr@.contains(
        '/',
    )
    &&& server.auth matches Some(auth) ==> auth.bearer_token_file@.len() > 0
    &&& server.tunnel matches Some(tunnel) ==> is_usable_tunnel(server.addr@, tunnel)
}

/// A configuration is accepted exactly where it has servers, each of them can be used, and no two
/// have one ID.
pub proof fn usable_configurations_are_accepted(config: Config)
    ensures
        ({
            let servers = config.ws_client.servers@;
            config_error(config) is None <==> {
                &&& servers.len() > 0
                &&& forall|i: int| 0 <= i < servers.len() ==> is_usable_server(#[trigger] servers[i])
                &&& forall|i: int, j: int|
                    0 <= i < j < servers.len() ==> (#[trigger] servers[i]).id@ != (
                    #[trigger] servers[j]).id@
            }
        }),
{
    let servers = config.ws_client.servers@;
    lemma_first_error_is_none(servers, 0);
    assert forall|i: int| 0 <= i < servers.len() implies (server_problem(servers, i) is None
        <==> is_usable_server(servers[i]) && !is_duplicate(servers, i)) by {
        lemma_usable_server(servers, i);
    }
    if config_error(config) is None {
        assert forall|i: int| 0 <= i < servers.len() implies is_usable_server(
            #[trigger] servers[i],
        ) by {
            assert(server_problem(servers, i) is None);
        }
        assert forall|i: int, j: int| 0 <= i < j < servers.len() implies (#[trigger] servers[i]).id@
            != (#[trigger] servers[j]).id@ by {
            assert(server_problem(servers, j) is None);
            assert(!is_duplicate(servers, j));
        }
    }
    if servers.len() > 0 && (forall|i: int|
        0 <= i < servers.len() ==> is_usable_server(#[trigger] servers[i])) && (forall|
        i: int,
        j: int,
    |
        0 <= i < j < servers.len() ==> (#[trigger] servers[i]).id@ != (#[trigger] servers[j]).id@) {
        assert forall|i: int| 0 <= i < servers.len() implies server_problem(servers, i) is None by {
            assert(is_usable_server(servers[i]));
            assert(!is_duplicate(servers, i));
        }
    }
}

proof fn lemma_first_error_is_none(servers: Seq<ServerConfig>, from: int)
    requires
        0 <= from <= servers.len(),
    ensures
        first_error(servers, from) is None <==> forall|i: int|
            from <= i < servers.len() ==> #[trigger] server_problem(servers, i) is None,
    decreases servers.len() - from,
{
    if from < servers.len() {
        lemma_first_error_is_none(servers, from + 1);
        if first_error(servers, from) is None {
            assert forall|i: int| from <= i < servers.len() implies #[trigger] server_problem(
                servers,
                i,
            ) is None by {}
        }
    }
}

proof fn lemma_usable_server(servers: Seq<ServerConfig>, index: int)
    requires
        0 <= index < servers.len(),
    ensures
        server_problem(servers, index) is None <==> is_usable_server(servers[index])
            && !is_duplicate(servers, index),
{
    let server = servers[index];
    lemma_usable_id(server.id@);
}

proof fn lemma_usable_id(id: Text)
    ensures
        id_problem(id) is None <==> is_usable_id(id),
{
    if id_problem(id) is None {
        assert forall|i: int| 0 <= i < id.len() implies is_id_char(#[trigger] id[i]) by {}
    }
    if is_usable_id(id) {
        assert forall|i: int| 0 <= i < id.len() implies is_id_char(#[trigger] id[i]) by {}
    }
}

/// The error that is told is that of the first server that cannot be used, and tells something
/// that is wrong with it.
pub proof fn told_problems_are_real(servers: Seq<ServerConfig>, index: int)
    requires
        0 <= index < servers.len(),
    ensures
        ({
            let server = servers[index];
            let ssh = server.tunnel->0.ssh->0;
            let custom = server.tunnel->0.custom_command->0;
            match server_problem(servers, index) {
                None => true,
                Some(ServerProblem::Id(IdProblem::Missing)) => server.id@.len() == 0,
                Some(ServerProblem::Id(IdProblem::Characters)) => server.id@.len() > 0
                    && !is_usable_id(server.id@),
                Some(ServerProblem::Id(IdProblem::Reserved)) => server.id@ == "internal"@,
                Some(ServerProblem::DuplicateId) => exists|i: int|
                    0 <= i < index && (#[trigger] servers[i]).id@ == server.id@,
                Some(ServerProblem::AddrMissing) => server.addr@.len() == 0,
                Some(ServerProblem::AddrIsUrl) => server.addr@.contains('/'),
                Some(ServerProblem::Addr(problem)) => address_problem(server.addr@) == Some(problem),
                Some(ServerProblem::TokenFileMissing) => server.auth is Some
                    && server.auth->0.bearer_token_file@.len() == 0,
                Some(ServerProblem::TunnelChoice) => server.tunnel is Some && (
                server.tunnel->0.ssh is Some) == (server.tunnel->0.custom_command is Some),
                Some(ServerProblem::CommandMissing) => server.tunnel is Some && (
                custom.command@.len() == 0 || custom.command@[0]@.len() == 0),
                Some(ServerProblem::ProbeEmpty) => server.tunnel is Some
                    && custom.readiness_probe is Some
                    && custom.readiness_probe->0.contains_output@.len() == 0,
                Some(ServerProblem::SshHostMissing) => ssh.host@.len() == 0,
                Some(ServerProblem::SshHostHyphen) => ssh.host@[0] == '-',
                Some(ServerProblem::SshUserMissing) => ssh.user@.len() == 0,
                Some(ServerProblem::SshUserHyphen) => ssh.user@[0] == '-',
                Some(ServerProblem::RemoteAddr(problem)) => address_problem(
                    ssh.remote_salmon_addr@,
                ) == Some(problem),
                Some(ServerProblem::SshAddr(problem)) => address_problem(server.addr@) == Some(
                    problem,
                ),
                Some(ServerProblem::NotLoopback) => address_parts(server.addr@) matches Some(parts)
                    && !is_loopback(parts.0),
            }
        }),
{
    lemma_usable_id(servers[index].id@);
}

} // verus!
