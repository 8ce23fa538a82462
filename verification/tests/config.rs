use salmon_watch::address::AddressProblem;
use salmon_watch::config::{
    validate_server_id, AuthConfig, Config, ConfigError, CustomTunnelCommandConfig, IdProblem,
    ServerConfig, ServerProblem, SshTunnelConfig, TlsConfig, TunnelConfig,
    TunnelReadinessProbeConfig, WsClientConfig,
};
use serde_yaml::{Mapping, Value};

/// Reads a mapping with no other keys than those given.
fn fields<'a>(value: &'a Value, known: &[&str]) -> Result<&'a Mapping, String> {
    let mapping = value.as_mapping().ok_or("expected a mapping")?;
    for key in mapping.keys() {
        let key = key.as_str().ok_or("expected a text as key")?;
        if !known.contains(&key) {
            return Err(format!("unknown field {key}"));
        }
    }
    Ok(mapping)
}

fn text(mapping: &Mapping, key: &str) -> Result<String, String> {
    let value = mapping.get(key).ok_or(format!("missing field {key}"))?;
    value.as_str().map(str::to_owned).ok_or(format!("{key} is no text"))
}

fn text_or_empty(mapping: &Mapping, key: &str) -> Result<String, String> {
    if mapping.contains_key(key) {
        text(mapping, key)
    } else {
        Ok(String::new())
    }
}

fn texts(mapping: &Mapping, key: &str) -> Result<Vec<String>, String> {
    let Some(value) = mapping.get(key) else {
        return Ok(Vec::new());
    };
    let items = value.as_sequence().ok_or(format!("{key} is no list"))?;
    items
        .iter()
        .map(|item| item.as_str().map(str::to_owned).ok_or(format!("{key} holds no text")))
        .collect()
}

fn tls(value: &Value) -> Result<TlsConfig, String> {
    let mapping = fields(value, &["caFile", "serverName"])?;
    Ok(TlsConfig {
        ca_file: text_or_empty(mapping, "caFile")?,
        server_name: text_or_empty(mapping, "serverName")?,
    })
}

fn ssh(value: &Value) -> Result<SshTunnelConfig, String> {
    let mapping = fields(value, &["host", "user", "port", "remoteSalmonAddr", "extraSshArgs"])?;
    let port = match mapping.get("port") {
        Some(port) => port.as_u64().and_then(|port| u16::try_from(port).ok()).ok_or("port")?,
        None => 0,
    };
    Ok(SshTunnelConfig {
        host: text(mapping, "host")?,
        user: text(mapping, "user")?,
        port,
        remote_salmon_addr: text(mapping, "remoteSalmonAddr")?,
        extra_ssh_args: texts(mapping, "extraSshArgs")?,
    })
}

fn custom(value: &Value) -> Result<CustomTunnelCommandConfig, String> {
    let mapping = fields(value, &["command", "readinessProbe"])?;
    let readiness_probe = match mapping.get("readinessProbe") {
        Some(probe) => {
            let probe = fields(probe, &["containsOutput"])?;
            Some(TunnelReadinessProbeConfig { contains_output: text(probe, "containsOutput")? })
        }
        None => None,
    };
    Ok(CustomTunnelCommandConfig { command: texts(mapping, "command")?, readiness_probe })
}

fn tunnel(value: &Value) -> Result<TunnelConfig, String> {
    let mapping = fields(value, &["ssh", "customCommand"])?;
    Ok(TunnelConfig {
        ssh: mapping.get("ssh").map(ssh).transpose()?,
        custom_command: mapping.get("customCommand").map(custom).transpose()?,
    })
}

fn auth(value: &Value) -> Result<AuthConfig, String> {
    let mapping = fields(value, &["bearerTokenFile"])?;
    Ok(AuthConfig { bearer_token_file: text_or_empty(mapping, "bearerTokenFile")? })
}

fn server(value: &Value) -> Result<ServerConfig, String> {
    let mapping = fields(value, &["id", "addr", "tls", "auth", "tunnel"])?;
    Ok(ServerConfig {
        id: text(mapping, "id")?,
        addr: text_or_empty(mapping, "addr")?,
        tls: mapping.get("tls").map(tls).transpose()?,
        auth: mapping.get("auth").map(auth).transpose()?,
        tunnel: mapping.get("tunnel").map(tunnel).transpose()?,
    })
}

fn parse(yaml: &str) -> Result<Config, String> {
    let value: Value = serde_yaml::from_str(yaml).map_err(|error| error.to_string())?;
    let root = fields(&value, &["wsClient"])?;
    let client = fields(root.get("wsClient").ok_or("wsClient")?, &["servers"])?;
    let servers = client.get("servers").and_then(Value::as_sequence).ok_or("servers")?;
    let servers = servers.iter().map(server).collect::<Result<Vec<_>, _>>()?;
    let config = Config { ws_client: WsClientConfig { servers } };
    match config.validate() {
        Ok(()) => Ok(config),
        Err(error) => Err(error.message(&config)),
    }
}

#[test]
fn accepts_plain_servers() {
    let config =
        parse("wsClient:\n  servers:\n    - id: local\n      addr: localhost:41990\n").unwrap();
    assert_eq!(config.ws_client.servers[0].id, "local");
    assert!(config.ws_client.servers[0].tunnel.is_none());
    assert!(config.ws_client.servers[0].tls.is_none());
    assert!(config.ws_client.servers[0].auth.is_none());
}

#[test]
fn accepts_tls_and_bearer_auth() {
    let config = parse(
        "wsClient:\n  servers:\n    - id: remote\n      addr: 127.0.0.1:41990\n      tls:\n        caFile: /etc/salmon/ca.pem\n        serverName: salmon.example.com\n      auth:\n        bearerTokenFile: /etc/salmon/remote.token\n",
    )
    .unwrap();
    let server = &config.ws_client.servers[0];
    let tls = server.tls.as_ref().unwrap();
    assert_eq!(tls.ca_file, "/etc/salmon/ca.pem");
    assert_eq!(tls.server_name, "salmon.example.com");
    assert_eq!(
        server.auth.as_ref().unwrap().bearer_token_file,
        "/etc/salmon/remote.token"
    );

    let empty_tls = parse(
        "wsClient:\n  servers:\n    - id: remote\n      addr: salmon.example.com:41990\n      tls: {}\n",
    )
    .unwrap();
    assert!(empty_tls.ws_client.servers[0].tls.is_some());
}

#[test]
fn accepts_ssh_tunnel() {
    let config = parse(
        "wsClient:\n  servers:\n    - id: remote\n      addr: 127.0.0.1:42990\n      tunnel:\n        ssh:\n          host: salmon.example.com\n          user: monitor\n          port: 2222\n          remoteSalmonAddr: 127.0.0.1:41990\n          extraSshArgs: ['-i', '/tmp/key']\n",
    )
    .unwrap();
    let ssh = config.ws_client.servers[0].tunnel.as_ref().unwrap().ssh.as_ref().unwrap();
    assert_eq!(ssh.host, "salmon.example.com");
    assert_eq!(ssh.user, "monitor");
    assert_eq!(ssh.port, 2222);
    assert_eq!(ssh.remote_salmon_addr, "127.0.0.1:41990");
    assert_eq!(ssh.extra_ssh_args, ["-i", "/tmp/key"]);
}

#[test]
fn accepts_custom_tunnel_commands_with_optional_readiness_probe() {
    let config = parse(
        r#"wsClient:
  servers:
    - id: remote
      addr: localhost:42990
      tunnel:
        customCommand:
          command: ['my-tunnel', '--listen', 'localhost:42990']
          readinessProbe:
            containsOutput: READY
    - id: immediate
      addr: localhost:42991
      tunnel:
        customCommand:
          command: ['other-tunnel']
"#,
    )
    .unwrap();
    let custom =
        config.ws_client.servers[0].tunnel.as_ref().unwrap().custom_command.as_ref().unwrap();
    assert_eq!(custom.command, ["my-tunnel", "--listen", "localhost:42990"]);
    assert_eq!(custom.readiness_probe.as_ref().unwrap().contains_output, "READY");
    assert!(config.ws_client.servers[1]
        .tunnel
        .as_ref()
        .unwrap()
        .custom_command
        .as_ref()
        .unwrap()
        .readiness_probe
        .is_none());
}

#[test]
fn rejects_invalid_tunnel_adapter_selection() {
    for yaml in [
        r#"wsClient:
  servers:
    - id: local
      addr: localhost:41990
      tunnel: {}
"#,
        r#"wsClient:
  servers:
    - id: local
      addr: localhost:41990
      tunnel:
        unsupported: {}
"#,
        r#"wsClient:
  servers:
    - id: local
      addr: localhost:41990
      tunnel:
        ssh:
          host: host
          user: user
          remoteSalmonAddr: localhost:1
        customCommand:
          command: [tunnel]
"#,
    ] {
        assert!(parse(yaml).is_err(), "accepted invalid tunnel:\n{yaml}");
    }
}

#[test]
fn rejects_invalid_custom_tunnel_commands() {
    for yaml in [
        r#"wsClient:
  servers:
    - id: remote
      addr: localhost:42990
      tunnel:
        customCommand:
          command: []
"#,
        r#"wsClient:
  servers:
    - id: remote
      addr: localhost:42990
      tunnel:
        customCommand:
          command: ['']
"#,
        r#"wsClient:
  servers:
    - id: remote
      addr: localhost:42990
      tunnel:
        customCommand:
          command: [tunnel]
          readinessProbe:
            containsOutput: ''
"#,
    ] {
        assert!(parse(yaml).is_err(), "accepted invalid custom command:\n{yaml}");
    }
}

#[test]
fn rejects_missing_bearer_token_file() {
    for auth in ["{}", "{ bearerTokenFile: '' }"] {
        let yaml = format!(
            "wsClient:\n  servers:\n    - id: remote\n      addr: localhost:41990\n      auth: {auth}\n"
        );
        assert!(parse(&yaml).is_err(), "accepted invalid auth: {auth}");
    }
}

#[test]
fn rejects_invalid_ssh_tunnels() {
    for ssh in [
        "host: ''\n          user: user\n          remoteSalmonAddr: localhost:41990",
        "host: -option\n          user: user\n          remoteSalmonAddr: localhost:41990",
        "host: host\n          user: ''\n          remoteSalmonAddr: localhost:41990",
        "host: host\n          user: -option\n          remoteSalmonAddr: localhost:41990",
        "host: host\n          user: user\n          remoteSalmonAddr: missing-port",
        "host: host\n          user: user\n          remoteSalmonAddr: localhost:0",
    ] {
        let yaml = format!(
            "wsClient:\n  servers:\n    - id: remote\n      addr: localhost:42990\n      tunnel:\n        ssh:\n          {ssh}\n"
        );
        assert!(parse(&yaml).is_err(), "accepted invalid SSH config:\n{ssh}");
    }

    let non_loopback = "wsClient:\n  servers:\n    - id: remote\n      addr: example.com:42990\n      tunnel:\n        ssh:\n          host: host\n          user: user\n          remoteSalmonAddr: localhost:41990\n";
    assert!(parse(non_loopback).is_err());
}

#[test]
fn rejects_invalid_duplicate_and_reserved_ids() {
    for yaml in [
        "wsClient:\n  servers:\n    - { id: 'bad.id', addr: localhost:1 }\n",
        "wsClient:\n  servers:\n    - { id: internal, addr: localhost:1 }\n",
        "wsClient:\n  servers:\n    - { id: same, addr: localhost:1 }\n    - { id: same, addr: localhost:2 }\n",
    ] {
        assert!(parse(yaml).is_err());
    }
}

fn plain(id: &str, addr: &str) -> ServerConfig {
    ServerConfig { id: id.into(), addr: addr.into(), tls: None, auth: None, tunnel: None }
}

fn with_ssh(addr: &str, host: &str, user: &str, remote: &str) -> ServerConfig {
    ServerConfig {
        tunnel: Some(TunnelConfig {
            ssh: Some(SshTunnelConfig {
                host: host.into(),
                user: user.into(),
                port: 0,
                remote_salmon_addr: remote.into(),
                extra_ssh_args: Vec::new(),
            }),
            custom_command: None,
        }),
        ..plain("remote", addr)
    }
}

fn with_command(command: &[&str], probe: Option<&str>) -> ServerConfig {
    ServerConfig {
        tunnel: Some(TunnelConfig {
            ssh: None,
            custom_command: Some(CustomTunnelCommandConfig {
                command: command.iter().map(|part| (*part).to_owned()).collect(),
                readiness_probe: probe.map(|probe| TunnelReadinessProbeConfig {
                    contains_output: probe.to_owned(),
                }),
            }),
        }),
        ..plain("remote", "localhost:42990")
    }
}

fn problem(server: ServerConfig) -> ServerProblem {
    let config = Config { ws_client: WsClientConfig { servers: vec![server] } };
    match config.validate() {
        Err(ConfigError::Server { index: 0, problem }) => problem,
        other => panic!("unexpected outcome {other:?}"),
    }
}

#[test]
fn each_problem_with_a_server_is_told() {
    let remote = "localhost:41990";
    assert_eq!(problem(plain("", "localhost:1")), ServerProblem::Id(IdProblem::Missing));
    assert_eq!(problem(plain("a b", "localhost:1")), ServerProblem::Id(IdProblem::Characters));
    assert_eq!(problem(plain("internal", "localhost:1")), ServerProblem::Id(IdProblem::Reserved));
    assert_eq!(problem(plain("a", "")), ServerProblem::AddrMissing);
    assert_eq!(problem(plain("a", "ws://localhost:1")), ServerProblem::AddrIsUrl);
    assert_eq!(
        problem(ServerConfig {
            auth: Some(AuthConfig { bearer_token_file: String::new() }),
            ..plain("a", "localhost:1")
        }),
        ServerProblem::TokenFileMissing
    );
    assert_eq!(
        problem(ServerConfig {
            tunnel: Some(TunnelConfig { ssh: None, custom_command: None }),
            ..plain("a", "localhost:1")
        }),
        ServerProblem::TunnelChoice
    );
    assert_eq!(problem(with_command(&[], None)), ServerProblem::CommandMissing);
    assert_eq!(problem(with_command(&["tunnel"], Some(""))), ServerProblem::ProbeEmpty);
    assert_eq!(
        problem(with_ssh("localhost:1", "", "user", remote)),
        ServerProblem::SshHostMissing
    );
    assert_eq!(
        problem(with_ssh("localhost:1", "-host", "user", remote)),
        ServerProblem::SshHostHyphen
    );
    assert_eq!(
        problem(with_ssh("localhost:1", "host", "", remote)),
        ServerProblem::SshUserMissing
    );
    assert_eq!(
        problem(with_ssh("localhost:1", "host", "-user", remote)),
        ServerProblem::SshUserHyphen
    );
    assert_eq!(
        problem(with_ssh("localhost:1", "host", "user", "localhost:0")),
        ServerProblem::RemoteAddr(AddressProblem::Port)
    );
    assert_eq!(
        problem(with_ssh("example.com:1", "host", "user", remote)),
        ServerProblem::NotLoopback
    );
}

#[test]
fn refusals_name_the_server_and_the_field() {
    let config = Config {
        ws_client: WsClientConfig {
            servers: vec![plain("same", "localhost:1"), plain("same", "localhost:2")],
        },
    };
    let error = config.validate().unwrap_err();
    assert_eq!(error, ConfigError::Server { index: 1, problem: ServerProblem::DuplicateId });
    assert_eq!(error.message(&config), "wsClient.servers[1].id \"same\" is duplicated");

    let empty = Config { ws_client: WsClientConfig { servers: Vec::new() } };
    let error = empty.validate().unwrap_err();
    assert_eq!(error, ConfigError::NoServers);
    assert_eq!(error.message(&empty), "wsClient.servers must not be empty");
}

#[test]
fn ids_have_letters_digits_underscores_and_hyphens() {
    assert_eq!(validate_server_id("Server_1-a"), Ok(()));
    assert_eq!(validate_server_id("internals"), Ok(()));
    assert_eq!(validate_server_id("\u{e9}"), Err(IdProblem::Characters));
    assert_eq!(
        IdProblem::Reserved.message("internal"),
        "\"internal\" is reserved"
    );
}

#[test]
fn ssh_tunnels_may_choose_their_local_address() {
    let mut server = with_ssh("", "host", "user", "localhost:41990");
    assert!(server.chooses_local_address());
    let config = Config { ws_client: WsClientConfig { servers: vec![server.clone()] } };
    assert!(config.validate().is_ok());
    server.use_local_port(42990);
    assert_eq!(server.addr, "127.0.0.1:42990");
    assert!(!server.chooses_local_address());
    assert!(!plain("a", "").chooses_local_address());
}
