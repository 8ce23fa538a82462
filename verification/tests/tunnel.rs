use salmon_watch::config::{
    CustomTunnelCommandConfig, ServerConfig, SshTunnelConfig, TunnelConfig,
    TunnelReadinessProbeConfig,
};
use salmon_watch::domain::Event;
use salmon_watch::network::tunnel::{
    failure_details, failure_output, CommandSpec, Exit, ProbeMatcher, TailBuffer, TunnelAction,
    TunnelLoop, TunnelSignal, MAX_FAILURE_OUTPUT_BYTES, READY_MARKER,
};

fn plain_server(addr: String) -> ServerConfig {
    ServerConfig {
        id: "remote".into(),
        addr,
        tls: None,
        auth: None,
        tunnel: None,
    }
}

#[test]
fn builds_the_same_ssh_forward_as_the_old_client() {
    let server = ServerConfig {
        id: "remote".into(),
        addr: "127.0.0.1:41992".into(),
        tls: None,
        auth: None,
        tunnel: Some(TunnelConfig {
            ssh: Some(SshTunnelConfig {
                host: "salmon.example.com".into(),
                user: "monitor".into(),
                port: 2222,
                remote_salmon_addr: "127.0.0.1:41990".into(),
                extra_ssh_args: vec![
                    "-i".into(),
                    "/etc/salmon-watch/key".into(),
                    "-J".into(),
                    "bastion.example.com".into(),
                ],
            }),
            custom_command: None,
        }),
    };
    let command = CommandSpec::for_server(&server).unwrap();
    assert_eq!(command.program, "ssh");
    assert_eq!(
        command.args,
        [
            "-N",
            "-T",
            "-o",
            "BatchMode=yes",
            "-o",
            "ExitOnForwardFailure=yes",
            "-o",
            "ConnectTimeout=15",
            "-o",
            "ServerAliveInterval=10",
            "-o",
            "ServerAliveCountMax=3",
            "-o",
            "PermitLocalCommand=yes",
            "-o",
            "LocalCommand=echo SALMON_TUNNEL_READY",
            "-p",
            "2222",
            "-L",
            "127.0.0.1:41992:127.0.0.1:41990",
            "-i",
            "/etc/salmon-watch/key",
            "-J",
            "bastion.example.com",
            "monitor@salmon.example.com",
        ]
    );
    assert_eq!(command.readiness_probe.as_deref(), Some(READY_MARKER));
}

#[test]
fn defaults_the_ssh_port_to_22() {
    let server = ServerConfig {
        id: "remote".into(),
        addr: "localhost:41992".into(),
        tls: None,
        auth: None,
        tunnel: Some(TunnelConfig {
            ssh: Some(SshTunnelConfig {
                host: "host".into(),
                user: "user".into(),
                port: 0,
                remote_salmon_addr: "localhost:41990".into(),
                extra_ssh_args: Vec::new(),
            }),
            custom_command: None,
        }),
    };
    let command = CommandSpec::for_server(&server).unwrap();
    assert!(command.args.windows(2).any(|args| args == ["-p", "22"]));
}

#[test]
fn custom_command_is_a_direct_adapter_to_the_generic_spec() {
    let mut server = plain_server("localhost:41992".into());
    server.tunnel = Some(TunnelConfig {
        ssh: None,
        custom_command: Some(CustomTunnelCommandConfig {
            command: vec!["my-tunnel".into(), "--flag".into(), "value".into()],
            readiness_probe: Some(TunnelReadinessProbeConfig {
                contains_output: "READY".into(),
            }),
        }),
    });
    assert_eq!(
        CommandSpec::for_server(&server).unwrap(),
        CommandSpec {
            program: "my-tunnel".into(),
            args: vec!["--flag".into(), "value".into()],
            readiness_probe: Some("READY".into()),
        }
    );
}

#[test]
fn readiness_probe_matches_across_output_chunks() {
    let mut matcher = ProbeMatcher::new(b"tunnel-ready");
    assert!(!matcher.push(b"ignored tun"));
    assert!(!matcher.push(b"nel-"));
    assert!(matcher.push(b"ready trailing"));
    assert!(!matcher.push(b"tunnel-ready"));
}

#[test]
fn failure_output_prefers_stderr_and_removes_protocol_marker() {
    assert_eq!(
        failure_output(
            r#"SALMON_TUNNEL_READY
ssh failed"#,
            "less useful",
            Some(READY_MARKER)
        ),
        "ssh failed"
    );
    assert_eq!(
        failure_output(
            "",
            r#"SALMON_TUNNEL_READY
stdout failed"#,
            Some(READY_MARKER),
        ),
        "stdout failed"
    );
    assert_eq!(
        failure_output("", "ordinary output", None),
        "ordinary output"
    );
}

#[test]
fn failure_output_tail_is_bounded() {
    let mut tail = TailBuffer::default();
    tail.push(&vec![b'x'; MAX_FAILURE_OUTPUT_BYTES]);
    tail.push(b"useful ending");
    let text = tail.text();
    assert!(text.starts_with('…'));
    assert!(text.ends_with("useful ending"));
    assert!(text.len() <= MAX_FAILURE_OUTPUT_BYTES + '…'.len_utf8());
}

#[test]
fn tunnel_builds_the_same_ssh_forward_as_the_old_client() {
    let server = ServerConfig {
        id: "remote".into(),
        addr: "127.0.0.1:41992".into(),
        tls: None,
        auth: None,
        tunnel: Some(TunnelConfig {
            ssh: Some(SshTunnelConfig {
                host: "salmon.example.com".into(),
                user: "monitor".into(),
                port: 2222,
                remote_salmon_addr: "127.0.0.1:41990".into(),
                extra_ssh_args: vec![
                    "-i".into(),
                    "/etc/salmon-watch/key".into(),
                    "-J".into(),
                    "bastion.example.com".into(),
                ],
            }),
            custom_command: None,
        }),
    };
    let command = CommandSpec::for_server(&server).unwrap();
    assert_eq!(command.program, "ssh");
    assert_eq!(
        command.args,
        [
            "-N",
            "-T",
            "-o",
            "BatchMode=yes",
            "-o",
            "ExitOnForwardFailure=yes",
            "-o",
            "ConnectTimeout=15",
            "-o",
            "ServerAliveInterval=10",
            "-o",
            "ServerAliveCountMax=3",
            "-o",
            "PermitLocalCommand=yes",
            "-o",
            "LocalCommand=echo SALMON_TUNNEL_READY",
            "-p",
            "2222",
            "-L",
            "127.0.0.1:41992:127.0.0.1:41990",
            "-i",
            "/etc/salmon-watch/key",
            "-J",
            "bastion.example.com",
            "monitor@salmon.example.com",
        ]
    );
    assert_eq!(command.readiness_probe.as_deref(), Some(READY_MARKER));
}

#[test]
fn tunnel_defaults_the_ssh_port_to_22() {
    let server = ServerConfig {
        id: "remote".into(),
        addr: "localhost:41992".into(),
        tls: None,
        auth: None,
        tunnel: Some(TunnelConfig {
            ssh: Some(SshTunnelConfig {
                host: "host".into(),
                user: "user".into(),
                port: 0,
                remote_salmon_addr: "localhost:41990".into(),
                extra_ssh_args: Vec::new(),
            }),
            custom_command: None,
        }),
    };
    let command = CommandSpec::for_server(&server).unwrap();
    assert!(command.args.windows(2).any(|args| args == ["-p", "22"]));
}

#[test]
fn tunnel_readiness_probe_matches_across_output_chunks() {
    let mut matcher = ProbeMatcher::new(b"tunnel-ready");
    assert!(!matcher.push(b"ignored tun"));
    assert!(!matcher.push(b"nel-"));
    assert!(matcher.push(b"ready trailing"));
    assert!(!matcher.push(b"tunnel-ready"));
}

#[test]
fn tunnel_failure_output_prefers_stderr_and_removes_protocol_marker() {
    assert_eq!(
        failure_output(
            "SALMON_TUNNEL_READY\nssh failed",
            "less useful",
            Some(READY_MARKER)
        ),
        "ssh failed"
    );
    assert_eq!(
        failure_output("", "SALMON_TUNNEL_READY\nstdout failed", Some(READY_MARKER)),
        "stdout failed"
    );
}

#[test]
fn tunnel_failure_output_tail_is_bounded() {
    let mut tail = TailBuffer::default();
    tail.push(&vec![b'x'; MAX_FAILURE_OUTPUT_BYTES]);
    tail.push(b"useful ending");
    let text = tail.text();
    assert!(text.starts_with('…'));
    assert!(text.ends_with("useful ending"));
    assert!(text.len() <= MAX_FAILURE_OUTPUT_BYTES + '…'.len_utf8());
}


fn tunnel_loop(readiness_probe: Option<&str>) -> TunnelLoop {
    let spec = CommandSpec {
        program: "tunnel".into(),
        args: Vec::new(),
        readiness_probe: readiness_probe.map(str::to_owned),
    };
    TunnelLoop::new("remote".into(), &spec, 5)
}

#[test]
fn the_connection_waits_for_the_probe() {
    let mut tunnel = tunnel_loop(Some("READY"));
    assert_eq!(tunnel.action(), TunnelAction::Start);
    assert_eq!(tunnel.advance(TunnelSignal::Begin, 1).action, TunnelAction::Spawn);
    let step = tunnel.advance(TunnelSignal::Spawned, 2);
    assert_eq!(step.action, TunnelAction::AwaitProbe);
    assert!(step.event.is_none());
    let step = tunnel.advance(TunnelSignal::ProbeSeen, 3);
    assert_eq!(step.action, TunnelAction::RunClient);
    assert!(matches!(step.event, Some(Event::TunnelReady { at: 3, .. })));
}

#[test]
fn a_tunnel_without_a_probe_is_ready_at_once() {
    let mut tunnel = tunnel_loop(None);
    tunnel.advance(TunnelSignal::Begin, 1);
    let step = tunnel.advance(TunnelSignal::Spawned, 2);
    assert_eq!(step.action, TunnelAction::RunClient);
    assert!(matches!(step.event, Some(Event::TunnelReady { at: 2, .. })));
}

#[test]
fn a_tunnel_that_ended_is_reported_and_started_again() {
    let mut tunnel = tunnel_loop(None);
    tunnel.advance(TunnelSignal::Begin, 1);
    tunnel.advance(TunnelSignal::Spawned, 2);
    let step = tunnel.advance(TunnelSignal::Exited(Exit::Failure("exit status: 1".into())), 3);
    assert_eq!(step.action, TunnelAction::Collect);
    assert!(step.event.is_none());
    let step = tunnel.advance(
        TunnelSignal::Collected {
            timed_out: false,
            stderr: "refused\n".into(),
            stdout: String::new(),
        },
        4,
    );
    assert!(matches!(
        &step.event,
        Some(Event::TunnelFailed { error, .. }) if error.contains("exit status: 1") && error.contains("refused")
    ));
    assert_eq!(step.action, TunnelAction::Wait(5));
    assert_eq!(tunnel.advance(TunnelSignal::WaitOver, 5).action, TunnelAction::Start);
}

#[test]
fn a_tunnel_that_cannot_be_started_is_reported() {
    let mut tunnel = tunnel_loop(None);
    tunnel.advance(TunnelSignal::Begin, 1);
    let step = tunnel.advance(TunnelSignal::SpawnFailed("no such file".into()), 2);
    assert!(matches!(
        &step.event,
        Some(Event::TunnelFailed { error, .. })
            if error == "Failed to start tunnel command: no such file"
    ));
    assert_eq!(step.action, TunnelAction::Wait(5));
    assert_eq!(tunnel.advance(TunnelSignal::ShutDown, 3).action, TunnelAction::Stop);
}

#[test]
fn a_shutdown_ends_the_process_first() {
    let mut tunnel = tunnel_loop(None);
    tunnel.advance(TunnelSignal::Begin, 1);
    tunnel.advance(TunnelSignal::Spawned, 2);
    assert_eq!(tunnel.advance(TunnelSignal::ShutDown, 3).action, TunnelAction::TearDown);
    let step = tunnel.advance(TunnelSignal::TornDown(true), 4);
    assert_eq!(step.action, TunnelAction::Stop);
    assert_eq!(step.lines.len(), 1);
}

#[test]
fn ends_of_tunnels_are_told() {
    assert_eq!(
        failure_details(&Exit::Success, false, "", "", None),
        "Tunnel command exited unexpectedly"
    );
    assert!(failure_details(&Exit::WaitFailed("lost".into()), false, "", "", None)
        .starts_with("Waiting for tunnel command failed: lost"));
}

#[test]
fn probes_are_seen_once() {
    let mut matcher = ProbeMatcher::new(b"READY");
    assert!(!matcher.push(b"REA"));
    assert!(!matcher.push(b"READ"));
    assert!(matcher.push(b"Y"));
    assert!(!matcher.push(b"READY"));
}

#[test]
fn output_that_is_no_utf8_is_still_told() {
    let mut tail = TailBuffer::default();
    tail.push(b" caf\xe9 ");
    assert_eq!(tail.text(), "caf\u{fffd}");
}
