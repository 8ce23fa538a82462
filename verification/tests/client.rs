use salmon_watch::config::{ServerConfig, TlsConfig};
use salmon_watch::domain::{Event, NotificationData};
use salmon_watch::logging::Level;
use salmon_watch::network::client::{
    bearer_header, ca_certificates, ca_outcome, split_host_port, trusted_certificates, uri_host,
    websocket_connection_error, Action, ClientOptions, ConnectionLoop, ConnectionSetup, Frame, HandshakeFailure, Signal, SplitError,
    TokenProblem,
};

fn server(address: &str) -> ServerConfig {
    ServerConfig { id: "test".into(), addr: address.into(), tls: None, auth: None, tunnel: None }
}

#[test]
fn bearer_token_is_trimmed_and_added_to_the_request() {
    let header = bearer_header(" \nvalid-token\r\n").unwrap();
    let server = server("127.0.0.1:41990");
    let setup = ConnectionSetup::for_server(&server, Some(header));
    let request = setup.request(&server).unwrap();
    assert_eq!(request.url, "ws://127.0.0.1:41990/api/v1/wsconnect");
    assert_eq!(request.host, "127.0.0.1:41990");
    assert_eq!(request.authorization.as_deref(), Some("Bearer valid-token"));
}

#[test]
fn bearer_token_rejects_missing_empty_and_internal_whitespace() {
    for (contents, problem, expected) in [
        (" \n\t", TokenProblem::Empty, "is empty"),
        ("two tokens", TokenProblem::WhiteSpace, "contains whitespace inside"),
        ("two\ntokens", TokenProblem::WhiteSpace, "contains whitespace inside"),
    ] {
        let error = bearer_header(contents).unwrap_err();
        assert_eq!(error, problem);
        assert!(error.message("/etc/token").contains(expected));
    }
    assert_eq!(bearer_header("bad\u{1}token"), Err(TokenProblem::NotAHeader));
    assert_eq!(
        TokenProblem::Empty.message("/etc/token"),
        "bearer token file \"/etc/token\" is empty"
    );
}

#[test]
fn tls_server_name_controls_verification_uri_not_http_host() {
    let setup = ConnectionSetup {
        scheme: "wss",
        bearer: None,
        tls_server_name: Some("salmon.test".into()),
    };
    let request = setup.request(&server("127.0.0.1:41990")).unwrap();
    assert_eq!(request.url, "wss://salmon.test:41990/api/v1/wsconnect");
    assert_eq!(request.host, "127.0.0.1:41990");
    assert_eq!(request.authorization, None);
}

#[test]
fn formats_authentication_handshake_errors_usefully() {
    let unauthorized = HandshakeFailure::Http(401);
    assert_eq!(
        websocket_connection_error(&unauthorized, false),
        "server requires authentication, but no bearer token is configured"
    );
    assert_eq!(
        websocket_connection_error(&unauthorized, true),
        "server rejected the configured bearer token"
    );

    let forbidden = HandshakeFailure::Http(403);
    assert_eq!(
        websocket_connection_error(&forbidden, true),
        "WebSocket handshake failed: 403 Forbidden"
    );
}

#[test]
fn parses_ipv4_hostname_and_ipv6_addresses() {
    assert_eq!(split_host_port("host:41990").unwrap(), ("host".to_owned(), 41990));
    assert_eq!(split_host_port("127.0.0.1:1").unwrap(), ("127.0.0.1".to_owned(), 1));
    assert_eq!(split_host_port("[::1]:443").unwrap(), ("::1".to_owned(), 443));
    assert!(split_host_port("host").is_err());
    assert!(split_host_port("host:nope").is_err());
}

#[test]
fn addresses_that_cannot_be_taken_apart_are_told() {
    assert_eq!(split_host_port("host").unwrap_err(), SplitError::NotHostPort);
    assert_eq!(SplitError::NotHostPort.message(), "address must be host:port");
    assert_eq!(
        split_host_port("host:nope").unwrap_err().message(),
        "address port is invalid: invalid digit found in string"
    );
    assert_eq!(uri_host("::1"), "[::1]");
    assert_eq!(uri_host("[::1]"), "[::1]");
    assert_eq!(uri_host("host"), "host");
}

#[test]
fn tls_chooses_the_scheme_and_the_name_to_verify() {
    let mut server = server("localhost:1");
    assert_eq!(ConnectionSetup::for_server(&server, None).scheme, "ws");
    server.tls = Some(TlsConfig { ca_file: String::new(), server_name: String::new() });
    let setup = ConnectionSetup::for_server(&server, None);
    assert_eq!(setup.scheme, "wss");
    assert_eq!(setup.tls_server_name, None);
    assert!(ConnectionSetup { scheme: "ws", bearer: None, tls_server_name: None }
        .request(&ServerConfig { addr: "a b:1".into(), ..server })
        .is_err());
}

const CERTIFICATE: &str = "-----BEGIN CERTIFICATE-----
MIIBiTCCAS+gAwIBAgIUS5Z/MU2CHy/C5+UGsDZj1Gt21MkwCgYIKoZIzj0EAwIw
GTEXMBUGA1UEAwwOU2FsbW9uIFRlc3QgQ0EwIBcNMjYxMTE2MTkzNTI3WhgPMjEy
NjEwMjMxOTM1MjdaMBkxFzAVBgNVBAMMDlNhbG1vbiBUZXN0IENBMFkwEwYHKoZI
zj0CAQYIKoZIzj0DAQcDQgAEKQEoiNpCNng+dw/6gH0R6g/iK0cahPaOsDbo/cO1
rnCBMsnd3nh1g57OV50ahPPO5Ipz5oT1LnKiEDLY8XJp6KNTMFEwHQYDVR0OBBYE
FMjBnQQmPpRSzkbTNspTVAJZVTKwMB8GA1UdIwQYMBaAFMjBnQQmPpRSzkbTNspT
VAJZVTKwMA8GA1UdEwEB/wQFMAMBAf8wCgYIKoZIzj0EAwIDSAAwRQIgW5GXUbYW
ouowFp3Ged73jCIFhwWMPBIUp9BRAypuMa4CIQCdnPkeDtfMDJ0u/Xwcr5Jsjvwk
lBJE1b6d1xOgHQmykA==
-----END CERTIFICATE-----
";

/// A section that is read as a certificate and is none.
const UNUSABLE: &str = "-----BEGIN CERTIFICATE-----\nAAEC\n-----END CERTIFICATE-----\n";

#[test]
fn certificates_are_read_in_order() {
    let both = format!("a comment\n{UNUSABLE}{CERTIFICATE}");
    let found = ca_certificates("ca.pem", both.as_bytes()).unwrap();
    assert_eq!(found.len(), 2);
    assert_eq!(found[0], [0, 1, 2]);
    assert_eq!(found[1][..4], [0x30, 0x82, 0x01, 0x89]);
    assert_eq!(found[1].len(), 0x0189 + 4);
}

#[test]
fn a_file_must_give_a_usable_certificate() {
    let none = Err("TLS CA file \"ca.pem\" contains no valid certificates".to_owned());
    assert_eq!(ca_certificates("ca.pem", b""), none);
    assert_eq!(ca_certificates("ca.pem", b"no certificates"), none);
    assert_eq!(ca_certificates("ca.pem", UNUSABLE.as_bytes()), none);
    assert_eq!(ca_outcome("ca.pem", Ok(vec![vec![7]]), 0), none);
    assert_eq!(ca_outcome("ca.pem", Ok(vec![vec![7]]), 1), Ok(vec![vec![7]]));
}

#[test]
fn broken_files_of_certificates_are_refused() {
    let words = ca_certificates("a b.pem", b"-----BEGIN CERTIFICATE-----\nAAEC\n").unwrap_err();
    assert_eq!(
        words,
        "read TLS CA file \"a b.pem\": section end \"CERTIFICATE\" missing"
    );
    assert_eq!(
        ca_outcome("a b.pem", Err("torn".into()), 3).unwrap_err(),
        "read TLS CA file \"a b.pem\": torn"
    );
}

#[test]
fn trust_needs_certificates() {
    let own = ca_certificates("ca.pem", CERTIFICATE.as_bytes()).unwrap();
    let mut all = own.clone();
    all.extend(own.clone());
    assert_eq!(trusted_certificates("ca.pem", CERTIFICATE.as_bytes(), own.clone()), Ok(all));
    assert_eq!(trusted_certificates("ca.pem", CERTIFICATE.as_bytes(), Vec::new()), Ok(own.clone()));
    assert_eq!(trusted_certificates("", b"", own.clone()), Ok(own.clone()));
    assert_eq!(
        trusted_certificates("/etc/ca.pem", b"", own).unwrap_err(),
        "TLS CA file \"/etc/ca.pem\" contains no valid certificates"
    );
    assert_eq!(
        trusted_certificates("", CERTIFICATE.as_bytes(), vec![vec![1]]).unwrap_err(),
        "load system CA certificates: no trusted certificates were found"
    );
}

#[test]
fn other_handshake_failures_are_told_as_they_are() {
    assert_eq!(
        websocket_connection_error(&HandshakeFailure::Other("refused".into()), true),
        "refused"
    );
}

fn fast_loop(tunneled: bool) -> ConnectionLoop {
    ConnectionLoop::new(
        "test".into(),
        tunneled,
        ClientOptions { reconnect_step: 10, max_reconnect_delay: 20, ..ClientOptions::default() },
    )
}

fn open(connection: &mut ConnectionLoop) {
    assert_eq!(connection.action(), Action::Prepare);
    let step = connection.advance(Signal::RequestReady("ws://test".into()), 1);
    assert_eq!(step.action, Action::Connect);
    let step = connection.advance(Signal::Opened, 2);
    assert!(matches!(step.event, Some(Event::Connected { at: 2, .. })));
    assert_eq!(step.action, Action::Read);
}

#[test]
fn a_closed_connection_is_reported_and_opened_again() {
    let mut connection = fast_loop(false);
    open(&mut connection);
    let step = connection.advance(Signal::Received(Frame::Close), 3);
    assert!(matches!(step.event, Some(Event::Disconnected { at: 3, .. })));
    assert_eq!(step.action, Action::Pause(10));
    let step = connection.advance(Signal::PauseOver, 4);
    assert_eq!(step.action, Action::Prepare);
    open(&mut connection);
}

#[test]
fn each_failure_lengthens_the_pause_up_to_the_limit() {
    let mut connection = fast_loop(false);
    for pause in [10, 20, 20] {
        let step = connection.advance(Signal::RequestReady("ws://test".into()), 1);
        assert_eq!(step.action, Action::Connect);
        let step = connection.advance(Signal::OpenFailed("refused".into()), 2);
        assert!(matches!(&step.event, Some(Event::Disconnected { error, .. }) if error.contains("refused")));
        assert_eq!(step.action, Action::Pause(pause));
        connection.advance(Signal::PauseOver, 3);
    }
}

#[test]
fn heartbeats_and_messages_become_events() {
    let mut connection = fast_loop(false);
    open(&mut connection);
    let step = connection.advance(Signal::Received(Frame::Binary(vec![0])), 3);
    assert!(matches!(step.event, Some(Event::Heartbeat { at: 3, .. })));
    let step = connection.advance(Signal::Received(Frame::Text("{}".into())), 4);
    assert_eq!(step.action, Action::Decode("{}".into()));
    let data = NotificationData {
        total: Vec::new(),
        added: Vec::new(),
        removed: Vec::new(),
        updated: Vec::new(),
        num_items_ok: 3,
    };
    let step = connection.advance(Signal::Decoded(Some(data)), 5);
    assert!(matches!(step.event, Some(Event::Notification { at: 5, .. })));
    assert_eq!(step.action, Action::Read);
}

#[test]
fn a_shutdown_ends_the_connection_without_an_event() {
    let mut connection = fast_loop(false);
    open(&mut connection);
    let step = connection.advance(Signal::ShutDown, 3);
    assert!(step.event.is_none());
    assert_eq!(step.action, Action::Stop);
    assert!(step.lines.iter().all(|line| line.level != Level::Error));
}

#[test]
fn failures_over_a_stopped_tunnel_are_not_blamed_on_the_connection() {
    let mut connection = fast_loop(true);
    open(&mut connection);
    let step = connection.advance(Signal::Ended, 3);
    assert!(step.event.is_none());
    assert_eq!(step.action, Action::Settle);
    let step = connection.advance(Signal::Settled(true), 4);
    assert!(step.event.is_none());
    assert_eq!(step.action, Action::Stop);
}
