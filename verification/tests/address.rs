use salmon_watch::address::{host_is_loopback, split_address, validate_host_port, AddressProblem};

#[test]
fn addresses_are_taken_apart() {
    assert_eq!(split_address("host:1"), Some(("host".into(), "1".into())));
    assert_eq!(split_address("[::1]:1"), Some(("::1".into(), "1".into())));
    assert_eq!(split_address("host"), None);
    assert_eq!(split_address("[::1]"), None);
}

#[test]
fn each_problem_with_an_address_is_told() {
    assert_eq!(validate_host_port("host:65535"), Ok(("host".into(), 65535)));
    assert_eq!(validate_host_port("host"), Err(AddressProblem::NotHostPort));
    assert_eq!(validate_host_port("host/path:80"), Err(AddressProblem::NotHostPort));
    assert_eq!(validate_host_port("host:80/path"), Err(AddressProblem::NotHostPort));
    assert_eq!(validate_host_port("http://host:80"), Err(AddressProblem::NotHostPort));
    assert_eq!(validate_host_port("[::1]/path:80"), Err(AddressProblem::NotHostPort));
    assert_eq!(validate_host_port("::1:80"), Err(AddressProblem::BareIpv6));
    assert_eq!(validate_host_port(":80"), Err(AddressProblem::EmptyHost));
    assert_eq!(validate_host_port("host:0"), Err(AddressProblem::Port));
    assert_eq!(validate_host_port("host:65536"), Err(AddressProblem::Port));
    assert_eq!(AddressProblem::Port.message(), "port must be between 1 and 65535");
}

#[test]
fn loopback_hosts_are_recognised() {
    for host in [
        "localhost", "127.0.0.1", "127.255.0.9", "::1", "0::1", "0:0:0:0:0:0:0:1", "::0001",
        "0:0::0:1", "::0.0.0.1", "0:0:0:0:0:0:0.0.0.1",
    ] {
        assert!(host_is_loopback(host), "{host}");
    }
    for host in [
        "", "Localhost", "128.0.0.1", "127.0.0", "127.0.0.256", "127.0.0.01", "127.0.0.+1", "::",
        "::2", "1::1", ":::1", "::1::", "0:0:0:0:0:0:0:0:1", "0:0:0:0:0:0:0::1", "::00001",
        "::ffff:127.0.0.1", "[::1]", "example.com",
    ] {
        assert!(!host_is_loopback(host), "{host}");
    }
}
