//! Endpoints and how they are written.
use meridian_relay::daemon::address::TcpAddress;
use meridian_relay::daemon::transport::{full_pipe_name, Endpoint};
use meridian_relay::platform::{native_platform, Platform};

#[test]
fn test_parse_unix_scheme() {
    let ep = Endpoint::parse("unix:/tmp/foo.sock").unwrap();
    assert!(matches!(ep, Endpoint::Unix(p) if p == "/tmp/foo.sock"));
}

#[test]
fn test_parse_pipe_scheme() {
    let ep = Endpoint::parse("pipe:meridian-relay").unwrap();
    assert_eq!(ep, Endpoint::NamedPipe("meridian-relay".into()));
}

#[test]
fn test_parse_tcp_loopback_ok() {
    let ep = Endpoint::parse("tcp:127.0.0.1:27015").unwrap();
    // 127.0.0.1:27015
    assert_eq!(ep, Endpoint::Tcp(TcpAddress::V4 { bits: 0x7F00_0001, port: 27015 }));
    assert_eq!(ep.display_string(), "tcp:127.0.0.1:27015");
}

#[test]
fn test_parse_tcp_rejects_non_loopback() {
    assert!(Endpoint::parse("tcp:0.0.0.0:27015").is_err());
    assert!(Endpoint::parse("tcp:192.168.1.5:27015").is_err());
    assert!(Endpoint::parse("tcp:[::1]:27015").is_ok());
}

#[test]
fn test_parse_pipe_rejects_traversal() {
    assert!(Endpoint::parse("pipe:../evil").is_err());
    assert!(Endpoint::parse("pipe:a/b").is_err());
    assert!(Endpoint::parse("pipe:a\\b").is_err());
    assert!(Endpoint::parse("pipe:").is_err());
}

#[test]
fn test_bare_value_platform_scheme() {
    let ep = Endpoint::parse("meridian-relay").unwrap();
    assert_eq!(ep, Endpoint::parse_for(native_platform(), "meridian-relay").unwrap());
    assert!(matches!(ep, Endpoint::Unix(_)));
    let ep = Endpoint::parse_for(Platform::Windows, "meridian-relay").unwrap();
    assert!(matches!(ep, Endpoint::NamedPipe(_)));
}

#[test]
fn schemes_mean_the_same_on_both_platforms() {
    for s in ["unix:/a b", "pipe:x", "pipe:a/b", "tcp:127.0.0.1:1", "tcp:8.8.8.8:1", "tcp:x"] {
        let unix = Endpoint::parse_for(Platform::Unix, s);
        assert_eq!(unix, Endpoint::parse_for(Platform::Windows, s), "{s}");
        assert_eq!(unix, Endpoint::parse(s), "{s}");
    }
}

#[test]
fn test_display_roundtrip() {
    for s in ["unix:/tmp/a.sock", "pipe:foo", "tcp:127.0.0.1:1"] {
        let ep = Endpoint::parse(s).unwrap();
        assert_eq!(Endpoint::parse(&ep.display_string()).unwrap(), ep);
    }
}

#[test]
fn addresses_of_version_six() {
    let ep = Endpoint::parse("tcp:[::1]:27015").unwrap();
    assert_eq!(ep, Endpoint::Tcp(TcpAddress::V6 { bits: 1, port: 27015, scope_id: 0 }));
    assert_eq!(ep.display_string(), "tcp:[::1]:27015");
    assert_eq!(Endpoint::parse(&ep.display_string()).unwrap(), ep);
    let scoped = TcpAddress::V6 { bits: 1, port: 9, scope_id: 3 };
    assert_eq!(scoped.to_text(), "[::1%3]:9");
    assert_eq!(
        Endpoint::parse("tcp:[fe80::1]:9").unwrap_err(),
        "TCP endpoint must be loopback (the IPC protocol is unauthenticated)"
    );
}

#[test]
fn bad_addresses_say_why() {
    assert_eq!(
        Endpoint::parse("tcp:nowhere").unwrap_err(),
        "invalid tcp endpoint 'nowhere': invalid socket address syntax"
    );
    assert_eq!(Endpoint::parse("pipe:a/b").unwrap_err(), "invalid pipe name: 'a/b'");
    assert!(Endpoint::parse(&format!("pipe:{}", "a".repeat(257))).is_err());
    assert!(Endpoint::parse(&format!("pipe:{}", "a".repeat(256))).is_ok());
    assert!(Endpoint::parse("pipe:a\u{7}b").is_err());
}

#[test]
fn only_the_host_itself_is_loopback() {
    let here = TcpAddress::V4 { bits: 0x7F12_3456, port: 1 };
    let there = TcpAddress::V4 { bits: 0x8000_0001, port: 1 };
    let mapped = TcpAddress::V6 { bits: 0xFFFF_7F00_0001, port: 1, scope_id: 0 };
    assert!(here.is_loopback() && !there.is_loopback() && !mapped.is_loopback());
    assert!(Endpoint::parse("tcp:[::ffff:127.0.0.1]:1").is_err());
}

#[test]
fn pipes_have_full_names() {
    assert_eq!(full_pipe_name("meridian-relay"), "\\\\.\\pipe\\meridian-relay");
}

#[test]
fn written_endpoints_read_back() {
    for octets in [[127, 0, 0, 1], [127, 255, 255, 255], [127, 1, 20, 99], [127, 0, 0, 0]] {
        for port in [0, 1, 80, 27015, 65535] {
            let e = Endpoint::Tcp(TcpAddress::V4 { bits: u32::from_be_bytes(octets), port });
            assert_eq!(Endpoint::parse(&e.display_string()).unwrap(), e);
        }
    }
    for scope_id in [0, 1, 42, u32::MAX] {
        let e = Endpoint::Tcp(TcpAddress::V6 { bits: 1, port: 62078, scope_id });
        assert_eq!(Endpoint::parse(&e.display_string()).unwrap(), e);
    }
    for path in ["", "/a b", "pipe:x", "tcp:1"] {
        let e = Endpoint::Unix(path.into());
        assert_eq!(Endpoint::parse_for(Platform::Windows, &e.display_string()).unwrap(), e);
    }
}
