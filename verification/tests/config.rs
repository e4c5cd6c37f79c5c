//! Defaults, layering and validation of the configuration.
use meridian_relay::config::{
    parse_octal, Backend, ConfigFile, DaemonArgs, DaemonConfig, LogFormat, Millis,
    DEFAULT_SOCKET_PATH,
};
use meridian_relay::daemon::address::TcpAddress;
use meridian_relay::daemon::transport::Endpoint;
use meridian_relay::platform::Platform;

fn no_args() -> DaemonArgs {
    DaemonArgs {
        config_path: None,
        endpoint: None,
        socket_path: None,
        socket_mode: None,
        socket_group: None,
        pipe_security: None,
        lockdown_dir: None,
        no_require_pair_record: false,
        scan_interval_ms: None,
        usb_timeout_ms: None,
        connect_timeout_ms: None,
        max_clients: None,
        read_workers: None,
        allow_uids: Vec::new(),
        allow_sids: Vec::new(),
        backend: None,
        upstream: None,
        log_format: None,
    }
}

fn empty_file() -> ConfigFile {
    ConfigFile {
        endpoint: None,
        socket_path: None,
        socket_mode: None,
        socket_group: None,
        pipe_security: None,
        lockdown_dir: None,
        require_pair_record: None,
        scan_interval_ms: None,
        usb_timeout_ms: None,
        connect_timeout_ms: None,
        max_clients: None,
        read_workers: None,
        allowed_uids: None,
        allowed_sids: None,
        backend: None,
        upstream: None,
        log_format: None,
    }
}

#[test]
fn test_parse_octal() {
    assert_eq!(parse_octal("0666").unwrap(), 0o666);
    assert_eq!(parse_octal("0o660").unwrap(), 0o660);
    assert_eq!(parse_octal("600").unwrap(), 0o600);
    assert_eq!(parse_octal("0755").unwrap(), 0o755);
    assert!(parse_octal("invalid").is_err());
}

#[test]
fn test_defaults() {
    let cfg = DaemonConfig::default();
    assert_eq!(cfg.socket_path, DEFAULT_SOCKET_PATH);
    assert_eq!(cfg.socket_mode, 0o666);
    assert!(cfg.require_pair_record);
    assert_eq!(cfg.max_clients, 256);
    assert_eq!(cfg.read_workers, 3);
    assert!(cfg.allowed_uids.is_empty());
}

#[test]
fn test_validate_rejects_zero_max_clients() {
    let mut cfg = DaemonConfig::default();
    cfg.max_clients = 0;
    assert!(cfg.validate().is_err());
    assert_eq!(cfg.validate().unwrap_err(), "max_clients must be > 0");
}

#[test]
fn test_validate_rejects_zero_read_workers() {
    let mut cfg = DaemonConfig::default();
    cfg.read_workers = 0;
    assert!(cfg.validate().is_err());
}

#[test]
fn test_validate_rejects_invalid_mode() {
    let mut cfg = DaemonConfig::default();
    cfg.socket_mode = 0o1000;
    assert!(cfg.validate().is_err());
    assert_eq!(cfg.validate().unwrap_err(), "invalid socket mode: 1000");
}

#[test]
fn test_validate_rejects_zero_timeouts() {
    let mut cfg = DaemonConfig::default();
    cfg.scan_interval = Millis::zero();
    assert!(cfg.validate().is_err());

    let mut cfg = DaemonConfig::default();
    cfg.usb_timeout = Millis::zero();
    assert!(cfg.validate().is_err());
}

#[test]
fn test_validate_rejects_tiny_packet_cap() {
    let mut cfg = DaemonConfig::default();
    cfg.max_packet_bytes = 512;
    assert!(cfg.validate().is_err());
}

#[test]
fn test_validate_defaults_ok() {
    assert!(DaemonConfig::default().validate().is_ok());
}

#[test]
fn every_fault_has_its_message() {
    let mut cfg = DaemonConfig::default();
    cfg.connect_timeout = Millis::zero();
    assert_eq!(cfg.validate().unwrap_err(), "connect_timeout must be > 0");
    let mut cfg = DaemonConfig::default();
    cfg.max_conn_buffer = 0;
    assert_eq!(cfg.validate().unwrap_err(), "max_conn_buffer must be > 0");
    let mut cfg = DaemonConfig::default();
    cfg.max_packet_bytes = 1023;
    assert_eq!(cfg.validate().unwrap_err(), "max_packet_bytes must be >= 1024");
    cfg.max_packet_bytes = 1024;
    assert!(cfg.validate().is_ok());
}

#[test]
fn file_then_command_line() {
    let mut file = empty_file();
    file.max_clients = Some(10);
    file.read_workers = Some(2);
    file.lockdown_dir = Some("/srv/lockdown".into());
    file.connect_timeout_ms = Some(700);
    file.allowed_uids = Some(vec![0, 1000]);
    let mut args = no_args();
    args.max_clients = Some(20);
    let cfg = DaemonConfig::from_sources(Platform::Unix, Some(&file), &args);
    assert_eq!(cfg.max_clients, 20);
    assert_eq!(cfg.read_workers, 2);
    assert_eq!(cfg.lockdown_dir, "/srv/lockdown");
    assert_eq!(cfg.connect_timeout, Millis::from_millis(700));
    assert_eq!(cfg.usb_timeout, Millis::from_millis(5000));
    assert_eq!(cfg.allowed_uids, vec![0, 1000]);
    let alone = DaemonConfig::from_sources(Platform::Unix, None, &no_args());
    assert_eq!(alone.max_clients, 256);
}

#[test]
fn endpoint_and_socket_path() {
    let mut args = no_args();
    args.endpoint = Some("tcp:127.0.0.1:4000".into());
    args.socket_path = Some("/tmp/legacy.sock".into());
    let cfg = DaemonConfig::from_sources(Platform::Unix, None, &args);
    assert_eq!(
        cfg.listen_endpoint(),
        Endpoint::Tcp(TcpAddress::V4 { bits: 0x7F000001, port: 4000 })
    );
    let mut args = no_args();
    args.socket_path = Some("/tmp/legacy.sock".into());
    let cfg = DaemonConfig::from_sources(Platform::Unix, None, &args);
    assert_eq!(cfg.listen_endpoint(), Endpoint::Unix("/tmp/legacy.sock".into()));
    let mut cfg = DaemonConfig::default();
    cfg.socket_path = "/tmp/test.sock".into();
    assert_eq!(cfg.listen_endpoint(), Endpoint::Unix("/tmp/test.sock".into()));
}

#[test]
fn relay_is_asked_for_by_file_or_command_line() {
    let mut file = empty_file();
    file.backend = Some(Backend::Relay);
    let cfg = DaemonConfig::from_sources(Platform::Unix, Some(&file), &no_args());
    assert_eq!(cfg.backend, Backend::Relay);
    let mut args = no_args();
    args.backend = Some(Backend::Relay);
    args.upstream = Some("tcp:127.0.0.1:9".into());
    let cfg = DaemonConfig::from_sources(Platform::Unix, None, &args);
    assert_eq!(cfg.backend, Backend::Relay);
    assert_eq!(cfg.upstream.display_string(), "tcp:127.0.0.1:9");
    assert_eq!(DaemonConfig::default().upstream.display_string(), "tcp:127.0.0.1:27015");
}

#[test]
fn a_flag_that_was_not_given_leaves_the_file() {
    let mut file = empty_file();
    file.log_format = Some(LogFormat::Json);
    let cfg = DaemonConfig::from_sources(Platform::Unix, Some(&file), &no_args());
    assert_eq!(cfg.log_format, LogFormat::Json);
    assert_eq!(cfg.backend, Backend::Usb);
    assert_eq!(cfg.max_clients, DaemonConfig::default().max_clients);
    let mut args = no_args();
    args.log_format = Some(LogFormat::Text);
    args.backend = Some(Backend::Usb);
    file.backend = Some(Backend::Relay);
    let cfg = DaemonConfig::from_sources(Platform::Unix, Some(&file), &args);
    assert_eq!(cfg.log_format, LogFormat::Text);
    assert_eq!(cfg.backend, Backend::Usb);
    let plain = DaemonConfig::from_sources(Platform::Unix, None, &no_args());
    assert_eq!(plain.log_format, LogFormat::Text);
}

#[test]
fn octal_faults_are_told_apart() {
    assert!(parse_octal("").is_err());
    assert!(parse_octal("8").is_err());
    assert!(parse_octal("77777777777777").is_err());
    assert_eq!(parse_octal(" 0660 ").unwrap(), 0o660);
}

#[test]
fn warnings_of_a_configuration() {
    let mut cfg = DaemonConfig::default();
    assert!(cfg.world_writable());
    assert!(cfg.world_readable());
    cfg.socket_mode = 0o660;
    assert!(!cfg.world_writable());
    assert!(!cfg.world_readable());
    assert!(cfg.expects_lockdown_dir());
    cfg.require_pair_record = false;
    assert!(!cfg.expects_lockdown_dir());
}

#[test]
fn group_is_looked_up() {
    let mut cfg = DaemonConfig::default();
    let groups = "root:x:0:\nusbmux:x:140:alice\nother:x:7:\n";
    assert_eq!(cfg.resolve_group_gid(Some(groups)), None);
    cfg.socket_group = Some("usbmux".into());
    assert_eq!(cfg.resolve_group_gid(Some(groups)), Some(140));
    assert_eq!(cfg.resolve_group_gid(None), None);
    cfg.socket_group = Some("nobody".into());
    assert_eq!(cfg.resolve_group_gid(Some(groups)), None);
}

#[test]
fn large_files_are_refused() {
    let small = "a".repeat(1048576);
    assert!(meridian_relay::config::check_file_size(&small).is_ok());
    let large = "a".repeat(1048577);
    assert_eq!(
        meridian_relay::config::check_file_size(&large).unwrap_err(),
        "config file too large: 1048577 bytes (max 1048576)"
    );
}

#[test]
fn names_of_formats_and_backends() {
    assert_eq!(LogFormat::Json.to_text(), "json");
    assert_eq!(LogFormat::Text.to_text(), "text");
    assert_eq!(Backend::Usb.to_text(), "usb");
    assert_eq!(Backend::Relay.to_text(), "relay");
}
