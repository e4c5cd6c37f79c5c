//! What clients ask for and what they are answered.
use meridian_relay::bytes::{native_order, ByteOrder};
use meridian_relay::config::DaemonConfig;
use meridian_relay::daemon::connection::{
    admit_client, after_connect, after_delete_record, after_pair_check, after_read_record,
    after_save_record, buid_response, client_left, client_read, event_packet, handle_packet,
    list_devices_response, peer_is_allowed, proxy_ended, proxy_started, read_failure_text,
    take_inbound, ClientAction, ProxyStep, LOCKDOWN_PORT, MAX_PAIR_RECORD_BYTES,
};
use meridian_relay::daemon::conn_table::ConnectionManager;
use meridian_relay::daemon::device_scanner::{DeviceChange, DeviceScanner, ScanObservation};
use meridian_relay::daemon::mux::{TcpHeader, TCP_ACK, TCP_RST, TCP_SYN};
use meridian_relay::daemon::protocol::{result, PacketError, RawPacket};
use meridian_relay::metrics::Metrics;
use meridian_relay::platform::PeerIdentity;
use meridian_relay::security::{sanitize_udid_for_path, validate_udid, PeerCredentials};

const TEST_UDID: &str = "00008110-000C694914F3801E";

#[test]
fn test_peer_allowlist_uid() {
    let mut config = DaemonConfig::default();
    let ident = |uid| PeerIdentity {
        credentials: Some(PeerCredentials { uid, gid: uid, pid: None }),
        sid: None,
    };
    // Empty allowlist → allow everyone.
    assert!(peer_is_allowed(&ident(1234), &config));

    config.allowed_uids = vec![1000];
    assert!(peer_is_allowed(&ident(1000), &config));
    assert!(!peer_is_allowed(&ident(1001), &config));
    // Fail-closed: no identity + configured allowlist → deny.
    assert!(!peer_is_allowed(&PeerIdentity::anonymous(), &config));
}

#[test]
fn test_peer_allowlist_sid() {
    let mut config = DaemonConfig::default();
    config.allowed_sids = vec!["S-1-5-32-545".into()];
    let ident = |sid: &str| PeerIdentity {
        credentials: None,
        sid: Some(sid.into()),
    };
    assert!(peer_is_allowed(&ident("S-1-5-32-545"), &config));
    assert!(!peer_is_allowed(&ident("S-1-5-18"), &config));
    assert!(!peer_is_allowed(&PeerIdentity::anonymous(), &config));
}

#[test]
fn test_validate_udid() {
    assert!(validate_udid("00008110-000C694914F3801E").is_ok());
    assert!(validate_udid("00008110000C694914F3801E").is_ok());
    assert!(validate_udid("../etc/passwd").is_err());
}

#[test]
fn connection_test_sanitize_udid_for_path() {
    assert!(sanitize_udid_for_path("00008110-000C694914F3801E").is_some());
    assert!(sanitize_udid_for_path("../../../etc/passwd").is_none());
}

fn msg(message_type: &str) -> plist::Dictionary {
    let mut d = plist::Dictionary::new();
    d.insert("MessageType".into(), plist::Value::String(message_type.into()));
    d
}

fn scanner() -> DeviceScanner {
    let mut s = DeviceScanner::new();
    s.scan(&Ok(vec![ScanObservation {
        usb_bus: 1,
        usb_address: 5,
        product_id: 0x12A8,
        udid: Some(TEST_UDID.into()),
    }]));
    s
}

fn ask(p: plist::Dictionary, tag: u32) -> ClientAction {
    let mut m = Metrics::new();
    let packet = RawPacket::new(p, 1, 8, tag);
    handle_packet(&packet, native_order(), &scanner(), &DaemonConfig::default(), &mut m)
}

fn number(p: &RawPacket) -> Option<u64> {
    p.plist.get("Number").and_then(|v| v.as_unsigned_integer())
}

fn refused(a: ClientAction, tag: u32) -> (u64, bool) {
    match a {
        ClientAction::Respond { packet, required } => {
            assert_eq!(packet.tag, tag, "response tag must echo request tag");
            (number(&packet).unwrap(), required)
        }
        other => panic!("{other:?}"),
    }
}

fn connect(device: u64, port: u16) -> plist::Dictionary {
    let mut p = msg("Connect");
    p.insert("DeviceID".into(), plist::Value::Integer(device.into()));
    p.insert("PortNumber".into(), plist::Value::Integer(port.to_be().into()));
    p
}

#[test]
fn list_devices_returns_valid_shape() {
    let tag = match ask(msg("ListDevices"), 7) {
        ClientAction::ListDevices { tag } => tag,
        other => panic!("{other:?}"),
    };
    let resp = list_devices_response(tag, &scanner());
    assert_eq!(resp.tag, 7);
    let list = resp.plist.get("DeviceList").and_then(|v| v.as_array()).unwrap();
    assert_eq!(list.len(), 1);
}

#[test]
fn unknown_command_rejected_with_bad_command() {
    let got = refused(ask(msg("TotallyNotARealCommand"), 1), 1);
    assert_eq!(got, (result::BAD_COMMAND as u64, true));
}

#[test]
fn missing_message_type_rejected() {
    let got = refused(ask(plist::Dictionary::new(), 1), 1);
    assert_eq!(got, (result::BAD_COMMAND as u64, true));
    let mut odd = plist::Dictionary::new();
    odd.insert("MessageType".into(), plist::Value::Integer(1.into()));
    assert_eq!(refused(ask(odd, 2), 2), (result::BAD_COMMAND as u64, true));
}

#[test]
fn connect_to_nonexistent_device_is_bad_device() {
    let got = refused(ask(connect(99, 62078), 1), 1);
    assert_eq!(got, (result::BAD_DEVICE as u64, true));
}

#[test]
fn connect_checks_its_arguments_in_order() {
    assert_eq!(refused(ask(connect(0, 0), 1), 1).0, result::BAD_DEVICE as u64);
    assert_eq!(refused(ask(connect(1, 0), 1), 1).0, result::BAD_COMMAND as u64);
    assert_eq!(refused(ask(connect(2, 0), 1), 1).0, result::BAD_COMMAND as u64);
    assert_eq!(refused(ask(connect(1 << 32, 5), 1), 1).0, result::BAD_DEVICE as u64);
    match ask(connect(1, 80), 3) {
        ClientAction::OpenChannel { device_id, port, tag } => {
            assert_eq!((device_id, port, tag), (1, 80, 3));
        }
        other => panic!("{other:?}"),
    }
}

#[test]
fn lockdown_needs_a_pair_record() {
    let (device_id, port, tag) = match ask(connect(1, LOCKDOWN_PORT), 4) {
        ClientAction::CheckPairRecord { device_id, port, tag, udid } => {
            assert_eq!(udid, TEST_UDID);
            (device_id, port, tag)
        }
        other => panic!("{other:?}"),
    };
    assert_eq!(refused(after_pair_check(device_id, port, tag, false), 4), (8, true));
    assert!(matches!(
        after_pair_check(device_id, port, tag, true),
        ClientAction::OpenChannel { device_id: 1, port: LOCKDOWN_PORT, tag: 4 }
    ));
    let mut config = DaemonConfig::default();
    config.require_pair_record = false;
    let packet = RawPacket::new(connect(1, LOCKDOWN_PORT), 1, 8, 4);
    let a = handle_packet(&packet, native_order(), &scanner(), &config, &mut Metrics::new());
    assert!(matches!(a, ClientAction::OpenChannel { .. }));
}

#[test]
fn ports_come_in_network_order() {
    let config = DaemonConfig::default();
    for (order, sent, port) in [
        (ByteOrder::Little, 0x1234u16, 0x3412u16),
        (ByteOrder::Big, 0x1234, 0x1234),
        (ByteOrder::Little, 0x0100, 1),
        (ByteOrder::Big, 0x0100, 256),
        (native_order(), 0x1234u16.to_be(), 0x1234),
    ] {
        let mut p = connect(1, 1);
        p.insert("PortNumber".into(), plist::Value::Integer(sent.into()));
        let packet = RawPacket::new(p, 1, 8, 4);
        match handle_packet(&packet, order, &scanner(), &config, &mut Metrics::new()) {
            ClientAction::OpenChannel { device_id: 1, port: p, tag: 4 } => assert_eq!(p, port),
            other => panic!("{other:?}"),
        }
    }
}

#[test]
fn commands_are_counted() {
    let mut m = Metrics::new();
    let config = DaemonConfig::default();
    for p in [msg("ListDevices"), connect(1, 80), msg("Listen"), plist::Dictionary::new()] {
        handle_packet(&RawPacket::new(p, 1, 8, 1), native_order(), &scanner(), &config, &mut m);
    }
    assert_eq!((m.commands_total, m.list_devices_total, m.connects_total), (4, 1, 1));
    let opened = after_connect(5, true, &mut m);
    assert_eq!((opened.tag, number(&opened), m.connect_failures), (5, Some(0), 0));
    let failed = after_connect(5, false, &mut m);
    assert_eq!((number(&failed), m.connect_failures), (Some(3), 1));
    proxy_started(&mut m);
    proxy_ended(&mut m);
    assert_eq!((m.proxies_started, m.proxies_ended), (1, 1));
}

fn record(kind: &str, id: &str, data: Option<Vec<u8>>) -> plist::Dictionary {
    let mut p = msg(kind);
    p.insert("PairRecordID".into(), plist::Value::String(id.into()));
    if let Some(d) = data {
        p.insert("PairRecordData".into(), plist::Value::Data(d));
    }
    p
}

#[test]
fn pair_records_are_named_by_valid_identifiers() {
    match ask(record("ReadPairRecord", TEST_UDID, None), 2) {
        ClientAction::ReadPairRecord { tag, id } => assert_eq!((tag, id.as_str()), (2, TEST_UDID)),
        other => panic!("{other:?}"),
    }
    match ask(record("SavePairRecord", TEST_UDID, Some(vec![1, 2])), 2) {
        ClientAction::SavePairRecord { tag, id, data } => {
            assert_eq!((tag, id.as_str(), data), (2, TEST_UDID, vec![1, 2]));
        }
        other => panic!("{other:?}"),
    }
    assert!(matches!(
        ask(record("DeletePairRecord", TEST_UDID, None), 2),
        ClientAction::DeletePairRecord { .. }
    ));
    for kind in ["ReadPairRecord", "SavePairRecord", "DeletePairRecord"] {
        assert_eq!(refused(ask(msg(kind), 2), 2), (result::BAD_COMMAND as u64, false));
    }
    assert_eq!(refused(ask(record("SavePairRecord", TEST_UDID, None), 2), 2).0, 1);
    let limit = vec![0u8; MAX_PAIR_RECORD_BYTES];
    assert!(matches!(
        ask(record("SavePairRecord", TEST_UDID, Some(limit)), 2),
        ClientAction::SavePairRecord { .. }
    ));
    let over = vec![0u8; MAX_PAIR_RECORD_BYTES + 1];
    assert_eq!(refused(ask(record("SavePairRecord", TEST_UDID, Some(over)), 2), 2).0, 1);
}

#[test]
fn pair_record_path_traversal_rejected() {
    let evil = "../../../../etc/evil";
    let got = refused(ask(record("SavePairRecord", evil, Some(b"pwned".to_vec())), 1), 1);
    assert_eq!(got.0, result::BAD_COMMAND as u64);
    assert_eq!(refused(ask(record("ReadPairRecord", evil, None), 1), 1).0, 1);
    assert_eq!(refused(ask(record("DeletePairRecord", evil, None), 1), 1).0, 1);
}

#[test]
fn answers_about_pair_records() {
    let mut m = Metrics::new();
    match after_read_record(9, Some(vec![0, 1, 2]), &mut m) {
        ClientAction::Respond { packet, required } => {
            assert!(required);
            assert_eq!(packet.tag, 9);
            assert_eq!(packet.plist.get("PairRecordData").unwrap().as_data(), Some(&[0, 1, 2][..]));
        }
        other => panic!("{other:?}"),
    }
    assert_eq!(refused(after_read_record(9, None, &mut m), 9), (2, false));
    assert_eq!(refused(after_save_record(9, true, &mut m), 9), (0, true));
    assert_eq!(refused(after_save_record(9, false, &mut m), 9), (1, false));
    assert_eq!(refused(after_delete_record(9, true, &mut m), 9), (0, true));
    assert_eq!(refused(after_delete_record(9, false, &mut m), 9), (1, false));
    assert_eq!((m.pair_reads, m.pair_writes, m.pair_deletes), (1, 1, 1));
}

#[test]
fn the_other_commands() {
    assert!(matches!(ask(msg("ReadBUID"), 6), ClientAction::ReadBuid { tag: 6 }));
    assert!(matches!(ask(msg("MeridianStats"), 6), ClientAction::Stats { tag: 6 }));
    match ask(msg("Listen"), 6) {
        ClientAction::Subscribe { packet } => assert_eq!((packet.tag, number(&packet)), (6, Some(0))),
        other => panic!("{other:?}"),
    }
    let buid = buid_response(6, "abc");
    assert_eq!(buid.plist.get("BUID").unwrap().as_string(), Some("abc"));
    let dev = scanner().get_device_by_id(1).unwrap();
    let a = event_packet(&DeviceChange::Attached(dev));
    assert_eq!((a.tag, a.plist.get("MessageType").unwrap().as_string()), (0, Some("Attached")));
    let d = event_packet(&DeviceChange::Detached { device_id: 1 });
    assert_eq!(d.plist.get("DeviceID").unwrap().as_unsigned_integer(), Some(1));
}

#[test]
fn clients_are_counted_in_and_out() {
    let mut m = Metrics::new();
    let mut config = DaemonConfig::default();
    assert!(admit_client(&PeerIdentity::anonymous(), &config, &mut m));
    assert_eq!((m.clients_accepted, m.clients_active, m.clients_rejected), (1, 1, 0));
    client_left(&mut m);
    assert_eq!(m.clients_active, 0);
    config.allowed_uids = vec![1];
    assert!(!admit_client(&PeerIdentity::anonymous(), &config, &mut m));
    assert_eq!((m.clients_accepted, m.clients_active, m.clients_rejected), (2, 0, 1));
    assert_eq!(read_failure_text(&PacketError::UnexpectedEof), "client disconnected");
    assert_eq!(
        read_failure_text(&PacketError::Invalid("x".into())),
        "failed to read packet: x"
    );
}

fn segment(sport: u16, dport: u16, flags: u16) -> TcpHeader {
    TcpHeader {
        source_port: dport,
        dest_port: sport,
        seq: 10,
        ack: 0,
        offset_flags: 0x5000 | flags,
        window: 0,
    }
}

#[test]
fn inbound_bytes_are_taken_once() {
    let mut m = Metrics::new();
    let mut conns = ConnectionManager::new();
    assert!(matches!(take_inbound(&mut conns, 1, 1024, &mut m), ProxyStep::Failed(e) if e == "device not found"));
    conns.add_device(1);
    assert!(matches!(take_inbound(&mut conns, 1, 1024, &mut m), ProxyStep::Failed(e) if e == "connection not found"));
    let sport = conns.start_connect(1, 80, 0).unwrap();
    assert!(matches!(take_inbound(&mut conns, 1, sport, &mut m), ProxyStep::Failed(e) if e == "connection not connected"));
    conns.handle_tcp_packet(1, &segment(sport, 80, TCP_SYN | TCP_ACK), &[], &mut m, 100);
    assert!(matches!(take_inbound(&mut conns, 1, sport, &mut m), ProxyStep::Wait));
    conns.handle_tcp_packet(1, &segment(sport, 80, TCP_ACK), &[1, 2], &mut m, 100);
    conns.handle_tcp_packet(1, &segment(sport, 80, TCP_ACK), &[3], &mut m, 100);
    assert!(matches!(take_inbound(&mut conns, 1, sport, &mut m), ProxyStep::Send(d) if d == vec![1, 2, 3]));
    assert_eq!(m.client_tx_bytes, 3);
    assert!(matches!(take_inbound(&mut conns, 1, sport, &mut m), ProxyStep::Wait));
    conns.handle_tcp_packet(1, &segment(sport, 80, TCP_RST), &[], &mut m, 100);
    assert!(matches!(take_inbound(&mut conns, 1, sport, &mut m), ProxyStep::Finished));
    assert!(client_read(5, &mut m));
    assert!(!client_read(0, &mut m));
    assert_eq!(m.client_rx_bytes, 5);
}
