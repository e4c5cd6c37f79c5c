//! Port pairs and the requests of a tunnel.
use meridian_relay::bytes::{native_order, ByteOrder};
use meridian_relay::daemon::device_scanner::UsbDevice;
use meridian_relay::daemon::protocol::{
    make_device_list_response, make_result_response, RawPacket,
};
use meridian_relay::metrics::Metrics;
use meridian_relay::tunnel::{
    check_connected, check_pairs, connect_request, connect_request_in, first_device, list_request,
    parse_pairs, tunnel_accepted, tunnel_closed, tunnel_opened,
};

#[test]
fn parse_pairs_good() {
    let p = parse_pairs(&["9100:9100".into(), "8100:8100".into()]).unwrap();
    assert_eq!(p, vec![(9100, 9100), (8100, 8100)]);
}

#[test]
fn parse_pairs_rejects_garbage() {
    assert!(parse_pairs(&["nope".into()]).is_err());
    assert!(parse_pairs(&["0:9100".into()]).is_err());
    assert!(parse_pairs(&["9100:0".into()]).is_err());
    assert!(parse_pairs(&["1:x".into()]).is_err());
}

#[test]
fn bad_pairs_say_why() {
    let why = |s: &str| parse_pairs(&[s.into()]).unwrap_err();
    assert_eq!(why("nope"), "invalid pair 'nope' — expected local:device");
    assert_eq!(why("x:1"), "invalid local port in 'x:1'");
    assert_eq!(why("1:x"), "invalid device port in '1:x'");
    assert_eq!(why("1:65536"), "invalid device port in '1:65536'");
    assert_eq!(why("1:2:3"), "invalid device port in '1:2:3'");
    assert_eq!(why("0:9100"), "ports must be non-zero in '0:9100'");
    assert_eq!(parse_pairs(&["1:2".into(), "a".into(), "b".into()]).unwrap_err(), why("a"));
    assert_eq!(parse_pairs(&["+1:65535".into()]).unwrap(), vec![(1, 65535)]);
    assert_eq!(
        check_pairs(&[]).unwrap_err(),
        "at least one local:device port pair is required"
    );
    assert!(check_pairs(&[(1, 2)]).is_ok());
}

#[test]
fn requests_of_a_tunnel() {
    let port = |p: RawPacket| p.plist.get("PortNumber").unwrap().as_unsigned_integer();
    assert_eq!(port(connect_request_in(ByteOrder::Little, 3, 0x1234)), Some(0x3412));
    assert_eq!(port(connect_request_in(ByteOrder::Big, 3, 0x1234)), Some(0x1234));
    let p = connect_request(3, 0x1234);
    assert_eq!(p.plist, connect_request_in(native_order(), 3, 0x1234).plist);
    assert_eq!(p.tag, 1);
    assert_eq!(p.plist.get("MessageType").unwrap().as_string(), Some("Connect"));
    assert_eq!(p.plist.get("DeviceID").unwrap().as_unsigned_integer(), Some(3));
    assert_eq!(p.plist.get("ClientVersion").unwrap().as_unsigned_integer(), Some(7));
    assert_eq!(p.plist.get("PortNumber").unwrap().as_unsigned_integer(), Some(0x1234u16.to_be() as u64));
    let keys: Vec<&String> = p.plist.keys().collect();
    assert_eq!(keys, vec![
        "MessageType",
        "DeviceID",
        "ClientVersion",
        "ProgName",
        "kLibUSBMuxVersion",
        "PortNumber",
    ]);
    let l = list_request();
    assert_eq!(l.plist.get("kLibUSBMuxVersion").unwrap().as_unsigned_integer(), Some(3));
    assert_eq!(l.plist.get("MessageType").unwrap().as_string(), Some("ListDevices"));
}

#[test]
fn answers_to_a_tunnel() {
    assert!(check_connected(&make_result_response(1, 0)).is_ok());
    assert_eq!(
        check_connected(&make_result_response(1, 3)).unwrap_err(),
        "device rejected Connect with code 3"
    );
    let empty = RawPacket::new(plist::Dictionary::new(), 1, 8, 1);
    assert_eq!(
        check_connected(&empty).unwrap_err(),
        "device rejected Connect with code 1"
    );
    assert_eq!(first_device(&empty).unwrap_err(), "no DeviceList in upstream reply");

    let mut entry = plist::Dictionary::new();
    entry.insert("DeviceID".into(), plist::Value::Integer(9u64.into()));
    let mut d = plist::Dictionary::new();
    d.insert("DeviceList".into(), plist::Value::Array(vec![plist::Value::Dictionary(entry)]));
    assert_eq!(first_device(&RawPacket::new(d, 1, 8, 1)), Ok(9));
    let mut d = plist::Dictionary::new();
    d.insert("DeviceList".into(), plist::Value::Array(Vec::new()));
    assert_eq!(
        first_device(&RawPacket::new(d, 1, 8, 1)).unwrap_err(),
        "no devices connected"
    );
}

#[test]
fn the_first_device_of_the_daemon_is_found() {
    let device = |device_id: u32, udid: &str| UsbDevice {
        device_id,
        udid: udid.into(),
        product_id: 0x12A8,
        usb_bus: 1,
        usb_address: 5,
    };
    let answer = make_device_list_response(1, &[device(5, "AAAA"), device(6, "BBBB")]);
    assert_eq!(first_device(&answer), Ok(5));
    let none = make_device_list_response(1, &[]);
    assert_eq!(first_device(&none).unwrap_err(), "no devices connected");
}

#[test]
fn a_tunnel_counts() {
    let mut m = Metrics::new();
    tunnel_accepted(&mut m);
    tunnel_opened(&mut m);
    tunnel_closed(10, 20, &mut m);
    assert_eq!((m.clients_accepted, m.connects_total), (1, 1));
    assert_eq!((m.client_rx_bytes, m.client_tx_bytes), (10, 20));
}
