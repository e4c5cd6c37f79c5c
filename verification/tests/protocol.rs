//! Packets of the client protocol.
use meridian_relay::config::DaemonConfig;
use meridian_relay::daemon::device_scanner::UsbDevice;
use meridian_relay::daemon::protocol::{
    make_attached_event, make_detached_event, make_device_list_response, make_result_response,
    make_stats_command, make_stats_response, packet_from, parse_body, parse_header, read_packet,
    result, PacketError, PacketHeader, RawPacket,
};

fn device() -> UsbDevice {
    UsbDevice {
        device_id: 4,
        udid: "00008110-000C694914F3801E".into(),
        product_id: 0x12A8,
        usb_bus: 3,
        usb_address: 12,
    }
}

#[test]
fn test_write_read_roundtrip() {
    let cfg = DaemonConfig::default();
    let mut plist = plist::Dictionary::new();
    plist.insert("MessageType".into(), plist::Value::String("ListDevices".into()));
    plist.insert("ClientVersion".into(), plist::Value::Integer(1.into()));
    let pkt = RawPacket::new(plist, 1, 8, 42);

    let bytes = pkt.to_bytes().unwrap();

    let resp = read_packet(&bytes, cfg.max_packet_bytes).unwrap();
    assert_eq!(resp.tag, 42);
    assert_eq!(resp.version, 1);
    assert_eq!(resp.message, 8);
    assert_eq!(
        resp.plist.get("MessageType").and_then(|v| v.as_string()),
        Some("ListDevices")
    );
    assert_eq!(resp.size as usize, bytes.len());
    assert_eq!(resp.plist, pkt.plist);
}

#[test]
fn test_read_rejects_huge_packet() {
    let cfg = DaemonConfig::default();
    let size: u32 = 16 + 256 * 1024 * 1024;
    let header = [
        size.to_le_bytes().as_slice(),
        &1u32.to_le_bytes(),
        &8u32.to_le_bytes(),
        &1u32.to_le_bytes(),
    ].concat();
    let result = read_packet(&header, cfg.max_packet_bytes);
    assert!(result.is_err());
}

#[test]
fn test_make_result_response() {
    let pkt = make_result_response(5, 0);
    assert_eq!(pkt.tag, 5);
    assert_eq!(
        pkt.plist.get("MessageType").and_then(|v| v.as_string()),
        Some("Result")
    );
    assert_eq!(
        pkt.plist.get("Number").and_then(|v| v.as_unsigned_integer()),
        Some(0)
    );
}

#[test]
fn test_make_device_list_empty() {
    let pkt = make_device_list_response(1, &[]);
    let list = pkt.plist.get("DeviceList").unwrap().as_array().unwrap();
    assert!(list.is_empty());
}

#[test]
fn test_make_stats_response() {
    let pkt = make_stats_response(1, r#"{"uptime":42}"#);
    assert_eq!(
        pkt.plist.get("Stats").and_then(|v| v.as_string()),
        Some(r#"{"uptime":42}"#)
    );
}

#[test]
fn test_make_stats_command() {
    let pkt = make_stats_command(7);
    assert_eq!(pkt.tag, 7);
    assert_eq!(
        pkt.plist.get("MessageType").and_then(|v| v.as_string()),
        Some("MeridianStats")
    );
}

#[test]
fn test_result_codes_match_usbmuxd() {
    assert_eq!(result::OK, 0);
    assert_eq!(result::BAD_COMMAND, 1);
    assert_eq!(result::BAD_DEVICE, 2);
    assert_eq!(result::CONNECTION_REFUSED, 3);
}

#[test]
fn devices_and_events_as_clients_see_them() {
    let pkt = make_device_list_response(9, &[device()]);
    assert_eq!(pkt.tag, 9);
    let list = pkt.plist.get("DeviceList").unwrap().as_array().unwrap();
    assert_eq!(list.len(), 1);
    let props = list[0].as_dictionary().unwrap().get("Properties").unwrap().as_dictionary().unwrap();
    let keys: Vec<&String> = props.keys().collect();
    assert_eq!(keys, vec![
        "DeviceID",
        "ConnectionType",
        "SerialNumber",
        "ProductID",
        "LocationID",
        "Port",
    ]);
    assert_eq!(props.get("DeviceID").unwrap().as_unsigned_integer(), Some(4));
    assert_eq!(props.get("SerialNumber").unwrap().as_string(), Some("00008110-000C694914F3801E"));
    assert_eq!(props.get("ProductID").unwrap().as_unsigned_integer(), Some(0x12A8));
    assert_eq!(props.get("ConnectionType").unwrap().as_string(), Some("USB"));

    let a = make_attached_event(0, &device());
    assert_eq!(a.plist.get("MessageType").unwrap().as_string(), Some("Attached"));
    assert_eq!(a.plist.get("DeviceID").unwrap().as_unsigned_integer(), Some(4));
    assert_eq!(a.plist.get("Properties").unwrap().as_dictionary(), Some(props));
    let d = make_detached_event(0, 4);
    assert_eq!(d.plist.get("MessageType").unwrap().as_string(), Some("Detached"));
    assert_eq!(d.plist.get("DeviceID").unwrap().as_unsigned_integer(), Some(4));
}

#[test]
fn headers_are_little_endian() {
    let pkt = make_result_response(0x01020304, 0);
    let bytes = pkt.to_bytes().unwrap();
    assert_eq!(u32::from_le_bytes([bytes[0], bytes[1], bytes[2], bytes[3]]) as usize, bytes.len());
    assert_eq!(&bytes[4..8], &[1, 0, 0, 0]);
    assert_eq!(&bytes[8..12], &[8, 0, 0, 0]);
    assert_eq!(&bytes[12..16], &[4, 3, 2, 1]);
    assert_eq!(bytes[16], b'<');
    assert_eq!(pkt.framed(&[7, 7]), [18, 0, 0, 0, 1, 0, 0, 0, 8, 0, 0, 0, 4, 3, 2, 1, 7, 7]);
}

#[test]
fn awkward_texts_survive() {
    let texts = [
        "",
        " ",
        "  spaces around  ",
        "line\nbreak\r\nand\ttab",
        "<tag> & \"quotes\" 'apostrophes' ]]>",
        "Steve’s iPhone – ü 漢字 🦀",
        "&amp; &lt;already&gt; &#10;",
    ];
    for t in texts {
        let mut d = plist::Dictionary::new();
        d.insert("Text".into(), plist::Value::String(t.into()));
        d.insert(t.into(), plist::Value::Boolean(true));
        let pkt = RawPacket::new(d, 1, 8, 3);
        let back = read_packet(&pkt.to_bytes().unwrap(), 1 << 20).unwrap();
        assert_eq!(back.plist, pkt.plist, "{t:?}");
    }
}

#[test]
fn every_kind_of_value_survives() {
    let mut inner = plist::Dictionary::new();
    inner.insert("a".into(), plist::Value::Integer(u64::MAX.into()));
    inner.insert("b".into(), plist::Value::Integer(i64::MIN.into()));
    let mut d = plist::Dictionary::new();
    d.insert("Data".into(), plist::Value::Data((0..=255u8).collect()));
    d.insert("Empty".into(), plist::Value::Data(Vec::new()));
    d.insert("Yes".into(), plist::Value::Boolean(true));
    d.insert("No".into(), plist::Value::Boolean(false));
    d.insert("Dict".into(), plist::Value::Dictionary(inner));
    d.insert("None".into(), plist::Value::Dictionary(plist::Dictionary::new()));
    d.insert("List".into(), plist::Value::Array(vec![
        plist::Value::String("x".into()),
        plist::Value::Array(Vec::new()),
    ]));
    let pkt = RawPacket::new(d, 1, 8, 3);
    let back = read_packet(&pkt.to_bytes().unwrap(), 1 << 20).unwrap();
    assert_eq!(back.plist, pkt.plist);
    assert!(back.plist.iter().eq(pkt.plist.iter()), "the order of the keys stays");
}

#[test]
fn bad_packets_say_why() {
    assert_eq!(read_packet(&[1, 2, 3], 100).unwrap_err(), PacketError::UnexpectedEof);
    let header = |size: u32| {
        let mut h = size.to_le_bytes().to_vec();
        h.extend_from_slice(&[1, 0, 0, 0, 8, 0, 0, 0, 1, 0, 0, 0]);
        h
    };
    assert_eq!(
        parse_header(&header(15), 100).unwrap_err(),
        PacketError::Invalid("packet size too small: 15 bytes".into())
    );
    assert_eq!(
        parse_header(&header(117), 100).unwrap_err(),
        PacketError::Invalid("packet body too large: 101 bytes (max 100)".into())
    );
    let h = parse_header(&header(116), 100).unwrap();
    assert_eq!(h, PacketHeader { size: 116, version: 1, message: 8, tag: 1 });
    assert_eq!(read_packet(&header(116), 100).unwrap_err(), PacketError::UnexpectedEof);

    match parse_body(h, b"not a list").unwrap_err() {
        PacketError::Invalid(m) => assert!(m.starts_with("xml plist parse error: "), "{m}"),
        other => panic!("{other:?}"),
    }
    match parse_body(h, b"bplist").unwrap_err() {
        PacketError::Invalid(m) => assert!(m.starts_with("binary plist parse error: "), "{m}"),
        other => panic!("{other:?}"),
    }
    assert_eq!(
        packet_from(h, b"b", Err("why".into())).unwrap_err(),
        PacketError::Invalid("binary plist parse error: why".into())
    );
    assert_eq!(
        packet_from(h, b"", Err("why".into())).unwrap_err(),
        PacketError::Invalid("xml plist parse error: why".into())
    );
    assert_eq!(packet_from(h, b"", Ok(plist::Dictionary::new())).unwrap().tag, 1);
}

fn survives(text: &str) -> bool {
    let mut d = plist::Dictionary::new();
    d.insert("Text".into(), plist::Value::String(text.into()));
    d.insert(text.into(), plist::Value::Integer(1.into()));
    let pkt = RawPacket::new(d, 1, 8, 3);
    let back = read_packet(&pkt.to_bytes().unwrap(), 1 << 20).unwrap();
    back.plist.iter().eq(pkt.plist.iter())
}

#[test]
fn every_character_survives() {
    let chars: Vec<char> = (0..=0x10FFFFu32).filter_map(char::from_u32).collect();
    for chunk in chars.chunks(4096) {
        let whole: String = chunk.iter().collect();
        assert!(survives(&whole), "{:?}", chunk[0]);
    }
    for c in &chars[..0x2100] {
        assert!(survives(&format!("{c}")), "{c:?}");
    }
}
