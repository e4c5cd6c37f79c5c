//! Devices in use: negotiation, data, connection requests.
use meridian_relay::config::Millis;
use meridian_relay::daemon::conn_table::{ConnectionEvent, ConnectionManager, DeviceState};
use meridian_relay::daemon::device_manager::{
    begin_connect, build_out_frame, connect_expired, connect_status, find_candidate, frame_sent,
    negotiation_complete, notice_level, out_frame_sent, process_device_packet, process_usb_data,
    syn_failure, ConnectRequest, DeviceManager, MuxOutMsg, NoticeLevel, PacketAction, SendFault,
    UsbCandidate,
};
use meridian_relay::daemon::mux::{
    build_control_packet, build_mux_frame, build_setup_packet, build_tcp_packet,
    build_version_request, PacketReassembler, HEADER_SETUP, HEADER_VERSION, TCP_ACK, TCP_SYN,
};
use meridian_relay::metrics::Metrics;

const UDID: &str = "00008110-000C694914F3801E";

fn version_answer(major: u32) -> Vec<u8> {
    let mut body = major.to_be_bytes().to_vec();
    body.extend_from_slice(&[0; 8]);
    build_mux_frame(HEADER_VERSION, None, &body)
}

fn negotiated(major: u32) -> (ConnectionManager, Metrics) {
    let mut m = Metrics::new();
    let mut conns = ConnectionManager::new();
    conns.add_device(1);
    match process_device_packet(&mut conns, 1, &version_answer(major), &mut m, 1000) {
        PacketAction::Version { major: got, minor, setup } => {
            assert_eq!((got, minor), (major, 0));
            if major >= 2 {
                assert_eq!(setup, Some(build_setup_packet(0, 0xFFFF)));
            } else {
                assert_eq!(setup, None);
            }
        }
        other => panic!("{other:?}"),
    }
    (conns, m)
}

#[test]
fn devices_are_found_by_vendor_and_serial() {
    let c = |vendor_id, serial: Option<&str>| UsbCandidate {
        vendor_id,
        serial: serial.map(String::from),
    };
    let list = [
        c(0x1234, Some(UDID)),
        c(0x05AC, None),
        c(0x05AC, Some("other")),
        c(0x05AC, Some(" 00008110-000C694914F3801E\0")),
        c(0x05AC, Some(UDID)),
    ];
    assert_eq!(find_candidate(&list, UDID), Some(3));
    assert_eq!(find_candidate(&list, "nobody"), None);
}

#[test]
fn devices_are_taken_up_and_given_up() {
    let mut mgr = DeviceManager::new();
    assert!(!mgr.is_managed(4));
    assert_eq!(mgr.request(4, 80, 0).unwrap_err(), "device not found");
    assert_eq!(mgr.add_device(4), Some(build_version_request()));
    assert_eq!(mgr.add_device(4), None);
    assert_eq!(mgr.request(4, 80, 9), Ok(ConnectRequest { device_id: 4, dport: 80, tag: 9 }));
    mgr.increment_refcount(4);
    mgr.increment_refcount(4);
    assert_eq!(mgr.devices[&4].refcount, 2);
    mgr.decrement_refcount(4);
    assert_eq!(mgr.devices[&4].refcount, 1);
    mgr.increment_refcount(5);
    mgr.decrement_refcount(5);
    mgr.remove_device(4);
    assert!(!mgr.is_managed(4));
    assert!(DeviceManager::default().devices.is_empty());
}

#[test]
fn negotiation_sets_the_numbers() {
    let (conns, _) = negotiated(2);
    let d = &conns.devices[&1];
    assert_eq!((d.version, d.state, d.tx_seq, d.rx_seq), (2, DeviceState::Active, 1, 0xFFFF));
    let (conns, _) = negotiated(1);
    let d = &conns.devices[&1];
    assert_eq!((d.version, d.state, d.tx_seq), (1, DeviceState::Active, 1));
    assert!(negotiation_complete(1, false));
    assert!(!negotiation_complete(2, false));
    assert!(negotiation_complete(2, true));
}

#[test]
fn a_connection_from_request_to_answer() {
    let (mut conns, mut m) = negotiated(2);
    let req = ConnectRequest { device_id: 1, dport: 62078, tag: 5 };
    let (sport, syn) = begin_connect(&mut conns, &req).unwrap();
    assert_eq!(sport, 1024);
    assert_eq!(syn, build_tcp_packet(Some((1, 0xFFFF)), 1024, 62078, 0, 0, TCP_SYN, 512, None));
    frame_sent(&mut conns, 1);
    assert_eq!(conns.devices[&1].tx_seq, 2);
    assert_eq!(connect_status(&conns, 1, sport), None);

    let answer = build_tcp_packet(Some((0, 1)), 62078, 1024, 900, 1, TCP_SYN | TCP_ACK, 512, None);
    match process_device_packet(&mut conns, 1, &answer, &mut m, 1000) {
        PacketAction::Segment { events, frames } => {
            assert!(matches!(events.as_slice(), [ConnectionEvent::Connected { tag: 5, .. }]));
            // The acknowledgement has a number of its own, and says what was received.
            assert_eq!(
                frames,
                vec![build_tcp_packet(Some((2, 1)), 1024, 62078, 0, 901, TCP_ACK, 65535, None)]
            );
        }
        other => panic!("{other:?}"),
    }
    assert_eq!(connect_status(&conns, 1, sport), Some(Ok(1024)));
    assert_eq!(conns.devices[&1].tx_seq, 3);
}

#[test]
fn requests_that_fail() {
    let mut conns = ConnectionManager::new();
    let req = ConnectRequest { device_id: 1, dport: 1, tag: 0 };
    let m = begin_connect(&mut conns, &req).unwrap_err();
    assert!(m.starts_with("connect failed: ") && m.ends_with("device not found"), "{m}");
    assert_eq!(connect_status(&conns, 1, 1024), None);
    assert_eq!(syn_failure("gone"), "SYN send failed: gone");
    let t = Millis::from_millis(5000);
    assert_eq!(connect_expired(Millis::from_millis(5000), t), None);
    assert_eq!(connect_expired(Millis::from_millis(5001), t), Some("connect timeout".into()));
}

#[test]
fn reset_and_refused_requests() {
    let (mut conns, mut m) = negotiated(1);
    let req = ConnectRequest { device_id: 1, dport: 80, tag: 0 };
    let (sport, _) = begin_connect(&mut conns, &req).unwrap();
    let rst = build_tcp_packet(None, 80, sport, 0, 0, 4, 0, None);
    process_device_packet(&mut conns, 1, &rst, &mut m, 1000);
    assert_eq!(connect_status(&conns, 1, sport), Some(Err("connection dead".into())));
    let c = conns.devices.get_mut(&1).unwrap().connections.get_mut(&sport).unwrap();
    c.state = meridian_relay::daemon::conn_table::ConnState::Refused;
    assert_eq!(connect_status(&conns, 1, sport), Some(Err("connection refused".into())));
}

fn open_channel() -> (ConnectionManager, Metrics, u16) {
    let (mut conns, mut m) = negotiated(2);
    let req = ConnectRequest { device_id: 1, dport: 80, tag: 0 };
    let (sport, _) = begin_connect(&mut conns, &req).unwrap();
    frame_sent(&mut conns, 1);
    let answer = build_tcp_packet(Some((0, 1)), 80, sport, 900, 1, TCP_SYN | TCP_ACK, 512, None);
    process_device_packet(&mut conns, 1, &answer, &mut m, 1000);
    (conns, m, sport)
}

#[test]
fn client_data_is_numbered_in_order() {
    let (mut conns, _, sport) = open_channel();
    let first = MuxOutMsg::Data { sport, payload: vec![1, 2, 3] };
    let frame = build_out_frame(&conns, 1, &first, 1000).unwrap();
    assert_eq!(
        frame,
        build_tcp_packet(Some((3, 1)), sport, 80, 0, 901, TCP_ACK, 512, Some(&[1, 2, 3]))
    );
    out_frame_sent(&mut conns, 1, &first);
    let second = MuxOutMsg::Data { sport, payload: vec![4] };
    let frame = build_out_frame(&conns, 1, &second, 1000).unwrap();
    assert_eq!(
        frame,
        build_tcp_packet(Some((4, 1)), sport, 80, 3, 901, TCP_ACK, 512, Some(&[4]))
    );
    out_frame_sent(&mut conns, 1, &second);
    let c = &conns.devices[&1].connections[&sport];
    assert_eq!(c.tx_seq, 4);
    assert_eq!(c.ob_buf, vec![1, 2, 3, 4]);
}

#[test]
fn windows_are_opened_again() {
    let (mut conns, _, sport) = open_channel();
    let msg = MuxOutMsg::WindowUpdate { sport };
    let frame = build_out_frame(&conns, 1, &msg, 1000).unwrap();
    assert_eq!(frame, build_tcp_packet(Some((3, 1)), sport, 80, 0, 901, TCP_ACK, 3, None));
    out_frame_sent(&mut conns, 1, &msg);
    assert_eq!(conns.devices[&1].tx_seq, 4);
    assert_eq!(conns.devices[&1].connections[&sport].tx_seq, 0);
}

#[test]
fn data_needs_an_open_connection() {
    let (mut conns, _) = negotiated(2);
    let msg = MuxOutMsg::Data { sport: 1024, payload: vec![1] };
    assert_eq!(build_out_frame(&conns, 2, &msg, 10).unwrap_err(), SendFault::DeviceNotFound);
    assert_eq!(build_out_frame(&conns, 1, &msg, 10).unwrap_err(), SendFault::ConnectionNotFound);
    let req = ConnectRequest { device_id: 1, dport: 80, tag: 0 };
    begin_connect(&mut conns, &req).unwrap();
    assert_eq!(build_out_frame(&conns, 1, &msg, 10).unwrap_err(), SendFault::NotConnected);
    out_frame_sent(&mut conns, 2, &msg);
}

#[test]
fn devices_speak_up() {
    let (mut conns, mut m) = negotiated(2);
    let frame = build_control_packet(Some((0, 7)), &[5, b'h', b'i']);
    match process_device_packet(&mut conns, 1, &frame, &mut m, 10) {
        PacketAction::Notice { kind, text } => {
            assert_eq!((kind, text.as_slice()), (5, &b"hi"[..]));
            assert_eq!(notice_level(kind), NoticeLevel::Warning);
        }
        other => panic!("{other:?}"),
    }
    assert_eq!(conns.devices[&1].rx_seq, 7);
    assert_eq!(notice_level(3), NoticeLevel::Error);
    assert_eq!(notice_level(7), NoticeLevel::Info);
    assert_eq!(notice_level(0), NoticeLevel::Other);
    let empty = build_control_packet(None, &[]);
    assert!(matches!(
        process_device_packet(&mut conns, 1, &empty, &mut m, 10),
        PacketAction::Nothing
    ));
    let setup = build_mux_frame(HEADER_SETUP, None, &[7]);
    assert!(matches!(
        process_device_packet(&mut conns, 1, &setup, &mut m, 10),
        PacketAction::Setup
    ));
    assert!(matches!(
        process_device_packet(&mut conns, 1, &[1, 2], &mut m, 10),
        PacketAction::Rejected(_)
    ));
}

#[test]
fn raw_bytes_are_processed_frame_by_frame() {
    let mut m = Metrics::new();
    let mut conns = ConnectionManager::new();
    conns.add_device(1);
    let mut r = PacketReassembler::new(1024);
    let mut raw = version_answer(2);
    raw.extend_from_slice(&build_control_packet(Some((0, 3)), &[7]));
    let (a, b) = raw.split_at(25);
    let first = process_usb_data(&mut conns, &mut r, 1, a, &mut m, 10);
    assert!(matches!(first.as_slice(), [PacketAction::Version { major: 2, .. }]));
    let second = process_usb_data(&mut conns, &mut r, 1, b, &mut m, 10);
    assert!(matches!(second.as_slice(), [PacketAction::Notice { kind: 7, .. }]));
    assert_eq!(conns.devices[&1].rx_seq, 3);
    assert!(r.is_empty());
}
