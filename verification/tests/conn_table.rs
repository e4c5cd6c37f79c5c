//! Connections and what segments do to them.
use meridian_relay::daemon::conn_table::{
    ConnState, Connection, ConnectionEvent, ConnectionManager, DeviceState, OPEN_WINDOW,
};
use meridian_relay::daemon::mux::{
    build_tcp_packet, MuxError, TcpHeader, TCP_ACK, TCP_FIN, TCP_RST, TCP_SYN,
};
use meridian_relay::metrics::Metrics;

fn from_device(sport: u16, dport: u16, seq: u32, flags: u16) -> TcpHeader {
    TcpHeader {
        source_port: dport,
        dest_port: sport,
        seq,
        ack: 0,
        offset_flags: 0x5000 | flags,
        window: 512,
    }
}

fn spare(source_port: u16) -> Connection {
    Connection {
        source_port,
        dest_port: 80,
        state: ConnState::Connected,
        tx_seq: 0,
        tx_ack: 0,
        ib_buf: Vec::new(),
        ob_buf: Default::default(),
        tag: 0,
    }
}

fn connected() -> (ConnectionManager, Metrics, u16) {
    let mut m = Metrics::new();
    let mut conns = ConnectionManager::new();
    conns.add_device(7);
    let sport = conns.start_connect(7, 80, 33).unwrap();
    let (events, frames) =
        conns.handle_tcp_packet(7, &from_device(sport, 80, 100, TCP_SYN | TCP_ACK), &[], &mut m, 1000);
    assert!(matches!(
        events.as_slice(),
        [ConnectionEvent::Connected { device_id: 7, sport: 1024, tag: 33 }]
    ));
    assert_eq!(
        frames,
        vec![build_tcp_packet(None, sport, 80, 0, 101, TCP_ACK, OPEN_WINDOW, None)]
    );
    (conns, m, sport)
}

#[test]
fn a_connection_is_opened_by_its_answer() {
    let (conns, _, sport) = connected();
    let device = &conns.devices[&7];
    assert_eq!(device.state, DeviceState::Idle);
    assert_eq!(device.tx_seq, 2);
    let c = &device.connections[&sport];
    assert_eq!(c.state, ConnState::Connected);
    assert!(c.state.is_active());
    assert_eq!((c.tx_seq, c.tx_ack, c.tag), (0, 101, 33));
}

#[test]
fn ports_are_given_out_from_the_lowest() {
    let mut conns = ConnectionManager::default();
    match conns.start_connect(1, 80, 0).unwrap_err() {
        MuxError::InvalidState(m) => assert_eq!(m, "device not found"),
        other => panic!("{other:?}"),
    }
    conns.add_device(1);
    assert_eq!(conns.start_connect(1, 80, 0).unwrap(), 1024);
    assert_eq!(conns.start_connect(1, 80, 0).unwrap(), 1025);
    assert!(conns.has_connection(1, 1024));
    conns.remove_connection(1, 1024);
    assert!(!conns.has_connection(1, 1024));
    assert_eq!(conns.start_connect(1, 80, 0).unwrap(), 1024);
    for port in 1026..65535 {
        conns.devices.get_mut(&1).unwrap().connections.insert(port, spare(port));
    }
    match conns.start_connect(1, 80, 0).unwrap_err() {
        MuxError::InvalidState(m) => assert_eq!(m, "no available ports"),
        other => panic!("{other:?}"),
    }
    conns.remove_device(1);
    assert!(!conns.has_connection(1, 1024));
}

#[test]
fn data_is_buffered_and_acknowledged() {
    let (mut conns, mut m, sport) = connected();
    let (events, frames) =
        conns.handle_tcp_packet(7, &from_device(sport, 80, 101, TCP_ACK), &[1, 2, 3], &mut m, 1000);
    assert!(matches!(events.as_slice(), [ConnectionEvent::DataReady { device_id: 7, sport: 1024 }]));
    // 997 bytes are free: three units of 256.
    assert_eq!(frames, vec![build_tcp_packet(None, sport, 80, 0, 104, TCP_ACK, 3, None)]);
    let (state, data) = conns.take_buffer(7, sport).unwrap();
    assert_eq!((state, data), (ConnState::Connected, vec![1, 2, 3]));
    assert_eq!(conns.take_buffer(7, sport).unwrap().1, Vec::<u8>::new());
}

#[test]
fn data_that_does_not_fit_is_refused() {
    let (mut conns, mut m, sport) = connected();
    let (events, frames) =
        conns.handle_tcp_packet(7, &from_device(sport, 80, 101, TCP_ACK), &[0; 11], &mut m, 10);
    assert!(events.is_empty() && frames.is_empty());
    assert_eq!(m.overflow_rejections, 1);
    let (_, frames) =
        conns.handle_tcp_packet(7, &from_device(sport, 80, 101, TCP_ACK), &[0; 10], &mut m, 10);
    assert_eq!(frames.len(), 1);
    assert_eq!(m.overflow_rejections, 1);
}

#[test]
fn resets_and_ends() {
    let (mut conns, mut m, sport) = connected();
    let (events, frames) =
        conns.handle_tcp_packet(7, &from_device(sport, 80, 101, TCP_FIN | TCP_ACK), &[], &mut m, 10);
    assert!(matches!(events.as_slice(), [ConnectionEvent::Disconnected { .. }]));
    assert!(frames.is_empty());
    assert_eq!(conns.devices[&7].connections[&sport].state, ConnState::CloseWait);
    conns.handle_tcp_packet(7, &from_device(sport, 80, 101, TCP_RST), &[], &mut m, 10);
    assert_eq!(conns.devices[&7].connections[&sport].state, ConnState::Dead);
    assert!(!ConnState::Dead.is_active());
    assert!(conns.take_buffer(7, sport).unwrap().1.is_empty());
    assert_eq!(conns.take_buffer(7, 1).unwrap_err(), "connection not found");
    assert_eq!(conns.take_buffer(8, 1).unwrap_err(), "device not found");
}

#[test]
fn segments_without_a_connection() {
    let (mut conns, mut m, _) = connected();
    let (events, frames) =
        conns.handle_tcp_packet(7, &from_device(2000, 443, 0, TCP_ACK), &[1], &mut m, 10);
    assert!(frames.is_empty());
    match events.as_slice() {
        [ConnectionEvent::Error { device_id, sport, error }] => {
            assert_eq!((*device_id, *sport, error.as_str()), (7, 443, "unknown connection"));
        }
        other => panic!("{other:?}"),
    }
    let (events, _) = conns.handle_tcp_packet(9, &from_device(1024, 80, 0, TCP_ACK), &[1], &mut m, 10);
    assert!(events.is_empty());
}

#[test]
fn echoed_ports_are_matched_loosely() {
    let (mut conns, mut m, sport) = connected();
    // The device has the ports the other way round.
    let mut h = from_device(sport, 80, 101, TCP_ACK);
    h.source_port = sport;
    h.dest_port = 80;
    let (events, _) = conns.handle_tcp_packet(7, &h, &[5], &mut m, 10);
    assert!(matches!(events.as_slice(), [ConnectionEvent::DataReady { .. }]));
}
