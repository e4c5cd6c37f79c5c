//! Sessions of clients, from event to step.
use meridian_relay::config::DaemonConfig;
use meridian_relay::daemon::device_manager::DeviceManager;
use meridian_relay::daemon::device_scanner::{DeviceChange, DeviceScanner, ScanObservation};
use meridian_relay::daemon::protocol::{PacketError, RawPacket};
use meridian_relay::daemon::session::{ClientSession, Event, Phase, Step};
use meridian_relay::metrics::Metrics;

const UDID: &str = "00008110-000C694914F3801E";

/// A daemon with one device, and a client of it.
struct Bench {
    session: ClientSession,
    scanner: DeviceScanner,
    config: DaemonConfig,
    manager: DeviceManager,
    metrics: Metrics,
}

impl Bench {
    fn new() -> Self {
        let (session, step) = ClientSession::begin();
        assert!(matches!(step, Step::Read));
        let mut scanner = DeviceScanner::new();
        scanner.scan(&Ok(vec![ScanObservation {
            usb_bus: 1,
            usb_address: 2,
            product_id: 0x12a8,
            udid: Some(UDID.into()),
        }]));
        let mut manager = DeviceManager::new();
        manager.add_device(1);
        Bench {
            session,
            scanner,
            config: DaemonConfig::default(),
            manager,
            metrics: Metrics::new(),
        }
    }

    fn on(&mut self, event: Event) -> Step {
        self.session.advance(
            event,
            &self.scanner,
            &self.config,
            &mut self.manager,
            &mut self.metrics,
        )
    }

    fn ask(&mut self, tag: u32, entries: Vec<(&str, plist::Value)>) -> Step {
        let mut d = plist::Dictionary::new();
        for (k, v) in entries {
            d.insert(k.into(), v);
        }
        self.on(Event::Packet(Ok(RawPacket::new(d, 1, 8, tag))))
    }

    fn sent(&mut self) -> Step {
        self.on(Event::Sent(Ok(())))
    }
}

fn text(s: &str) -> plist::Value {
    plist::Value::String(s.into())
}

fn number(n: u64) -> plist::Value {
    plist::Value::Integer(n.into())
}

fn connect(port: u16) -> Vec<(&'static str, plist::Value)> {
    vec![
        ("MessageType", text("Connect")),
        ("DeviceID", number(1)),
        ("PortNumber", number(port.to_be() as u64)),
    ]
}

/// The tag and the number of a `Result` answer.
fn result_of(step: &Step) -> (u32, u64) {
    match step {
        Step::Send(p) => {
            (p.tag, p.plist.get("Number").unwrap().as_unsigned_integer().unwrap())
        }
        other => panic!("{other:?}"),
    }
}

#[test]
fn a_list_is_answered_and_the_next_packet_read() {
    let mut b = Bench::new();
    match b.ask(7, vec![("MessageType", text("ListDevices"))]) {
        Step::Send(p) => {
            assert_eq!(p.tag, 7);
            assert_eq!(p.plist.get("DeviceList").unwrap().as_array().unwrap().len(), 1);
        }
        other => panic!("{other:?}"),
    }
    assert!(matches!(b.sent(), Step::Read));
    assert_eq!((b.metrics.commands_total, b.metrics.list_devices_total), (1, 1));
    match b.on(Event::Packet(Err(PacketError::UnexpectedEof))) {
        Step::End(Err(m)) => assert_eq!(m, "client disconnected"),
        other => panic!("{other:?}"),
    }
    assert_eq!(b.session.phase, Phase::Over);
}

#[test]
fn a_connection_from_request_to_end() {
    let mut b = Bench::new();
    assert!(matches!(b.ask(3, connect(80)), Step::Open { device_id: 1, port: 80, tag: 3 }));
    b.manager.conn_mgr.start_connect(1, 80, 3).unwrap();
    assert_eq!(result_of(&b.on(Event::Opened(Ok(1024)))), (3, 0));
    assert!(matches!(b.sent(), Step::Pass { device_id: 1, sport: 1024 }));
    assert_eq!(b.manager.devices[&1].refcount, 1);
    assert_eq!(b.metrics.proxies_started, 1);
    assert!(matches!(b.on(Event::Passed), Step::End(Ok(()))));
    assert_eq!(b.manager.devices[&1].refcount, 0);
    assert_eq!(b.metrics.proxies_ended, 1);
    assert!(!b.manager.conn_mgr.has_connection(1, 1024));
}

#[test]
fn connections_that_fail() {
    let mut b = Bench::new();
    b.ask(3, connect(80));
    assert_eq!(result_of(&b.on(Event::Opened(Err("gone".into())))), (3, 3));
    assert_eq!(b.metrics.connect_failures, 1);
    assert!(matches!(b.sent(), Step::Read));

    b.ask(4, connect(80));
    b.on(Event::Opened(Ok(1024)));
    b.manager.remove_device(1);
    match b.sent() {
        Step::End(Err(m)) => assert_eq!(m, "device not found for proxy"),
        other => panic!("{other:?}"),
    }
}

#[test]
fn lockdown_waits_for_the_record() {
    let mut b = Bench::new();
    match b.ask(5, connect(62078)) {
        Step::CheckRecord { udid } => assert_eq!(udid, UDID),
        other => panic!("{other:?}"),
    }
    assert_eq!(result_of(&b.on(Event::Checked(false))), (5, 8));
    assert!(matches!(b.sent(), Step::Read));
    b.ask(6, connect(62078));
    assert!(matches!(b.on(Event::Checked(true)), Step::Open { port: 62078, tag: 6, .. }));
}

#[test]
fn subscriptions_are_counted_while_they_last() {
    let mut b = Bench::new();
    assert_eq!(result_of(&b.ask(9, vec![("MessageType", text("Listen"))])), (9, 0));
    assert_eq!(b.metrics.listens_active, 0);
    assert!(matches!(b.sent(), Step::Follow));
    assert_eq!(b.metrics.listens_active, 1);
    match b.on(Event::Changed(DeviceChange::Detached { device_id: 1 })) {
        Step::Send(p) => {
            assert_eq!(p.tag, 0);
            assert_eq!(p.plist.get("MessageType").unwrap().as_string(), Some("Detached"));
        }
        other => panic!("{other:?}"),
    }
    assert!(matches!(b.sent(), Step::Follow));
    assert!(matches!(b.on(Event::Missed), Step::Follow));
    b.on(Event::Changed(DeviceChange::Detached { device_id: 1 }));
    assert!(matches!(b.on(Event::Sent(Err("gone".into()))), Step::End(Ok(()))));
    assert_eq!(b.metrics.listens_active, 0);

    let mut b = Bench::new();
    b.ask(9, vec![("MessageType", text("Listen"))]);
    b.sent();
    assert!(matches!(b.on(Event::NoMoreChanges), Step::End(Ok(()))));
    assert_eq!(b.metrics.listens_active, 0);
}

#[test]
fn records_are_read_stored_and_removed() {
    let mut b = Bench::new();
    let named = |kind: &str| vec![("MessageType", text(kind)), ("PairRecordID", text(UDID))];
    assert!(matches!(b.ask(1, named("ReadPairRecord")), Step::ReadRecord { id } if id == UDID));
    match b.on(Event::RecordRead(Some(vec![1, 2]))) {
        Step::Send(p) => {
            assert_eq!(p.tag, 1);
            assert_eq!(p.plist.get("PairRecordData").unwrap().as_data(), Some(&[1, 2][..]));
        }
        other => panic!("{other:?}"),
    }
    b.sent();
    b.ask(2, named("ReadPairRecord"));
    assert_eq!(result_of(&b.on(Event::RecordRead(None))), (2, 2));
    // This answer need not reach the client.
    assert!(matches!(b.on(Event::Sent(Err("gone".into()))), Step::Read));

    let mut save = named("SavePairRecord");
    save.push(("PairRecordData", plist::Value::Data(vec![3])));
    match b.ask(3, save.clone()) {
        Step::SaveRecord { id, data } => assert_eq!((id.as_str(), data), (UDID, vec![3])),
        other => panic!("{other:?}"),
    }
    assert_eq!(result_of(&b.on(Event::RecordSaved(true))), (3, 0));
    b.sent();
    b.ask(4, save);
    assert_eq!(result_of(&b.on(Event::RecordSaved(false))), (4, 1));
    b.sent();
    assert!(matches!(b.ask(5, named("DeletePairRecord")), Step::DeleteRecord { .. }));
    assert_eq!(result_of(&b.on(Event::RecordDeleted(true))), (5, 0));
    b.sent();
    b.ask(6, named("DeletePairRecord"));
    assert_eq!(result_of(&b.on(Event::RecordDeleted(false))), (6, 1));
    let m = &b.metrics;
    assert_eq!((m.pair_reads, m.pair_writes, m.pair_deletes), (1, 1, 1));
}

#[test]
fn identifiers_and_counters() {
    let mut b = Bench::new();
    assert!(matches!(b.ask(1, vec![("MessageType", text("ReadBUID"))]), Step::FindBuid));
    match b.on(Event::Buid("abc".into())) {
        Step::Send(p) => assert_eq!(p.plist.get("BUID").unwrap().as_string(), Some("abc")),
        other => panic!("{other:?}"),
    }
    b.sent();
    assert!(matches!(b.ask(2, vec![("MessageType", text("MeridianStats"))]), Step::WriteStats));
    match b.on(Event::Stats("{}".into())) {
        Step::Send(p) => assert_eq!(p.plist.get("Stats").unwrap().as_string(), Some("{}")),
        other => panic!("{other:?}"),
    }
}

#[test]
fn lost_answers_and_stray_events() {
    let mut b = Bench::new();
    assert_eq!(result_of(&b.ask(1, vec![("MessageType", text("What"))])), (1, 1));
    match b.on(Event::Sent(Err("gone".into()))) {
        Step::End(Err(m)) => assert_eq!(m, "write failed: gone"),
        other => panic!("{other:?}"),
    }
    match b.on(Event::Passed) {
        Step::End(Err(m)) => assert_eq!(m, "internal: unexpected event"),
        other => panic!("{other:?}"),
    }
}
