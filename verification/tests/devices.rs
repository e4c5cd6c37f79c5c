//! Devices as a client of the daemon sees them.
use meridian_relay::cli::{
    daemon_log_style, listed_udid, log_style, make_daemon_args, resolve_endpoint, select_device,
    stats_reply, tabled_udid, CommonOptions, LogStyle, StatsReply,
};
use meridian_relay::config::{DaemonConfig, LogFormat};
use meridian_relay::daemon::connection::{event_packet, list_devices_response};
use meridian_relay::daemon::device_manager::DeviceManager;
use meridian_relay::daemon::device_scanner::{
    DeviceChange, DeviceScanner, ScanObservation, UsbDevice,
};
use meridian_relay::daemon::lifecycle::{
    client_refused, devices_counted, follow_change, prepare, socket_guard, stale_socket, ChangeStep,
};
use meridian_relay::daemon::protocol::{read_packet, RawPacket};
use meridian_relay::daemon::relay::{splice_ended, upstream_tried};
use meridian_relay::daemon::transport::Endpoint;
use meridian_relay::device::detect::{
    chosen_endpoint, display_udid, list_request, listen_request, parse_device_list, parse_event,
    ListenEvent,
};
use meridian_relay::device::error::DeviceError;
use meridian_relay::device::info::{
    fill_from_ideviceinfo, friendly_model, model_name, needs_report, parse_ideviceinfo_output,
    value_under,
};
use meridian_relay::device::monitor::{is_watched, KnownDevices};
use meridian_relay::device::{format_device_udid, text_or, ConnectionType, Device, DeviceEvent};
use meridian_relay::error::RelayError;
use meridian_relay::metrics::Metrics;
use meridian_relay::platform::{self, PeerIdentity};

const SERIAL: &str = "00008110000C694914F3801E";
const UDID: &str = "00008110-000C694914F3801E";

fn usb_device(device_id: u32) -> UsbDevice {
    UsbDevice {
        device_id,
        udid: UDID.into(),
        product_id: 0x12a8,
        usb_bus: 1,
        usb_address: 5,
    }
}

fn device(udid: &str) -> Device {
    Device {
        udid: udid.into(),
        device_id: 1,
        name: None,
        model: None,
        ios_version: None,
        build_version: None,
        connection_type: ConnectionType::Network,
    }
}

fn text(s: &str) -> plist::Value {
    plist::Value::String(s.into())
}

fn number(n: u64) -> plist::Value {
    plist::Value::Integer(n.into())
}

fn packet(entries: Vec<(&str, plist::Value)>) -> RawPacket {
    let mut d = plist::Dictionary::new();
    for (k, v) in entries {
        d.insert(k.into(), v);
    }
    RawPacket::new(d, 1, 8, 1)
}

#[test]
fn requests_are_named() {
    let p = list_request();
    assert_eq!(p.plist.get("MessageType").unwrap().as_string(), Some("ListDevices"));
    assert_eq!(p.plist.get("ProgName").unwrap().as_string(), Some("meridian-relay"));
    assert_eq!((p.version, p.message, p.tag), (1, 8, 1));
    let p = listen_request();
    assert_eq!(p.plist.get("MessageType").unwrap().as_string(), Some("Listen"));
    assert_eq!(chosen_endpoint(Some("tcp:1".into()), "x"), "tcp:1");
    assert_eq!(chosen_endpoint(None, "x"), "x");
}

#[test]
fn listed_devices_reach_the_client() {
    let mut scanner = DeviceScanner::new();
    let look = |address| ScanObservation {
        usb_bus: 1,
        usb_address: address,
        product_id: 0x12a8,
        udid: Some(UDID.into()),
    };
    scanner.scan(&Ok(vec![look(1), look(2)]));
    let sent = list_devices_response(9, &scanner);
    let seen = parse_device_list(&read_packet(&sent.to_bytes().unwrap(), 1 << 20).unwrap()).unwrap();
    assert_eq!(seen.len(), 2);
    let ids = (seen[0].device_id, seen[1].device_id);
    assert!(ids == (1, 2) || ids == (2, 1), "{ids:?}");
    assert_eq!(seen[0].udid, UDID);
    assert_eq!(seen[0].connection_type, ConnectionType::Usb);
    assert_eq!(seen[0].name, None);
}

#[test]
fn lists_that_are_none() {
    let e = parse_device_list(&packet(vec![("Result", number(2))])).unwrap_err();
    assert_eq!(e, "list devices failed with status 2");
    let e = parse_device_list(&packet(vec![("DeviceList", number(2))])).unwrap_err();
    assert_eq!(e, "DeviceList missing or not an array");
    let mut props = plist::Dictionary::new();
    props.insert("ProductType".into(), text("iPhone17,1"));
    let mut entry = plist::Dictionary::new();
    entry.insert("Properties".into(), plist::Value::Dictionary(props));
    let list = plist::Value::Array(vec![number(1), plist::Value::Dictionary(entry)]);
    let seen =
        parse_device_list(&packet(vec![("Result", number(0)), ("DeviceList", list)])).unwrap();
    assert_eq!(seen.len(), 1);
    assert_eq!((seen[0].udid.as_str(), seen[0].device_id), ("", 0));
    assert_eq!(seen[0].model.as_deref(), Some("iPhone17,1"));
    assert_eq!(seen[0].connection_type, ConnectionType::Network);
}

#[test]
fn events_reach_the_client() {
    let attached = event_packet(&DeviceChange::Attached(usb_device(3)));
    match parse_event(&attached).unwrap() {
        ListenEvent::Attached(d) => assert_eq!((d.udid.as_str(), d.device_id), (UDID, 3)),
        other => panic!("{other:?}"),
    }
    let detached = event_packet(&DeviceChange::Detached { device_id: 3 });
    assert!(matches!(parse_event(&detached), Some(ListenEvent::Detached(3))));
    assert!(parse_event(&packet(vec![("MessageType", text("Result"))])).is_none());
    assert!(parse_event(&packet(vec![("MessageType", text("Attached"))])).is_none());
    assert!(parse_event(&packet(vec![])).is_none());
}

#[test]
fn departures_name_the_device_that_came() {
    let mut known = KnownDevices::new();
    assert!(known.follow(ListenEvent::Detached(3)).is_none());
    let came = known.follow(ListenEvent::Attached(device(UDID))).unwrap();
    assert!(matches!(&came, DeviceEvent::Connected(d) if d.udid == UDID));
    let left = known.follow(ListenEvent::Detached(1)).unwrap();
    match &left {
        DeviceEvent::Disconnected { udid, device_id } => {
            assert_eq!((udid.as_str(), *device_id), (UDID, 1));
        }
        other => panic!("{other:?}"),
    }
    assert!(known.follow(ListenEvent::Detached(1)).is_none());
    for event in [&came, &left] {
        assert!(is_watched(event, &None));
        assert!(is_watched(event, &Some(UDID.into())));
        assert!(!is_watched(event, &Some("other".into())));
    }
}

#[test]
fn identifiers_are_shown_with_a_dash() {
    assert_eq!(format_device_udid(SERIAL), UDID);
    assert_eq!(display_udid(SERIAL), UDID);
    assert_eq!(display_udid(" abc\0"), "abc");
    assert_eq!(ConnectionType::Usb.to_text(), "USB");
    assert_eq!(ConnectionType::Network.to_text(), "Network");
    assert_eq!(text_or(&None, "-"), "-");
    assert_eq!(text_or(&Some("x".into()), "-"), "x");
}

#[test]
fn models_have_names() {
    assert_eq!(model_name("iPhone17,1"), Some("iPhone 16 Pro"));
    assert_eq!(model_name("iPhone99,9"), None);
    assert_eq!(friendly_model("iPhone17,1"), "iPhone 16 Pro");
    assert_eq!(friendly_model("iPhone99,9"), "iPhone99,9");
}

#[test]
fn reports_fill_gaps() {
    let report = "DeviceName: Phone: two\r\nProductType: iPhone17,1\nnonsense\n\
                  ProductVersion: 1\nProductVersion: 26.0\nBuildVersion: 23A\n";
    let pairs = parse_ideviceinfo_output(report);
    assert_eq!(value_under(&pairs, "DeviceName").as_deref(), Some("Phone: two"));
    assert_eq!(value_under(&pairs, "ProductVersion").as_deref(), Some("26.0"));
    assert_eq!(value_under(&pairs, "nonsense"), None);
    let mut d = device(UDID);
    assert!(needs_report(&d));
    d.ios_version = Some("1.0".into());
    assert!(needs_report(&d));
    fill_from_ideviceinfo(&mut d, report);
    assert_eq!(d.name.as_deref(), Some("Phone: two"));
    assert_eq!(d.model.as_deref(), Some("iPhone 16 Pro"));
    assert_eq!(d.ios_version.as_deref(), Some("1.0"));
    assert_eq!(d.build_version.as_deref(), Some("23A"));
    assert!(!needs_report(&d));
}

#[test]
fn devices_are_selected() {
    let two = [device("a"), device("b")];
    assert!(matches!(select_device(&two, &None), Ok(0)));
    assert!(matches!(select_device(&two, &Some("b".into())), Ok(1)));
    let e = select_device(&two, &Some("c".into())).unwrap_err();
    assert_eq!(e.to_text(), "device not found: c");
    assert_eq!(select_device(&[], &None).unwrap_err().to_text(), "no devices connected");
    assert_eq!(listed_udid("a", true), "redacted");
    assert_eq!(listed_udid("a", false), "a");
    assert_eq!(tabled_udid("a", true), "***");
    assert_eq!(tabled_udid("a", false), "a");
}

fn options(endpoint: Option<&str>, socket: Option<&str>) -> CommonOptions {
    CommonOptions {
        endpoint: endpoint.map(String::from),
        socket_path: socket.map(String::from),
        backend: None,
        upstream: None,
        log_format: Some("json".into()),
    }
}

#[test]
fn options_name_an_endpoint() {
    assert_eq!(resolve_endpoint(&options(Some("tcp:1"), Some("/s"))).as_deref(), Some("tcp:1"));
    assert_eq!(resolve_endpoint(&options(None, Some("/s"))).as_deref(), Some("unix:/s"));
    assert_eq!(resolve_endpoint(&options(None, None)), None);
    let args = make_daemon_args(&options(None, Some("/s")));
    assert_eq!(args.socket_path.as_deref(), Some("/s"));
    assert!(matches!(args.log_format, Some(LogFormat::Json)));
    assert!(args.backend.is_none());
    let mut silent = options(None, None);
    silent.log_format = None;
    assert!(make_daemon_args(&silent).log_format.is_none());
    silent.log_format = Some("compact".into());
    assert!(matches!(make_daemon_args(&silent).log_format, Some(LogFormat::Text)));
    assert_eq!(log_style("json"), LogStyle::Json);
    assert_eq!(log_style("compact"), LogStyle::Compact);
    assert_eq!(log_style("other"), LogStyle::Pretty);
    assert_eq!(daemon_log_style(LogFormat::Text), LogStyle::Pretty);
    assert_eq!(daemon_log_style(LogFormat::Json), LogStyle::Json);
}

#[test]
fn statistics_are_read() {
    let p = packet(vec![("Stats", text("{}")), ("Status", number(1))]);
    assert!(matches!(stats_reply(&p), StatsReply::Stats(s) if s == "{}"));
    let p = packet(vec![("Status", number(5))]);
    assert!(matches!(stats_reply(&p), StatsReply::Failed(5)));
    assert!(matches!(stats_reply(&packet(vec![])), StatsReply::Unexpected));
}

#[test]
fn the_daemon_starts_where_it_is_told() {
    let mut c = DaemonConfig::default();
    c.endpoint = Endpoint::Unix("/run/x".into());
    c.read_workers = 1;
    let s = prepare(&c).unwrap();
    assert!(!s.ignores_workers);
    assert_eq!(stale_socket(&s.endpoint, true).as_deref(), Some("/run/x"));
    assert_eq!(stale_socket(&s.endpoint, false), None);
    assert!(socket_guard(&s.endpoint).is_some());
    c.read_workers = 2;
    assert!(prepare(&c).unwrap().ignores_workers);
    c.max_clients = 0;
    assert!(prepare(&c).is_err());
    let tcp = Endpoint::parse("tcp:127.0.0.1:1").unwrap();
    assert!(stale_socket(&tcp, true).is_none());
    assert!(socket_guard(&tcp).is_none());
}

#[test]
fn the_daemon_follows_the_bus() {
    let mut mgr = DeviceManager::new();
    let came = DeviceChange::Attached(usb_device(3));
    assert!(matches!(follow_change(&mut mgr, &came), ChangeStep::Open(d) if d.device_id == 3));
    mgr.add_device(3);
    assert!(matches!(follow_change(&mut mgr, &came), ChangeStep::Done));
    let left = DeviceChange::Detached { device_id: 3 };
    assert!(matches!(follow_change(&mut mgr, &left), ChangeStep::Done));
    assert!(!mgr.is_managed(3));
    let mut m = Metrics::new();
    client_refused(&mut m);
    assert_eq!(m.clients_rejected, 1);
    devices_counted(&DeviceScanner::new(), &mut m);
    assert_eq!(m.devices_attached, 0);
}

#[test]
fn relayed_bytes_are_counted() {
    let mut m = Metrics::new();
    m.clients_active = 2;
    upstream_tried(true, &mut m);
    assert_eq!((m.connects_total, m.clients_active), (1, 2));
    splice_ended(Some((5, 7)), &mut m);
    assert_eq!((m.client_rx_bytes, m.client_tx_bytes, m.clients_active), (5, 7, 1));
    splice_ended(None, &mut m);
    assert_eq!((m.client_rx_bytes, m.client_tx_bytes, m.clients_active), (5, 7, 0));
    m.clients_active = 1;
    upstream_tried(false, &mut m);
    assert_eq!((m.connects_total, m.clients_active), (1, 0));
}

#[test]
fn errors_have_texts() {
    assert_eq!(RelayError::Connection("x".into()).to_text(), "usbmuxd connection failed: x");
    assert_eq!(DeviceError::Connection("x".into()).to_text(), "usbmuxd connection failed: x");
    assert_eq!(DeviceError::NotAccessible.to_text(), "device not paired or not accessible");
    let shown = DeviceEvent::Disconnected { udid: "u".into(), device_id: 1 }.to_text();
    assert!(shown.contains('u'), "{shown}");
}

#[test]
fn peers_and_places() {
    let p = PeerIdentity::anonymous().with_pid(9);
    assert!(p.sid.is_none());
    assert_eq!(p.credentials.as_ref().and_then(|c| c.pid), Some(9));
    assert_eq!(platform::windows::join("C:\\a", "b"), "C:\\a\\b");
    assert_eq!(platform::windows::join("C:\\a\\", "b"), "C:\\a\\b");
    assert_eq!(platform::windows::program_data(Some("D:\\p".into())), "D:\\p");
    assert_eq!(
        platform::windows::default_config_path("C:\\ProgramData"),
        "C:\\ProgramData\\Meridian\\config.toml"
    );
    assert_eq!(platform::unix::notify_address("@x"), "\0x");
    assert_eq!(platform::unix::notify_address("/run/n"), "/run/n");
}
