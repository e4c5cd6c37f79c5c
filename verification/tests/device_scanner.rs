//! Devices that come, go, flap and are replaced.
use meridian_relay::daemon::device_scanner::{
    diff_devices, observe, product_id_to_model, read_serial, DeviceChange, DeviceScanner,
    ScanObservation, UsbDevice, DETACH_AFTER_MISSES,
};
use std::collections::HashMap;

fn obs(bus: u8, addr: u8, udid: Option<&str>) -> ScanObservation {
    ScanObservation {
        usb_bus: bus,
        usb_address: addr,
        product_id: 0x12A8,
        udid: udid.map(String::from),
    }
}

fn fixture() -> (HashMap<u32, UsbDevice>, HashMap<u16, u32>, u32) {
    (HashMap::new(), HashMap::new(), 1)
}

#[test]
fn attach_and_detach() {
    let (mut devs, mut misses, mut next) = fixture();
    let changes = diff_devices(&mut devs, &mut misses, &mut next, &[obs(1, 5, Some("AAAA"))]);
    assert!(matches!(changes.as_slice(), [DeviceChange::Attached(_)]));
    assert_eq!(devs.len(), 1);

    // Detach is deferred across DETACH_AFTER_MISSES scans.
    let c1 = diff_devices(&mut devs, &mut misses, &mut next, &[]);
    assert!(c1.is_empty(), "first miss must not detach");
    let c2 = diff_devices(&mut devs, &mut misses, &mut next, &[]);
    assert!(matches!(c2.as_slice(), [DeviceChange::Detached { device_id: 1 }]));
    assert!(devs.is_empty());
}

#[test]
fn looking_again_changes_nothing() {
    let (mut devs, mut misses, mut next) = fixture();
    diff_devices(&mut devs, &mut misses, &mut next, &[obs(1, 1, Some("AAAA"))]);
    let seen = [obs(1, 1, Some("CCCC")), obs(1, 2, None), obs(2, 1, Some("BBBB"))];
    assert_eq!(diff_devices(&mut devs, &mut misses, &mut next, &seen).len(), 3);
    let before: Vec<u32> = {
        let mut ids: Vec<u32> = devs.keys().copied().collect();
        ids.sort();
        ids
    };
    let (counts, number) = (misses.clone(), next);
    assert!(diff_devices(&mut devs, &mut misses, &mut next, &seen).is_empty());
    let mut after: Vec<u32> = devs.keys().copied().collect();
    after.sort();
    assert_eq!((after, misses, next), (before, counts, number));
}

#[test]
fn crossbus_same_address_no_collision() {
    let (mut devs, mut misses, mut next) = fixture();
    let changes = diff_devices(&mut devs, &mut misses, &mut next, &[
        obs(1, 7, Some("AAAA")),
        obs(2, 7, Some("BBBB")), // same address number, different bus
    ]);
    assert_eq!(changes.len(), 2, "both devices must attach distinctly");
    assert_eq!(devs.len(), 2);

    // Removing the bus-1 device must detach it despite same address on bus 2.
    for _ in 0..DETACH_AFTER_MISSES {
        diff_devices(&mut devs, &mut misses, &mut next, &[obs(2, 7, Some("BBBB"))]);
    }
    assert_eq!(devs.len(), 1);
    let remaining = devs.values().next().unwrap();
    assert_eq!(remaining.udid, "BBBB");
    assert_eq!(remaining.usb_bus, 2);
}

#[test]
fn replacement_same_port() {
    let (mut devs, mut misses, mut next) = fixture();
    diff_devices(&mut devs, &mut misses, &mut next, &[obs(1, 3, Some("AAAA"))]);
    let changes = diff_devices(&mut devs, &mut misses, &mut next, &[obs(1, 3, Some("BBBB"))]);
    assert!(
        matches!(changes[0], DeviceChange::Detached { .. }) && matches!(changes[1], DeviceChange::Attached(_)),
        "replacement must detach-then-attach: {changes:?}"
    );
    assert_eq!(devs.len(), 1);
    assert_eq!(devs.values().next().unwrap().udid, "BBBB");
}

#[test]
fn unreadable_serial_never_defaches() {
    let (mut devs, mut misses, mut next) = fixture();
    diff_devices(&mut devs, &mut misses, &mut next, &[obs(1, 9, Some("AAAA"))]);
    // Transiently unreadable serial — device still present at the port.
    for _ in 0..10 {
        let c = diff_devices(&mut devs, &mut misses, &mut next, &[obs(1, 9, None)]);
        assert!(c.is_empty(), "unreadable serial must not flap");
    }
    assert_eq!(devs.len(), 1);
}

#[test]
fn unreadable_new_device_waits() {
    let (mut devs, mut misses, mut next) = fixture();
    let c = diff_devices(&mut devs, &mut misses, &mut next, &[obs(1, 9, None)]);
    assert!(c.is_empty());
    assert!(devs.is_empty(), "serial-less device must not be attached");
    // Once readable, it attaches.
    let c = diff_devices(&mut devs, &mut misses, &mut next, &[obs(1, 9, Some("AAAA"))]);
    assert_eq!(c.len(), 1);
}

#[test]
fn reconnect_after_detach_gets_fresh_id() {
    let (mut devs, mut misses, mut next) = fixture();
    let c1 = diff_devices(&mut devs, &mut misses, &mut next, &[obs(1, 5, Some("AAAA"))]);
    let id1 = match &c1[0] { DeviceChange::Attached(d) => d.device_id, _ => panic!() };
    for _ in 0..DETACH_AFTER_MISSES {
        diff_devices(&mut devs, &mut misses, &mut next, &[]);
    }
    let c2 = diff_devices(&mut devs, &mut misses, &mut next, &[obs(1, 5, Some("AAAA"))]);
    let id2 = match &c2[0] { DeviceChange::Attached(d) => d.device_id, _ => panic!() };
    assert!(id2 > id1, "reconnect must mint a fresh device id");
}

#[test]
fn multi_device_partial_outage() {
    let (mut devs, mut misses, mut next) = fixture();
    diff_devices(&mut devs, &mut misses, &mut next, &[
        obs(1, 1, Some("AAAA")),
        obs(1, 2, Some("BBBB")),
        obs(1, 3, Some("CCCC")),
    ]);
    assert_eq!(devs.len(), 3);

    // One device disappears (cable yank), others keep working.
    let mut detaches = 0;
    for _ in 0..DETACH_AFTER_MISSES {
        let c = diff_devices(&mut devs, &mut misses, &mut next, &[
            obs(1, 1, Some("AAAA")),
            obs(1, 3, Some("CCCC")),
        ]);
        detaches += c.iter().filter(|ch| matches!(ch, DeviceChange::Detached { .. })).count();
    }
    assert_eq!(detaches, 1);
    assert_eq!(devs.len(), 2);
    let udids: Vec<_> = devs.values().map(|d| d.udid.as_str()).collect();
    assert!(udids.contains(&"AAAA") && udids.contains(&"CCCC"));
}

#[test]
fn a_miss_is_forgotten_when_the_device_is_seen() {
    let mut scanner = DeviceScanner::new();
    let there = Ok(vec![obs(1, 5, Some("AAAA"))]);
    let gone = Ok(Vec::new());
    assert_eq!(scanner.scan(&there).len(), 1);
    assert!(scanner.scan(&gone).is_empty());
    assert!(scanner.scan(&there).is_empty());
    assert!(scanner.scan(&gone).is_empty());
    assert_eq!(scanner.scan(&gone).len(), 1);
    assert_eq!(scanner.device_count(), 0);
}

#[test]
fn a_failed_look_changes_nothing() {
    let mut scanner = DeviceScanner::new();
    assert!(scanner.room_for(1));
    scanner.scan(&Ok(vec![obs(1, 5, Some("AAAA"))]));
    for _ in 0..5 {
        assert!(scanner.scan(&Err("bus error".into())).is_empty());
    }
    assert_eq!(scanner.device_count(), 1);
    assert_eq!(scanner.get_devices()[0].udid, "AAAA");
    let dev = scanner.get_device_by_id(1).unwrap();
    assert_eq!((dev.device_id, dev.usb_bus, dev.usb_address, dev.product_id), (1, 1, 5, 0x12A8));
    assert!(scanner.get_device_by_id(2).is_none());
}

#[test]
fn staying_devices_keep_their_numbers() {
    let mut scanner = DeviceScanner::new();
    scanner.scan(&Ok(vec![obs(1, 1, Some("AAAA")), obs(1, 2, Some("BBBB"))]));
    scanner.scan(&Ok(vec![obs(1, 2, Some("BBBB")), obs(1, 1, Some("AAAA")), obs(3, 1, Some("CCCC"))]));
    assert_eq!(scanner.get_device_by_id(1).unwrap().udid, "AAAA");
    assert_eq!(scanner.get_device_by_id(2).unwrap().udid, "BBBB");
    assert_eq!(scanner.get_device_by_id(3).unwrap().udid, "CCCC");
}

#[test]
fn what_the_bus_shows() {
    assert!(observe(0x1234, 0x12A8, 1, 2, Some("AAAA")).is_none());
    let seen = observe(0x05AC, 0x12A8, 1, 2, Some(" AAAA\0\0")).unwrap();
    assert_eq!(seen, obs(1, 2, Some("AAAA")));
    assert_eq!(observe(0x05AC, 0x12A8, 1, 2, None).unwrap(), obs(1, 2, None));
    assert_eq!(observe(0x05AC, 0x12A8, 1, 2, Some("\0")).unwrap(), obs(1, 2, None));
    assert_eq!(read_serial("\0\0"), None);
    assert_eq!(read_serial("  A  "), Some("A".into()));
}

#[test]
fn models_by_product_number() {
    assert_eq!(product_id_to_model(0x12A8), "iPhone 5s / SE (1st gen)");
    assert_eq!(product_id_to_model(0x12AF), "iPhone 5s / SE (1st gen)");
    assert_eq!(product_id_to_model(0x12B0), "iPhone 6 / 6 Plus");
    assert_eq!(product_id_to_model(0x1307), "iPhone 16 / 16 Plus / 16 Pro / 16 Pro Max");
    assert_eq!(product_id_to_model(0x1308), "Unknown Apple Device");
    assert_eq!(product_id_to_model(0x1400), "iPod Touch (7th gen)");
    assert_eq!(product_id_to_model(0), "Unknown Apple Device");
}
