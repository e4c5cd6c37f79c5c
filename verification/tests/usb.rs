//! The bulk interface of a device.
use meridian_relay::daemon::usb::{
    after_claim, after_read, find_mux_interface, AppleMuxInterface, ClaimOutcome, ClaimStep,
    ConfigDescriptor, EndpointDescriptor, InterfaceDescriptor, MuxInterfaceInfo,
    PacketReassembler, ReadOutcome, ReadStep, UsbError, USB_MRU,
};

fn ep(address: u8, bulk: bool, input: bool, max_packet_size: u16) -> EndpointDescriptor {
    EndpointDescriptor { address, bulk, input, max_packet_size }
}

fn iface(number: u8, class: u8, endpoints: Vec<EndpointDescriptor>) -> InterfaceDescriptor {
    InterfaceDescriptor {
        interface_number: number,
        class_code: class,
        sub_class_code: 0xFE,
        protocol_code: 2,
        endpoints,
    }
}

fn bulk_pair() -> Vec<EndpointDescriptor> {
    vec![ep(0x81, false, true, 8), ep(0x82, true, true, 512), ep(0x03, true, false, 64)]
}

#[test]
fn the_last_configuration_with_a_mux_interface_wins() {
    let configs = [
        Some(ConfigDescriptor { number: 1, interfaces: vec![iface(0, 0xFF, bulk_pair())] }),
        Some(ConfigDescriptor {
            number: 4,
            interfaces: vec![iface(0, 6, bulk_pair()), iface(1, 0xFF, bulk_pair())],
        }),
        None,
        Some(ConfigDescriptor { number: 5, interfaces: vec![iface(0, 6, bulk_pair())] }),
    ];
    assert_eq!(
        find_mux_interface(&configs).unwrap(),
        MuxInterfaceInfo {
            config_number: 4,
            interface_number: 1,
            ep_in: 0x82,
            ep_out: 0x03,
            max_packet_size: 512,
        }
    );
}

#[test]
fn of_several_endpoints_the_last_counts() {
    let mut eps = bulk_pair();
    eps.push(ep(0x84, true, true, 1024));
    eps.push(ep(0x05, true, false, 9));
    let configs = [Some(ConfigDescriptor { number: 1, interfaces: vec![iface(0, 0xFF, eps)] })];
    let info = find_mux_interface(&configs).unwrap();
    assert_eq!((info.ep_in, info.ep_out, info.max_packet_size), (0x84, 0x05, 1024));
}

#[test]
fn devices_without_an_interface() {
    assert!(matches!(find_mux_interface(&[]), Err(UsbError::NoMuxInterface)));
    assert!(matches!(find_mux_interface(&[None]), Err(UsbError::NoMuxInterface)));
    let only_in = vec![ep(0x82, true, true, 512)];
    let configs = [Some(ConfigDescriptor { number: 1, interfaces: vec![iface(0, 0xFF, only_in)] })];
    assert!(matches!(find_mux_interface(&configs), Err(UsbError::NoBulkEndpoints)));
    let only_out = vec![ep(0x02, true, false, 512)];
    let configs = [Some(ConfigDescriptor { number: 1, interfaces: vec![iface(0, 0xFF, only_out)] })];
    assert!(matches!(find_mux_interface(&configs), Err(UsbError::NoBulkEndpoints)));
}

#[test]
fn full_packets_need_an_empty_one() {
    let info = MuxInterfaceInfo {
        config_number: 1,
        interface_number: 0,
        ep_in: 0x81,
        ep_out: 2,
        max_packet_size: 512,
    };
    let i = AppleMuxInterface::claimed(&info);
    assert_eq!(i.max_packet_size(), 512);
    assert!(!i.after_write(511, 511).unwrap());
    assert!(i.after_write(512, 512).unwrap());
    assert!(!i.after_write(513, 513).unwrap());
    assert!(i.after_write(1024, 1024).unwrap());
    assert!(!i.after_write(0, 0).unwrap());
    let e = i.after_write(512, 100).unwrap_err();
    assert_eq!(e.to_text(), "short write: 100 bytes written, expected 512");
}

#[test]
fn errors_have_messages() {
    assert_eq!(UsbError::Rusb("Pipe".into()).to_text(), "USB error: Pipe");
    assert_eq!(UsbError::NoMuxInterface.to_text(), "no mux interface found on device");
    assert_eq!(UsbError::NoBulkEndpoints.to_text(), "mux interface has no bulk endpoints");
    assert_eq!(UsbError::Io("x".into()).to_text(), "I/O error: x");
    assert_eq!(UsbError::TaskJoin("x".into()).to_text(), "worker task panicked: x");
}

#[test]
fn claims_and_reads() {
    assert_eq!(after_claim(0, ClaimOutcome::Claimed), ClaimStep::Proceed);
    assert_eq!(after_claim(0, ClaimOutcome::Busy), ClaimStep::TryAgain);
    assert_eq!(after_claim(1, ClaimOutcome::Busy), ClaimStep::GiveUp);
    assert_eq!(after_claim(0, ClaimOutcome::Failed), ClaimStep::GiveUp);
    assert_eq!(after_read(ReadOutcome::Bytes(1)), ReadStep::Forward);
    assert_eq!(after_read(ReadOutcome::Bytes(0)), ReadStep::ReadAgain);
    assert_eq!(after_read(ReadOutcome::TimedOut), ReadStep::ReadAgain);
    assert_eq!(after_read(ReadOutcome::Failed), ReadStep::Pause);
    assert_eq!(after_read(ReadOutcome::Broken), ReadStep::Stop);
}

fn full_read(total: u32, fill: u8) -> Vec<u8> {
    let mut data = vec![fill; USB_MRU];
    data[..4].copy_from_slice(&total.to_be_bytes());
    data
}

#[test]
fn short_reads_are_packets() {
    let mut r = PacketReassembler::new();
    assert_eq!(r.feed(&[1, 2, 3], None), Some(vec![1, 2, 3]));
    assert_eq!(r.feed(&[], None), Some(Vec::new()));
    let whole = full_read(USB_MRU as u32, 9);
    assert_eq!(r.feed(&whole, None), Some(whole));
}

#[test]
fn long_packets_are_joined() {
    let mut r = PacketReassembler::new();
    let first = full_read(USB_MRU as u32 + 2, 1);
    assert_eq!(r.feed(&first, None), None);
    let joined = r.feed(&[7, 8], None).unwrap();
    assert_eq!(joined.len(), USB_MRU + 2);
    assert_eq!(&joined[USB_MRU..], &[7, 8]);

    let first = full_read(2 * USB_MRU as u32, 1);
    assert_eq!(r.feed(&first, None), None);
    assert_eq!(r.feed(&vec![2; USB_MRU], None).unwrap().len(), 2 * USB_MRU);

    let first = full_read(3 * USB_MRU as u32, 1);
    assert_eq!(r.feed(&first, None), None);
    assert_eq!(r.feed(&vec![2; USB_MRU], None), None);
    assert_eq!(r.feed(&vec![2; USB_MRU], Some(5)).unwrap().len(), 3 * USB_MRU);

    assert_eq!(r.feed(&full_read(u32::MAX, 1), None), None);
    r.reset();
    assert_eq!(r.feed(&[4], None), Some(vec![4]));
}
