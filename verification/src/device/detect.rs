//! Asking the daemon for its devices, and reading what it says of them.
use crate::daemon::device_scanner;
use crate::daemon::protocol;
use crate::daemon::protocol::{RawPacket, PLIST_MESSAGE_TYPE, XML_PLIST_VERSION};
use crate::device;
use crate::device::{ConnectionType, Device};
use crate::plists;
use crate::plists::{get_text, get_unsigned, put_integer, put_text};
use crate::security;
use crate::security::{can_be_dashed, core_of_udid, dashed_udid};
use crate::text;
use crate::text::{push_decimal, same};
use vstd::prelude::*;

verus! {

/// The most bytes that an answer of the daemon may have.
pub const MAX_RESPONSE_BYTES: usize = 16777216;

/// The tag of a client's request.
pub const REQUEST_TAG: u32 = 1;

/// The endpoint to go to: the one in the environment, or the one given.
pub fn chosen_endpoint(environment: Option<String>, given: &str) -> (s: String)
    ensures
        s@ == match environment {
            Some(e) => e@,
            None => given@,
        },
{
    match environment {
        Some(e) => e,
        None => given.to_owned(),
    }
}

/// The entries of a client's request without arguments.
pub open spec fn request_entries(kind: Seq<char>) -> Seq<(Seq<char>, plists::Plist)> {
    seq![
        ("ClientVersion"@, plists::Plist::Integer(1)),
        ("MessageType"@, plists::Plist::Text(kind)),
        ("ProgName"@, plists::Plist::Text("meridian-relay"@)),
        ("kLibUSBMuxVersion"@, plists::Plist::Integer(0)),
    ]
}

fn request(kind: &str) -> (p: RawPacket)
    ensures
        p@ == protocol::answer(REQUEST_TAG, request_entries(kind@)),
        plists::plain(plists::Plist::Dict(p@.plist)),
{
    let ghost want = request_entries(kind@);
    let mut d = plist::Dictionary::new();
    proof {
        key_lengths();
        protocol::key_of_new_length_goes_last(want.take(1), want[1].0, want[1].1);
        protocol::key_of_new_length_goes_last(want.take(2), want[2].0, want[2].1);
        protocol::key_of_new_length_goes_last(want.take(3), want[3].0, want[3].1);
        assert forall|i: int| 0 <= i < want.len() implies plists::plain((#[trigger] want[i]).1) by {
        }
    }
    put_integer(&mut d, "ClientVersion", 1);
    assert(plists::entries(d) =~= want.take(1));
    put_text(&mut d, "MessageType", kind);
    assert(plists::entries(d) =~= want.take(2));
    put_text(&mut d, "ProgName", "meridian-relay");
    assert(plists::entries(d) =~= want.take(3));
    put_integer(&mut d, "kLibUSBMuxVersion", 0);
    assert(plists::entries(d) =~= want);
    RawPacket::new(d, XML_PLIST_VERSION, PLIST_MESSAGE_TYPE, REQUEST_TAG)
}

/// The request for the list of devices.
pub fn list_request() -> (p: RawPacket)
    ensures
        p@ == protocol::answer(REQUEST_TAG, request_entries("ListDevices"@)),
        plists::plain(plists::Plist::Dict(p@.plist)),
{
    request("ListDevices")
}

/// The request to be told about devices that come and go.
pub fn listen_request() -> (p: RawPacket)
    ensures
        p@ == protocol::answer(REQUEST_TAG, request_entries("Listen"@)),
        plists::plain(plists::Plist::Dict(p@.plist)),
{
    request("Listen")
}

/// The number of the device with these properties; zero where none is given.
pub open spec fn number_in(props: Seq<(Seq<char>, plists::Plist)>) -> u32 {
    match plists::unsigned_of(plists::lookup(props, "DeviceID"@)) {
        Some(n) => (n % 0x1_0000_0000) as u32,
        None => 0,
    }
}

/// The identifier of the device with these properties; empty where none is
/// given.
pub open spec fn udid_in(props: Seq<(Seq<char>, plists::Plist)>) -> Seq<char> {
    match plists::text_of(plists::lookup(props, "SerialNumber"@)) {
        Some(s) => s,
        None => ""@,
    }
}

/// The device with these properties.
pub open spec fn device_with(props: Seq<(Seq<char>, plists::Plist)>) -> device::DeviceView {
    device::DeviceView {
        udid: udid_in(props),
        device_id: number_in(props),
        name: None,
        model: plists::text_of(plists::lookup(props, "ProductType"@)),
        ios_version: None,
        build_version: None,
        connection_type: if plists::text_of(plists::lookup(props, "ConnectionType"@)) == Some(
            "USB"@,
        ) {
            ConnectionType::Usb
        } else {
            ConnectionType::Network
        },
    }
}

/// The properties in an entry of a list.
pub open spec fn properties_in(item: plists::Plist) -> Option<Seq<(Seq<char>, plists::Plist)>> {
    match plists::dict_of(Some(item)) {
        Some(e) => plists::dict_of(plists::lookup(e, "Properties"@)),
        None => None,
    }
}

/// The devices in the entries of a list; an entry without properties is
/// skipped.
pub open spec fn devices_in(items: Seq<plists::Plist>) -> Seq<device::DeviceView>
    decreases items.len(),
{
    if items.len() == 0 {
        seq![]
    } else {
        let front = devices_in(items.drop_last());
        match properties_in(items.last()) {
            Some(props) => front.push(device_with(props)),
            None => front,
        }
    }
}

/// What the answer to a request for the list says.
pub open spec fn listed_devices(e: Seq<(Seq<char>, plists::Plist)>) -> Result<
    Seq<device::DeviceView>,
    Seq<char>,
> {
    match plists::unsigned_of(plists::lookup(e, "Result"@)) {
        Some(status) if status != 0 => Err(
            "list devices failed with status "@ + text::decimal(status as nat),
        ),
        _ => match plists::array_of(plists::lookup(e, "DeviceList"@)) {
            Some(items) => Ok(devices_in(items)),
            None => Err("DeviceList missing or not an array"@),
        },
    }
}

/// The devices in `v`, in order.
pub open spec fn device_views(v: Seq<Device>) -> Seq<device::DeviceView> {
    v.map_values(|d: Device| d@)
}

fn number_of(props: &plist::Dictionary) -> (n: u32)
    ensures
        n == number_in(plists::entries(*props)),
{
    match get_unsigned(props, "DeviceID") {
        Some(n) => (n % 0x1_0000_0000) as u32,
        None => 0,
    }
}

fn udid_of(props: &plist::Dictionary) -> (s: String)
    ensures
        s@ == udid_in(plists::entries(*props)),
{
    match get_text(props, "SerialNumber") {
        Some(s) => s,
        None => "".to_owned(),
    }
}

/// The device with these properties.
pub fn device_from(props: &plist::Dictionary) -> (d: Device)
    ensures
        d@ == device_with(plists::entries(*props)),
{
    let usb: bool = match get_text(props, "ConnectionType") {
        Some(s) => same(s.as_str(), "USB"),
        None => false,
    };
    Device {
        udid: udid_of(props),
        device_id: number_of(props),
        name: None,
        model: get_text(props, "ProductType"),
        ios_version: None,
        build_version: None,
        connection_type: if usb {
            ConnectionType::Usb
        } else {
            ConnectionType::Network
        },
    }
}

/// The properties in a dictionary.
fn properties_of(d: &plist::Dictionary) -> (r: Option<&plist::Dictionary>)
    ensures
        plists::dict_of(plists::lookup(plists::entries(*d), "Properties"@)) == match r {
            Some(p) => Some(plists::entries(*p)),
            None => None,
        },
{
    match d.get("Properties") {
        Some(v) => v.as_dictionary(),
        None => None,
    }
}

/// Reads the answer to a request for the list.
pub fn parse_device_list(response: &RawPacket) -> (r: Result<Vec<Device>, String>)
    ensures
        match r {
            Ok(v) => listed_devices(response@.plist) == Ok::<
                Seq<device::DeviceView>,
                Seq<char>,
            >(device_views(v@)),
            Err(m) => listed_devices(response@.plist) == Err::<
                Seq<device::DeviceView>,
                Seq<char>,
            >(m@),
        },
{
    if let Some(status) = get_unsigned(&response.plist, "Result") {
        if status != 0 {
            let mut m = "list devices failed with status ".to_owned();
            push_decimal(&mut m, status);
            return Err(m);
        }
    }
    let found = match response.plist.get("DeviceList") {
        Some(v) => v.as_array(),
        None => None,
    };
    let list: &Vec<plist::Value> = match found {
        Some(a) => a,
        None => return Err("DeviceList missing or not an array".to_owned()),
    };
    let ghost items = plists::contents_of(list@);
    let mut devices: Vec<Device> = Vec::new();
    let mut i: usize = 0;
    assert(items.take(0) =~= seq![]);
    assert(device_views(devices@) =~= seq![]);
    while i < list.len()
        invariant
            i <= list@.len(),
            items == plists::contents_of(list@),
            device_views(devices@) == devices_in(items.take(i as int)),
        decreases list@.len() - i,
    {
        assert(items.take(i + 1).drop_last() =~= items.take(i as int));
        assert(items.take(i + 1).last() == plists::contents(list@[i as int]));
        if let Some(entry) = list[i].as_dictionary() {
            if let Some(props) = properties_of(entry) {
                let ghost was = device_views(devices@);
                let dev = device_from(props);
                let ghost v = dev@;
                devices.push(dev);
                assert(device_views(devices@) =~= was.push(v));
            }
        }
        i = i + 1;
    }
    assert(items.take(i as int) =~= items);
    Ok(devices)
}

/// What the daemon tells a subscribed client.
#[derive(Debug)]
pub enum ListenEvent {
    Attached(Device),
    Detached(u32),
}

/// A `ListenEvent` with its device as its view.
pub ghost enum ListenEventView {
    Attached(device::DeviceView),
    Detached(u32),
}

impl View for ListenEvent {
    type V = ListenEventView;

    open spec fn view(&self) -> ListenEventView {
        match self {
            ListenEvent::Attached(d) => ListenEventView::Attached(d@),
            ListenEvent::Detached(id) => ListenEventView::Detached(*id),
        }
    }
}

/// An identifier as it is shown: trimmed, and with its dash where that has a
/// place.
pub open spec fn displayed(raw: Seq<char>) -> Seq<char> {
    if security::dash_has_place(security::udid_core(raw)) {
        device::shown_udid(raw)
    } else {
        security::udid_core(raw)
    }
}

/// The event that a packet to a subscribed client reports.
pub open spec fn event_in(e: Seq<(Seq<char>, plists::Plist)>) -> Option<ListenEventView> {
    let kind = plists::text_of(plists::lookup(e, "MessageType"@));
    if kind == Some("Attached"@) {
        match plists::dict_of(plists::lookup(e, "Properties"@)) {
            Some(props) => Some(
                ListenEventView::Attached(
                    device::bare_device(displayed(udid_in(props)), number_in(props)),
                ),
            ),
            None => None,
        }
    } else if kind == Some("Detached"@) {
        Some(ListenEventView::Detached(number_in(e)))
    } else {
        None
    }
}

/// An identifier as it is shown.
pub fn display_udid(raw: &str) -> (s: String)
    ensures
        s@ == displayed(raw@),
{
    let core = core_of_udid(raw);
    if can_be_dashed(core.as_str()) {
        dashed_udid(core.as_str())
    } else {
        core
    }
}

/// Reads a packet to a subscribed client; any that reports no device that
/// came or went is none.
pub fn parse_event(packet: &RawPacket) -> (r: Option<ListenEvent>)
    ensures
        match r {
            Some(e) => event_in(packet@.plist) == Some(e@),
            None => event_in(packet@.plist) is None,
        },
{
    let kind = match get_text(&packet.plist, "MessageType") {
        Some(s) => s,
        None => return None,
    };
    proof {
        reveal_strlit("Attached");
        reveal_strlit("Detached");
    }
    if same(kind.as_str(), "Attached") {
        match properties_of(&packet.plist) {
            Some(props) => {
                let udid = udid_of(props);
                Some(
                    ListenEvent::Attached(
                        Device {
                            udid: display_udid(udid.as_str()),
                            device_id: number_of(props),
                            name: None,
                            model: None,
                            ios_version: None,
                            build_version: None,
                            connection_type: ConnectionType::Usb,
                        },
                    ),
                )
            },
            None => None,
        }
    } else if same(kind.as_str(), "Detached") {
        Some(ListenEvent::Detached(number_of(&packet.plist)))
    } else {
        None
    }
}

/// A device that the daemon has, as its list shows it.
pub open spec fn as_listed(d: device_scanner::UsbDeviceView) -> device::DeviceView {
    device::bare_device(d.udid, d.device_id)
}

/// How long the keys are: those of one dictionary have different lengths.
proof fn key_lengths()
    ensures
        "ClientVersion"@.len() == 13,
        "MessageType"@.len() == 11,
        "ProgName"@.len() == 8,
        "kLibUSBMuxVersion"@.len() == 17,
        "DeviceID"@.len() == 8,
        "ConnectionType"@.len() == 14,
        "SerialNumber"@.len() == 12,
        "ProductID"@.len() == 9,
        "ProductType"@.len() == 11,
        "LocationID"@.len() == 10,
        "Port"@.len() == 4,
        "Properties"@.len() == 10,
        "DeviceList"@.len() == 10,
        "Result"@.len() == 6,
{
    reveal_strlit("ClientVersion");
    reveal_strlit("MessageType");
    reveal_strlit("ProgName");
    reveal_strlit("kLibUSBMuxVersion");
    reveal_strlit("DeviceID");
    reveal_strlit("ConnectionType");
    reveal_strlit("SerialNumber");
    reveal_strlit("ProductID");
    reveal_strlit("ProductType");
    reveal_strlit("LocationID");
    reveal_strlit("Port");
    reveal_strlit("Properties");
    reveal_strlit("DeviceList");
    reveal_strlit("Result");
}

/// The properties that the daemon gives of a device are read back.
pub proof fn given_properties_are_read_back(d: device_scanner::UsbDeviceView)
    ensures
        device_with(protocol::device_properties(d)) == as_listed(d),
        udid_in(protocol::device_properties(d)) == d.udid,
        number_in(protocol::device_properties(d)) == d.device_id,
{
    key_lengths();
    let e = protocol::device_properties(d);
    let e5 = e.drop_last();
    let e4 = e5.drop_last();
    let e3 = e4.drop_last();
    let e2 = e3.drop_last();
    let e1 = e2.drop_last();
    assert(e1.drop_last() =~= seq![]);
    reveal_with_fuel(plists::lookup, 7);
    assert(plists::lookup(e1, "DeviceID"@) == Some(plists::Plist::Integer(d.device_id as int)));
    assert(plists::lookup(e, "DeviceID"@) == plists::lookup(e1, "DeviceID"@));
    assert(plists::lookup(e, "ConnectionType"@) == Some(plists::Plist::Text("USB"@)));
    assert(plists::lookup(e, "SerialNumber"@) == Some(plists::Plist::Text(d.udid)));
    assert(plists::lookup(e, "ProductType"@) is None);
}

/// What the daemon lists is what its client sees: every device once, in the
/// same order, with its identifier and its number.
pub proof fn listed_devices_are_seen(devices: Seq<device_scanner::UsbDeviceView>)
    ensures
        listed_devices(protocol::list_entries(devices)) == Ok::<
            Seq<device::DeviceView>,
            Seq<char>,
        >(devices.map_values(|d: device_scanner::UsbDeviceView| as_listed(d))),
{
    let e = protocol::list_entries(devices);
    key_lengths();
    assert(e.drop_last() =~= seq![]);
    reveal_with_fuel(plists::lookup, 2);
    assert(plists::lookup(e, "Result"@) is None);
    all_items_are_seen(devices);
}

proof fn all_items_are_seen(devices: Seq<device_scanner::UsbDeviceView>)
    ensures
        devices_in(
            devices.map_values(|d: device_scanner::UsbDeviceView| protocol::listed(d)),
        ) == devices.map_values(|d: device_scanner::UsbDeviceView| as_listed(d)),
    decreases devices.len(),
{
    let items = devices.map_values(|d: device_scanner::UsbDeviceView| protocol::listed(d));
    let want = devices.map_values(|d: device_scanner::UsbDeviceView| as_listed(d));
    if devices.len() == 0 {
        assert(devices_in(items) =~= want);
    } else {
        let front = devices.drop_last();
        let last = devices.last();
        all_items_are_seen(front);
        assert(items.drop_last() =~= front.map_values(
            |d: device_scanner::UsbDeviceView| protocol::listed(d),
        ));
        let entry = seq![
            ("Properties"@, plists::Plist::Dict(protocol::device_properties(last))),
        ];
        assert(items.last() == plists::Plist::Dict(entry));
        assert(plists::lookup(entry, "Properties"@) == Some(
            plists::Plist::Dict(protocol::device_properties(last)),
        ));
        given_properties_are_read_back(last);
        assert(want =~= front.map_values(
            |d: device_scanner::UsbDeviceView| as_listed(d),
        ).push(as_listed(last)));
    }
}

/// The events that the daemon sends are the events that its client reads.
pub proof fn sent_events_are_read_back(d: device_scanner::UsbDeviceView)
    ensures
        event_in(protocol::attached_entries(d)) == Some(
            ListenEventView::Attached(device::bare_device(displayed(d.udid), d.device_id)),
        ),
        event_in(protocol::detached_entries(d.device_id)) == Some(
            ListenEventView::Detached(d.device_id),
        ),
{
    key_lengths();
    reveal_strlit("Attached");
    reveal_strlit("Detached");
    given_properties_are_read_back(d);
    let a = protocol::attached_entries(d);
    let a2 = a.drop_last();
    let a1 = a2.drop_last();
    reveal_with_fuel(plists::lookup, 4);
    assert(plists::lookup(a, "Properties"@) == Some(
        plists::Plist::Dict(protocol::device_properties(d)),
    ));
    assert(plists::lookup(a1, "MessageType"@) == Some(plists::Plist::Text("Attached"@)));
    assert(plists::lookup(a, "MessageType"@) == plists::lookup(a1, "MessageType"@));
    let b = protocol::detached_entries(d.device_id);
    let b1 = b.drop_last();
    assert(plists::lookup(b, "DeviceID"@) == Some(plists::Plist::Integer(d.device_id as int)));
    assert(plists::lookup(b1, "MessageType"@) == Some(plists::Plist::Text("Detached"@)));
    assert("Attached"@[0] != "Detached"@[0]);
}

/// A request says what is asked for, and who asks.
pub proof fn requests_name_what_they_want(kind: Seq<char>)
    ensures
        plists::lookup(request_entries(kind), "MessageType"@) == Some(plists::Plist::Text(kind)),
        plists::lookup(request_entries(kind), "ClientVersion"@) == Some(plists::Plist::Integer(1)),
        plists::lookup(request_entries(kind), "ProgName"@) == Some(
            plists::Plist::Text("meridian-relay"@),
        ),
        plists::lookup(request_entries(kind), "kLibUSBMuxVersion"@) == Some(
            plists::Plist::Integer(0),
        ),
{
    key_lengths();
    let e = request_entries(kind);
    plists::entry_is_found(e, 0);
    plists::entry_is_found(e, 1);
    plists::entry_is_found(e, 2);
    plists::entry_is_found(e, 3);
}

/// A device is what its properties say it is.
pub proof fn properties_make_the_device(
    props: Seq<(Seq<char>, plists::Plist)>,
    id: u32,
    serial: Seq<char>,
    model: Seq<char>,
)
    requires
        plists::lookup(props, "DeviceID"@) == Some(plists::Plist::Integer(id as int)),
        plists::lookup(props, "SerialNumber"@) == Some(plists::Plist::Text(serial)),
    ensures
        ({
            let d = device_with(props);
            let way = plists::lookup(props, "ConnectionType"@);
            &&& d.device_id == id
            &&& d.udid == serial
            &&& d.name is None && d.ios_version is None && d.build_version is None
            &&& plists::lookup(props, "ProductType"@) == Some(plists::Plist::Text(model))
                ==> d.model == Some(model)
            &&& plists::lookup(props, "ProductType"@) is None ==> d.model is None
            &&& way == Some(plists::Plist::Text("USB"@)) ==> d.connection_type
                == ConnectionType::Usb
            &&& way == Some(plists::Plist::Text("Network"@)) ==> d.connection_type
                == ConnectionType::Network
            &&& way is None ==> d.connection_type == ConnectionType::Network
        }),
{
    reveal_strlit("USB");
    reveal_strlit("Network");
    assert("USB"@.len() != "Network"@.len());
}

/// The list goes item by item: an item with properties is a device, any other
/// is none.
pub proof fn lists_are_read_item_by_item(
    items: Seq<plists::Plist>,
    e: Seq<(Seq<char>, plists::Plist)>,
    props: Seq<(Seq<char>, plists::Plist)>,
    other: plists::Plist,
)
    requires
        plists::lookup(e, "Properties"@) == Some(plists::Plist::Dict(props)),
        !(other is Dict),
    ensures
        devices_in(seq![]) == Seq::<device::DeviceView>::empty(),
        devices_in(items.push(plists::Plist::Dict(e))) == devices_in(items).push(
            device_with(props),
        ),
        devices_in(items.push(other)) == devices_in(items),
        devices_in(items.push(plists::Plist::Dict(seq![]))) == devices_in(items),
{
    assert(items.push(plists::Plist::Dict(e)).drop_last() =~= items);
    assert(items.push(other).drop_last() =~= items);
    assert(items.push(plists::Plist::Dict(seq![])).drop_last() =~= items);
}

/// A refusal is reported with its number, and a list that is not there as
/// missing.
pub proof fn bad_lists_are_reported(e: Seq<(Seq<char>, plists::Plist)>, status: nat)
    ensures
        0 < status <= u64::MAX && plists::lookup(e, "Result"@) == Some(
            plists::Plist::Integer(status as int),
        ) ==> listed_devices(e) == Err::<Seq<device::DeviceView>, Seq<char>>(
            "list devices failed with status "@ + text::decimal(status),
        ),
        plists::lookup(e, "Result"@) is None && plists::lookup(e, "DeviceList"@) is None
            ==> listed_devices(e) == Err::<Seq<device::DeviceView>, Seq<char>>(
            "DeviceList missing or not an array"@,
        ),
{
}

/// The list that is there is read, whether or not it says that all is well.
pub proof fn good_lists_are_read(
    e: Seq<(Seq<char>, plists::Plist)>,
    items: Seq<plists::Plist>,
)
    requires
        plists::lookup(e, "Result"@) is None || plists::lookup(e, "Result"@) == Some(
            plists::Plist::Integer(0),
        ),
        plists::lookup(e, "DeviceList"@) == Some(plists::Plist::Array(items)),
    ensures
        listed_devices(e) == Ok::<Seq<device::DeviceView>, Seq<char>>(devices_in(items)),
{
}

/// A packet reports what its type says: a device that came, with its
/// properties, or the number of one that went.
pub proof fn packets_report_by_their_type(
    e: Seq<(Seq<char>, plists::Plist)>,
    props: Seq<(Seq<char>, plists::Plist)>,
    id: u32,
    serial: Seq<char>,
)
    ensures
        plists::lookup(e, "MessageType"@) == Some(plists::Plist::Text("Detached"@))
            && plists::lookup(e, "DeviceID"@) == Some(plists::Plist::Integer(id as int))
            ==> event_in(e) == Some(ListenEventView::Detached(id)),
        plists::lookup(e, "MessageType"@) == Some(plists::Plist::Text("Attached"@))
            && plists::lookup(e, "Properties"@) == Some(plists::Plist::Dict(props))
            && plists::lookup(props, "DeviceID"@) == Some(plists::Plist::Integer(id as int))
            && plists::lookup(props, "SerialNumber"@) == Some(plists::Plist::Text(serial))
            ==> event_in(e) == Some(
            ListenEventView::Attached(device::bare_device(displayed(serial), id)),
        ),
        plists::lookup(e, "MessageType"@) == Some(plists::Plist::Text("Attached"@))
            && plists::lookup(e, "Properties"@) is None ==> event_in(e) is None,
        plists::lookup(e, "MessageType"@) == Some(plists::Plist::Text("Result"@)) ==> event_in(
            e,
        ) is None,
        plists::lookup(e, "MessageType"@) is None ==> event_in(e) is None,
{
    reveal_strlit("Attached");
    reveal_strlit("Detached");
    reveal_strlit("Result");
    assert("Attached"@[0] != "Detached"@[0]);
    assert("Result"@[0] != "Detached"@[0]);
    assert("Result"@[0] != "Attached"@[0]);
}

/// A client sees an identifier as it is shown everywhere.
pub proof fn clients_see_identifiers_as_shown(s: Seq<char>)
    requires
        0 < s.len() <= 64,
        security::all_udid_chars(s),
    ensures
        s.len() == 24 && !s.contains('-') ==> displayed(s) == s.take(8) + "-"@ + s.skip(8),
        s.len() != 24 || s.contains('-') ==> displayed(s) == s,
{
    let none: Seq<char> = seq![];
    assert forall|i: int| 0 <= i < s.len() implies '0' <= #[trigger] s[i] <= '9' || 'a' <= s[i]
        <= 'f' || 'A' <= s[i] <= 'F' || s[i] == '-' by {
        assert(security::is_udid_char(s[i]));
    }
    security::digits_and_dashes_are_an_identifier(none, s, 0, none);
    assert(none + (s + Seq::new(0, |i: int| '\0')) + none =~= s);
    security::valid_udid_can_be_dashed(s);
    device::identifiers_are_shown_with_their_dash(s);
}

} // verus!
