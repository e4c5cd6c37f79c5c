//! Tunnels from local ports to ports of a device.
use crate::bytes;
use crate::bytes::{native_order, network16, ByteOrder};
use crate::daemon::connection;
use crate::daemon::device_scanner;
use crate::daemon::protocol;
use crate::daemon::protocol::{RawPacket, PLIST_MESSAGE_TYPE, XML_PLIST_VERSION};
use crate::device::lockdown;
use crate::device::lockdown::number_in;
use crate::metrics::Metrics;
use crate::plists;
use crate::plists::{get_unsigned, put_integer, put_text};
use crate::text;
use crate::text::{parse_number, push_decimal, split_once};
use vstd::prelude::*;

verus! {

/// The tag of a tunnel's requests.
pub const TUNNEL_TAG: u32 = 1;

/// The most bytes that the daemon's answer to a connection request may have.
pub const MAX_CONNECT_RESPONSE: usize = 65536;

/// The most bytes that the daemon's list of devices may have.
pub const MAX_LIST_RESPONSE: usize = 16777216;

/// The ports that a pair names, the local one first, or what is wrong with
/// it.
pub open spec fn pair_of(s: Seq<char>) -> Result<(u16, u16), Seq<char>> {
    match text::split_at_first(s, ":"@) {
        None => Err("invalid pair '"@ + s + "' — expected local:device"@),
        Some((l, d)) => match text::number(l, 10, 65535) {
            Err(_) => Err("invalid local port in '"@ + s + "'"@),
            Ok(lp) => match text::number(d, 10, 65535) {
                Err(_) => Err("invalid device port in '"@ + s + "'"@),
                Ok(dp) => if lp == 0 || dp == 0 {
                    Err("ports must be non-zero in '"@ + s + "'"@)
                } else {
                    Ok((lp as u16, dp as u16))
                },
            },
        },
    }
}

/// The ports that all pairs name, or what is wrong with the first bad one.
pub open spec fn pairs_of(list: Seq<Seq<char>>) -> Result<Seq<(u16, u16)>, Seq<char>>
    decreases list.len(),
{
    if list.len() == 0 {
        Ok(seq![])
    } else {
        match pairs_of(list.drop_last()) {
            Err(m) => Err(m),
            Ok(front) => match pair_of(list.last()) {
                Err(m) => Err(m),
                Ok(p) => Ok(front.push(p)),
            },
        }
    }
}

fn quoted(before: &str, s: &str, after: &str) -> (r: String)
    ensures
        r@ == before@ + s@ + after@,
{
    let mut r = before.to_owned();
    r.append(s);
    r.append(after);
    r
}

fn parse_pair(s: &str) -> (r: Result<(u16, u16), String>)
    ensures
        match r {
            Ok(p) => pair_of(s@) == Ok::<(u16, u16), Seq<char>>(p),
            Err(m) => pair_of(s@) == Err::<(u16, u16), Seq<char>>(m@),
        },
{
    let (l, d) = match split_once(s, ":") {
        Some(p) => p,
        None => return Err(quoted("invalid pair '", s, "' — expected local:device")),
    };
    let lp: u32 = match parse_number(l.as_str(), 10, 65535) {
        Ok(n) => n,
        Err(_) => return Err(quoted("invalid local port in '", s, "'")),
    };
    let dp: u32 = match parse_number(d.as_str(), 10, 65535) {
        Ok(n) => n,
        Err(_) => return Err(quoted("invalid device port in '", s, "'")),
    };
    if lp == 0 || dp == 0 {
        return Err(quoted("ports must be non-zero in '", s, "'"));
    }
    proof {
        text::numbers_are_bounded(l@, 10, 65535);
        text::numbers_are_bounded(d@, 10, 65535);
    }
    Ok((lp as u16, dp as u16))
}

proof fn bad_pairs_stay_bad(list: Seq<Seq<char>>, n: int)
    requires
        0 <= n <= list.len(),
        pairs_of(list.take(n)) is Err,
    ensures
        pairs_of(list) == pairs_of(list.take(n)),
    decreases list.len(),
{
    if n == list.len() {
        assert(list.take(n) =~= list);
    } else {
        assert(list.drop_last().take(n) =~= list.take(n));
        bad_pairs_stay_bad(list.drop_last(), n);
    }
}

/// Reads pairs of a local port and a port of the device.
pub fn parse_pairs(pairs: &[String]) -> (r: Result<Vec<(u16, u16)>, String>)
    ensures
        match r {
            Ok(v) => pairs_of(text::text_views(pairs@)) == Ok::<Seq<(u16, u16)>, Seq<char>>(v@),
            Err(m) => pairs_of(text::text_views(pairs@)) == Err::<Seq<(u16, u16)>, Seq<char>>(
                m@,
            ),
        },
{
    let ghost views = text::text_views(pairs@);
    let mut out: Vec<(u16, u16)> = Vec::new();
    let mut i: usize = 0;
    assert(views.take(0) =~= seq![]);
    assert(out@ =~= seq![]);
    while i < pairs.len()
        invariant
            i <= pairs@.len(),
            views == text::text_views(pairs@),
            pairs_of(views.take(i as int)) == Ok::<Seq<(u16, u16)>, Seq<char>>(out@),
        decreases pairs@.len() - i,
    {
        assert(views.take(i + 1).drop_last() =~= views.take(i as int));
        assert(views.take(i + 1).last() == pairs@[i as int]@);
        match parse_pair(pairs[i].as_str()) {
            Ok(p) => out.push(p),
            Err(m) => {
                proof {
                    bad_pairs_stay_bad(views, i + 1);
                }
                return Err(m);
            },
        }
        i = i + 1;
    }
    assert(views.take(i as int) =~= views);
    Ok(out)
}

/// Checks that there is something to tunnel.
pub fn check_pairs(pairs: &[(u16, u16)]) -> (r: Result<(), String>)
    ensures
        match r {
            Ok(_) => pairs@.len() > 0,
            Err(m) => pairs@.len() == 0 && m@
                == "at least one local:device port pair is required"@,
        },
{
    if pairs.len() == 0 {
        return Err("at least one local:device port pair is required".to_owned());
    }
    Ok(())
}

/// How the keys of the requests differ.
proof fn keys_differ()
    ensures
        "MessageType"@.len() == 11,
        "DeviceID"@.len() == 8,
        "ClientVersion"@.len() == 13,
        "ProgName"@.len() == 8,
        "kLibUSBMuxVersion"@.len() == 17,
        "PortNumber"@.len() == 10,
        "DeviceID"@ != "ProgName"@,
{
    reveal_strlit("MessageType");
    reveal_strlit("DeviceID");
    reveal_strlit("ClientVersion");
    reveal_strlit("ProgName");
    reveal_strlit("kLibUSBMuxVersion");
    reveal_strlit("PortNumber");
    assert("DeviceID"@[0] != "ProgName"@[0]);
}

proof fn new_key_goes_last(e: Seq<(Seq<char>, plists::Plist)>, k: Seq<char>, v: plists::Plist)
    requires
        forall|i: int| 0 <= i < e.len() ==> (#[trigger] e[i]).0 != k,
    ensures
        plists::inserted(e, k, v) == e.push((k, v)),
{
    plists::absent_key_is_not_found(e, k);
}

/// The entries of the request to be connected to a port of a device, from a
/// machine of this byte order. The port is in network order.
pub open spec fn connect_entries(order: ByteOrder, device_id: u32, dport: u16) -> Seq<
    (Seq<char>, plists::Plist),
> {
    seq![
        ("MessageType"@, plists::Plist::Text("Connect"@)),
        ("DeviceID"@, plists::Plist::Integer(device_id as int)),
        ("ClientVersion"@, plists::Plist::Integer(7)),
        ("ProgName"@, plists::Plist::Text("meridian-relay"@)),
        ("kLibUSBMuxVersion"@, plists::Plist::Integer(3)),
        ("PortNumber"@, plists::Plist::Integer(order.network(dport))),
    ]
}

/// The request to be connected to a port of a device.
pub fn connect_request(device_id: u32, dport: u16) -> (p: RawPacket)
    ensures
        exists|one: u16| #[trigger]
            call_ensures(u16::to_be, (1u16,), one) && p@ == protocol::answer(
                TUNNEL_TAG,
                connect_entries(bytes::order_of(one), device_id, dport),
            ),
        plists::plain(plists::Plist::Dict(p@.plist)),
{
    connect_request_in(native_order(), device_id, dport)
}

/// The request to be connected to a port of a device, from a machine of this
/// byte order.
pub fn connect_request_in(order: ByteOrder, device_id: u32, dport: u16) -> (p: RawPacket)
    ensures
        p@ == protocol::answer(TUNNEL_TAG, connect_entries(order, device_id, dport)),
        plists::plain(plists::Plist::Dict(p@.plist)),
{
    let ghost want = connect_entries(order, device_id, dport);
    proof {
        keys_differ();
        new_key_goes_last(want.take(1), want[1].0, want[1].1);
        new_key_goes_last(want.take(2), want[2].0, want[2].1);
        new_key_goes_last(want.take(3), want[3].0, want[3].1);
        new_key_goes_last(want.take(4), want[4].0, want[4].1);
        new_key_goes_last(want.take(5), want[5].0, want[5].1);
        assert forall|i: int| 0 <= i < want.len() implies plists::plain((#[trigger] want[i]).1) by {
        }
    }
    let mut d = plist::Dictionary::new();
    put_text(&mut d, "MessageType", "Connect");
    assert(plists::entries(d) =~= want.take(1));
    put_integer(&mut d, "DeviceID", device_id as u64);
    assert(plists::entries(d) =~= want.take(2));
    put_integer(&mut d, "ClientVersion", 7);
    assert(plists::entries(d) =~= want.take(3));
    put_text(&mut d, "ProgName", "meridian-relay");
    assert(plists::entries(d) =~= want.take(4));
    put_integer(&mut d, "kLibUSBMuxVersion", 3);
    assert(plists::entries(d) =~= want.take(5));
    put_integer(&mut d, "PortNumber", network16(order, dport) as u64);
    assert(plists::entries(d) =~= want);
    RawPacket::new(d, XML_PLIST_VERSION, PLIST_MESSAGE_TYPE, TUNNEL_TAG)
}

/// The entries of the request for the list of devices.
pub open spec fn list_request_entries() -> Seq<(Seq<char>, plists::Plist)> {
    seq![
        ("MessageType"@, plists::Plist::Text("ListDevices"@)),
        ("ClientVersion"@, plists::Plist::Integer(1)),
        ("ProgName"@, plists::Plist::Text("meridian-relay"@)),
        ("kLibUSBMuxVersion"@, plists::Plist::Integer(3)),
    ]
}

/// The request for the list of devices.
pub fn list_request() -> (p: RawPacket)
    ensures
        p@ == protocol::answer(TUNNEL_TAG, list_request_entries()),
        plists::plain(plists::Plist::Dict(p@.plist)),
{
    let ghost want = list_request_entries();
    proof {
        keys_differ();
        new_key_goes_last(want.take(1), want[1].0, want[1].1);
        new_key_goes_last(want.take(2), want[2].0, want[2].1);
        new_key_goes_last(want.take(3), want[3].0, want[3].1);
        assert forall|i: int| 0 <= i < want.len() implies plists::plain((#[trigger] want[i]).1) by {
        }
    }
    let mut d = plist::Dictionary::new();
    put_text(&mut d, "MessageType", "ListDevices");
    assert(plists::entries(d) =~= want.take(1));
    put_integer(&mut d, "ClientVersion", 1);
    assert(plists::entries(d) =~= want.take(2));
    put_text(&mut d, "ProgName", "meridian-relay");
    assert(plists::entries(d) =~= want.take(3));
    put_integer(&mut d, "kLibUSBMuxVersion", 3);
    assert(plists::entries(d) =~= want);
    RawPacket::new(d, XML_PLIST_VERSION, PLIST_MESSAGE_TYPE, TUNNEL_TAG)
}

/// The number of a device by its entry in a list: the entry's own, or else
/// the one among its properties.
pub open spec fn number_listed(d: Seq<(Seq<char>, plists::Plist)>) -> Option<int> {
    match plists::unsigned_of(plists::lookup(d, "DeviceID"@)) {
        Some(n) => Some(n),
        None => match plists::dict_of(plists::lookup(d, "Properties"@)) {
            Some(p) => plists::unsigned_of(plists::lookup(p, "DeviceID"@)),
            None => None,
        },
    }
}

/// The number of a device by its entry in a list.
fn read_number(d: &plist::Dictionary) -> (r: Option<u64>)
    ensures
        number_listed(plists::entries(*d)) == match r {
            Some(n) => Some(n as int),
            None => None,
        },
{
    if let Some(n) = get_unsigned(d, "DeviceID") {
        return Some(n);
    }
    match d.get("Properties") {
        Some(v) => match v.as_dictionary() {
            Some(p) => get_unsigned(p, "DeviceID"),
            None => None,
        },
        None => None,
    }
}

/// The first device in the answer to a request for the list.
pub open spec fn first_listed(e: Seq<(Seq<char>, plists::Plist)>) -> Result<u32, Seq<char>> {
    match plists::array_of(plists::lookup(e, "DeviceList"@)) {
        None => Err("no DeviceList in upstream reply"@),
        Some(list) => {
            let number = if list.len() == 0 {
                None
            } else {
                match plists::dict_of(Some(list[0])) {
                    Some(d) => number_listed(d),
                    None => None,
                }
            };
            match number {
                Some(n) => Ok((n % 0x1_0000_0000) as u32),
                None => Err("no devices connected"@),
            }
        },
    }
}

/// Finds the first device in the answer to a request for the list.
pub fn first_device(response: &RawPacket) -> (r: Result<u32, String>)
    ensures
        match r {
            Ok(id) => first_listed(response@.plist) == Ok::<u32, Seq<char>>(id),
            Err(m) => first_listed(response@.plist) == Err::<u32, Seq<char>>(m@),
        },
{
    let found = match response.plist.get("DeviceList") {
        Some(v) => v.as_array(),
        None => None,
    };
    let list: &Vec<plist::Value> = match found {
        Some(a) => a,
        None => return Err("no DeviceList in upstream reply".to_owned()),
    };
    if list.len() > 0 {
        assert(plists::contents_of(list@)[0] == plists::contents(list@[0]));
        if let Some(d) = list[0].as_dictionary() {
            if let Some(n) = read_number(d) {
                return Ok((n % 0x1_0000_0000) as u32);
            }
        }
    }
    Err("no devices connected".to_owned())
}

/// In the list that the daemon gives, the first device is found, if there is
/// any; and if there is none, that is what is said.
pub proof fn daemon_lists_are_understood(devices: Seq<device_scanner::UsbDeviceView>)
    ensures
        first_listed(protocol::list_entries(devices)) == if devices.len() > 0 {
            Ok::<u32, Seq<char>>(devices[0].device_id)
        } else {
            Err("no devices connected"@)
        },
{
    let e = protocol::list_entries(devices);
    reveal_with_fuel(plists::lookup, 7);
    let list = devices.map_values(|d: device_scanner::UsbDeviceView| protocol::listed(d));
    assert(plists::lookup(e, "DeviceList"@) == Some(plists::Plist::Array(list)));
    if devices.len() > 0 {
        let d = devices[0];
        reveal_strlit("DeviceID");
        reveal_strlit("ConnectionType");
        reveal_strlit("SerialNumber");
        reveal_strlit("ProductID");
        reveal_strlit("LocationID");
        reveal_strlit("Port");
        reveal_strlit("Properties");
        let entry = seq![
            ("Properties"@, plists::Plist::Dict(protocol::device_properties(d))),
        ];
        assert(list[0] == plists::Plist::Dict(entry));
        assert("Properties"@.len() == 10 && "DeviceID"@.len() == 8);
        assert(plists::lookup(entry, "DeviceID"@) is None) by {
            plists::absent_key_is_not_found(entry, "DeviceID"@);
        }
        assert(entry.last() == entry[0]);
        let p = protocol::device_properties(d);
        let p1 = p.take(1);
        assert("ConnectionType"@.len() == 14 && "SerialNumber"@.len() == 12);
        assert("ProductID"@.len() == 9 && "LocationID"@.len() == 10 && "Port"@.len() == 4);
        assert(p.drop_last().drop_last().drop_last().drop_last().drop_last() =~= p1);
        assert(plists::lookup(p1, "DeviceID"@) == Some(
            plists::Plist::Integer(d.device_id as int),
        ));
        assert(plists::lookup(p, "DeviceID"@) == plists::lookup(p1, "DeviceID"@));
        assert(number_listed(entry) == Some(d.device_id as int));
    }
}

/// Checks the answer to a connection request.
pub fn check_connected(response: &RawPacket) -> (r: Result<(), String>)
    ensures
        match r {
            Ok(_) => lockdown::result_number(response@.plist) == 0,
            Err(m) => {
                let n = lockdown::result_number(response@.plist);
                n != 0 && m@ == "device rejected Connect with code "@ + text::decimal(n as nat)
            },
        },
{
    let n: u64 = number_in(response);
    if n != 0 {
        let mut m = "device rejected Connect with code ".to_owned();
        push_decimal(&mut m, n);
        return Err(m);
    }
    Ok(())
}

/// Counts a connection to a tunnel.
pub fn tunnel_accepted(metrics: &mut Metrics)
    ensures
        *final(metrics) == (Metrics {
            clients_accepted: old(metrics).clients_accepted.wrapping_add(1),
            ..*old(metrics)
        }),
{
    metrics.clients_accepted = metrics.clients_accepted.wrapping_add(1);
}

/// Counts a connection that reached the device.
pub fn tunnel_opened(metrics: &mut Metrics)
    ensures
        *final(metrics) == (Metrics {
            connects_total: old(metrics).connects_total.wrapping_add(1),
            ..*old(metrics)
        }),
{
    metrics.connects_total = metrics.connects_total.wrapping_add(1);
}

/// Counts the bytes that passed through a tunnel.
pub fn tunnel_closed(from_client: u64, to_client: u64, metrics: &mut Metrics)
    ensures
        *final(metrics) == (Metrics {
            client_rx_bytes: old(metrics).client_rx_bytes.wrapping_add(from_client),
            client_tx_bytes: old(metrics).client_tx_bytes.wrapping_add(to_client),
            ..*old(metrics)
        }),
{
    metrics.client_rx_bytes = metrics.client_rx_bytes.wrapping_add(from_client);
    metrics.client_tx_bytes = metrics.client_tx_bytes.wrapping_add(to_client);
}

/// The daemon takes a tunnel's request for what it is: with the device
/// attached, the port that was asked for is opened, unless it is the lockdown
/// port and a pair record is required.
pub proof fn connect_request_is_understood(
    order: ByteOrder,
    devices: Map<u32, device_scanner::UsbDeviceView>,
    device_id: u32,
    dport: u16,
    require_pair_record: bool,
)
    requires
        device_id != 0,
        dport != 0,
        devices.contains_key(device_id),
        dport != connection::LOCKDOWN_PORT || !require_pair_record,
    ensures
        connection::action(
            protocol::answer(TUNNEL_TAG, connect_entries(order, device_id, dport)),
            order,
            devices,
            require_pair_record,
        ) == (connection::ClientActionView::OpenChannel {
            device_id,
            port: dport,
            tag: TUNNEL_TAG,
        }),
{
    keys_differ();
    let e = connect_entries(order, device_id, dport);
    let e5 = e.drop_last();
    let e4 = e5.drop_last();
    let e3 = e4.drop_last();
    let e2 = e3.drop_last();
    let e1 = e2.drop_last();
    reveal_with_fuel(plists::lookup, 7);
    assert(plists::lookup(e1, "MessageType"@) == Some(plists::Plist::Text("Connect"@)));
    assert(plists::lookup(e, "MessageType"@) == plists::lookup(e1, "MessageType"@));
    assert(plists::lookup(e2, "DeviceID"@) == Some(plists::Plist::Integer(device_id as int)));
    assert(plists::lookup(e, "DeviceID"@) == plists::lookup(e2, "DeviceID"@));
    assert(plists::lookup(e, "PortNumber"@) == Some(
        plists::Plist::Integer(order.network(dport)),
    ));
    bytes::network_order_is_undone(order, dport);
    reveal_strlit("Connect");
    reveal_strlit("ListDevices");
    reveal_strlit("Listen");
    assert("Connect"@.len() == 7);
    assert("ListDevices"@.len() == 11);
    assert("Listen"@.len() == 6);
}

/// Pairs that are accepted name no port zero.
pub proof fn accepted_pairs_name_ports(list: Seq<Seq<char>>)
    requires
        pairs_of(list) is Ok,
    ensures
        pairs_of(list)->Ok_0.len() == list.len(),
        forall|i: int|
            0 <= i < list.len() ==> (#[trigger] pairs_of(list)->Ok_0[i]).0 != 0
                && pairs_of(list)->Ok_0[i].1 != 0,
    decreases list.len(),
{
    if list.len() > 0 {
        accepted_pairs_name_ports(list.drop_last());
        let (l, d) = text::split_at_first(list.last(), ":"@).unwrap();
        text::numbers_are_bounded(l, 10, 65535);
        text::numbers_are_bounded(d, 10, 65535);
    }
}

/// A pair as it is written: the local port, a colon, and the device's port.
pub open spec fn written_pair(local: u16, remote: u16) -> Seq<char> {
    text::decimal(local as nat) + seq![':'] + text::decimal(remote as nat)
}

proof fn pairs_are_split(l: Seq<char>, d: Seq<char>)
    requires
        !l.contains(':'),
    ensures
        text::split_at_first(l + seq![':'] + d, ":"@) == Some((l, d)),
{
    reveal_strlit(":");
    assert(":"@ =~= seq![':']);
    let s = l + seq![':'] + d;
    let i = l.len() as int;
    assert(s.subrange(i, i + 1) =~= seq![':']);
    assert forall|j: int| 0 <= j < i implies !text::stands_at(s, j, ":"@) by {
        assert(s.subrange(j, j + 1)[0] == l[j]);
        assert(l.contains(l[j]));
    }
    assert(text::first_at(s, ":"@, Some(i)));
    text::first_at_is_unique(s, ":"@, i);
    assert(s.take(i) =~= l);
    assert(s.skip(i + 1) =~= d);
}

proof fn numbers_have_no_colon(n: nat)
    ensures
        !text::decimal(n).contains(':'),
{
    text::decimal_is_digits(n);
}

/// The number before the colon is the local port, and the one behind it is the
/// device's.
pub proof fn written_pairs_read_back(local: u16, remote: u16)
    requires
        local != 0,
        remote != 0,
    ensures
        pair_of(written_pair(local, remote)) == Ok::<(u16, u16), Seq<char>>((local, remote)),
{
    numbers_have_no_colon(local as nat);
    pairs_are_split(text::decimal(local as nat), text::decimal(remote as nat));
    text::decimal_reads_back(local as nat, 65535);
    text::decimal_reads_back(remote as nat, 65535);
}

/// All pairs are read, in the order in which they are given.
pub proof fn written_lists_read_back(pairs: Seq<(u16, u16)>)
    requires
        forall|i: int|
            0 <= i < pairs.len() ==> (#[trigger] pairs[i]).0 != 0 && pairs[i].1 != 0,
    ensures
        pairs_of(pairs.map_values(|p: (u16, u16)| written_pair(p.0, p.1))) == Ok::<
            Seq<(u16, u16)>,
            Seq<char>,
        >(pairs),
    decreases pairs.len(),
{
    let list = pairs.map_values(|p: (u16, u16)| written_pair(p.0, p.1));
    if pairs.len() > 0 {
        let front = pairs.drop_last();
        written_lists_read_back(front);
        assert(list.drop_last() =~= front.map_values(|p: (u16, u16)| written_pair(p.0, p.1)));
        written_pairs_read_back(pairs.last().0, pairs.last().1);
        assert(front.push(pairs.last()) =~= pairs);
    } else {
        assert(pairs =~= seq![]);
    }
}

/// No port is zero and none is above 65535: such pairs are refused, and so is
/// a text without a colon. The message repeats the text.
pub proof fn bad_pairs_are_refused(local: nat, remote: nat, s: Seq<char>)
    ensures
        local == 0 && remote <= 65535 || remote == 0 && local <= 65535 ==> pair_of(
            text::decimal(local) + seq![':'] + text::decimal(remote),
        ) == Err::<(u16, u16), Seq<char>>(
            "ports must be non-zero in '"@ + (text::decimal(local) + seq![':'] + text::decimal(
                remote,
            )) + "'"@,
        ),
        !s.contains(':') ==> pair_of(s) == Err::<(u16, u16), Seq<char>>(
            "invalid pair '"@ + s + "' — expected local:device"@,
        ),
        pair_of(s) matches Ok((l, d)) ==> l != 0 && d != 0,
{
    numbers_have_no_colon(local);
    pairs_are_split(text::decimal(local), text::decimal(remote));
    if local <= 65535 && remote <= 65535 {
        text::decimal_reads_back(local, 65535);
        text::decimal_reads_back(remote, 65535);
    }
    if !s.contains(':') {
        reveal_strlit(":");
        assert(":"@ =~= seq![':']);
        if text::contains_text(s, ":"@) {
            let i = choose|i: int| text::stands_at(s, i, ":"@);
            assert(s.subrange(i, i + 1)[0] == s[i]);
            assert(s.contains(s[i]));
        }
    }
    if let Some((l, d)) = text::split_at_first(s, ":"@) {
        text::numbers_are_bounded(l, 10, 65535);
        text::numbers_are_bounded(d, 10, 65535);
    }
}

/// A pair whose local port is no number is refused for that, and else one
/// whose device port is none.
pub proof fn ports_must_be_numbers(l: Seq<char>, d: Seq<char>)
    requires
        !l.contains(':'),
    ensures
        ({
            let s = l + seq![':'] + d;
            &&& text::number(l, 10, 65535) is Err ==> pair_of(s) == Err::<(u16, u16), Seq<char>>(
                "invalid local port in '"@ + s + "'"@,
            )
            &&& text::number(l, 10, 65535) is Ok && text::number(d, 10, 65535) is Err ==> pair_of(s)
                == Err::<(u16, u16), Seq<char>>("invalid device port in '"@ + s + "'"@)
        }),
{
    pairs_are_split(l, d);
}

/// One bad pair spoils the list, and the first bad one is what is said.
pub proof fn first_bad_pair_is_told(list: Seq<Seq<char>>, i: int)
    requires
        0 <= i < list.len(),
        pair_of(list[i]) is Err,
        forall|j: int| 0 <= j < i ==> pair_of(#[trigger] list[j]) is Ok,
    ensures
        pairs_of(list) is Err,
        pairs_of(list)->Err_0 == pair_of(list[i])->Err_0,
    decreases list.len(),
{
    if i == list.len() - 1 {
        good_pairs_are_all_read(list.drop_last());
    } else {
        first_bad_pair_is_told(list.drop_last(), i);
    }
}

proof fn good_pairs_are_all_read(list: Seq<Seq<char>>)
    requires
        forall|j: int| 0 <= j < list.len() ==> pair_of(#[trigger] list[j]) is Ok,
    ensures
        pairs_of(list) is Ok,
    decreases list.len(),
{
    if list.len() > 0 {
        assert forall|j: int| 0 <= j < list.drop_last().len() implies pair_of(
            #[trigger] list.drop_last()[j],
        ) is Ok by {
            assert(list.drop_last()[j] == list[j]);
        }
        good_pairs_are_all_read(list.drop_last());
        assert(pair_of(list[list.len() - 1]) is Ok);
    }
}

/// The request for the list asks for it, and the request to connect names the
/// device and, in network order, the port.
pub proof fn requests_say_what_they_ask_for(order: ByteOrder, device_id: u32, dport: u16)
    ensures
        plists::lookup(list_request_entries(), "MessageType"@) == Some(
            plists::Plist::Text("ListDevices"@),
        ),
        ({
            let e = connect_entries(order, device_id, dport);
            &&& plists::lookup(e, "MessageType"@) == Some(plists::Plist::Text("Connect"@))
            &&& plists::lookup(e, "DeviceID"@) == Some(plists::Plist::Integer(device_id as int))
            &&& plists::lookup(e, "PortNumber"@) == Some(
                plists::Plist::Integer(
                    if order == ByteOrder::Big {
                        dport as int
                    } else {
                        dport % 256 * 256 + dport / 256
                    },
                ),
            )
        }),
{
    keys_differ();
    reveal_with_fuel(plists::lookup, 7);
    let l = list_request_entries();
    assert(l.drop_last().drop_last().drop_last().last().0 == "MessageType"@);
    let e = connect_entries(order, device_id, dport);
    let e2 = e.drop_last().drop_last().drop_last().drop_last();
    assert(e2.last().0 == "DeviceID"@);
    assert(plists::lookup(e2, "DeviceID"@) == Some(plists::Plist::Integer(device_id as int)));
    assert(e2.drop_last().last().0 == "MessageType"@);
    assert(plists::lookup(e2, "MessageType"@) == Some(plists::Plist::Text("Connect"@)));
    assert(plists::lookup(e, "DeviceID"@) == plists::lookup(e2, "DeviceID"@));
    assert(plists::lookup(e, "MessageType"@) == plists::lookup(e2, "MessageType"@));
}

} // verus!
