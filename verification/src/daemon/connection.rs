//! What clients ask for, and what they are answered.
use crate::bytes::{network16, ByteOrder};
use crate::config::DaemonConfig;
use crate::daemon::conn_table;
use crate::daemon::conn_table::{ConnState, ConnectionManager};
use crate::daemon::device_scanner;
use crate::daemon::device_scanner::{DeviceChange, DeviceScanner, UsbDevice};
use crate::daemon::protocol;
use crate::daemon::protocol::{
    make_attached_event, make_detached_event, make_device_list_response, make_result_response,
    PacketError, RawPacket, PLIST_MESSAGE_TYPE, XML_PLIST_VERSION,
};
use crate::daemon::protocol::result;
use crate::metrics::Metrics;
use crate::platform::PeerIdentity;
use crate::plists;
use crate::plists::{data_value, get_data, get_text, get_unsigned, put_text};
use crate::security;
use crate::security::{contains_uid, validate_udid};
use crate::text;
use crate::text::{joined, same};
use vstd::prelude::*;

verus! {

/// The port of the service that gives out the device's secrets.
pub const LOCKDOWN_PORT: u16 = 62078;

/// The most bytes that a pair record may have: 4 MiB.
pub const MAX_PAIR_RECORD_BYTES: usize = 4194304;

/// Whether a client may connect. A list of user numbers, where there is one,
/// decides alone; then a list of security identifiers; with neither, everyone
/// may. A client that the list cannot be held against is refused.
pub open spec fn allowed(
    uid: Option<u32>,
    sid: Option<Seq<char>>,
    allowed_uids: Seq<u32>,
    allowed_sids: Seq<Seq<char>>,
) -> bool {
    if allowed_uids.len() > 0 {
        uid is Some && allowed_uids.contains(uid.unwrap())
    } else if allowed_sids.len() > 0 {
        sid is Some && allowed_sids.contains(sid.unwrap())
    } else {
        true
    }
}

/// The user number that a client is known by.
pub open spec fn peer_uid(peer: PeerIdentity) -> Option<u32> {
    match peer.credentials {
        Some(c) => Some(c.uid),
        None => None,
    }
}

/// Whether a text is on the list.
fn contains_sid(list: &Vec<String>, sid: &str) -> (b: bool)
    ensures
        b == text::text_views(list@).contains(sid@),
{
    let mut i: usize = 0;
    while i < list.len()
        invariant
            i <= list@.len(),
            forall|j: int| 0 <= j < i ==> (#[trigger] text::text_views(list@)[j]) != sid@,
        decreases list@.len() - i,
    {
        if same(list[i].as_str(), sid) {
            assert(text::text_views(list@)[i as int] == sid@);
            return true;
        }
        i = i + 1;
    }
    false
}

pub fn peer_is_allowed(peer: &PeerIdentity, config: &DaemonConfig) -> (b: bool)
    ensures
        b == allowed(
            peer_uid(*peer),
            text::opt_view(peer.sid),
            config@.allowed_uids,
            config@.allowed_sids,
        ),
{
    if config.allowed_uids.len() > 0 {
        return match &peer.credentials {
            Some(creds) => contains_uid(config.allowed_uids.as_slice(), creds.uid),
            None => false,
        };
    }
    if config.allowed_sids.len() > 0 {
        return match &peer.sid {
            Some(sid) => contains_sid(&config.allowed_sids, sid.as_str()),
            None => false,
        };
    }
    true
}

/// Counts a client in, and turns it away if it may not connect.
pub fn admit_client(peer: &PeerIdentity, config: &DaemonConfig, metrics: &mut Metrics) -> (ok: bool)
    ensures
        ok == allowed(
            peer_uid(*peer),
            text::opt_view(peer.sid),
            config@.allowed_uids,
            config@.allowed_sids,
        ),
        *final(metrics) == if ok {
            Metrics {
                clients_accepted: old(metrics).clients_accepted.wrapping_add(1),
                clients_active: old(metrics).clients_active.wrapping_add(1),
                ..*old(metrics)
            }
        } else {
            Metrics {
                clients_accepted: old(metrics).clients_accepted.wrapping_add(1),
                clients_rejected: old(metrics).clients_rejected.wrapping_add(1),
                ..*old(metrics)
            }
        },
{
    metrics.clients_accepted = metrics.clients_accepted.wrapping_add(1);
    metrics.clients_active = metrics.clients_active.wrapping_add(1);
    if !peer_is_allowed(peer, config) {
        metrics.clients_rejected = metrics.clients_rejected.wrapping_add(1);
        metrics.clients_active = metrics.clients_active.wrapping_sub(1);
        return false;
    }
    true
}

/// Counts a client out.
pub fn client_left(metrics: &mut Metrics)
    ensures
        *final(metrics) == (Metrics {
            clients_active: old(metrics).clients_active.wrapping_sub(1),
            ..*old(metrics)
        }),
{
    metrics.clients_active = metrics.clients_active.wrapping_sub(1);
}

/// Why a client's stream ended.
pub open spec fn read_failure(e: protocol::PacketErrorView) -> Seq<char> {
    match e {
        protocol::PacketErrorView::UnexpectedEof => "client disconnected"@,
        protocol::PacketErrorView::Invalid(m) => "failed to read packet: "@ + m,
    }
}

/// Why a client's stream ended.
pub fn read_failure_text(e: &PacketError) -> (s: String)
    ensures
        s@ == read_failure(e@),
{
    match e {
        PacketError::UnexpectedEof => "client disconnected".to_owned(),
        PacketError::Invalid(m) => joined("failed to read packet: ", m.as_str()),
    }
}

/// What to do about a packet.
#[derive(Debug)]
pub enum ClientAction {
    /// Send an answer. If it is `required`, failing to send it ends the
    /// client; otherwise the next packet is read all the same.
    Respond { packet: RawPacket, required: bool },
    /// Answer with the list of devices.
    ListDevices { tag: u32 },
    /// Send the answer, then every change of the devices.
    Subscribe { packet: RawPacket },
    /// Find out whether there is a pair record for the device, first.
    CheckPairRecord { device_id: u32, port: u16, tag: u32, udid: String },
    /// Connect to a port of a device.
    OpenChannel { device_id: u32, port: u16, tag: u32 },
    /// Answer with the host's identifier.
    ReadBuid { tag: u32 },
    /// Answer with a pair record.
    ReadPairRecord { tag: u32, id: String },
    /// Store a pair record.
    SavePairRecord { tag: u32, id: String, data: Vec<u8> },
    /// Remove a pair record.
    DeletePairRecord { tag: u32, id: String },
    /// Answer with the counters.
    Stats { tag: u32 },
}

/// A `ClientAction` with packets, texts and data as their views.
pub ghost enum ClientActionView {
    Respond { packet: protocol::PacketView, required: bool },
    ListDevices { tag: u32 },
    Subscribe { packet: protocol::PacketView },
    CheckPairRecord { device_id: u32, port: u16, tag: u32, udid: Seq<char> },
    OpenChannel { device_id: u32, port: u16, tag: u32 },
    ReadBuid { tag: u32 },
    ReadPairRecord { tag: u32, id: Seq<char> },
    SavePairRecord { tag: u32, id: Seq<char>, data: Seq<u8> },
    DeletePairRecord { tag: u32, id: Seq<char> },
    Stats { tag: u32 },
}

impl View for ClientAction {
    type V = ClientActionView;

    open spec fn view(&self) -> ClientActionView {
        match self {
            ClientAction::Respond { packet, required } => ClientActionView::Respond {
                packet: packet@,
                required: *required,
            },
            ClientAction::ListDevices { tag } => ClientActionView::ListDevices { tag: *tag },
            ClientAction::Subscribe { packet } => ClientActionView::Subscribe { packet: packet@ },
            ClientAction::CheckPairRecord {
                device_id,
                port,
                tag,
                udid,
            } => ClientActionView::CheckPairRecord {
                device_id: *device_id,
                port: *port,
                tag: *tag,
                udid: udid@,
            },
            ClientAction::OpenChannel { device_id, port, tag } => ClientActionView::OpenChannel {
                device_id: *device_id,
                port: *port,
                tag: *tag,
            },
            ClientAction::ReadBuid { tag } => ClientActionView::ReadBuid { tag: *tag },
            ClientAction::ReadPairRecord { tag, id } => ClientActionView::ReadPairRecord {
                tag: *tag,
                id: id@,
            },
            ClientAction::SavePairRecord { tag, id, data } => ClientActionView::SavePairRecord {
                tag: *tag,
                id: id@,
                data: data@,
            },
            ClientAction::DeletePairRecord { tag, id } => ClientActionView::DeletePairRecord {
                tag: *tag,
                id: id@,
            },
            ClientAction::Stats { tag } => ClientActionView::Stats { tag: *tag },
        }
    }
}

/// A `Result` answer that must reach the client.
pub open spec fn refusal(tag: u32, number: u32) -> ClientActionView {
    ClientActionView::Respond {
        packet: protocol::answer(tag, protocol::result_entries(number)),
        required: true,
    }
}

/// A `Result` answer that need not reach the client.
pub open spec fn lenient_refusal(tag: u32, number: u32) -> ClientActionView {
    ClientActionView::Respond {
        packet: protocol::answer(tag, protocol::result_entries(number)),
        required: false,
    }
}

/// The number under a key, or zero.
pub open spec fn number_under(e: Seq<(Seq<char>, plists::Plist)>, key: Seq<char>) -> int {
    match plists::unsigned_of(plists::lookup(e, key)) {
        Some(n) => n,
        None => 0,
    }
}

/// The device that a connection request names: the low 32 bits.
pub open spec fn requested_device(e: Seq<(Seq<char>, plists::Plist)>) -> u32 {
    (number_under(e, "DeviceID"@) % 0x1_0000_0000) as u32
}

/// The port that a connection request names, to a machine of this byte order:
/// the low 16 bits, which come in network order.
pub open spec fn requested_port(e: Seq<(Seq<char>, plists::Plist)>, order: ByteOrder) -> u16 {
    order.network((number_under(e, "PortNumber"@) % 0x1_0000) as u16) as u16
}

/// What to do about a request to connect.
pub open spec fn connect_action(
    p: protocol::PacketView,
    order: ByteOrder,
    devices: Map<u32, device_scanner::UsbDeviceView>,
    require_pair_record: bool,
) -> ClientActionView {
    let device_id = requested_device(p.plist);
    let port = requested_port(p.plist, order);
    if device_id == 0 {
        refusal(p.tag, result::BAD_DEVICE)
    } else if port == 0 {
        refusal(p.tag, result::BAD_COMMAND)
    } else if !devices.contains_key(device_id) {
        refusal(p.tag, result::BAD_DEVICE)
    } else if port == LOCKDOWN_PORT && require_pair_record {
        ClientActionView::CheckPairRecord {
            device_id,
            port,
            tag: p.tag,
            udid: devices[device_id].udid,
        }
    } else {
        ClientActionView::OpenChannel { device_id, port, tag: p.tag }
    }
}

/// The pair record that a packet names, if it may name it.
pub open spec fn named_record(p: protocol::PacketView) -> Option<Seq<char>> {
    match plists::text_of(plists::lookup(p.plist, "PairRecordID"@)) {
        Some(id) => if security::udid_fault(id) is None {
            Some(id)
        } else {
            None
        },
        None => None,
    }
}

/// What to do about a pair record to store: it must have a name, and data
/// within the limit.
pub open spec fn save_action(p: protocol::PacketView) -> ClientActionView {
    match (named_record(p), plists::data_of(plists::lookup(p.plist, "PairRecordData"@))) {
        (Some(id), Some(data)) => if data.len() <= MAX_PAIR_RECORD_BYTES {
            ClientActionView::SavePairRecord { tag: p.tag, id, data }
        } else {
            lenient_refusal(p.tag, result::BAD_COMMAND)
        },
        _ => lenient_refusal(p.tag, result::BAD_COMMAND),
    }
}

/// What to do about a packet.
pub open spec fn action(
    p: protocol::PacketView,
    order: ByteOrder,
    devices: Map<u32, device_scanner::UsbDeviceView>,
    require_pair_record: bool,
) -> ClientActionView {
    match plists::text_of(plists::lookup(p.plist, "MessageType"@)) {
        None => refusal(p.tag, result::BAD_COMMAND),
        Some(kind) => if kind == "ListDevices"@ {
            ClientActionView::ListDevices { tag: p.tag }
        } else if kind == "Listen"@ {
            ClientActionView::Subscribe {
                packet: protocol::answer(p.tag, protocol::result_entries(result::OK)),
            }
        } else if kind == "Connect"@ {
            connect_action(p, order, devices, require_pair_record)
        } else if kind == "ReadBUID"@ {
            ClientActionView::ReadBuid { tag: p.tag }
        } else if kind == "ReadPairRecord"@ {
            match named_record(p) {
                Some(id) => ClientActionView::ReadPairRecord { tag: p.tag, id },
                None => lenient_refusal(p.tag, result::BAD_COMMAND),
            }
        } else if kind == "SavePairRecord"@ {
            save_action(p)
        } else if kind == "DeletePairRecord"@ {
            match named_record(p) {
                Some(id) => ClientActionView::DeletePairRecord { tag: p.tag, id },
                None => lenient_refusal(p.tag, result::BAD_COMMAND),
            }
        } else if kind == "MeridianStats"@ {
            ClientActionView::Stats { tag: p.tag }
        } else {
            refusal(p.tag, result::BAD_COMMAND)
        },
    }
}

/// The counters after a packet of this kind.
pub open spec fn counted(m: Metrics, kind: Option<Seq<char>>) -> Metrics {
    Metrics {
        commands_total: m.commands_total.wrapping_add(1),
        list_devices_total: if kind == Some("ListDevices"@) {
            m.list_devices_total.wrapping_add(1)
        } else {
            m.list_devices_total
        },
        connects_total: if kind == Some("Connect"@) {
            m.connects_total.wrapping_add(1)
        } else {
            m.connects_total
        },
        ..m
    }
}

/// A `Result` answer.
fn respond(tag: u32, number: u32, required: bool) -> (a: ClientAction)
    ensures
        a@ == (ClientActionView::Respond {
            packet: protocol::answer(tag, protocol::result_entries(number)),
            required,
        }),
{
    ClientAction::Respond { packet: make_result_response(tag, number), required }
}

/// The number under a key, or zero.
fn number_or_zero(packet: &RawPacket, key: &str) -> (n: u64)
    ensures
        n == number_under(packet@.plist, key@),
{
    match get_unsigned(&packet.plist, key) {
        Some(n) => n,
        None => 0,
    }
}

/// What to do about a request to connect.
fn handle_connect(
    packet: &RawPacket,
    order: ByteOrder,
    scanner: &DeviceScanner,
    config: &DaemonConfig,
) -> (a: ClientAction)
    ensures
        a@ == connect_action(packet@, order, scanner.state().devices, config@.require_pair_record),
{
    let device_id: u32 = (number_or_zero(packet, "DeviceID") % 0x1_0000_0000) as u32;
    let raw: u16 = (number_or_zero(packet, "PortNumber") % 0x1_0000) as u16;
    let port: u16 = network16(order, raw);
    if device_id == 0 {
        return respond(packet.tag, result::BAD_DEVICE, true);
    }
    if port == 0 {
        return respond(packet.tag, result::BAD_COMMAND, true);
    }
    match scanner.get_device_by_id(device_id) {
        None => respond(packet.tag, result::BAD_DEVICE, true),
        Some(device) => {
            if port == LOCKDOWN_PORT && config.require_pair_record {
                ClientAction::CheckPairRecord {
                    device_id,
                    port,
                    tag: packet.tag,
                    udid: device.udid,
                }
            } else {
                ClientAction::OpenChannel { device_id, port, tag: packet.tag }
            }
        },
    }
}

/// The pair record that a packet names, if it may name it.
fn record_id(packet: &RawPacket) -> (r: Option<String>)
    ensures
        text::opt_view(r) == named_record(packet@),
{
    match get_text(&packet.plist, "PairRecordID") {
        Some(id) => match validate_udid(id.as_str()) {
            Ok(_) => Some(id),
            Err(_) => None,
        },
        None => None,
    }
}

/// Decides what a client's packet asks for, on a machine of this byte order,
/// and counts it.
pub fn handle_packet(
    packet: &RawPacket,
    order: ByteOrder,
    scanner: &DeviceScanner,
    config: &DaemonConfig,
    metrics: &mut Metrics,
) -> (a: ClientAction)
    ensures
        a@ == action(packet@, order, scanner.state().devices, config@.require_pair_record),
        *final(metrics) == counted(
            *old(metrics),
            plists::text_of(plists::lookup(packet@.plist, "MessageType"@)),
        ),
{
    proof {
        reveal_strlit("ListDevices");
        reveal_strlit("Listen");
        reveal_strlit("Connect");
        assert("ListDevices"@.len() == 11 && "Listen"@.len() == 6 && "Connect"@.len() == 7);
    }
    metrics.commands_total = metrics.commands_total.wrapping_add(1);
    let kind = match get_text(&packet.plist, "MessageType") {
        Some(k) => k,
        None => return respond(packet.tag, result::BAD_COMMAND, true),
    };
    if same(kind.as_str(), "ListDevices") {
        metrics.list_devices_total = metrics.list_devices_total.wrapping_add(1);
        ClientAction::ListDevices { tag: packet.tag }
    } else if same(kind.as_str(), "Listen") {
        ClientAction::Subscribe { packet: make_result_response(packet.tag, result::OK) }
    } else if same(kind.as_str(), "Connect") {
        metrics.connects_total = metrics.connects_total.wrapping_add(1);
        handle_connect(packet, order, scanner, config)
    } else if same(kind.as_str(), "ReadBUID") {
        ClientAction::ReadBuid { tag: packet.tag }
    } else if same(kind.as_str(), "ReadPairRecord") {
        match record_id(packet) {
            Some(id) => ClientAction::ReadPairRecord { tag: packet.tag, id },
            None => respond(packet.tag, result::BAD_COMMAND, false),
        }
    } else if same(kind.as_str(), "SavePairRecord") {
        match (record_id(packet), get_data(&packet.plist, "PairRecordData")) {
            (Some(id), Some(data)) => {
                if data.len() > MAX_PAIR_RECORD_BYTES {
                    respond(packet.tag, result::BAD_COMMAND, false)
                } else {
                    ClientAction::SavePairRecord { tag: packet.tag, id, data }
                }
            },
            _ => respond(packet.tag, result::BAD_COMMAND, false),
        }
    } else if same(kind.as_str(), "DeletePairRecord") {
        match record_id(packet) {
            Some(id) => ClientAction::DeletePairRecord { tag: packet.tag, id },
            None => respond(packet.tag, result::BAD_COMMAND, false),
        }
    } else if same(kind.as_str(), "MeridianStats") {
        ClientAction::Stats { tag: packet.tag }
    } else {
        respond(packet.tag, result::BAD_COMMAND, true)
    }
}

/// What follows once it is known whether there is a pair record.
pub open spec fn checked_action(
    device_id: u32,
    port: u16,
    tag: u32,
    has_record: bool,
) -> ClientActionView {
    if has_record {
        ClientActionView::OpenChannel { device_id, port, tag }
    } else {
        refusal(tag, result::PAIR_RECORD_REQUIRED)
    }
}

/// Decides a connection to the lockdown port once it is known whether there
/// is a pair record.
pub fn after_pair_check(device_id: u32, port: u16, tag: u32, has_record: bool) -> (a: ClientAction)
    ensures
        a@ == checked_action(device_id, port, tag, has_record),
{
    if has_record {
        ClientAction::OpenChannel { device_id, port, tag }
    } else {
        respond(tag, result::PAIR_RECORD_REQUIRED, true)
    }
}

/// The answer once a connection was opened, or was not; a failure is counted.
pub fn after_connect(tag: u32, opened: bool, metrics: &mut Metrics) -> (p: RawPacket)
    ensures
        p@ == protocol::answer(
            tag,
            protocol::result_entries(
                if opened {
                    result::OK
                } else {
                    result::CONNECTION_REFUSED
                },
            ),
        ),
        *final(metrics) == if opened {
            *old(metrics)
        } else {
            Metrics {
                connect_failures: old(metrics).connect_failures.wrapping_add(1),
                ..*old(metrics)
            }
        },
{
    if opened {
        make_result_response(tag, result::OK)
    } else {
        metrics.connect_failures = metrics.connect_failures.wrapping_add(1);
        make_result_response(tag, result::CONNECTION_REFUSED)
    }
}

/// Counts a connection whose data is passed on.
pub fn proxy_started(metrics: &mut Metrics)
    ensures
        *final(metrics) == (Metrics {
            proxies_started: old(metrics).proxies_started.wrapping_add(1),
            ..*old(metrics)
        }),
{
    metrics.proxies_started = metrics.proxies_started.wrapping_add(1);
}

/// Counts a connection whose data is no longer passed on.
pub fn proxy_ended(metrics: &mut Metrics)
    ensures
        *final(metrics) == (Metrics {
            proxies_ended: old(metrics).proxies_ended.wrapping_add(1),
            ..*old(metrics)
        }),
{
    metrics.proxies_ended = metrics.proxies_ended.wrapping_add(1);
}

/// The entries of the answer with a pair record.
pub open spec fn record_entries(data: Seq<u8>) -> Seq<(Seq<char>, plists::Plist)> {
    seq![("PairRecordData"@, plists::Plist::Data(data))]
}

/// The entries of the answer with the host's identifier.
pub open spec fn buid_entries(buid: Seq<char>) -> Seq<(Seq<char>, plists::Plist)> {
    seq![("BUID"@, plists::Plist::Text(buid))]
}

proof fn single_entry_is_plain(k: Seq<char>, v: plists::Plist)
    requires
        plists::plain(v),
    ensures
        plists::plain(plists::Plist::Dict(seq![(k, v)])),
{
    let e = seq![(k, v)];
    assert(plists::distinct_keys(e));
    assert forall|i: int| 0 <= i < e.len() implies plists::plain((#[trigger] e[i]).1) by {}
}

/// The answer once a pair record was read, or was not: the record, which is
/// counted, or a refusal that need not reach the client.
pub fn after_read_record(tag: u32, data: Option<Vec<u8>>, metrics: &mut Metrics) -> (a:
    ClientAction)
    ensures
        match data {
            Some(d) => {
                &&& a@ == (ClientActionView::Respond {
                    packet: protocol::answer(tag, record_entries(d@)),
                    required: true,
                })
                &&& *final(metrics) == (Metrics {
                    pair_reads: old(metrics).pair_reads.wrapping_add(1),
                    ..*old(metrics)
                })
            },
            None => {
                &&& a@ == lenient_refusal(tag, result::BAD_DEVICE)
                &&& *final(metrics) == *old(metrics)
            },
        },
        a@ matches ClientActionView::Respond { packet, .. } ==> plists::plain(
            plists::Plist::Dict(packet.plist),
        ),
{
    match data {
        Some(d) => {
            let ghost dv = d@;
            metrics.pair_reads = metrics.pair_reads.wrapping_add(1);
            let mut dict = plist::Dictionary::new();
            dict.insert("PairRecordData".to_owned(), data_value(d));
            assert(plists::entries(dict) =~= record_entries(dv));
            proof {
                single_entry_is_plain("PairRecordData"@, plists::Plist::Data(dv));
            }
            let packet = RawPacket::new(dict, XML_PLIST_VERSION, PLIST_MESSAGE_TYPE, tag);
            ClientAction::Respond { packet, required: true }
        },
        None => {
            let packet = make_result_response(tag, result::BAD_DEVICE);
            ClientAction::Respond { packet, required: false }
        },
    }
}

/// The answer once a pair record was stored, or was not.
pub fn after_save_record(tag: u32, stored: bool, metrics: &mut Metrics) -> (a: ClientAction)
    ensures
        a@ == if stored {
            refusal(tag, result::OK)
        } else {
            lenient_refusal(tag, result::BAD_COMMAND)
        },
        *final(metrics) == if stored {
            Metrics { pair_writes: old(metrics).pair_writes.wrapping_add(1), ..*old(metrics) }
        } else {
            *old(metrics)
        },
{
    if stored {
        metrics.pair_writes = metrics.pair_writes.wrapping_add(1);
        respond(tag, result::OK, true)
    } else {
        respond(tag, result::BAD_COMMAND, false)
    }
}

/// The answer once a pair record was removed, or was not.
pub fn after_delete_record(tag: u32, removed: bool, metrics: &mut Metrics) -> (a: ClientAction)
    ensures
        a@ == if removed {
            refusal(tag, result::OK)
        } else {
            lenient_refusal(tag, result::BAD_COMMAND)
        },
        *final(metrics) == if removed {
            Metrics { pair_deletes: old(metrics).pair_deletes.wrapping_add(1), ..*old(metrics) }
        } else {
            *old(metrics)
        },
{
    if removed {
        metrics.pair_deletes = metrics.pair_deletes.wrapping_add(1);
        respond(tag, result::OK, true)
    } else {
        respond(tag, result::BAD_COMMAND, false)
    }
}

/// The answer with the host's identifier.
pub fn buid_response(tag: u32, buid: &str) -> (p: RawPacket)
    ensures
        p@ == protocol::answer(tag, buid_entries(buid@)),
        plists::plain(plists::Plist::Dict(p@.plist)),
{
    let mut dict = plist::Dictionary::new();
    put_text(&mut dict, "BUID", buid);
    assert(plists::entries(dict) =~= buid_entries(buid@));
    proof {
        single_entry_is_plain("BUID"@, plists::Plist::Text(buid@));
    }
    RawPacket::new(dict, XML_PLIST_VERSION, PLIST_MESSAGE_TYPE, tag)
}

/// The answer that lists the devices, each once.
pub fn list_devices_response(tag: u32, scanner: &DeviceScanner) -> (p: RawPacket)
    ensures
        exists|list: Seq<device_scanner::UsbDeviceView>|
            device_scanner::lists_all(scanner.state().devices, list) && p@ == protocol::answer(
                tag,
                #[trigger] protocol::list_entries(list),
            ),
        plists::plain(plists::Plist::Dict(p@.plist)),
{
    let devices = scanner.get_devices();
    assert(protocol::usb_views(devices@) =~= devices@.map_values(|d: UsbDevice| d@));
    make_device_list_response(tag, devices.as_slice())
}

/// What a subscribed client is told about a change. Events carry no tag.
pub open spec fn event_entries(c: device_scanner::DeviceChangeView) -> Seq<
    (Seq<char>, plists::Plist),
> {
    match c {
        device_scanner::DeviceChangeView::Attached(d) => protocol::attached_entries(d),
        device_scanner::DeviceChangeView::Detached { device_id } => protocol::detached_entries(
            device_id,
        ),
    }
}

/// What a subscribed client is told about a change.
pub fn event_packet(change: &DeviceChange) -> (p: RawPacket)
    ensures
        p@ == protocol::answer(0, event_entries(change@)),
        plists::plain(plists::Plist::Dict(p@.plist)),
{
    match change {
        DeviceChange::Attached(dev) => make_attached_event(0, dev),
        DeviceChange::Detached { device_id } => make_detached_event(0, *device_id),
    }
}

/// What to do next for a connection whose data is passed on.
#[derive(Debug)]
pub enum ProxyStep {
    /// The connection is over.
    Finished,
    /// The connection broke; the text says why.
    Failed(String),
    /// Send these bytes to the client, and then open the window again.
    Send(Vec<u8>),
    /// Wait for the device or the client.
    Wait,
}

/// A `ProxyStep` with text and data as their views.
pub ghost enum ProxyStepView {
    Finished,
    Failed(Seq<char>),
    Send(Seq<u8>),
    Wait,
}

impl View for ProxyStep {
    type V = ProxyStepView;

    open spec fn view(&self) -> ProxyStepView {
        match self {
            ProxyStep::Finished => ProxyStepView::Finished,
            ProxyStep::Failed(m) => ProxyStepView::Failed(m@),
            ProxyStep::Send(d) => ProxyStepView::Send(d@),
            ProxyStep::Wait => ProxyStepView::Wait,
        }
    }
}

/// What to do next for a connection.
pub open spec fn proxy_step(
    m: Map<u32, conn_table::MuxDeviceView>,
    device_id: u32,
    sport: u16,
) -> ProxyStepView {
    if !m.contains_key(device_id) {
        ProxyStepView::Failed("device not found"@)
    } else if !m[device_id].connections.contains_key(sport) {
        ProxyStepView::Failed("connection not found"@)
    } else {
        let c = m[device_id].connections[sport];
        if c.state is Dead {
            ProxyStepView::Finished
        } else if !(c.state is Connected) {
            ProxyStepView::Failed("connection not connected"@)
        } else if c.ib_buf.len() > 0 {
            ProxyStepView::Send(c.ib_buf)
        } else {
            ProxyStepView::Wait
        }
    }
}

/// The connections after the bytes of one were taken.
pub open spec fn drained(
    m: Map<u32, conn_table::MuxDeviceView>,
    device_id: u32,
    sport: u16,
) -> Map<u32, conn_table::MuxDeviceView> {
    if proxy_step(m, device_id, sport) is Send {
        let d = m[device_id];
        m.insert(
            device_id,
            d.with(
                sport,
                conn_table::ConnectionView { ib_buf: seq![], ..d.connections[sport] },
            ),
        )
    } else {
        m
    }
}

/// Takes the bytes that have come from the device, all at once, and counts
/// them.
pub fn take_inbound(
    conns: &mut ConnectionManager,
    device_id: u32,
    sport: u16,
    metrics: &mut Metrics,
) -> (step: ProxyStep)
    requires
        old(conns).wf(),
    ensures
        step@ == proxy_step(old(conns)@, device_id, sport),
        final(conns)@ == drained(old(conns)@, device_id, sport),
        final(conns).wf(),
        *final(metrics) == match step@ {
            ProxyStepView::Send(d) => Metrics {
                client_tx_bytes: old(metrics).client_tx_bytes.wrapping_add(d.len() as u64),
                ..*old(metrics)
            },
            _ => *old(metrics),
        },
{
    match conns.take_buffer(device_id, sport) {
        Err(m) => ProxyStep::Failed(m),
        Ok((state, data)) => {
            if matches!(state, ConnState::Dead) {
                ProxyStep::Finished
            } else if !matches!(state, ConnState::Connected) {
                ProxyStep::Failed("connection not connected".to_owned())
            } else if data.len() > 0 {
                metrics.client_tx_bytes = metrics.client_tx_bytes.wrapping_add(data.len() as u64);
                ProxyStep::Send(data)
            } else {
                proof {
                    let d = old(conns)@[device_id];
                    let c = d.connections[sport];
                    assert(c.ib_buf =~= seq![]);
                    assert(d.connections.insert(sport, c) =~= d.connections);
                    assert(old(conns)@.insert(device_id, d) =~= old(conns)@);
                }
                ProxyStep::Wait
            }
        },
    }
}

/// Counts what was read from the client, and decides whether to go on: not
/// at the end of its stream.
pub fn client_read(n: usize, metrics: &mut Metrics) -> (go_on: bool)
    ensures
        go_on == (n > 0),
        *final(metrics) == if n > 0 {
            Metrics {
                client_rx_bytes: old(metrics).client_rx_bytes.wrapping_add(n as u64),
                ..*old(metrics)
            }
        } else {
            *old(metrics)
        },
{
    if n == 0 {
        return false;
    }
    metrics.client_rx_bytes = metrics.client_rx_bytes.wrapping_add(n as u64);
    true
}

/// Access rules fail closed: with a list of user numbers, nobody without a
/// listed number gets in; with a list of security identifiers alone, nobody
/// without a listed one does.
pub proof fn access_fails_closed(
    uid: Option<u32>,
    sid: Option<Seq<char>>,
    uids: Seq<u32>,
    sids: Seq<Seq<char>>,
)
    ensures
        uids.len() > 0 && uid is None ==> !allowed(uid, sid, uids, sids),
        uids.len() > 0 && uid is Some && !uids.contains(uid.unwrap()) ==> !allowed(
            uid,
            sid,
            uids,
            sids,
        ),
        uids.len() == 0 && sids.len() > 0 && sid is None ==> !allowed(uid, sid, uids, sids),
        uids.len() == 0 && sids.len() > 0 && sid is Some && !sids.contains(sid.unwrap())
            ==> !allowed(uid, sid, uids, sids),
        uids.len() == 0 && sids.len() == 0 ==> allowed(uid, sid, uids, sids),
{
}

/// While pair records are required, no packet opens the lockdown port
/// directly; and without a record the answer is that one is required.
pub proof fn unpaired_lockdown_is_refused(
    p: protocol::PacketView,
    order: ByteOrder,
    devices: Map<u32, device_scanner::UsbDeviceView>,
)
    ensures
        action(p, order, devices, true) matches ClientActionView::OpenChannel { port, .. } ==> port
            != LOCKDOWN_PORT,
        action(p, order, devices, true) matches ClientActionView::CheckPairRecord {
            device_id,
            port,
            tag,
            udid,
        } ==> {
            &&& port == LOCKDOWN_PORT
            &&& devices.contains_key(device_id)
            &&& udid == devices[device_id].udid
            &&& checked_action(device_id, port, tag, false) == refusal(
                p.tag,
                result::PAIR_RECORD_REQUIRED,
            )
        },
{
}

/// No packet reaches a file under a name that is not a valid identifier, and
/// none stores more than the limit.
pub proof fn only_valid_names_reach_files(
    p: protocol::PacketView,
    order: ByteOrder,
    devices: Map<u32, device_scanner::UsbDeviceView>,
    require_pair_record: bool,
)
    ensures
        action(p, order, devices, require_pair_record) matches ClientActionView::ReadPairRecord {
            id,
            ..
        } ==> security::udid_fault(id) is None,
        action(p, order, devices, require_pair_record) matches ClientActionView::SavePairRecord {
            id,
            data,
            ..
        } ==> security::udid_fault(id) is None && data.len() <= MAX_PAIR_RECORD_BYTES,
        action(p, order, devices, require_pair_record) matches ClientActionView::DeletePairRecord {
            id,
            ..
        } ==> security::udid_fault(id) is None,
{
}

/// The tag that an action answers with.
pub open spec fn action_tag(a: ClientActionView) -> u32 {
    match a {
        ClientActionView::Respond { packet, .. } => packet.tag,
        ClientActionView::ListDevices { tag } => tag,
        ClientActionView::Subscribe { packet } => packet.tag,
        ClientActionView::CheckPairRecord { tag, .. } => tag,
        ClientActionView::OpenChannel { tag, .. } => tag,
        ClientActionView::ReadBuid { tag } => tag,
        ClientActionView::ReadPairRecord { tag, .. } => tag,
        ClientActionView::SavePairRecord { tag, .. } => tag,
        ClientActionView::DeletePairRecord { tag, .. } => tag,
        ClientActionView::Stats { tag } => tag,
    }
}

/// Every answer carries the tag of the packet that it answers.
pub proof fn answers_echo_the_tag(
    p: protocol::PacketView,
    order: ByteOrder,
    devices: Map<u32, device_scanner::UsbDeviceView>,
    require_pair_record: bool,
)
    ensures
        action_tag(action(p, order, devices, require_pair_record)) == p.tag,
{
}

/// Only devices that are attached are connected to.
pub proof fn only_known_devices_are_connected(
    p: protocol::PacketView,
    order: ByteOrder,
    devices: Map<u32, device_scanner::UsbDeviceView>,
    require_pair_record: bool,
)
    ensures
        action(p, order, devices, require_pair_record) matches ClientActionView::OpenChannel {
            device_id,
            port,
            ..
        } ==> devices.contains_key(device_id) && device_id != 0 && port != 0,
{
}

/// Nothing that the device sends is lost or doubled on its way to the
/// client: what is taken is all that was buffered, and the buffer is empty
/// afterwards.
pub proof fn draining_takes_everything(
    m: Map<u32, conn_table::MuxDeviceView>,
    device_id: u32,
    sport: u16,
)
    requires
        proxy_step(m, device_id, sport) is Send,
    ensures
        proxy_step(m, device_id, sport)->Send_0 == m[device_id].connections[sport].ib_buf,
        drained(m, device_id, sport)[device_id].connections[sport].ib_buf.len() == 0,
        proxy_step(drained(m, device_id, sport), device_id, sport) is Wait,
{
}

/// Whether an action is an answer with this tag and this number.
pub open spec fn answers_with(a: ClientActionView, tag: u32, number: int, required: bool) -> bool {
    a matches ClientActionView::Respond { packet, required: r } && r == required && packet.tag == tag
        && plists::lookup(packet.plist, "MessageType"@) == Some(plists::Plist::Text("Result"@))
        && plists::lookup(packet.plist, "Number"@) == Some(plists::Plist::Integer(number))
}

proof fn kinds_differ()
    ensures
        "ListDevices"@ != "Listen"@,
        "ListDevices"@ != "Connect"@,
        "ListDevices"@ != "ReadBUID"@,
        "ListDevices"@ != "ReadPairRecord"@,
        "ListDevices"@ != "SavePairRecord"@,
        "ListDevices"@ != "DeletePairRecord"@,
        "ListDevices"@ != "MeridianStats"@,
        "Listen"@ != "Connect"@,
        "Listen"@ != "ReadBUID"@,
        "Listen"@ != "ReadPairRecord"@,
        "Listen"@ != "SavePairRecord"@,
        "Listen"@ != "DeletePairRecord"@,
        "Listen"@ != "MeridianStats"@,
        "Connect"@ != "ReadBUID"@,
        "Connect"@ != "ReadPairRecord"@,
        "Connect"@ != "SavePairRecord"@,
        "Connect"@ != "DeletePairRecord"@,
        "Connect"@ != "MeridianStats"@,
        "ReadBUID"@ != "ReadPairRecord"@,
        "ReadBUID"@ != "SavePairRecord"@,
        "ReadBUID"@ != "DeletePairRecord"@,
        "ReadBUID"@ != "MeridianStats"@,
        "ReadPairRecord"@ != "SavePairRecord"@,
        "ReadPairRecord"@ != "DeletePairRecord"@,
        "ReadPairRecord"@ != "MeridianStats"@,
        "SavePairRecord"@ != "DeletePairRecord"@,
        "SavePairRecord"@ != "MeridianStats"@,
        "DeletePairRecord"@ != "MeridianStats"@,
{
    reveal_strlit("ListDevices");
    reveal_strlit("Listen");
    reveal_strlit("Connect");
    reveal_strlit("ReadBUID");
    reveal_strlit("ReadPairRecord");
    reveal_strlit("SavePairRecord");
    reveal_strlit("DeletePairRecord");
    reveal_strlit("MeridianStats");
    assert("ListDevices"@.len() == 11 && "Listen"@.len() == 6 && "Connect"@.len() == 7);
    assert("ReadBUID"@.len() == 8 && "ReadPairRecord"@.len() == 14 && "SavePairRecord"@.len() == 14);
    assert("DeletePairRecord"@.len() == 16 && "MeridianStats"@.len() == 13);
    assert("ReadPairRecord"@[0] != "SavePairRecord"@[0]);
}

/// Every command is done for what it is: the list, a subscription, the host's
/// identifier, the counters. What names no known command is answered as a bad
/// one.
pub proof fn commands_are_understood(
    p: protocol::PacketView,
    order: ByteOrder,
    devices: Map<u32, device_scanner::UsbDeviceView>,
    require_pair_record: bool,
)
    ensures
        ({
            let kind = plists::lookup(p.plist, "MessageType"@);
            let a = action(p, order, devices, require_pair_record);
            &&& kind == Some(plists::Plist::Text("ListDevices"@)) ==> a
                == (ClientActionView::ListDevices { tag: p.tag })
            &&& kind == Some(plists::Plist::Text("Listen"@)) ==> (
            a matches ClientActionView::Subscribe { packet } && packet.tag == p.tag
                && plists::lookup(packet.plist, "Number"@) == Some(plists::Plist::Integer(0))
                && plists::lookup(packet.plist, "MessageType"@) == Some(
                plists::Plist::Text("Result"@),
            ))
            &&& kind == Some(plists::Plist::Text("ReadBUID"@)) ==> a
                == (ClientActionView::ReadBuid { tag: p.tag })
            &&& kind == Some(plists::Plist::Text("MeridianStats"@)) ==> a
                == (ClientActionView::Stats { tag: p.tag })
            &&& !(kind matches Some(plists::Plist::Text(_))) ==> answers_with(a, p.tag, 1, true)
            &&& kind matches Some(plists::Plist::Text(s)) ==> (s != "ListDevices"@ && s != "Listen"@
                && s != "Connect"@ && s != "ReadBUID"@ && s != "ReadPairRecord"@ && s
                != "SavePairRecord"@ && s != "DeletePairRecord"@ && s != "MeridianStats"@
                ==> answers_with(a, p.tag, 1, true))
        }),
{
    kinds_differ();
    protocol::results_say_their_number(0);
    protocol::results_say_their_number(1);
}

/// A request to connect goes to the device and the port that it names, the
/// port in network order. It is refused for a device that is not there, and
/// for port zero; and the lockdown port is opened only after it was looked for
/// a pair record of this device, while one is required.
pub proof fn connections_go_where_they_are_asked_to(
    p: protocol::PacketView,
    order: ByteOrder,
    devices: Map<u32, device_scanner::UsbDeviceView>,
    require_pair_record: bool,
    device_id: u32,
    number: u16,
    port: u16,
)
    requires
        plists::lookup(p.plist, "MessageType"@) == Some(plists::Plist::Text("Connect"@)),
        plists::lookup(p.plist, "DeviceID"@) == Some(plists::Plist::Integer(device_id as int)),
        plists::lookup(p.plist, "PortNumber"@) == Some(plists::Plist::Integer(number as int)),
        port == if order == ByteOrder::Big {
            number as int
        } else {
            number % 256 * 256 + number / 256
        },
    ensures
        ({
            let a = action(p, order, devices, require_pair_record);
            &&& device_id == 0 ==> answers_with(a, p.tag, 2, true)
            &&& device_id != 0 && port == 0 ==> answers_with(a, p.tag, 1, true)
            &&& device_id != 0 && port != 0 && !devices.contains_key(device_id) ==> answers_with(
                a,
                p.tag,
                2,
                true,
            )
            &&& device_id != 0 && port != 0 && devices.contains_key(device_id) ==> a == if port
                == 62078 && require_pair_record {
                ClientActionView::CheckPairRecord {
                    device_id,
                    port,
                    tag: p.tag,
                    udid: devices[device_id].udid,
                }
            } else {
                ClientActionView::OpenChannel { device_id, port, tag: p.tag }
            }
        }),
{
    kinds_differ();
    protocol::results_say_their_number(1);
    protocol::results_say_their_number(2);
}

/// A request to connect that does not say to which device, or to which port,
/// is refused.
pub proof fn connections_need_a_device_and_a_port(
    p: protocol::PacketView,
    order: ByteOrder,
    devices: Map<u32, device_scanner::UsbDeviceView>,
    require_pair_record: bool,
)
    requires
        plists::lookup(p.plist, "MessageType"@) == Some(plists::Plist::Text("Connect"@)),
        !(plists::lookup(p.plist, "DeviceID"@) matches Some(plists::Plist::Integer(_)))
            || !(plists::lookup(p.plist, "PortNumber"@) matches Some(plists::Plist::Integer(_))),
    ensures
        answers_with(action(p, order, devices, require_pair_record), p.tag, 1, true)
            || answers_with(action(p, order, devices, require_pair_record), p.tag, 2, true),
{
    kinds_differ();
    protocol::results_say_their_number(1);
    protocol::results_say_their_number(2);
}

/// Pair records are read, stored and removed under the name that the packet
/// gives, and stored with all its data, if the name is a valid identifier and
/// the data are no more than 4 MiB; else the command is bad, and that answer
/// need not reach the client.
pub proof fn records_go_by_their_names(
    p: protocol::PacketView,
    order: ByteOrder,
    devices: Map<u32, device_scanner::UsbDeviceView>,
    require_pair_record: bool,
    id: Seq<char>,
    data: Seq<u8>,
)
    requires
        plists::lookup(p.plist, "PairRecordID"@) == Some(plists::Plist::Text(id)),
        plists::lookup(p.plist, "PairRecordData"@) == Some(plists::Plist::Data(data)),
    ensures
        ({
            let kind = plists::lookup(p.plist, "MessageType"@);
            let a = action(p, order, devices, require_pair_record);
            let valid = security::udid_fault(id) is None;
            &&& kind == Some(plists::Plist::Text("ReadPairRecord"@)) ==> if valid {
                a == (ClientActionView::ReadPairRecord { tag: p.tag, id })
            } else {
                answers_with(a, p.tag, 1, false)
            }
            &&& kind == Some(plists::Plist::Text("DeletePairRecord"@)) ==> if valid {
                a == (ClientActionView::DeletePairRecord { tag: p.tag, id })
            } else {
                answers_with(a, p.tag, 1, false)
            }
            &&& kind == Some(plists::Plist::Text("SavePairRecord"@)) ==> if valid && data.len()
                <= 4194304 {
                a == (ClientActionView::SavePairRecord { tag: p.tag, id, data })
            } else {
                answers_with(a, p.tag, 1, false)
            }
        }),
{
    kinds_differ();
    protocol::results_say_their_number(1);
}

/// Without a name, or without data where data are to be stored, the command is
/// bad.
pub proof fn records_need_names_and_data(
    p: protocol::PacketView,
    order: ByteOrder,
    devices: Map<u32, device_scanner::UsbDeviceView>,
    require_pair_record: bool,
)
    ensures
        ({
            let kind = plists::lookup(p.plist, "MessageType"@);
            let a = action(p, order, devices, require_pair_record);
            let unnamed = !(plists::lookup(p.plist, "PairRecordID"@) matches Some(
                plists::Plist::Text(_),
            ));
            let empty = !(plists::lookup(p.plist, "PairRecordData"@) matches Some(
                plists::Plist::Data(_),
            ));
            &&& (kind == Some(plists::Plist::Text("ReadPairRecord"@)) || kind == Some(
                plists::Plist::Text("DeletePairRecord"@),
            )) && unnamed ==> answers_with(a, p.tag, 1, false)
            &&& kind == Some(plists::Plist::Text("SavePairRecord"@)) && (unnamed || empty)
                ==> answers_with(a, p.tag, 1, false)
        }),
{
    kinds_differ();
    protocol::results_say_their_number(1);
}

/// The answers with what was asked for have it under its key.
pub proof fn answers_hold_what_was_asked_for(data: Seq<u8>, buid: Seq<char>)
    ensures
        plists::lookup(record_entries(data), "PairRecordData"@) == Some(
            plists::Plist::Data(data),
        ),
        plists::lookup(buid_entries(buid), "BUID"@) == Some(plists::Plist::Text(buid)),
{
    plists::entry_is_found(record_entries(data), 0);
    plists::entry_is_found(buid_entries(buid), 0);
}

/// Every command is counted, and besides the requests for the list and those
/// to connect; nothing else is.
pub proof fn commands_are_counted_by_kind(m: Metrics, kind: Option<Seq<char>>)
    requires
        m.commands_total < u64::MAX,
        m.list_devices_total < u64::MAX,
        m.connects_total < u64::MAX,
    ensures
        ({
            let list = kind == Some("ListDevices"@);
            let connect = kind == Some("Connect"@);
            let n = counted(m, kind);
            &&& n.commands_total == m.commands_total + 1
            &&& n.list_devices_total == m.list_devices_total + if list {
                1int
            } else {
                0
            }
            &&& n.connects_total == m.connects_total + if connect {
                1int
            } else {
                0
            }
            &&& n == (Metrics {
                commands_total: n.commands_total,
                list_devices_total: n.list_devices_total,
                connects_total: n.connects_total,
                ..m
            })
        }),
{
}

/// What has come from the device on an open connection is passed on whole, at
/// once and only once; on a dead one the client is done; and one that is not
/// open, or not there, has failed.
pub proof fn passing_on_goes_by_the_state(
    m: Map<u32, conn_table::MuxDeviceView>,
    device_id: u32,
    sport: u16,
)
    ensures
        ({
            let step = proxy_step(m, device_id, sport);
            &&& !m.contains_key(device_id) ==> step == ProxyStepView::Failed("device not found"@)
            &&& m.contains_key(device_id) && !m[device_id].connections.contains_key(sport) ==> step
                == ProxyStepView::Failed("connection not found"@)
            &&& m.contains_key(device_id) && m[device_id].connections.contains_key(sport) ==> {
                let c = m[device_id].connections[sport];
                &&& c.state == ConnState::Connected && c.ib_buf.len() > 0 ==> step
                    == ProxyStepView::Send(c.ib_buf) && drained(m, device_id, sport) == m.insert(
                    device_id,
                    conn_table::MuxDeviceView {
                        connections: m[device_id].connections.insert(
                            sport,
                            conn_table::ConnectionView { ib_buf: seq![], ..c },
                        ),
                        ..m[device_id]
                    },
                )
                &&& c.state == ConnState::Connected && c.ib_buf.len() == 0 ==> step
                    == ProxyStepView::Wait
                &&& c.state == ConnState::Dead ==> step == ProxyStepView::Finished
                &&& c.state != ConnState::Dead && c.state != ConnState::Connected ==> step
                    == ProxyStepView::Failed("connection not connected"@)
            }
            &&& !(step is Send) ==> drained(m, device_id, sport) == m
        }),
{
}

/// Whoever is on the list that counts may connect.
pub proof fn listed_clients_are_allowed(
    uid: u32,
    sid: Seq<char>,
    uids: Seq<u32>,
    sids: Seq<Seq<char>>,
)
    ensures
        uids.contains(uid) ==> allowed(Some(uid), None, uids, sids) && allowed(
            Some(uid),
            Some(sid),
            uids,
            sids,
        ),
        uids.len() == 0 && sids.contains(sid) ==> allowed(None, Some(sid), uids, sids) && allowed(
            Some(uid),
            Some(sid),
            uids,
            sids,
        ),
{
}

} // verus!
