//! The devices in use: how one is taken up, what its frames mean, and how
//! data and connection requests reach it.
use crate::bytes::copy_range;
use crate::config::Millis;
use crate::daemon::conn_table;
use crate::daemon::conn_table::{
    ConnState, ConnectionEvent, ConnectionManager, DeviceState, MuxDevice,
};
use crate::daemon::device_scanner::APPLE_VENDOR_ID;
use crate::daemon::mux;
use crate::daemon::mux::{
    build_setup_packet, build_tcp_packet, build_version_request, increment_seq, parse_mux_header,
    parse_packet, scaled_window, MuxError, MuxPacket, PacketReassembler, INITIAL_WINDOW_UNITS,
    TCP_ACK, TCP_SYN,
};
use crate::metrics::Metrics;
use crate::security;
use crate::security::core_of_udid;
use crate::text::{joined, same};
use std::collections::HashMap;
use vstd::prelude::*;

verus! {

broadcast use vstd::std_specs::hash::group_hash_axioms;

/// A device on the bus, as it is seen when one is looked for: its vendor, and
/// its serial number where that could be read.
#[derive(Debug)]
pub struct UsbCandidate {
    pub vendor_id: u16,
    pub serial: Option<String>,
}

impl UsbCandidate {
    /// Whether this is the device with identifier `udid`.
    pub open spec fn is_for(self, udid: Seq<char>) -> bool {
        &&& self.vendor_id == APPLE_VENDOR_ID
        &&& self.serial is Some
        &&& security::udid_core(self.serial.unwrap()@) == udid
    }
}

/// The first of the devices that is the one with identifier `udid`.
pub open spec fn first_for(
    candidates: Seq<UsbCandidate>,
    udid: Seq<char>,
    r: Option<usize>,
) -> bool {
    match r {
        Some(i) => {
            &&& i < candidates.len()
            &&& candidates[i as int].is_for(udid)
            &&& forall|j: int| 0 <= j < i ==> !(#[trigger] candidates[j]).is_for(udid)
        },
        None => forall|j: int|
            0 <= j < candidates.len() ==> !(#[trigger] candidates[j]).is_for(udid),
    }
}

/// Finds the device with identifier `udid` among those on the bus.
pub fn find_candidate(candidates: &[UsbCandidate], udid: &str) -> (r: Option<usize>)
    ensures
        first_for(candidates@, udid@, r),
{
    let mut i: usize = 0;
    while i < candidates.len()
        invariant
            i <= candidates.len(),
            forall|j: int| 0 <= j < i ==> !(#[trigger] candidates@[j]).is_for(udid@),
        decreases candidates.len() - i,
    {
        let c: &UsbCandidate = &candidates[i];
        if c.vendor_id == APPLE_VENDOR_ID {
            if let Some(serial) = &c.serial {
                let core = core_of_udid(serial.as_str());
                if same(core.as_str(), udid) {
                    return Some(i);
                }
            }
        }
        i = i + 1;
    }
    None
}

/// A device in use, and how many clients have its data passed on.
#[derive(Debug, Clone, Copy, PartialEq, Eq, Structural)]
pub struct ManagedDevice {
    pub device_id: u32,
    pub refcount: u64,
}

/// A request to open a connection to a port of a device.
#[derive(Debug, Clone, Copy, PartialEq, Eq, Structural)]
pub struct ConnectRequest {
    pub device_id: u32,
    pub dport: u16,
    pub tag: u32,
}

/// What a client's side hands to a device.
#[derive(Debug, Clone)]
pub enum MuxOutMsg {
    /// Send these bytes on the connection.
    Data { sport: u16, payload: Vec<u8> },
    /// The connection's buffer was emptied: open its window again.
    WindowUpdate { sport: u16 },
}

/// The devices in use, and their connections.
#[derive(Debug)]
pub struct DeviceManager {
    pub devices: HashMap<u32, ManagedDevice>,
    pub conn_mgr: ConnectionManager,
}

impl DeviceManager {
    /// Every device stands under its own number, and so do its connections.
    pub open spec fn wf(&self) -> bool {
        &&& self.conn_mgr.wf()
        &&& forall|id: u32| #[trigger]
            self.devices@.contains_key(id) ==> self.devices@[id].device_id == id
    }

    pub fn new() -> (m: Self)
        ensures
            m.wf(),
            m.devices@ == Map::<u32, ManagedDevice>::empty(),
            m.conn_mgr@ == Map::<u32, conn_table::MuxDeviceView>::empty(),
    {
        DeviceManager { devices: HashMap::new(), conn_mgr: ConnectionManager::new() }
    }

    /// Whether the device is in use.
    pub fn is_managed(&self, device_id: u32) -> (b: bool)
        ensures
            b == self.devices@.contains_key(device_id),
    {
        self.devices.contains_key(&device_id)
    }

    /// Takes up a device whose interface has been opened, and returns the
    /// frame that begins the negotiation with it. One that is in use is left
    /// as it is.
    pub fn add_device(&mut self, device_id: u32) -> (r: Option<Vec<u8>>)
        requires
            old(self).wf(),
        ensures
            final(self).wf(),
            match r {
                Some(frame) => {
                    &&& !old(self).devices@.contains_key(device_id)
                    &&& frame@ == mux::mux_frame(mux::HEADER_VERSION, None, mux::version_body())
                    &&& final(self).devices@ == old(self).devices@.insert(
                        device_id,
                        ManagedDevice { device_id, refcount: 0 },
                    )
                    &&& final(self).conn_mgr@ == if old(self).conn_mgr@.contains_key(device_id) {
                        old(self).conn_mgr@
                    } else {
                        old(self).conn_mgr@.insert(device_id, conn_table::fresh_device(device_id))
                    }
                },
                None => {
                    &&& old(self).devices@.contains_key(device_id)
                    &&& final(self).devices@ == old(self).devices@
                    &&& final(self).conn_mgr@ == old(self).conn_mgr@
                },
            },
    {
        if self.devices.contains_key(&device_id) {
            return None;
        }
        self.devices.insert(device_id, ManagedDevice { device_id, refcount: 0 });
        self.conn_mgr.add_device(device_id);
        Some(build_version_request())
    }

    /// Gives a device up, and its connections with it.
    pub fn remove_device(&mut self, device_id: u32)
        requires
            old(self).wf(),
        ensures
            final(self).wf(),
            final(self).devices@ == old(self).devices@.remove(device_id),
            final(self).conn_mgr@ == old(self).conn_mgr@.remove(device_id),
    {
        self.devices.remove(&device_id);
        self.conn_mgr.remove_device(device_id);
    }

    /// Counts one more client whose data is passed on to the device.
    pub fn increment_refcount(&mut self, device_id: u32)
        requires
            old(self).wf(),
        ensures
            final(self).wf(),
            final(self).conn_mgr@ == old(self).conn_mgr@,
            final(self).devices@ == recounted(
                old(self).devices@,
                device_id,
                old(self).devices@[device_id].refcount.wrapping_add(1),
            ),
    {
        if let Some(d) = self.devices.get(&device_id) {
            let refcount: u64 = d.refcount.wrapping_add(1);
            self.devices.insert(device_id, ManagedDevice { device_id, refcount });
        }
    }

    /// Counts one client less.
    pub fn decrement_refcount(&mut self, device_id: u32)
        requires
            old(self).wf(),
        ensures
            final(self).wf(),
            final(self).conn_mgr@ == old(self).conn_mgr@,
            final(self).devices@ == recounted(
                old(self).devices@,
                device_id,
                old(self).devices@[device_id].refcount.wrapping_sub(1),
            ),
    {
        if let Some(d) = self.devices.get(&device_id) {
            let refcount: u64 = d.refcount.wrapping_sub(1);
            self.devices.insert(device_id, ManagedDevice { device_id, refcount });
        }
    }

    /// The request to open a connection, which only a device in use gets.
    pub fn request(&self, device_id: u32, dport: u16, tag: u32) -> (r: Result<
        ConnectRequest,
        String,
    >)
        ensures
            match r {
                Ok(q) => self.devices@.contains_key(device_id) && q == (ConnectRequest {
                    device_id,
                    dport,
                    tag,
                }),
                Err(m) => !self.devices@.contains_key(device_id) && m@ == "device not found"@,
            },
    {
        if self.devices.contains_key(&device_id) {
            Ok(ConnectRequest { device_id, dport, tag })
        } else {
            Err("device not found".to_owned())
        }
    }
}

impl Default for DeviceManager {
    fn default() -> (m: Self)
        ensures
            m.wf(),
            m.devices@ == Map::<u32, ManagedDevice>::empty(),
            m.conn_mgr@ == Map::<u32, conn_table::MuxDeviceView>::empty(),
    {
        DeviceManager::new()
    }
}

/// The devices after the clients of one were counted anew.
pub open spec fn recounted(
    devices: Map<u32, ManagedDevice>,
    device_id: u32,
    refcount: u64,
) -> Map<u32, ManagedDevice> {
    if devices.contains_key(device_id) {
        devices.insert(device_id, ManagedDevice { device_id, refcount })
    } else {
        devices
    }
}

/// How grave a device says a message of its own is.
#[derive(Debug, Clone, Copy, PartialEq, Eq, Structural)]
pub enum NoticeLevel {
    Error,
    Warning,
    Info,
    Other,
}

/// What the first byte of a control message says.
pub open spec fn level_of(kind: u8) -> NoticeLevel {
    if kind == 3 {
        NoticeLevel::Error
    } else if kind == 5 {
        NoticeLevel::Warning
    } else if kind == 7 {
        NoticeLevel::Info
    } else {
        NoticeLevel::Other
    }
}

/// What the first byte of a control message says.
pub fn notice_level(kind: u8) -> (level: NoticeLevel)
    ensures
        level == level_of(kind),
{
    match kind {
        3 => NoticeLevel::Error,
        5 => NoticeLevel::Warning,
        7 => NoticeLevel::Info,
        _ => NoticeLevel::Other,
    }
}

/// What a frame from a device asks for.
#[derive(Debug)]
pub enum PacketAction {
    /// It could not be read.
    Rejected(MuxError),
    /// The device said its version. One of version 2 is sent this frame.
    Version { major: u32, minor: u32, setup: Option<Vec<u8>> },
    /// The device has something to say.
    Notice { kind: u8, text: Vec<u8> },
    /// A control message without content.
    Nothing,
    /// A setup message.
    Setup,
    /// A segment: what became of its connection, and the frames to send.
    Segment { events: Vec<ConnectionEvent>, frames: Vec<Vec<u8>> },
}

/// A `PacketAction` with its parts as their views.
pub ghost enum PacketActionView {
    Rejected(mux::MuxErrorView),
    Version { major: u32, minor: u32, setup: Option<Seq<u8>> },
    Notice { kind: u8, text: Seq<u8> },
    Nothing,
    Setup,
    Segment { events: Seq<conn_table::ConnectionEventView>, frames: Seq<Seq<u8>> },
}

impl View for PacketAction {
    type V = PacketActionView;

    open spec fn view(&self) -> PacketActionView {
        match self {
            PacketAction::Rejected(e) => PacketActionView::Rejected(e@),
            PacketAction::Version { major, minor, setup } => PacketActionView::Version {
                major: *major,
                minor: *minor,
                setup: match setup {
                    Some(f) => Some(f@),
                    None => None,
                },
            },
            PacketAction::Notice { kind, text } => PacketActionView::Notice {
                kind: *kind,
                text: text@,
            },
            PacketAction::Nothing => PacketActionView::Nothing,
            PacketAction::Setup => PacketActionView::Setup,
            PacketAction::Segment { events, frames } => PacketActionView::Segment {
                events: conn_table::event_views(events@),
                frames: mux::byte_seqs(frames@),
            },
        }
    }
}

/// The device that the received sequence number of a frame with an extended
/// header was noted for.
pub open spec fn noted(
    d: conn_table::MuxDeviceView,
    h: mux::MuxHeader,
) -> conn_table::MuxDeviceView {
    if h.is_v2 {
        conn_table::MuxDeviceView { rx_seq: h.rx_seq, ..d }
    } else {
        d
    }
}

/// The sequence number that a setup frame says was last received: none.
pub const SETUP_RX_SEQ: u16 = 0xFFFF;

/// The frame that sets a device of version 2 up.
pub open spec fn setup_frame() -> Seq<u8> {
    mux::mux_frame(mux::HEADER_SETUP, Some((0u16, SETUP_RX_SEQ)), seq![mux::SETUP_CONNECT])
}

/// The device once it has said its version. The setup frame to one of
/// version 2 is its frame number zero.
pub open spec fn negotiated(d: conn_table::MuxDeviceView, major: u32) -> conn_table::MuxDeviceView {
    conn_table::MuxDeviceView {
        version: if major >= 2 {
            2
        } else {
            1
        },
        state: DeviceState::Active,
        tx_seq: 1,
        rx_seq: if major >= 2 {
            SETUP_RX_SEQ
        } else {
            d.rx_seq
        },
        ..d
    }
}

/// The devices with `d` in place of one of them; all as before if that one is
/// not known.
pub open spec fn put_back(
    m: Map<u32, conn_table::MuxDeviceView>,
    device_id: u32,
    d: conn_table::MuxDeviceView,
) -> Map<u32, conn_table::MuxDeviceView> {
    if m.contains_key(device_id) {
        m.insert(device_id, d)
    } else {
        m
    }
}

/// Whether a segment from a device leads from `m` and `counts` to `m2` and
/// `counts2`, with this action.
pub open spec fn segment_taken(
    m: Map<u32, conn_table::MuxDeviceView>,
    counts: Metrics,
    device_id: u32,
    h: mux::TcpHeader,
    payload: Seq<u8>,
    max: int,
    action: PacketActionView,
    m2: Map<u32, conn_table::MuxDeviceView>,
    counts2: Metrics,
) -> bool {
    if m.contains_key(device_id) {
        exists|out: conn_table::Delivery|
            {
                &&& #[trigger] conn_table::delivered(m[device_id], h, payload, max, out)
                &&& m2 == m.insert(device_id, out.device)
                &&& action == (PacketActionView::Segment { events: out.events, frames: out.frames })
                &&& counts2 == if out.refused {
                    Metrics {
                        overflow_rejections: counts.overflow_rejections.wrapping_add(1),
                        ..counts
                    }
                } else {
                    counts
                }
            }
    } else {
        &&& m2 == m
        &&& counts2 == counts
        &&& action == (PacketActionView::Segment { events: seq![], frames: seq![] })
    }
}

/// Whether a frame from a device leads from `m` and `counts` to `m2` and
/// `counts2`, with this action.
pub open spec fn processed(
    m: Map<u32, conn_table::MuxDeviceView>,
    counts: Metrics,
    device_id: u32,
    data: Seq<u8>,
    max: int,
    action: PacketActionView,
    m2: Map<u32, conn_table::MuxDeviceView>,
    counts2: Metrics,
) -> bool {
    let m1 = put_back(m, device_id, noted(m[device_id], mux::mux_header(data)));
    match mux::parsed(data) {
        Err(e) => m2 == m && counts2 == counts && action == PacketActionView::Rejected(e),
        Ok(mux::MuxPacketView::Version { major, minor }) => {
            &&& m2 == put_back(m1, device_id, negotiated(m1[device_id], major))
            &&& counts2 == counts
            &&& action == (PacketActionView::Version {
                major,
                minor,
                setup: if major >= 2 {
                    Some(setup_frame())
                } else {
                    None
                },
            })
        },
        Ok(mux::MuxPacketView::Control { payload }) => {
            &&& m2 == m1
            &&& counts2 == counts
            &&& action == if payload.len() == 0 {
                PacketActionView::Nothing
            } else {
                PacketActionView::Notice { kind: payload[0], text: payload.skip(1) }
            }
        },
        Ok(mux::MuxPacketView::Setup) => {
            m2 == m1 && counts2 == counts && action == PacketActionView::Setup
        },
        Ok(mux::MuxPacketView::Tcp { header, payload }) => segment_taken(
            m1,
            counts,
            device_id,
            header,
            payload,
            max,
            action,
            m2,
            counts2,
        ),
    }
}

impl MuxDevice {
    /// Notes the received sequence number of a frame with an extended header.
    fn note_header(&mut self, h: &mux::MuxHeader)
        ensures
            final(self)@ == noted(old(self)@, *h),
    {
        if h.is_v2 {
            self.rx_seq = h.rx_seq;
        }
    }

    /// Notes what version the device says it has.
    fn negotiate(&mut self, major: u32)
        ensures
            final(self)@ == negotiated(old(self)@, major),
    {
        self.state = DeviceState::Active;
        self.tx_seq = 1;
        if major >= 2 {
            self.version = 2;
            self.rx_seq = SETUP_RX_SEQ;
        } else {
            self.version = 1;
        }
    }
}

/// Takes a frame from a device: notes what it says, and decides what to do.
pub fn process_device_packet(
    conns: &mut ConnectionManager,
    device_id: u32,
    data: &[u8],
    metrics: &mut Metrics,
    max_conn_buffer: usize,
) -> (action: PacketAction)
    requires
        old(conns).wf(),
    ensures
        final(conns).wf(),
        processed(
            old(conns)@,
            *old(metrics),
            device_id,
            data@,
            max_conn_buffer as int,
            action@,
            final(conns)@,
            *final(metrics),
        ),
{
    let packet = match parse_packet(data) {
        Ok(p) => p,
        Err(e) => return PacketAction::Rejected(e),
    };
    let ghost m0 = conns@;
    if let Ok(header) = parse_mux_header(data) {
        if let Some(mut device) = conns.devices.remove(&device_id) {
            device.note_header(&header);
            let ghost d = device@;
            conns.devices.insert(device_id, device);
            assert(conns@ =~= m0.insert(device_id, d));
        } else {
            assert(conns@ =~= m0);
        }
    }
    let ghost m1 = conns@;
    assert(m1 == put_back(m0, device_id, noted(m0[device_id], mux::mux_header(data@))));
    assert(conns.wf());
    match packet {
        MuxPacket::Version { major, minor } => {
            if let Some(mut device) = conns.devices.remove(&device_id) {
                device.negotiate(major);
                let ghost d = device@;
                conns.devices.insert(device_id, device);
                assert(conns@ =~= m1.insert(device_id, d));
            } else {
                assert(conns@ =~= m1);
            }
            let setup = if major >= 2 {
                Some(build_setup_packet(0, SETUP_RX_SEQ))
            } else {
                None
            };
            PacketAction::Version { major, minor, setup }
        },
        MuxPacket::Control { payload } => {
            if payload.len() == 0 {
                PacketAction::Nothing
            } else {
                let text = copy_range(payload.as_slice(), 1, payload.len());
                assert(text@ =~= payload@.skip(1));
                PacketAction::Notice { kind: payload[0], text }
            }
        },
        MuxPacket::Setup => PacketAction::Setup,
        MuxPacket::Tcp { header, payload } => {
            let (events, frames) = conns.handle_tcp_packet(
                device_id,
                &header,
                payload.as_slice(),
                metrics,
                max_conn_buffer,
            );
            proof {
                if !m1.contains_key(device_id) {
                    assert(conn_table::event_views(events@) =~= seq![]);
                    assert(mux::byte_seqs(frames@) =~= seq![]);
                }
            }
            PacketAction::Segment { events, frames }
        },
    }
}

/// Whether the negotiation with a device of version `major` is over: with one
/// of version 2 it is once the setup frame was sent.
pub fn negotiation_complete(major: u32, setup_sent: bool) -> (b: bool)
    ensures
        b == (major < 2 || setup_sent),
{
    major < 2 || setup_sent
}

/// What is known of all devices at one moment.
pub ghost struct Moment {
    pub conns: Map<u32, conn_table::MuxDeviceView>,
    pub counts: Metrics,
}

/// Whether frame `i` leads from one moment to the next, with action `i`.
pub open spec fn step_taken(
    moments: Seq<Moment>,
    device_id: u32,
    frames: Seq<Seq<u8>>,
    max: int,
    actions: Seq<PacketAction>,
    i: int,
) -> bool {
    processed(
        moments[i].conns,
        moments[i].counts,
        device_id,
        frames[i],
        max,
        actions[i]@,
        moments[i + 1].conns,
        moments[i + 1].counts,
    )
}

/// Whether the frames, one after the other, lead through these moments, with
/// these actions.
pub open spec fn steps_taken(
    moments: Seq<Moment>,
    device_id: u32,
    frames: Seq<Seq<u8>>,
    max: int,
    actions: Seq<PacketAction>,
) -> bool {
    &&& moments.len() == frames.len() + 1
    &&& actions.len() == frames.len()
    &&& forall|i: int|
        0 <= i < frames.len() ==> #[trigger] step_taken(
            moments,
            device_id,
            frames,
            max,
            actions,
            i,
        )
}

/// Takes raw bytes from a device: every frame that they complete is
/// processed, in order.
pub fn process_usb_data(
    conns: &mut ConnectionManager,
    reassembler: &mut PacketReassembler,
    device_id: u32,
    raw: &[u8],
    metrics: &mut Metrics,
    max_conn_buffer: usize,
) -> (actions: Vec<PacketAction>)
    requires
        old(conns).wf(),
    ensures
        final(conns).wf(),
        final(reassembler).limit() == old(reassembler).limit(),
        final(reassembler).buffered() == mux::kept(
            mux::reassembled(
                old(reassembler).buffered() + raw@,
                old(reassembler).limit() as int,
            ).1,
            old(reassembler).limit() as int,
        ),
        exists|moments: Seq<Moment>|
            {
                &&& #[trigger] steps_taken(
                    moments,
                    device_id,
                    mux::reassembled(
                        old(reassembler).buffered() + raw@,
                        old(reassembler).limit() as int,
                    ).0,
                    max_conn_buffer as int,
                    actions@,
                )
                &&& moments[0] == (Moment { conns: old(conns)@, counts: *old(metrics) })
                &&& moments.last() == (Moment { conns: final(conns)@, counts: *final(metrics) })
            },
{
    let frames = reassembler.feed(raw);
    let ghost seqs = mux::byte_seqs(frames@);
    let ghost max = max_conn_buffer as int;
    let mut actions: Vec<PacketAction> = Vec::new();
    let ghost mut moments: Seq<Moment> = seq![Moment { conns: conns@, counts: *metrics }];
    let ghost first = moments[0];
    let mut i: usize = 0;
    while i < frames.len()
        invariant
            conns.wf(),
            i <= frames.len(),
            seqs == mux::byte_seqs(frames@),
            max == max_conn_buffer,
            moments.len() == i + 1,
            actions@.len() == i,
            moments[0] == first,
            moments[i as int] == (Moment { conns: conns@, counts: *metrics }),
            forall|j: int|
                0 <= j < i ==> #[trigger] step_taken(moments, device_id, seqs, max, actions@, j),
        decreases frames.len() - i,
    {
        let ghost before = moments;
        let ghost done = actions@;
        let action = process_device_packet(
            conns,
            device_id,
            frames[i].as_slice(),
            metrics,
            max_conn_buffer,
        );
        actions.push(action);
        proof {
            moments = moments.push(Moment { conns: conns@, counts: *metrics });
            assert forall|j: int| 0 <= j < i + 1 implies #[trigger] step_taken(
                moments,
                device_id,
                seqs,
                max,
                actions@,
                j,
            ) by {
                if j < i {
                    assert(step_taken(before, device_id, seqs, max, done, j));
                }
            }
        }
        i = i + 1;
    }
    assert(steps_taken(moments, device_id, seqs, max, actions@));
    actions
}

/// Why nothing can be sent on a connection.
#[derive(Debug, Clone, Copy, PartialEq, Eq, Structural)]
pub enum SendFault {
    DeviceNotFound,
    ConnectionNotFound,
    NotConnected,
}

/// Why nothing can be sent on a connection, if so.
pub open spec fn send_fault(
    m: Map<u32, conn_table::MuxDeviceView>,
    device_id: u32,
    sport: u16,
) -> Option<SendFault> {
    if !m.contains_key(device_id) {
        Some(SendFault::DeviceNotFound)
    } else if !m[device_id].connections.contains_key(sport) {
        Some(SendFault::ConnectionNotFound)
    } else if !(m[device_id].connections[sport].state is Connected) {
        Some(SendFault::NotConnected)
    } else {
        None
    }
}

impl MuxOutMsg {
    /// The connection that the message is for.
    pub open spec fn port(self) -> u16 {
        match self {
            MuxOutMsg::Data { sport, .. } => sport,
            MuxOutMsg::WindowUpdate { sport } => sport,
        }
    }

    /// The bytes to send.
    pub open spec fn bytes(self) -> Seq<u8> {
        match self {
            MuxOutMsg::Data { payload, .. } => payload@,
            MuxOutMsg::WindowUpdate { .. } => seq![],
        }
    }

    /// The window to advertise on connection `c`, whose buffer holds up to
    /// `max` bytes.
    pub open spec fn window(self, c: conn_table::ConnectionView, max: int) -> u16 {
        match self {
            MuxOutMsg::Data { .. } => INITIAL_WINDOW_UNITS,
            MuxOutMsg::WindowUpdate { .. } => if c.ib_buf.len() <= max {
                mux::window_units(max - c.ib_buf.len()) as u16
            } else {
                0
            },
        }
    }
}

/// The frame that carries a client's message to a device.
pub open spec fn out_frame(
    m: Map<u32, conn_table::MuxDeviceView>,
    device_id: u32,
    msg: MuxOutMsg,
    max: int,
) -> Seq<u8> {
    let d = m[device_id];
    let c = d.connections[msg.port()];
    d.segment(c, TCP_ACK, msg.window(c, max), msg.bytes())
}

/// The connection after these bytes were sent on it.
pub open spec fn after_bytes(
    c: conn_table::ConnectionView,
    data: Seq<u8>,
) -> conn_table::ConnectionView {
    conn_table::ConnectionView {
        tx_seq: c.tx_seq.wrapping_add((data.len() % 0x1_0000_0000) as u32),
        ob_buf: c.ob_buf + data,
        ..c
    }
}

/// All devices after a frame with these bytes was sent on a connection.
pub open spec fn after_out(
    m: Map<u32, conn_table::MuxDeviceView>,
    device_id: u32,
    sport: u16,
    data: Seq<u8>,
) -> Map<u32, conn_table::MuxDeviceView> {
    if m.contains_key(device_id) {
        let d = m[device_id].after_sending();
        m.insert(
            device_id,
            if d.connections.contains_key(sport) {
                d.with(sport, after_bytes(d.connections[sport], data))
            } else {
                d
            },
        )
    } else {
        m
    }
}

/// The most bytes that one segment carries.
pub const MAX_SEGMENT_BYTES: usize = 4294967259;

/// Builds the frame that carries a client's message to a device.
pub fn build_out_frame(
    conns: &ConnectionManager,
    device_id: u32,
    msg: &MuxOutMsg,
    max_conn_buffer: usize,
) -> (r: Result<Vec<u8>, SendFault>)
    requires
        conns.wf(),
        msg.bytes().len() <= MAX_SEGMENT_BYTES,
    ensures
        match r {
            Ok(frame) => {
                &&& send_fault(conns@, device_id, msg.port()) is None
                &&& frame@ == out_frame(conns@, device_id, *msg, max_conn_buffer as int)
            },
            Err(e) => send_fault(conns@, device_id, msg.port()) == Some(e),
        },
{
    let sport: u16 = match msg {
        MuxOutMsg::Data { sport, .. } => *sport,
        MuxOutMsg::WindowUpdate { sport } => *sport,
    };
    let device = match conns.devices.get(&device_id) {
        Some(d) => d,
        None => return Err(SendFault::DeviceNotFound),
    };
    assert(conns@[device_id] == device@);
    let conn = match device.connections.get(&sport) {
        Some(c) => c,
        None => return Err(SendFault::ConnectionNotFound),
    };
    assert(device@.connections[sport] == conn@);
    if conn.state != ConnState::Connected {
        return Err(SendFault::NotConnected);
    }
    let window: u16 = match msg {
        MuxOutMsg::Data { .. } => INITIAL_WINDOW_UNITS,
        MuxOutMsg::WindowUpdate { .. } => {
            let held: usize = conn.ib_buf.len();
            if held <= max_conn_buffer {
                scaled_window(max_conn_buffer - held)
            } else {
                0
            }
        },
    };
    let payload: Option<&[u8]> = match msg {
        MuxOutMsg::Data { payload, .. } => Some(payload.as_slice()),
        MuxOutMsg::WindowUpdate { .. } => None,
    };
    assert(mux::payload_bytes(payload) =~= msg.bytes());
    Ok(
        build_tcp_packet(
            device.next_seqs(),
            conn.source_port,
            conn.dest_port,
            conn.tx_seq,
            conn.tx_ack,
            TCP_ACK,
            window,
            payload,
        ),
    )
}

/// Notes that the frame with a client's message was sent.
pub fn out_frame_sent(conns: &mut ConnectionManager, device_id: u32, msg: &MuxOutMsg)
    requires
        old(conns).wf(),
    ensures
        final(conns).wf(),
        final(conns)@ == after_out(old(conns)@, device_id, msg.port(), msg.bytes()),
{
    let ghost m = conns@;
    let mut device = match conns.devices.remove(&device_id) {
        Some(d) => d,
        None => {
            assert(conns@ =~= m);
            return;
        },
    };
    let ghost d = device@;
    assert(d == m[device_id]);
    device.tx_seq = increment_seq(device.tx_seq);
    assert(device@ =~= d.after_sending());
    let sport: u16 = match msg {
        MuxOutMsg::Data { sport, .. } => *sport,
        MuxOutMsg::WindowUpdate { sport } => *sport,
    };
    if let Some(mut conn) = device.connections.remove(&sport) {
        let ghost c = conn@;
        assert(c == d.connections[sport]);
        if let MuxOutMsg::Data { payload, .. } = msg {
            let low: u32 = (payload.len() as u64 % 0x1_0000_0000) as u32;
            conn.tx_seq = conn.tx_seq.wrapping_add(low);
            let mut i: usize = 0;
            assert(payload@.take(0) =~= seq![]);
            assert(c.ob_buf + seq![] =~= c.ob_buf);
            while i < payload.len()
                invariant
                    i <= payload.len(),
                    conn.ob_buf@ == c.ob_buf + payload@.take(i as int),
                    conn@ == (conn_table::ConnectionView {
                        tx_seq: c.tx_seq.wrapping_add(low),
                        ob_buf: conn.ob_buf@,
                        ..c
                    }),
                decreases payload.len() - i,
            {
                let b: u8 = payload[i];
                conn.ob_buf.push_back(b);
                assert(payload@.take(i + 1) =~= payload@.take(i as int).push(b));
                assert(conn.ob_buf@ =~= c.ob_buf + payload@.take(i + 1));
                i = i + 1;
            }
            assert(payload@.take(i as int) =~= payload@);
        } else {
            assert(c.ob_buf + seq![] =~= c.ob_buf);
        }
        assert(conn@ =~= after_bytes(c, msg.bytes()));
        device.connections.insert(sport, conn);
        assert(device@.connections =~= d.connections.insert(sport, after_bytes(c, msg.bytes())));
    } else {
        assert(device@.connections =~= d.connections);
    }
    let ghost d1 = device@;
    conns.devices.insert(device_id, device);
    assert(conns@ =~= m.insert(device_id, d1));
}

/// The frame that asks a device to open a connection.
pub open spec fn syn_frame(
    d: conn_table::MuxDeviceView,
    sport: u16,
    dport: u16,
    tag: u32,
) -> Seq<u8> {
    d.segment(
        conn_table::fresh_connection(sport, dport, tag),
        TCP_SYN,
        INITIAL_WINDOW_UNITS,
        seq![],
    )
}

/// Makes a connection for a request, and builds the frame that asks the
/// device to open it.
pub fn begin_connect(conns: &mut ConnectionManager, req: &ConnectRequest) -> (r: Result<
    (u16, Vec<u8>),
    String,
>)
    requires
        old(conns).wf(),
    ensures
        final(conns).wf(),
        match r {
            Ok((sport, frame)) => {
                let d = old(conns)@[req.device_id];
                &&& old(conns)@.contains_key(req.device_id)
                &&& conn_table::port_free(d, sport)
                &&& forall|p: u16| p < sport ==> !conn_table::port_free(d, p)
                &&& final(conns)@ == old(conns)@.insert(
                    req.device_id,
                    d.with(sport, conn_table::fresh_connection(sport, req.dport, req.tag)),
                )
                &&& frame@ == syn_frame(d, sport, req.dport, req.tag)
            },
            Err(e) => {
                &&& final(conns)@ == old(conns)@
                &&& if old(conns)@.contains_key(req.device_id) {
                    &&& forall|p: u16| !conn_table::port_free(old(conns)@[req.device_id], p)
                    &&& e@ == "connect failed: "@ + mux::MuxErrorView::InvalidState(
                        "no available ports"@,
                    ).text()
                } else {
                    e@ == "connect failed: "@ + mux::MuxErrorView::InvalidState(
                        "device not found"@,
                    ).text()
                }
            },
        },
{
    let sport: u16 = match conns.start_connect(req.device_id, req.dport, req.tag) {
        Ok(p) => p,
        Err(e) => return Err(joined("connect failed: ", e.to_text().as_str())),
    };
    assert(conns@.contains_key(req.device_id));
    let device: &MuxDevice = conns.devices.get(&req.device_id).unwrap();
    assert(conns@[req.device_id] == device@);
    assert(mux::payload_bytes(None) =~= seq![]);
    let frame = build_tcp_packet(
        device.next_seqs(),
        sport,
        req.dport,
        0,
        0,
        TCP_SYN,
        INITIAL_WINDOW_UNITS,
        None,
    );
    Ok((sport, frame))
}

/// All devices after one more frame was sent to one of them.
pub open spec fn after_frame(
    m: Map<u32, conn_table::MuxDeviceView>,
    device_id: u32,
) -> Map<u32, conn_table::MuxDeviceView> {
    put_back(m, device_id, m[device_id].after_sending())
}

/// Notes that a frame without data was sent to a device.
pub fn frame_sent(conns: &mut ConnectionManager, device_id: u32)
    requires
        old(conns).wf(),
    ensures
        final(conns).wf(),
        final(conns)@ == after_frame(old(conns)@, device_id),
{
    let ghost m = conns@;
    if let Some(mut device) = conns.devices.remove(&device_id) {
        let ghost d = device@;
        device.tx_seq = increment_seq(device.tx_seq);
        assert(device@ =~= d.after_sending());
        conns.devices.insert(device_id, device);
        assert(conns@ =~= m.insert(device_id, d.after_sending()));
    } else {
        assert(conns@ =~= m);
    }
}

/// Why a connection could not be asked for.
pub fn syn_failure(e: &str) -> (s: String)
    ensures
        s@ == "SYN send failed: "@ + e@,
{
    joined("SYN send failed: ", e)
}

/// The result of a connection request, once there is one.
pub open spec fn connect_result(
    m: Map<u32, conn_table::MuxDeviceView>,
    device_id: u32,
    sport: u16,
) -> Option<Result<u16, Seq<char>>> {
    if m.contains_key(device_id) && m[device_id].connections.contains_key(sport) {
        match m[device_id].connections[sport].state {
            ConnState::Connected => Some(Ok(sport)),
            ConnState::Refused => Some(Err("connection refused"@)),
            ConnState::Dead => Some(Err("connection dead"@)),
            _ => None,
        }
    } else {
        None
    }
}

/// A result with its text as characters.
pub open spec fn result_view(r: Option<Result<u16, String>>) -> Option<Result<u16, Seq<char>>> {
    match r {
        Some(Ok(p)) => Some(Ok(p)),
        Some(Err(m)) => Some(Err(m@)),
        None => None,
    }
}

/// Looks whether a connection request has had its answer.
pub fn connect_status(conns: &ConnectionManager, device_id: u32, sport: u16) -> (r: Option<
    Result<u16, String>,
>)
    ensures
        result_view(r) == connect_result(conns@, device_id, sport),
{
    let device = match conns.devices.get(&device_id) {
        Some(d) => d,
        None => return None,
    };
    assert(conns@[device_id] == device@);
    let conn = match device.connections.get(&sport) {
        Some(c) => c,
        None => return None,
    };
    assert(device@.connections[sport] == conn@);
    match conn.state {
        ConnState::Connected => Some(Ok(sport)),
        ConnState::Refused => Some(Err("connection refused".to_owned())),
        ConnState::Dead => Some(Err("connection dead".to_owned())),
        _ => None,
    }
}

/// Whether a connection request has waited too long, and what is said then.
pub fn connect_expired(elapsed: Millis, timeout: Millis) -> (r: Option<String>)
    ensures
        match r {
            Some(m) => elapsed.millis > timeout.millis && m@ == "connect timeout"@,
            None => elapsed.millis <= timeout.millis,
        },
{
    if elapsed.millis > timeout.millis {
        Some("connect timeout".to_owned())
    } else {
        None
    }
}

/// Counting a client in and out again leaves the devices as they were.
pub proof fn refcounts_balance(devices: Map<u32, ManagedDevice>, device_id: u32)
    requires
        devices.contains_key(device_id) ==> devices[device_id].device_id == device_id,
    ensures
        ({
            let counted = recounted(
                devices,
                device_id,
                devices[device_id].refcount.wrapping_add(1),
            );
            recounted(counted, device_id, counted[device_id].refcount.wrapping_sub(1))
        }) == devices,
{
    if devices.contains_key(device_id) {
        let counted = recounted(devices, device_id, devices[device_id].refcount.wrapping_add(1));
        let back = recounted(counted, device_id, counted[device_id].refcount.wrapping_sub(1));
        assert(back[device_id] == devices[device_id]);
        assert(back =~= devices);
    }
}

/// The first frame after the negotiation with a device of version 2 has the
/// number after the setup frame's, and says that nothing was received.
pub proof fn negotiation_starts_the_numbers(d: conn_table::MuxDeviceView, major: u32)
    requires
        major >= 2,
    ensures
        negotiated(d, major).seqs() == Some((1u16, SETUP_RX_SEQ)),
        negotiated(d, major).connections == d.connections,
{
}

/// Devices of an older version get frames without numbers.
pub proof fn old_devices_get_short_headers(d: conn_table::MuxDeviceView, major: u32)
    requires
        major < 2,
    ensures
        negotiated(d, major).seqs() is None,
        negotiated(d, major).connections == d.connections,
{
}

/// After a frame with an extended header, the next frame to the device
/// carries the sequence number that came in that header.
pub proof fn received_numbers_are_echoed(
    m: Map<u32, conn_table::MuxDeviceView>,
    counts: Metrics,
    device_id: u32,
    data: Seq<u8>,
    max: int,
    action: PacketActionView,
    m2: Map<u32, conn_table::MuxDeviceView>,
    counts2: Metrics,
)
    requires
        processed(m, counts, device_id, data, max, action, m2, counts2),
        m.contains_key(device_id),
        m[device_id].version >= 2,
        mux::parsed(data) is Ok,
        !(mux::parsed(data)->Ok_0 is Version),
        mux::mux_header(data).is_v2,
    ensures
        m2.contains_key(device_id),
        m2[device_id].seqs() is Some,
        m2[device_id].seqs().unwrap().1 == mux::mux_header(data).rx_seq,
{
    let m1 = put_back(m, device_id, noted(m[device_id], mux::mux_header(data)));
    match mux::parsed(data) {
        Ok(mux::MuxPacketView::Tcp { header, payload }) => {
            let out = choose|out: conn_table::Delivery|
                {
                    &&& #[trigger] conn_table::delivered(m1[device_id], header, payload, max, out)
                    &&& m2 == m1.insert(device_id, out.device)
                };
            conn_table::segment_touches_one_connection(m1[device_id], header, payload, max, out);
        },
        _ => {},
    }
}

/// A frame that cannot be read changes nothing.
pub proof fn unreadable_frames_change_nothing(
    m: Map<u32, conn_table::MuxDeviceView>,
    counts: Metrics,
    device_id: u32,
    data: Seq<u8>,
    max: int,
    action: PacketActionView,
    m2: Map<u32, conn_table::MuxDeviceView>,
    counts2: Metrics,
)
    requires
        processed(m, counts, device_id, data, max, action, m2, counts2),
        mux::parsed(data) is Err,
    ensures
        m2 == m,
        counts2 == counts,
        action is Rejected,
{
}

/// Frames from one device leave every other device as it was.
pub proof fn frames_touch_one_device(
    m: Map<u32, conn_table::MuxDeviceView>,
    counts: Metrics,
    device_id: u32,
    data: Seq<u8>,
    max: int,
    action: PacketActionView,
    m2: Map<u32, conn_table::MuxDeviceView>,
    counts2: Metrics,
    other: u32,
)
    requires
        processed(m, counts, device_id, data, max, action, m2, counts2),
        other != device_id,
    ensures
        m2.contains_key(other) == m.contains_key(other),
        m.contains_key(other) ==> m2[other] == m[other],
{
}

/// A connection request that the device answers with a SYN-ACK succeeds, with
/// the port that was made for it; until then there is no result.
pub proof fn answered_request_succeeds(
    m: Map<u32, conn_table::MuxDeviceView>,
    req: ConnectRequest,
    sport: u16,
    h: mux::TcpHeader,
    payload: Seq<u8>,
    max: int,
    out: conn_table::Delivery,
)
    requires
        conn_table::manager_wf(m),
        m.contains_key(req.device_id),
        ({
            let d = m[req.device_id];
            conn_table::delivered(
                d.with(
                    sport,
                    conn_table::fresh_connection(sport, req.dport, req.tag),
                ).after_sending(),
                h,
                payload,
                max,
                out,
            )
        }),
        h.source_port == req.dport,
        h.dest_port == sport,
        h.flag_bits() & TCP_SYN != 0,
        h.flag_bits() & TCP_ACK != 0,
    ensures
        ({
            let d = m[req.device_id];
            let asked = m.insert(
                req.device_id,
                d.with(sport, conn_table::fresh_connection(sport, req.dport, req.tag)),
            );
            connect_result(asked, req.device_id, sport) is None
        }),
        connect_result(m.insert(req.device_id, out.device), req.device_id, sport)
            == Some(Ok::<u16, Seq<char>>(sport)),
{
    let d = m[req.device_id].after_sending();
    assert(m[req.device_id].wf());
    assert(d.wf());
    assert(m[req.device_id].with(
        sport,
        conn_table::fresh_connection(sport, req.dport, req.tag),
    ).after_sending() =~= d.with(
        sport,
        conn_table::fresh_connection(sport, req.dport, req.tag),
    ));
    conn_table::answer_opens_the_connection(d, sport, req.dport, req.tag, h, payload, max, out);
}

/// What a client sends in two pieces is numbered as if it had been sent in
/// one: the second piece begins where the first ended, nothing is lost, and
/// each frame has a number of its own.
pub proof fn client_bytes_are_numbered_in_order(
    m: Map<u32, conn_table::MuxDeviceView>,
    device_id: u32,
    sport: u16,
    a: Seq<u8>,
    b: Seq<u8>,
)
    requires
        m.contains_key(device_id),
        m[device_id].connections.contains_key(sport),
    ensures
        ({
            let twice = after_out(after_out(m, device_id, sport, a), device_id, sport, b);
            let once = after_out(m, device_id, sport, a + b);
            &&& twice[device_id].connections[sport] == once[device_id].connections[sport]
            &&& twice[device_id].tx_seq == mux::next_seq(mux::next_seq(m[device_id].tx_seq))
        }),
{
    let c = m[device_id].connections[sport];
    let twice = after_out(after_out(m, device_id, sport, a), device_id, sport, b);
    let once = after_out(m, device_id, sport, a + b);
    let c2 = twice[device_id].connections[sport];
    let c1 = once[device_id].connections[sport];
    assert(c2.ob_buf =~= c1.ob_buf);
    assert((a + b).len() == a.len() + b.len());
    assert(c2.tx_seq == c1.tx_seq);
}

/// Whether a frame is one segment of connection `c`, numbered as the next
/// frame to the device, with these flags, this window and exactly this data.
pub open spec fn carries(
    f: Seq<u8>,
    d: conn_table::MuxDeviceView,
    c: conn_table::ConnectionView,
    flags: int,
    window: u16,
    data: Seq<u8>,
) -> bool {
    mux::says(
        f,
        if d.version >= 2 {
            Some((d.tx_seq, d.rx_seq))
        } else {
            None
        },
        mux::TcpHeader {
            source_port: c.source_port,
            dest_port: c.dest_port,
            seq: c.tx_seq,
            ack: c.tx_ack,
            offset_flags: (0x5000 + flags) as u16,
            window,
        },
        data,
    )
}

proof fn segments_carry_what_they_are_given(
    d: conn_table::MuxDeviceView,
    c: conn_table::ConnectionView,
    flags: u16,
    window: u16,
    data: Seq<u8>,
)
    requires
        conn_table::ports_are_plain(d, c),
        flags < 0x100,
        data.len() + 36 <= u32::MAX,
    ensures
        carries(d.segment(c, flags, window, data), d, c, flags as int, window, data),
{
    mux::built_segments_say_so(
        d.seqs(),
        mux::sent_header(c.source_port, c.dest_port, c.tx_seq, c.tx_ack, flags, window),
        data,
    );
}

/// What a client sends goes to the device whole: the frame for it is one
/// segment from the connection's port to the device's, it begins at the number
/// that the connection has come to, and its data are all bytes of the client.
pub proof fn client_bytes_are_sent_whole(
    m: Map<u32, conn_table::MuxDeviceView>,
    device_id: u32,
    sport: u16,
    payload: Vec<u8>,
    max: int,
)
    requires
        conn_table::manager_wf(m),
        m.contains_key(device_id),
        m[device_id].connections.contains_key(sport),
        conn_table::ports_are_plain(m[device_id], m[device_id].connections[sport]),
        payload@.len() <= MAX_SEGMENT_BYTES,
    ensures
        ({
            let d = m[device_id];
            let c = d.connections[sport];
            let f = out_frame(m, device_id, MuxOutMsg::Data { sport, payload }, max);
            &&& carries(f, d, c, 0x10, 512, payload@)
            &&& mux::parsed(f) == Ok::<mux::MuxPacketView, mux::MuxErrorView>(
                mux::MuxPacketView::Tcp {
                    header: mux::TcpHeader {
                        source_port: sport,
                        dest_port: c.dest_port,
                        seq: c.tx_seq,
                        ack: c.tx_ack,
                        offset_flags: 0x5010,
                        window: 512,
                    },
                    payload: payload@,
                },
            )
        }),
{
    let d = m[device_id];
    let c = d.connections[sport];
    let f = out_frame(m, device_id, MuxOutMsg::Data { sport, payload }, max);
    assert(d.wf());
    segments_carry_what_they_are_given(d, c, TCP_ACK, 512, payload@);
    assert(f == d.segment(c, TCP_ACK, 512, payload@));
    mux::what_is_said_is_read(
        f,
        if d.version >= 2 {
            Some((d.tx_seq, d.rx_seq))
        } else {
            None
        },
        mux::TcpHeader {
            source_port: sport,
            dest_port: c.dest_port,
            seq: c.tx_seq,
            ack: c.tx_ack,
            offset_flags: 0x5010,
            window: 512,
        },
        payload@,
    );
}

/// Once a client's bytes are sent, the connection has come to the number behind
/// the last of them, and has them noted; the next frame has the next number;
/// and no other connection, and no other device, has changed.
pub proof fn sent_bytes_are_counted(
    m: Map<u32, conn_table::MuxDeviceView>,
    device_id: u32,
    sport: u16,
    payload: Vec<u8>,
)
    requires
        m.contains_key(device_id),
        m[device_id].connections.contains_key(sport),
        payload@.len() <= MAX_SEGMENT_BYTES,
    ensures
        ({
            let msg = MuxOutMsg::Data { sport, payload };
            let d = m[device_id];
            let c = d.connections[sport];
            after_out(m, device_id, msg.port(), msg.bytes()) == m.insert(
                device_id,
                conn_table::MuxDeviceView {
                    connections: d.connections.insert(
                        sport,
                        conn_table::ConnectionView {
                            tx_seq: ((c.tx_seq + payload@.len()) % 0x1_0000_0000) as u32,
                            ob_buf: c.ob_buf + payload@,
                            ..c
                        },
                    ),
                    tx_seq: ((d.tx_seq + 1) % 0x1_0000) as u16,
                    ..d
                },
            )
        }),
{
    let d = m[device_id];
    let c = d.connections[sport];
    assert(payload@.len() % 0x1_0000_0000 == payload@.len());
    let c1 = after_bytes(c, payload@);
    assert(c1.tx_seq == (c.tx_seq + payload@.len()) % 0x1_0000_0000);
    assert(after_out(m, device_id, sport, payload@) =~= m.insert(
        device_id,
        conn_table::MuxDeviceView {
            connections: d.connections.insert(sport, c1),
            tx_seq: ((d.tx_seq + 1) % 0x1_0000) as u16,
            ..d
        },
    ));
}

/// The number that a connection has come to, once a frame was sent on it, is
/// the number of the segment in that frame and as many more as the segment has
/// bytes: no byte is skipped, and none is sent twice.
pub proof fn numbers_go_by_what_was_sent(
    m: Map<u32, conn_table::MuxDeviceView>,
    device_id: u32,
    sport: u16,
    payload: Vec<u8>,
    max: int,
    header: mux::TcpHeader,
    sent: Seq<u8>,
)
    requires
        conn_table::manager_wf(m),
        m.contains_key(device_id),
        m[device_id].connections.contains_key(sport),
        conn_table::ports_are_plain(m[device_id], m[device_id].connections[sport]),
        payload@.len() <= MAX_SEGMENT_BYTES,
        mux::parsed(out_frame(m, device_id, MuxOutMsg::Data { sport, payload }, max)) == Ok::<
            mux::MuxPacketView,
            mux::MuxErrorView,
        >(mux::MuxPacketView::Tcp { header, payload: sent }),
    ensures
        after_out(
            m,
            device_id,
            MuxOutMsg::Data { sport, payload }.port(),
            MuxOutMsg::Data { sport, payload }.bytes(),
        )[device_id].connections[sport].tx_seq == (header.seq + sent.len()) % 0x1_0000_0000,
        after_out(
            m,
            device_id,
            MuxOutMsg::Data { sport, payload }.port(),
            MuxOutMsg::Data { sport, payload }.bytes(),
        )[device_id].connections[sport].ob_buf == m[device_id].connections[sport].ob_buf + sent,
{
    client_bytes_are_sent_whole(m, device_id, sport, payload, max);
    sent_bytes_are_counted(m, device_id, sport, payload);
    let c = m[device_id].connections[sport];
    assert(sent == payload@ && header.seq == c.tx_seq);
}

/// Once a client has taken what was buffered, the device is told how much may
/// come: a segment without data, whose window is what is free. It takes a frame
/// number and no number of the connection.
pub proof fn emptied_buffers_open_the_window(
    m: Map<u32, conn_table::MuxDeviceView>,
    device_id: u32,
    sport: u16,
    max: int,
)
    requires
        conn_table::manager_wf(m),
        m.contains_key(device_id),
        m[device_id].connections.contains_key(sport),
        conn_table::ports_are_plain(m[device_id], m[device_id].connections[sport]),
        max >= 0,
    ensures
        ({
            let msg = MuxOutMsg::WindowUpdate { sport };
            let d = m[device_id];
            let c = d.connections[sport];
            let free = if c.ib_buf.len() > max {
                0
            } else {
                max - c.ib_buf.len()
            };
            let after = after_out(m, device_id, msg.port(), msg.bytes());
            &&& carries(
                out_frame(m, device_id, msg, max),
                d,
                c,
                0x10,
                if free / 256 > 65535 {
                    65535
                } else {
                    (free / 256) as u16
                },
                seq![],
            )
            &&& after == m.insert(
                device_id,
                conn_table::MuxDeviceView { tx_seq: ((d.tx_seq + 1) % 0x1_0000) as u16, ..d },
            )
        }),
{
    let msg = MuxOutMsg::WindowUpdate { sport };
    let d = m[device_id];
    let c = d.connections[sport];
    let free = if c.ib_buf.len() > max {
        0
    } else {
        max - c.ib_buf.len()
    };
    mux::windows_say_what_is_free(free);
    segments_carry_what_they_are_given(d, c, TCP_ACK, mux::window_units(free) as u16, seq![]);
    assert(msg.window(c, max) == mux::window_units(free) as u16);
    assert(c.ob_buf + Seq::<u8>::empty() =~= c.ob_buf);
    assert(after_bytes(c, seq![]) =~= c);
    assert(d.connections.insert(sport, c) =~= d.connections);
    assert(after_out(m, device_id, msg.port(), msg.bytes()) =~= m.insert(
        device_id,
        conn_table::MuxDeviceView { tx_seq: ((d.tx_seq + 1) % 0x1_0000) as u16, ..d },
    ));
}

/// Bytes are sent on open connections alone, and else it is said what is
/// missing.
pub proof fn only_open_connections_are_sent_on(
    m: Map<u32, conn_table::MuxDeviceView>,
    device_id: u32,
    sport: u16,
)
    ensures
        send_fault(m, device_id, sport) is None <==> m.contains_key(device_id)
            && m[device_id].connections.contains_key(sport)
            && m[device_id].connections[sport].state == ConnState::Connected,
        !m.contains_key(device_id) ==> send_fault(m, device_id, sport) == Some(
            SendFault::DeviceNotFound,
        ),
        m.contains_key(device_id) && !m[device_id].connections.contains_key(sport)
            ==> send_fault(m, device_id, sport) == Some(SendFault::ConnectionNotFound),
        m.contains_key(device_id) && m[device_id].connections.contains_key(sport)
            && m[device_id].connections[sport].state != ConnState::Connected ==> send_fault(
            m,
            device_id,
            sport,
        ) == Some(SendFault::NotConnected),
{
}

/// A device is asked for a connection with one segment: from the port on this
/// side to the device's, numbers zero, only the bit for SYN set, the window of
/// 128 KiB, and no data.
pub proof fn connections_are_asked_for(
    d: conn_table::MuxDeviceView,
    sport: u16,
    dport: u16,
    tag: u32,
)
    requires
        conn_table::ports_are_plain(d, conn_table::fresh_connection(sport, dport, tag)),
    ensures
        carries(
            syn_frame(d, sport, dport, tag),
            d,
            conn_table::fresh_connection(sport, dport, tag),
            0x02,
            512,
            seq![],
        ),
        mux::parsed(syn_frame(d, sport, dport, tag)) matches Ok(
            mux::MuxPacketView::Tcp { header, payload },
        ) && header.source_port == sport && header.dest_port == dport && header.seq == 0
            && header.ack == 0 && header.offset_flags == 0x5002 && header.window == 512
            && payload.len() == 0,
{
    let c = conn_table::fresh_connection(sport, dport, tag);
    segments_carry_what_they_are_given(d, c, TCP_SYN, 512, seq![]);
    mux::what_is_said_is_read(
        syn_frame(d, sport, dport, tag),
        if d.version >= 2 {
            Some((d.tx_seq, d.rx_seq))
        } else {
            None
        },
        mux::TcpHeader {
            source_port: sport,
            dest_port: dport,
            seq: 0,
            ack: 0,
            offset_flags: 0x5002,
            window: 512,
        },
        seq![],
    );
}

/// What became of a request to connect follows from the state of its
/// connection: an open one has succeeded, a refused or dead one has failed, and
/// any other is waited for.
pub proof fn requests_end_with_their_connection(
    m: Map<u32, conn_table::MuxDeviceView>,
    device_id: u32,
    sport: u16,
)
    requires
        m.contains_key(device_id),
        m[device_id].connections.contains_key(sport),
    ensures
        ({
            let state = m[device_id].connections[sport].state;
            let r = connect_result(m, device_id, sport);
            &&& state == ConnState::Connected <==> r == Some(Ok::<u16, Seq<char>>(sport))
            &&& state == ConnState::Refused ==> r == Some(
                Err::<u16, Seq<char>>("connection refused"@),
            )
            &&& state == ConnState::Dead ==> r == Some(Err::<u16, Seq<char>>("connection dead"@))
            &&& r is None <==> state != ConnState::Connected && state != ConnState::Refused && state
                != ConnState::Dead
        }),
{
}

/// A connection request that the device answers with a reset, with or without
/// an acknowledgement, fails at once.
pub proof fn refused_requests_fail(
    m: Map<u32, conn_table::MuxDeviceView>,
    device_id: u32,
    sport: u16,
    h: mux::TcpHeader,
    payload: Seq<u8>,
    max: int,
    out: conn_table::Delivery,
)
    requires
        m.contains_key(device_id),
        conn_table::is_for(m[device_id], sport, h),
        conn_table::delivered(m[device_id], h, payload, max, out),
        h.offset_flags & 0x04 != 0,
        !conn_table::opens(h),
    ensures
        connect_result(m.insert(device_id, out.device), device_id, sport) == Some(
            Err::<u16, Seq<char>>("connection dead"@),
        ),
{
    conn_table::resets_end_the_connection(m[device_id], sport, h, payload, max, out);
}

/// Data that a device sends reaches the buffer of the connection it is for,
/// behind what is there, and is reported; it is acknowledged with one frame.
pub proof fn device_bytes_reach_their_connection(
    m: Map<u32, conn_table::MuxDeviceView>,
    counts: Metrics,
    device_id: u32,
    data: Seq<u8>,
    h: mux::TcpHeader,
    payload: Seq<u8>,
    p: u16,
    max: int,
    action: PacketActionView,
    m2: Map<u32, conn_table::MuxDeviceView>,
    counts2: Metrics,
)
    requires
        m.contains_key(device_id),
        processed(m, counts, device_id, data, max, action, m2, counts2),
        mux::parsed(data) == Ok::<mux::MuxPacketView, mux::MuxErrorView>(
            mux::MuxPacketView::Tcp { header: h, payload },
        ),
        conn_table::is_for(m[device_id], p, h),
        h.offset_flags & 0x01 == 0,
        h.offset_flags & 0x04 == 0,
        !conn_table::opens(h),
        0 < payload.len() <= u32::MAX,
        m[device_id].connections[p].ib_buf.len() + payload.len() <= max,
    ensures
        m2[device_id].connections[p].ib_buf == m[device_id].connections[p].ib_buf + payload,
        m2[device_id].connections[p].state == m[device_id].connections[p].state,
        m2[device_id].connections.dom() == m[device_id].connections.dom(),
        forall|q: u16| #[trigger]
            m[device_id].connections.contains_key(q) && q != p ==> m2[device_id].connections[q]
                == m[device_id].connections[q],
        action matches PacketActionView::Segment { events, frames } && events == seq![
            conn_table::ConnectionEventView::DataReady {
                device_id: m[device_id].device_id,
                sport: p,
            },
        ] && frames.len() == 1,
        counts2 == counts,
{
    let m1 = put_back(m, device_id, noted(m[device_id], mux::mux_header(data)));
    let out = choose|out: conn_table::Delivery|
        {
            &&& #[trigger] conn_table::delivered(m1[device_id], h, payload, max, out)
            &&& m2 == m1.insert(device_id, out.device)
            &&& action == (PacketActionView::Segment { events: out.events, frames: out.frames })
            &&& counts2 == if out.refused {
                Metrics {
                    overflow_rejections: counts.overflow_rejections.wrapping_add(1),
                    ..counts
                }
            } else {
                counts
            }
        };
    assert(m1[device_id].connections == m[device_id].connections);
    conn_table::data_is_kept_and_acknowledged(m1[device_id], p, h, payload, max, out);
    assert(m2[device_id].connections.dom() =~= m[device_id].connections.dom());
}

/// A reset that a device sends ends the connection it is for, whatever else
/// the segment has.
pub proof fn device_resets_reach_their_connection(
    m: Map<u32, conn_table::MuxDeviceView>,
    counts: Metrics,
    device_id: u32,
    data: Seq<u8>,
    h: mux::TcpHeader,
    payload: Seq<u8>,
    p: u16,
    max: int,
    action: PacketActionView,
    m2: Map<u32, conn_table::MuxDeviceView>,
    counts2: Metrics,
)
    requires
        m.contains_key(device_id),
        processed(m, counts, device_id, data, max, action, m2, counts2),
        mux::parsed(data) == Ok::<mux::MuxPacketView, mux::MuxErrorView>(
            mux::MuxPacketView::Tcp { header: h, payload },
        ),
        conn_table::is_for(m[device_id], p, h),
        h.offset_flags & 0x04 != 0,
        !conn_table::opens(h),
    ensures
        m2[device_id].connections[p].state == ConnState::Dead,
        action == (PacketActionView::Segment {
            events: seq![
                conn_table::ConnectionEventView::Disconnected {
                    device_id: m[device_id].device_id,
                    sport: p,
                },
            ],
            frames: seq![],
        }),
        counts2 == counts,
{
    let m1 = put_back(m, device_id, noted(m[device_id], mux::mux_header(data)));
    let out = choose|out: conn_table::Delivery|
        {
            &&& #[trigger] conn_table::delivered(m1[device_id], h, payload, max, out)
            &&& m2 == m1.insert(device_id, out.device)
            &&& action == (PacketActionView::Segment { events: out.events, frames: out.frames })
            &&& counts2 == if out.refused {
                Metrics {
                    overflow_rejections: counts.overflow_rejections.wrapping_add(1),
                    ..counts
                }
            } else {
                counts
            }
        };
    conn_table::resets_end_the_connection(m1[device_id], p, h, payload, max, out);
    assert(out.frames =~= seq![]);
}

/// A device of version 2 is set up with one frame, which is its number zero
/// and says that nothing was received: the protocol for setup, and one byte.
/// Its numbers then begin at one. A device of an older version is not set up
/// and gets no numbers. Its connections stay as they are.
pub proof fn negotiation_goes_by_the_version(
    m: Map<u32, conn_table::MuxDeviceView>,
    counts: Metrics,
    device_id: u32,
    data: Seq<u8>,
    max: int,
    major: u32,
    minor: u32,
    action: PacketActionView,
    m2: Map<u32, conn_table::MuxDeviceView>,
    counts2: Metrics,
)
    requires
        m.contains_key(device_id),
        processed(m, counts, device_id, data, max, action, m2, counts2),
        mux::parsed(data) == Ok::<mux::MuxPacketView, mux::MuxErrorView>(
            mux::MuxPacketView::Version { major, minor },
        ),
    ensures
        action == (PacketActionView::Version {
            major,
            minor,
            setup: if major >= 2 {
                Some(
                    seq![0u8, 0, 0, 2, 0, 0, 0, 17, 0xFE, 0xED, 0xFA, 0xCE, 0, 0, 0xFF, 0xFF, 7],
                )
            } else {
                None
            },
        }),
        m2[device_id].state == DeviceState::Active,
        m2[device_id].tx_seq == 1,
        m2[device_id].connections == m[device_id].connections,
        m2[device_id].device_id == m[device_id].device_id,
        major >= 2 ==> m2[device_id].version == 2 && m2[device_id].rx_seq == 0xFFFF,
        major < 2 ==> m2[device_id].version == 1,
        counts2 == counts,
{
    assert(setup_frame() =~= seq![
        0u8,
        0,
        0,
        2,
        0,
        0,
        0,
        17,
        0xFE,
        0xED,
        0xFA,
        0xCE,
        0,
        0,
        0xFF,
        0xFF,
        7,
    ]);
}

/// The frame that begins the negotiation asks for version 2.0.
pub proof fn negotiation_asks_for_version_two()
    ensures
        mux::mux_frame(mux::HEADER_VERSION, None, mux::version_body()) == seq![
            0u8,
            0,
            0,
            0,
            0,
            0,
            0,
            20,
            0,
            0,
            0,
            2,
            0,
            0,
            0,
            0,
            0,
            0,
            0,
            0,
        ],
{
    assert(mux::mux_frame(mux::HEADER_VERSION, None, mux::version_body()) =~= seq![
        0u8,
        0,
        0,
        0,
        0,
        0,
        0,
        20,
        0,
        0,
        0,
        2,
        0,
        0,
        0,
        0,
        0,
        0,
        0,
        0,
    ]);
}

/// A message of the device's own is handed on: its kind, and its text whole.
pub proof fn device_messages_are_handed_on(
    m: Map<u32, conn_table::MuxDeviceView>,
    counts: Metrics,
    device_id: u32,
    data: Seq<u8>,
    max: int,
    kind: u8,
    text: Seq<u8>,
    action: PacketActionView,
    m2: Map<u32, conn_table::MuxDeviceView>,
    counts2: Metrics,
)
    requires
        processed(m, counts, device_id, data, max, action, m2, counts2),
        mux::parsed(data) == Ok::<mux::MuxPacketView, mux::MuxErrorView>(
            mux::MuxPacketView::Control { payload: seq![kind] + text },
        ),
    ensures
        action == (PacketActionView::Notice { kind, text }),
        m2.dom() == m.dom(),
        m.contains_key(device_id) ==> m2[device_id].connections == m[device_id].connections,
        counts2 == counts,
        level_of(3) == NoticeLevel::Error,
        level_of(5) == NoticeLevel::Warning,
        level_of(7) == NoticeLevel::Info,
        kind != 3 && kind != 5 && kind != 7 ==> level_of(kind) == NoticeLevel::Other,
{
    assert((seq![kind] + text).skip(1) =~= text);
    assert(m2.dom() =~= m.dom());
}

/// Counting a client changes the count of that device by one, and nothing
/// else.
pub proof fn clients_are_counted_per_device(
    devices: Map<u32, ManagedDevice>,
    device_id: u32,
    refcount: u64,
    id: u32,
)
    ensures
        ({
            let after = recounted(devices, device_id, refcount);
            &&& after.contains_key(id) <==> devices.contains_key(id)
            &&& id != device_id && devices.contains_key(id) ==> after[id] == devices[id]
            &&& devices.contains_key(device_id) ==> after[device_id] == (ManagedDevice {
                device_id,
                refcount,
            })
        }),
{
}

/// A device is found by its vendor and by its identifier, in which dashes and
/// the like do not count, and it is the first of those that match.
pub proof fn devices_are_found_by_identifier(
    candidates: Seq<UsbCandidate>,
    udid: Seq<char>,
    r: Option<usize>,
)
    requires
        first_for(candidates, udid, r),
    ensures
        r matches Some(i) ==> i < candidates.len() && candidates[i as int].vendor_id == 0x05AC
            && candidates[i as int].serial is Some && security::udid_core(
            candidates[i as int].serial.unwrap()@,
        ) == udid,
        r is None ==> forall|j: int|
            0 <= j < candidates.len() && (#[trigger] candidates[j]).vendor_id == 0x05AC
                && candidates[j].serial is Some ==> security::udid_core(
                candidates[j].serial.unwrap()@,
            ) != udid,
{
}

/// Of a connection that nobody asked for there is no result, nor of one at a
/// device that is not there.
pub proof fn unknown_requests_have_no_result(
    m: Map<u32, conn_table::MuxDeviceView>,
    device_id: u32,
    sport: u16,
)
    ensures
        !m.contains_key(device_id) ==> connect_result(m, device_id, sport) is None,
        m.contains_key(device_id) && !m[device_id].connections.contains_key(sport)
            ==> connect_result(m, device_id, sport) is None,
{
}

/// Frames are processed in the order in which they came, each where the one
/// before it left off, and none is left out.
pub proof fn frames_are_processed_in_order(
    moments: Seq<Moment>,
    device_id: u32,
    frames: Seq<Seq<u8>>,
    max: int,
    actions: Seq<PacketAction>,
    i: int,
)
    requires
        steps_taken(moments, device_id, frames, max, actions),
        0 <= i < frames.len(),
    ensures
        actions.len() == frames.len(),
        moments.len() == frames.len() + 1,
        processed(
            moments[i].conns,
            moments[i].counts,
            device_id,
            frames[i],
            max,
            actions[i]@,
            moments[i + 1].conns,
            moments[i + 1].counts,
        ),
{
    assert(step_taken(moments, device_id, frames, max, actions, i));
}

} // verus!
