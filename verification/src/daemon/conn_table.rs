//! The connections of each device, and what a segment does to them.
use crate::bytes::push_bytes;
use crate::daemon::mux;
use crate::daemon::mux::{
    build_tcp_packet, increment_seq, scaled_window, MuxError, TcpHeader, TCP_ACK, TCP_FIN, TCP_RST,
    TCP_SYN,
};
use crate::metrics::Metrics;
use std::collections::HashMap;
use std::collections::VecDeque;
use vstd::prelude::*;

verus! {

broadcast use vstd::std_specs::hash::group_hash_axioms;

/// The first port that a connection of this side may have.
pub const FIRST_PORT: u16 = 1024;

/// One more than the last port that a connection of this side may have.
pub const END_PORT: u16 = 65535;

#[derive(Debug, Clone, Copy, PartialEq, Eq, Structural)]
pub enum DeviceState {
    Idle,
    Active,
}

#[derive(Debug, Clone, Copy, PartialEq, Eq, Structural)]
pub enum ConnState {
    SynSent,
    SynAckReceived,
    Established,
    Connected,
    Refused,
    FinWait1,
    CloseWait,
    Closing,
    Closed,
    Dead,
}

impl ConnState {
    pub fn is_active(&self) -> (b: bool)
        ensures
            b == (*self is Established || *self is Connected || *self is CloseWait),
    {
        matches!(self, ConnState::Established | ConnState::Connected | ConnState::CloseWait)
    }
}

/// What became of a connection.
#[derive(Debug, Clone)]
pub enum ConnectionEvent {
    Connected { device_id: u32, sport: u16, tag: u32 },
    Refused { device_id: u32, sport: u16, tag: u32 },
    DataReady { device_id: u32, sport: u16 },
    Disconnected { device_id: u32, sport: u16 },
    Error { device_id: u32, sport: u16, error: String },
}

/// A `ConnectionEvent` with its text as characters.
pub ghost enum ConnectionEventView {
    Connected { device_id: u32, sport: u16, tag: u32 },
    Refused { device_id: u32, sport: u16, tag: u32 },
    DataReady { device_id: u32, sport: u16 },
    Disconnected { device_id: u32, sport: u16 },
    Error { device_id: u32, sport: u16, error: Seq<char> },
}

impl View for ConnectionEvent {
    type V = ConnectionEventView;

    open spec fn view(&self) -> ConnectionEventView {
        match self {
            ConnectionEvent::Connected { device_id, sport, tag } => ConnectionEventView::Connected {
                device_id: *device_id,
                sport: *sport,
                tag: *tag,
            },
            ConnectionEvent::Refused { device_id, sport, tag } => ConnectionEventView::Refused {
                device_id: *device_id,
                sport: *sport,
                tag: *tag,
            },
            ConnectionEvent::DataReady { device_id, sport } => ConnectionEventView::DataReady {
                device_id: *device_id,
                sport: *sport,
            },
            ConnectionEvent::Disconnected { device_id, sport } => ConnectionEventView::Disconnected {
                device_id: *device_id,
                sport: *sport,
            },
            ConnectionEvent::Error { device_id, sport, error } => ConnectionEventView::Error {
                device_id: *device_id,
                sport: *sport,
                error: error@,
            },
        }
    }
}

/// The events in `v`, in order.
pub open spec fn event_views(v: Seq<ConnectionEvent>) -> Seq<ConnectionEventView> {
    v.map_values(|e: ConnectionEvent| e@)
}

/// A change in the set of devices on the bus.
#[derive(Debug, Clone)]
pub enum MuxEvent {
    DeviceAdded { device_id: u32, product_id: u16, connection_type: String, usb_speed: String },
    DeviceRemoved { device_id: u32 },
}

/// One connection to a port of a device.
#[derive(Debug)]
pub struct Connection {
    pub source_port: u16,
    pub dest_port: u16,
    pub state: ConnState,
    pub tx_seq: u32,
    pub tx_ack: u32,
    /// Bytes from the device that no client has taken yet.
    pub ib_buf: Vec<u8>,
    /// Bytes that were sent to the device.
    pub ob_buf: VecDeque<u8>,
    pub tag: u32,
}

/// A `Connection` with its buffers as sequences.
#[verifier::ext_equal]
pub ghost struct ConnectionView {
    pub source_port: u16,
    pub dest_port: u16,
    pub state: ConnState,
    pub tx_seq: u32,
    pub tx_ack: u32,
    pub ib_buf: Seq<u8>,
    pub ob_buf: Seq<u8>,
    pub tag: u32,
}

impl View for Connection {
    type V = ConnectionView;

    open spec fn view(&self) -> ConnectionView {
        ConnectionView {
            source_port: self.source_port,
            dest_port: self.dest_port,
            state: self.state,
            tx_seq: self.tx_seq,
            tx_ack: self.tx_ack,
            ib_buf: self.ib_buf@,
            ob_buf: self.ob_buf@,
            tag: self.tag,
        }
    }
}

/// A device and its connections, by their port on this side.
#[derive(Debug)]
pub struct MuxDevice {
    pub device_id: u32,
    pub connections: HashMap<u16, Connection>,
    pub version: u32,
    pub state: DeviceState,
    pub tx_seq: u16,
    pub rx_seq: u16,
}

/// A `MuxDevice` with its connections as a map.
#[verifier::ext_equal]
pub ghost struct MuxDeviceView {
    pub device_id: u32,
    pub connections: Map<u16, ConnectionView>,
    pub version: u32,
    pub state: DeviceState,
    pub tx_seq: u16,
    pub rx_seq: u16,
}

impl View for MuxDevice {
    type V = MuxDeviceView;

    open spec fn view(&self) -> MuxDeviceView {
        MuxDeviceView {
            device_id: self.device_id,
            connections: self.connections@.map_values(|c: Connection| c@),
            version: self.version,
            state: self.state,
            tx_seq: self.tx_seq,
            rx_seq: self.rx_seq,
        }
    }
}

impl MuxDeviceView {
    /// Every connection stands under its own port.
    pub open spec fn wf(self) -> bool {
        forall|p: u16| #[trigger]
            self.connections.contains_key(p) ==> self.connections[p].source_port == p
    }

    /// The sequence numbers of the next frame to a device of version 2.
    pub open spec fn seqs(self) -> Option<(u16, u16)> {
        if self.version >= 2 {
            Some((self.tx_seq, self.rx_seq))
        } else {
            None
        }
    }

    /// The frame that carries a segment of connection `c` with these flags,
    /// this window and this data.
    pub open spec fn segment(
        self,
        c: ConnectionView,
        flags: u16,
        window: u16,
        data: Seq<u8>,
    ) -> Seq<u8> {
        mux::mux_frame(
            mux::HEADER_TCP,
            self.seqs(),
            mux::tcp_segment(
                mux::sent_header(c.source_port, c.dest_port, c.tx_seq, c.tx_ack, flags, window),
                data,
            ),
        )
    }

    /// The device with connection `c` under port `p`.
    pub open spec fn with(self, p: u16, c: ConnectionView) -> MuxDeviceView {
        MuxDeviceView { connections: self.connections.insert(p, c), ..self }
    }

    /// The device after one more frame was sent to it.
    pub open spec fn after_sending(self) -> MuxDeviceView {
        MuxDeviceView { tx_seq: mux::next_seq(self.tx_seq), ..self }
    }

    /// Whether the connection under `p` has exactly the ports of the segment.
    pub open spec fn exact(self, p: u16, h: TcpHeader) -> bool {
        &&& self.connections.contains_key(p)
        &&& self.connections[p].source_port == h.dest_port
        &&& self.connections[p].dest_port == h.source_port
    }

    /// Whether the connection under `p` has the segment's source port on
    /// either side, as with devices that echo ports unexpectedly.
    pub open spec fn loose(self, p: u16, h: TcpHeader) -> bool {
        &&& self.connections.contains_key(p)
        &&& (self.connections[p].source_port == h.source_port || self.connections[p].dest_port
            == h.source_port)
    }
}

/// The devices without a connection.
pub open spec fn without(m: Map<u32, MuxDeviceView>, device_id: u32, sport: u16) -> Map<
    u32,
    MuxDeviceView,
> {
    if m.contains_key(device_id) {
        m.insert(
            device_id,
            MuxDeviceView {
                connections: m[device_id].connections.remove(sport),
                ..m[device_id]
            },
        )
    } else {
        m
    }
}

/// What a segment does: the device afterwards, the events, the frames to
/// send, and whether data was refused for want of room.
pub ghost struct Delivery {
    pub device: MuxDeviceView,
    pub events: Seq<ConnectionEventView>,
    pub frames: Seq<Seq<u8>>,
    pub refused: bool,
}

/// The window advertised when a connection is acknowledged as open.
pub const OPEN_WINDOW: u16 = 65535;

/// What a segment does to the connection under `p`, whose inbound buffer
/// holds up to `max` bytes.
pub open spec fn delivery(
    d: MuxDeviceView,
    p: u16,
    h: TcpHeader,
    payload: Seq<u8>,
    max: int,
) -> Delivery {
    let c = d.connections[p];
    let flags = h.flag_bits();
    let nothing = Delivery { device: d, events: seq![], frames: seq![], refused: false };
    if flags & TCP_SYN != 0 && flags & TCP_ACK != 0 {
        let c1 = ConnectionView {
            state: ConnState::Connected,
            tx_ack: h.seq.wrapping_add(1),
            ..c
        };
        Delivery {
            device: d.with(p, c1).after_sending(),
            events: seq![
                ConnectionEventView::Connected {
                    device_id: d.device_id,
                    sport: c.source_port,
                    tag: c.tag,
                },
            ],
            frames: seq![d.segment(c1, TCP_ACK, OPEN_WINDOW, seq![])],
            refused: false,
        }
    } else if flags & TCP_RST != 0 {
        Delivery {
            device: d.with(p, ConnectionView { state: ConnState::Dead, ..c }),
            events: seq![
                ConnectionEventView::Disconnected { device_id: d.device_id, sport: c.source_port },
            ],
            ..nothing
        }
    } else if flags & TCP_FIN != 0 {
        Delivery {
            device: d.with(p, ConnectionView { state: ConnState::CloseWait, ..c }),
            events: seq![
                ConnectionEventView::Disconnected { device_id: d.device_id, sport: c.source_port },
            ],
            ..nothing
        }
    } else if payload.len() == 0 {
        nothing
    } else if c.ib_buf.len() + payload.len() > max {
        Delivery { refused: true, ..nothing }
    } else {
        let c1 = ConnectionView {
            tx_ack: h.seq.wrapping_add((payload.len() % 0x1_0000_0000) as u32),
            ib_buf: c.ib_buf + payload,
            ..c
        };
        Delivery {
            device: d.with(p, c1).after_sending(),
            events: seq![
                ConnectionEventView::DataReady { device_id: d.device_id, sport: c.source_port },
            ],
            frames: seq![
                d.segment(
                    c1,
                    TCP_ACK,
                    mux::window_units(max - c1.ib_buf.len()) as u16,
                    seq![],
                ),
            ],
            refused: false,
        }
    }
}

/// What a segment that belongs to no connection does.
pub open spec fn no_delivery(d: MuxDeviceView, h: TcpHeader) -> Delivery {
    Delivery {
        device: d,
        events: seq![
            ConnectionEventView::Error {
                device_id: d.device_id,
                sport: h.source_port,
                error: "unknown connection"@,
            },
        ],
        frames: seq![],
        refused: false,
    }
}

/// Whether `r` is what the segment does to the device. A connection with
/// exactly its ports is preferred; otherwise it goes to some connection that
/// matches loosely, and which one of several is open.
pub open spec fn delivered(
    d: MuxDeviceView,
    h: TcpHeader,
    payload: Seq<u8>,
    max: int,
    r: Delivery,
) -> bool {
    if exists|p: u16| d.exact(p, h) {
        exists|p: u16| d.exact(p, h) && r == #[trigger] delivery(d, p, h, payload, max)
    } else if exists|p: u16| d.loose(p, h) {
        exists|p: u16| d.loose(p, h) && r == #[trigger] delivery(d, p, h, payload, max)
    } else {
        r == no_delivery(d, h)
    }
}

/// What is returned for one segment.
pub struct Outcome {
    pub events: Vec<ConnectionEvent>,
    pub frames: Vec<Vec<u8>>,
    pub refused: bool,
}

impl Outcome {
    /// The outcome together with the device it leaves behind.
    pub open spec fn with_device(self, d: MuxDeviceView) -> Delivery {
        Delivery {
            device: d,
            events: event_views(self.events@),
            frames: mux::byte_seqs(self.frames@),
            refused: self.refused,
        }
    }
}

impl MuxDevice {
    /// The sequence numbers of the next frame to a device of version 2.
    pub fn next_seqs(&self) -> (s: Option<(u16, u16)>)
        ensures
            s == self@.seqs(),
    {
        if self.version >= 2 {
            Some((self.tx_seq, self.rx_seq))
        } else {
            None
        }
    }

    /// The port of the connection that a segment belongs to.
    fn find_connection(&self, h: &TcpHeader) -> (r: Option<u16>)
        requires
            self@.wf(),
        ensures
            match r {
                Some(p) => self@.exact(p, *h) || (self@.loose(p, *h) && forall|q: u16|
                    !self@.exact(q, *h)),
                None => forall|q: u16| !self@.exact(q, *h) && !self@.loose(q, *h),
            },
    {
        let ghost d = self@;
        if let Some(c) = self.connections.get(&h.dest_port) {
            if c.dest_port == h.source_port {
                assert(d.connections.contains_key(h.dest_port));
                return Some(h.dest_port);
            }
        }
        assert forall|q: u16| !d.exact(q, *h) by {
            if d.exact(q, *h) {
                assert(q == h.dest_port);
                assert(self.connections@.contains_key(q));
            }
        }
        let mut found: Option<u16> = None;
        for p in it: self.connections.keys()
            invariant
                d == self@,
                it.seq().unref().to_set() == self.connections@.dom(),
                match found {
                    Some(q) => d.loose(q, *h),
                    None => forall|i: int| 0 <= i < it.index() ==> !d.loose(*it.seq()[i], *h),
                },
        {
            assert(it.seq().unref()[it.index() as int] == *p);
            assert(it.seq().unref().to_set().contains(*p));
            let c: &Connection = self.connections.get(p).unwrap();
            assert(d.connections[*p] == c@);
            if found.is_none() && (c.source_port == h.source_port || c.dest_port == h.source_port) {
                found = Some(*p);
            }
        }
        if found.is_none() {
            assert forall|q: u16| !d.loose(q, *h) by {
                if d.connections.contains_key(q) {
                    assert(self.connections@.dom().contains(q));
                }
            }
        }
        found
    }

    /// Takes a segment from the device, whose connections buffer up to
    /// `max_conn_buffer` bytes each.
    pub fn take_segment(&mut self, h: &TcpHeader, payload: &[u8], max_conn_buffer: usize) -> (r:
        Outcome)
        requires
            old(self)@.wf(),
        ensures
            delivered(
                old(self)@,
                *h,
                payload@,
                max_conn_buffer as int,
                r.with_device(final(self)@),
            ),
            final(self)@.wf(),
    {
        let ghost d = self@;
        let ghost max = max_conn_buffer as int;
        let mut events: Vec<ConnectionEvent> = Vec::new();
        let mut frames: Vec<Vec<u8>> = Vec::new();
        let mut refused: bool = false;
        let p: u16 = match self.find_connection(h) {
            Some(p) => p,
            None => {
                events.push(
                    ConnectionEvent::Error {
                        device_id: self.device_id,
                        sport: h.source_port,
                        error: "unknown connection".to_owned(),
                    },
                );
                let r = Outcome { events, frames, refused };
                assert(r.with_device(self@).events =~= no_delivery(d, *h).events);
                assert(r.with_device(self@).frames =~= no_delivery(d, *h).frames);
                return r;
            },
        };
        let flags: u16 = h.flags();
        let seqs = self.next_seqs();
        let mut conn: Connection = self.connections.remove(&p).unwrap();
        assert(conn@ == d.connections[p]);
        if flags & TCP_SYN != 0 && flags & TCP_ACK != 0 {
            conn.state = ConnState::Connected;
            conn.tx_ack = h.seq.wrapping_add(1);
            frames.push(
                build_tcp_packet(
                    seqs,
                    conn.source_port,
                    conn.dest_port,
                    conn.tx_seq,
                    conn.tx_ack,
                    TCP_ACK,
                    OPEN_WINDOW,
                    None,
                ),
            );
            self.tx_seq = increment_seq(self.tx_seq);
            events.push(
                ConnectionEvent::Connected {
                    device_id: self.device_id,
                    sport: conn.source_port,
                    tag: conn.tag,
                },
            );
        } else if flags & TCP_RST != 0 {
            conn.state = ConnState::Dead;
            events.push(
                ConnectionEvent::Disconnected {
                    device_id: self.device_id,
                    sport: conn.source_port,
                },
            );
        } else if flags & TCP_FIN != 0 {
            conn.state = ConnState::CloseWait;
            events.push(
                ConnectionEvent::Disconnected {
                    device_id: self.device_id,
                    sport: conn.source_port,
                },
            );
        } else if payload.len() > 0 {
            let held: usize = conn.ib_buf.len();
            if held > max_conn_buffer || payload.len() > max_conn_buffer - held {
                // Not acknowledged: the device keeps these bytes and sends them again.
                refused = true;
            } else {
                let low: u32 = (payload.len() as u64 % 0x1_0000_0000) as u32;
                conn.tx_ack = h.seq.wrapping_add(low);
                push_bytes(&mut conn.ib_buf, payload);
                let free: usize = max_conn_buffer - conn.ib_buf.len();
                frames.push(
                    build_tcp_packet(
                        seqs,
                        conn.source_port,
                        conn.dest_port,
                        conn.tx_seq,
                        conn.tx_ack,
                        TCP_ACK,
                        scaled_window(free),
                        None,
                    ),
                );
                self.tx_seq = increment_seq(self.tx_seq);
                events.push(
                    ConnectionEvent::DataReady {
                        device_id: self.device_id,
                        sport: conn.source_port,
                    },
                );
            }
        }
        let ghost c1 = conn@;
        self.connections.insert(p, conn);
        let r = Outcome { events, frames, refused };
        proof {
            let want = delivery(d, p, *h, payload@, max);
            assert(self@.connections =~= d.connections.insert(p, c1));
            assert(d.connections.insert(p, d.connections[p]) =~= d.connections);
            assert(r.with_device(self@).events =~= want.events);
            assert(r.with_device(self@).frames =~= want.frames);
            assert(r.with_device(self@).device =~= want.device);
            assert(r.with_device(self@) == want);
        }
        r
    }
}

/// The connections of all devices.
#[derive(Debug)]
pub struct ConnectionManager {
    pub devices: HashMap<u32, MuxDevice>,
}

impl View for ConnectionManager {
    type V = Map<u32, MuxDeviceView>;

    open spec fn view(&self) -> Map<u32, MuxDeviceView> {
        self.devices@.map_values(|d: MuxDevice| d@)
    }
}

/// A device as it is first seen.
pub open spec fn fresh_device(device_id: u32) -> MuxDeviceView {
    MuxDeviceView {
        device_id,
        connections: Map::empty(),
        version: 1,
        state: DeviceState::Idle,
        tx_seq: 1,
        rx_seq: 1,
    }
}

/// A connection as it is first made.
pub open spec fn fresh_connection(sport: u16, dport: u16, tag: u32) -> ConnectionView {
    ConnectionView {
        source_port: sport,
        dest_port: dport,
        state: ConnState::SynSent,
        tx_seq: 0,
        tx_ack: 0,
        ib_buf: seq![],
        ob_buf: seq![],
        tag,
    }
}

/// Every device stands under its own number, and its connections under
/// their own ports.
pub open spec fn manager_wf(m: Map<u32, MuxDeviceView>) -> bool {
    forall|id: u32| #[trigger]
        m.contains_key(id) ==> m[id].device_id == id && m[id].wf()
}

/// Whether `p` is a port that a new connection may get: in range and free.
pub open spec fn port_free(d: MuxDeviceView, p: u16) -> bool {
    FIRST_PORT <= p < END_PORT && !d.connections.contains_key(p)
}

impl ConnectionManager {
    /// The manager's invariant.
    pub open spec fn wf(&self) -> bool {
        manager_wf(self@)
    }

    pub fn new() -> (m: Self)
        ensures
            m@ == Map::<u32, MuxDeviceView>::empty(),
            m.wf(),
    {
        let m = ConnectionManager { devices: HashMap::new() };
        assert(m@ =~= Map::<u32, MuxDeviceView>::empty());
        m
    }

    /// Begins to track a device; one that is known is left as it is.
    pub fn add_device(&mut self, device_id: u32)
        requires
            old(self).wf(),
        ensures
            final(self).wf(),
            final(self)@ == if old(self)@.contains_key(device_id) {
                old(self)@
            } else {
                old(self)@.insert(device_id, fresh_device(device_id))
            },
    {
        if !self.devices.contains_key(&device_id) {
            let device = MuxDevice {
                device_id,
                connections: HashMap::new(),
                version: 1,
                state: DeviceState::Idle,
                tx_seq: 1,
                rx_seq: 1,
            };
            assert(device@ =~= fresh_device(device_id));
            self.devices.insert(device_id, device);
            assert(self@ =~= old(self)@.insert(device_id, fresh_device(device_id)));
        }
    }

    /// Forgets a device and its connections.
    pub fn remove_device(&mut self, device_id: u32)
        requires
            old(self).wf(),
        ensures
            final(self).wf(),
            final(self)@ == old(self)@.remove(device_id),
    {
        self.devices.remove(&device_id);
        assert(self@ =~= old(self)@.remove(device_id));
    }

    /// Whether the device has a connection on this port.
    pub fn has_connection(&self, device_id: u32, sport: u16) -> (b: bool)
        ensures
            b == (self@.contains_key(device_id) && self@[device_id].connections.contains_key(
                sport,
            )),
    {
        match self.devices.get(&device_id) {
            Some(device) => device.connections.contains_key(&sport),
            None => false,
        }
    }

    /// Forgets a connection.
    pub fn remove_connection(&mut self, device_id: u32, sport: u16)
        requires
            old(self).wf(),
        ensures
            final(self).wf(),
            final(self)@ == without(old(self)@, device_id, sport),
    {
        if let Some(mut device) = self.devices.remove(&device_id) {
            let ghost d = device@;
            device.connections.remove(&sport);
            assert(device@.connections =~= d.connections.remove(sport));
            self.devices.insert(device_id, device);
            assert(self@ =~= old(self)@.insert(
                device_id,
                MuxDeviceView { connections: d.connections.remove(sport), ..d },
            ));
        } else {
            assert(self@ =~= old(self)@);
        }
    }

    /// The state of a connection, and the bytes that came for it. The bytes
    /// are taken only while it is connected.
    pub fn take_buffer(&mut self, device_id: u32, sport: u16) -> (r: Result<
        (ConnState, Vec<u8>),
        String,
    >)
        requires
            old(self).wf(),
        ensures
            final(self).wf(),
            match r {
                Ok((state, data)) => {
                    let d = old(self)@[device_id];
                    let c = d.connections[sport];
                    &&& old(self)@.contains_key(device_id)
                    &&& d.connections.contains_key(sport)
                    &&& state == c.state
                    &&& if state is Connected {
                        &&& data@ == c.ib_buf
                        &&& final(self)@ == old(self)@.insert(
                            device_id,
                            d.with(sport, ConnectionView { ib_buf: seq![], ..c }),
                        )
                    } else {
                        data@.len() == 0 && final(self)@ == old(self)@
                    }
                },
                Err(m) => {
                    &&& final(self)@ == old(self)@
                    &&& if old(self)@.contains_key(device_id) {
                        &&& !old(self)@[device_id].connections.contains_key(sport)
                        &&& m@ == "connection not found"@
                    } else {
                        m@ == "device not found"@
                    }
                },
            },
    {
        let mut device = match self.devices.remove(&device_id) {
            Some(d) => d,
            None => {
                assert(self@ =~= old(self)@);
                return Err("device not found".to_owned());
            },
        };
        let ghost d = device@;
        let mut conn = match device.connections.remove(&sport) {
            Some(c) => c,
            None => {
                assert(device@.connections =~= d.connections);
                self.devices.insert(device_id, device);
                assert(self@ =~= old(self)@);
                return Err("connection not found".to_owned());
            },
        };
        let ghost c = conn@;
        let state: ConnState = conn.state;
        let mut data: Vec<u8> = Vec::new();
        if matches!(state, ConnState::Connected) {
            data.append(&mut conn.ib_buf);
            assert(data@ =~= c.ib_buf);
            assert(conn@ =~= ConnectionView { ib_buf: seq![], ..c });
        }
        let ghost c1 = conn@;
        device.connections.insert(sport, conn);
        assert(device@.connections =~= d.connections.insert(sport, c1));
        assert(d.connections.insert(sport, c) =~= d.connections);
        self.devices.insert(device_id, device);
        assert(self@ =~= old(self)@.insert(device_id, d.with(sport, c1)));
        assert(old(self)@.insert(device_id, d) =~= old(self)@);
        Ok((state, data))
    }

    /// Makes a connection to port `dport` of a device, on the lowest port of
    /// this side that is free.
    pub fn start_connect(&mut self, device_id: u32, dport: u16, tag: u32) -> (r: Result<
        u16,
        MuxError,
    >)
        requires
            old(self).wf(),
        ensures
            final(self).wf(),
            match r {
                Ok(sport) => {
                    let d = old(self)@[device_id];
                    &&& old(self)@.contains_key(device_id)
                    &&& port_free(d, sport)
                    &&& forall|p: u16| p < sport ==> !port_free(d, p)
                    &&& final(self)@ == old(self)@.insert(
                        device_id,
                        d.with(sport, fresh_connection(sport, dport, tag)),
                    )
                },
                Err(e) => {
                    &&& final(self)@ == old(self)@
                    &&& if old(self)@.contains_key(device_id) {
                        &&& forall|p: u16| !port_free(old(self)@[device_id], p)
                        &&& e@ == mux::MuxErrorView::InvalidState("no available ports"@)
                    } else {
                        e@ == mux::MuxErrorView::InvalidState("device not found"@)
                    }
                },
            },
    {
        let mut device = match self.devices.remove(&device_id) {
            Some(d) => d,
            None => {
                assert(self@ =~= old(self)@);
                return Err(MuxError::InvalidState("device not found".to_owned()));
            },
        };
        let ghost d = device@;
        let mut sport: u16 = FIRST_PORT;
        while sport < END_PORT && device.connections.contains_key(&sport)
            invariant
                d == device@,
                FIRST_PORT <= sport <= END_PORT,
                forall|p: u16| p < sport ==> !port_free(d, p),
            decreases END_PORT - sport,
        {
            assert(d.connections.contains_key(sport));
            sport = sport + 1;
        }
        if sport >= END_PORT {
            self.devices.insert(device_id, device);
            assert(self@ =~= old(self)@);
            return Err(MuxError::InvalidState("no available ports".to_owned()));
        }
        let conn = Connection {
            source_port: sport,
            dest_port: dport,
            state: ConnState::SynSent,
            tx_seq: 0,
            tx_ack: 0,
            ib_buf: Vec::new(),
            ob_buf: VecDeque::new(),
            tag,
        };
        assert(conn@ =~= fresh_connection(sport, dport, tag));
        device.connections.insert(sport, conn);
        assert(device@.connections =~= d.connections.insert(
            sport,
            fresh_connection(sport, dport, tag),
        ));
        self.devices.insert(device_id, device);
        assert(self@ =~= old(self)@.insert(
            device_id,
            d.with(sport, fresh_connection(sport, dport, tag)),
        ));
        Ok(sport)
    }

    /// Takes a segment from a device: updates the connection it belongs to
    /// and returns what happened and the frames to send. Data that would
    /// overfill the connection's buffer is refused, counted, and not
    /// acknowledged.
    pub fn handle_tcp_packet(
        &mut self,
        device_id: u32,
        tcp_header: &TcpHeader,
        payload: &[u8],
        metrics: &mut Metrics,
        max_conn_buffer: usize,
    ) -> (r: (Vec<ConnectionEvent>, Vec<Vec<u8>>))
        requires
            old(self).wf(),
        ensures
            final(self).wf(),
            !old(self)@.contains_key(device_id) ==> {
                &&& final(self)@ == old(self)@
                &&& *final(metrics) == *old(metrics)
                &&& r.0@.len() == 0
                &&& r.1@.len() == 0
            },
            old(self)@.contains_key(device_id) ==> exists|out: Delivery|
                {
                    &&& #[trigger] delivered(
                        old(self)@[device_id],
                        *tcp_header,
                        payload@,
                        max_conn_buffer as int,
                        out,
                    )
                    &&& final(self)@ == old(self)@.insert(device_id, out.device)
                    &&& event_views(r.0@) == out.events
                    &&& mux::byte_seqs(r.1@) == out.frames
                    &&& *final(metrics) == if out.refused {
                        Metrics {
                            overflow_rejections: old(metrics).overflow_rejections.wrapping_add(1),
                            ..*old(metrics)
                        }
                    } else {
                        *old(metrics)
                    }
                },
    {
        let mut device = match self.devices.remove(&device_id) {
            Some(d) => d,
            None => {
                assert(self@ =~= old(self)@);
                return (Vec::new(), Vec::new());
            },
        };
        assert(old(self)@.contains_key(device_id));
        let out = device.take_segment(tcp_header, payload, max_conn_buffer);
        let ghost end = out.with_device(device@);
        if out.refused {
            metrics.overflow_rejections = metrics.overflow_rejections.wrapping_add(1);
        }
        self.devices.insert(device_id, device);
        assert(self@ =~= old(self)@.insert(device_id, end.device));
        assert(delivered(
            old(self)@[device_id],
            *tcp_header,
            payload@,
            max_conn_buffer as int,
            end,
        ));
        (out.events, out.frames)
    }
}

impl Default for ConnectionManager {
    fn default() -> (m: Self)
        ensures
            m@ == Map::<u32, MuxDeviceView>::empty(),
            m.wf(),
    {
        ConnectionManager::new()
    }
}

/// Whether `after` has what `before` has under every port but `p`.
pub open spec fn same_except(
    before: Map<u16, ConnectionView>,
    after: Map<u16, ConnectionView>,
    p: u16,
) -> bool {
    forall|q: u16| q != p && #[trigger] before.contains_key(q) ==> after[q] == before[q]
}

/// A segment goes to one connection at most: no connection appears or
/// vanishes, and of the others none changes.
pub proof fn segment_touches_one_connection(
    d: MuxDeviceView,
    h: TcpHeader,
    payload: Seq<u8>,
    max: int,
    r: Delivery,
)
    requires
        delivered(d, h, payload, max, r),
    ensures
        r.device.connections.dom() == d.connections.dom(),
        r.device.device_id == d.device_id,
        r.device.version == d.version,
        r.device.rx_seq == d.rx_seq,
        r.device.state == d.state,
        exists|p: u16| same_except(d.connections, r.device.connections, p),
{
    let p = if exists|p: u16| d.exact(p, h) {
        choose|p: u16| d.exact(p, h) && r == #[trigger] delivery(d, p, h, payload, max)
    } else if exists|p: u16| d.loose(p, h) {
        choose|p: u16| d.loose(p, h) && r == #[trigger] delivery(d, p, h, payload, max)
    } else {
        0
    };
    assert(r.device.connections.dom() =~= d.connections.dom());
    assert(same_except(d.connections, r.device.connections, p));
}

/// Flow control: a connection whose buffer is within the limit stays within
/// it, whatever the device sends.
pub proof fn buffers_stay_within_limit(
    d: MuxDeviceView,
    h: TcpHeader,
    payload: Seq<u8>,
    max: int,
    r: Delivery,
)
    requires
        delivered(d, h, payload, max, r),
        forall|p: u16| #[trigger]
            d.connections.contains_key(p) ==> d.connections[p].ib_buf.len() <= max,
    ensures
        forall|p: u16| #[trigger]
            r.device.connections.contains_key(p) ==> r.device.connections[p].ib_buf.len() <= max,
{
}

/// Data that is refused changes nothing and is not acknowledged.
pub proof fn refused_data_is_not_acknowledged(
    d: MuxDeviceView,
    h: TcpHeader,
    payload: Seq<u8>,
    max: int,
    r: Delivery,
)
    requires
        delivered(d, h, payload, max, r),
        r.refused,
    ensures
        r.device == d,
        r.frames.len() == 0,
        r.events.len() == 0,
{
}

/// The sequence number of the frames to a device goes up by one for every
/// frame that is sent.
pub proof fn every_frame_takes_a_number(
    d: MuxDeviceView,
    h: TcpHeader,
    payload: Seq<u8>,
    max: int,
    r: Delivery,
)
    requires
        delivered(d, h, payload, max, r),
    ensures
        r.frames.len() <= 1,
        r.device.tx_seq == (d.tx_seq + r.frames.len()) % 0x1_0000,
{
}

/// The answer to a connection request reaches the connection that was made
/// for it: a SYN-ACK with the ports exchanged opens it, reports its port and
/// tag, and sends one acknowledgement.
pub proof fn answer_opens_the_connection(
    d: MuxDeviceView,
    sport: u16,
    dport: u16,
    tag: u32,
    h: TcpHeader,
    payload: Seq<u8>,
    max: int,
    r: Delivery,
)
    requires
        d.wf(),
        delivered(d.with(sport, fresh_connection(sport, dport, tag)), h, payload, max, r),
        h.source_port == dport,
        h.dest_port == sport,
        h.flag_bits() & TCP_SYN != 0,
        h.flag_bits() & TCP_ACK != 0,
    ensures
        r.device.connections[sport].state is Connected,
        r.device.connections[sport].tx_ack == h.seq.wrapping_add(1),
        r.events == seq![
            ConnectionEventView::Connected { device_id: d.device_id, sport, tag },
        ],
        r.frames.len() == 1,
{
    let d1 = d.with(sport, fresh_connection(sport, dport, tag));
    assert(d1.exact(sport, h));
    assert forall|p: u16| d1.exact(p, h) implies p == sport by {
        if p != sport {
            assert(d.connections.contains_key(p));
        }
    }
}

/// Data that fits is delivered in order: the bytes are appended to what the
/// connection holds, and what is acknowledged is everything up to them.
pub proof fn data_arrives_in_order(
    d: MuxDeviceView,
    p: u16,
    h: TcpHeader,
    payload: Seq<u8>,
    max: int,
    r: Delivery,
)
    requires
        d.wf(),
        d.exact(p, h),
        delivered(d, h, payload, max, r),
        h.flag_bits() & TCP_SYN == 0,
        h.flag_bits() & TCP_RST == 0,
        h.flag_bits() & TCP_FIN == 0,
        0 < payload.len(),
        d.connections[p].ib_buf.len() + payload.len() <= max,
    ensures
        r.device.connections[p].ib_buf == d.connections[p].ib_buf + payload,
        r.device.connections[p].tx_ack == h.seq.wrapping_add((payload.len() % 0x1_0000_0000) as u32),
        !r.refused,
        r.frames.len() == 1,
{
    assert forall|q: u16| d.exact(q, h) implies q == p by {}
}

/// Whether a segment comes from the port of the device to which the connection
/// under `p` goes, and is for `p`.
pub open spec fn is_for(d: MuxDeviceView, p: u16, h: TcpHeader) -> bool {
    &&& d.wf()
    &&& d.connections.contains_key(p)
    &&& h.dest_port == p
    &&& h.source_port == d.connections[p].dest_port
}

/// Whether a segment acknowledges the opening of a connection: the bits for
/// SYN and ACK are both set.
pub open spec fn opens(h: TcpHeader) -> bool {
    h.offset_flags & 0x02 != 0 && h.offset_flags & 0x10 != 0
}

/// Whether the ports of a connection, in a frame with the short header, cannot
/// be taken for the magic of the long one.
pub open spec fn ports_are_plain(d: MuxDeviceView, c: ConnectionView) -> bool {
    d.version >= 2 || (c.source_port * 0x1_0000 + c.dest_port != 0xFEED_FACE && c.source_port
        * 0x1_0000 + c.dest_port != 0xFACE_FACE)
}

/// Whether a frame is one acknowledgement for connection `c`, numbered as the
/// next frame to the device, with this number and window and no data.
pub open spec fn acknowledges(
    f: Seq<u8>,
    d: MuxDeviceView,
    c: ConnectionView,
    ack: u32,
    window: u16,
) -> bool {
    mux::says(
        f,
        if d.version >= 2 {
            Some((d.tx_seq, d.rx_seq))
        } else {
            None
        },
        TcpHeader {
            source_port: c.source_port,
            dest_port: c.dest_port,
            seq: c.tx_seq,
            ack,
            offset_flags: 0x5010,
            window,
        },
        seq![],
    )
}

proof fn acknowledgements_say_so(
    d: MuxDeviceView,
    c: ConnectionView,
    c1: ConnectionView,
    window: u16,
)
    requires
        ports_are_plain(d, c),
        c.source_port == c1.source_port,
        c.dest_port == c1.dest_port,
        c.tx_seq == c1.tx_seq,
    ensures
        acknowledges(d.segment(c1, TCP_ACK, window, seq![]), d, c, c1.tx_ack, window),
{
    mux::built_segments_say_so(
        d.seqs(),
        mux::sent_header(c.source_port, c.dest_port, c.tx_seq, c1.tx_ack, TCP_ACK, window),
        seq![],
    );
}

proof fn flags_are_the_bits(h: TcpHeader)
    ensures
        h.flag_bits() & TCP_FIN == h.offset_flags & 0x01,
        h.flag_bits() & TCP_SYN == h.offset_flags & 0x02,
        h.flag_bits() & TCP_RST == h.offset_flags & 0x04,
        h.flag_bits() & TCP_ACK == h.offset_flags & 0x10,
{
    let x = h.offset_flags;
    assert(((x & 0x0FF) & 0x01) == (x & 0x01) && ((x & 0x0FF) & 0x02) == (x & 0x02) && ((x & 0x0FF)
        & 0x04) == (x & 0x04) && ((x & 0x0FF) & 0x10) == (x & 0x10)) by (bit_vector);
}

proof fn it_is_for_one(
    d: MuxDeviceView,
    p: u16,
    h: TcpHeader,
    payload: Seq<u8>,
    max: int,
    r: Delivery,
)
    requires
        is_for(d, p, h),
        delivered(d, h, payload, max, r),
    ensures
        r == delivery(d, p, h, payload, max),
        d.connections[p].source_port == p,
{
    assert(d.exact(p, h));
    assert forall|q: u16| d.exact(q, h) implies q == p by {}
}

/// A device that aborts or refuses a connection is taken at its word: with the
/// bit for RST set, whatever else the segment has, but for one that opens the
/// connection, the connection is dead, its end is reported once, and nothing
/// is sent.
pub proof fn resets_end_the_connection(
    d: MuxDeviceView,
    p: u16,
    h: TcpHeader,
    payload: Seq<u8>,
    max: int,
    r: Delivery,
)
    requires
        is_for(d, p, h),
        delivered(d, h, payload, max, r),
        h.offset_flags & 0x04 != 0,
        !opens(h),
    ensures
        r.device == (MuxDeviceView {
            connections: d.connections.insert(
                p,
                ConnectionView { state: ConnState::Dead, ..d.connections[p] },
            ),
            ..d
        }),
        r.events == seq![
            ConnectionEventView::Disconnected { device_id: d.device_id, sport: p },
        ],
        r.frames.len() == 0,
        !r.refused,
{
    flags_are_the_bits(h);
    it_is_for_one(d, p, h, payload, max, r);
}

/// A device that has no more to send says so with the bit for FIN: the
/// connection waits to be closed, its end is reported once, and nothing is
/// sent.
pub proof fn endings_are_reported(
    d: MuxDeviceView,
    p: u16,
    h: TcpHeader,
    payload: Seq<u8>,
    max: int,
    r: Delivery,
)
    requires
        is_for(d, p, h),
        delivered(d, h, payload, max, r),
        h.offset_flags & 0x01 != 0,
        h.offset_flags & 0x04 == 0,
        !opens(h),
    ensures
        r.device == (MuxDeviceView {
            connections: d.connections.insert(
                p,
                ConnectionView { state: ConnState::CloseWait, ..d.connections[p] },
            ),
            ..d
        }),
        r.events == seq![
            ConnectionEventView::Disconnected { device_id: d.device_id, sport: p },
        ],
        r.frames.len() == 0,
        !r.refused,
{
    flags_are_the_bits(h);
    it_is_for_one(d, p, h, payload, max, r);
}

/// A device that opens the connection is acknowledged: the connection is open,
/// the number behind the device's own is expected next, this is reported under
/// the connection's port and tag, and one acknowledgement is sent, numbered as
/// the next frame.
pub proof fn openings_are_acknowledged(
    d: MuxDeviceView,
    p: u16,
    h: TcpHeader,
    payload: Seq<u8>,
    max: int,
    r: Delivery,
)
    requires
        is_for(d, p, h),
        delivered(d, h, payload, max, r),
        opens(h),
    ensures
        ({
            let c = d.connections[p];
            let ack = ((h.seq + 1) % 0x1_0000_0000) as u32;
            &&& r.device == (MuxDeviceView {
                connections: d.connections.insert(
                    p,
                    ConnectionView { state: ConnState::Connected, tx_ack: ack, ..c },
                ),
                tx_seq: ((d.tx_seq + 1) % 0x1_0000) as u16,
                ..d
            })
            &&& r.events == seq![
                ConnectionEventView::Connected { device_id: d.device_id, sport: p, tag: c.tag },
            ]
            &&& !r.refused
            &&& r.frames.len() == 1
            &&& ports_are_plain(d, c) ==> acknowledges(r.frames[0], d, c, ack, 65535)
        }),
{
    flags_are_the_bits(h);
    it_is_for_one(d, p, h, payload, max, r);
    let c = d.connections[p];
    let c1 = ConnectionView { state: ConnState::Connected, tx_ack: h.seq.wrapping_add(1), ..c };
    if ports_are_plain(d, c) {
        acknowledgements_say_so(d, c, c1, 65535);
    }
}

/// Data for which there is room is kept behind what is already there, and
/// acknowledged up to its last byte with a window for what is still free; that
/// there is data is reported. Nothing else about the connection changes.
pub proof fn data_is_kept_and_acknowledged(
    d: MuxDeviceView,
    p: u16,
    h: TcpHeader,
    payload: Seq<u8>,
    max: int,
    r: Delivery,
)
    requires
        is_for(d, p, h),
        delivered(d, h, payload, max, r),
        h.offset_flags & 0x01 == 0,
        h.offset_flags & 0x04 == 0,
        !opens(h),
        0 < payload.len() <= u32::MAX,
        d.connections[p].ib_buf.len() + payload.len() <= max,
    ensures
        ({
            let c = d.connections[p];
            let ack = ((h.seq + payload.len()) % 0x1_0000_0000) as u32;
            let free = max - c.ib_buf.len() - payload.len();
            &&& r.device == (MuxDeviceView {
                connections: d.connections.insert(
                    p,
                    ConnectionView { ib_buf: c.ib_buf + payload, tx_ack: ack, ..c },
                ),
                tx_seq: ((d.tx_seq + 1) % 0x1_0000) as u16,
                ..d
            })
            &&& r.events == seq![
                ConnectionEventView::DataReady { device_id: d.device_id, sport: p },
            ]
            &&& !r.refused
            &&& r.frames.len() == 1
            &&& ports_are_plain(d, c) ==> acknowledges(
                r.frames[0],
                d,
                c,
                ack,
                if free / 256 > 65535 {
                    65535
                } else {
                    (free / 256) as u16
                },
            )
        }),
{
    flags_are_the_bits(h);
    it_is_for_one(d, p, h, payload, max, r);
    let c = d.connections[p];
    let ack = h.seq.wrapping_add((payload.len() % 0x1_0000_0000) as u32);
    assert(payload.len() % 0x1_0000_0000 == payload.len());
    assert(ack == ((h.seq + payload.len()) % 0x1_0000_0000) as u32);
    let c1 = ConnectionView { tx_ack: ack, ib_buf: c.ib_buf + payload, ..c };
    let free = max - c1.ib_buf.len();
    mux::windows_say_what_is_free(free);
    if ports_are_plain(d, c) {
        acknowledgements_say_so(d, c, c1, mux::window_units(free) as u16);
    }
}

/// Data for which there is no room is refused: nothing changes, nothing is
/// reported, and nothing is acknowledged.
pub proof fn data_without_room_is_refused(
    d: MuxDeviceView,
    p: u16,
    h: TcpHeader,
    payload: Seq<u8>,
    max: int,
    r: Delivery,
)
    requires
        is_for(d, p, h),
        delivered(d, h, payload, max, r),
        h.offset_flags & 0x01 == 0,
        h.offset_flags & 0x04 == 0,
        !opens(h),
        0 < payload.len(),
        d.connections[p].ib_buf.len() + payload.len() > max,
    ensures
        r == (Delivery { device: d, events: seq![], frames: seq![], refused: true }),
{
    flags_are_the_bits(h);
    it_is_for_one(d, p, h, payload, max, r);
}

/// An acknowledgement of the device, without data, changes nothing.
pub proof fn acknowledgements_change_nothing(
    d: MuxDeviceView,
    p: u16,
    h: TcpHeader,
    max: int,
    r: Delivery,
)
    requires
        is_for(d, p, h),
        delivered(d, h, seq![], max, r),
        h.offset_flags & 0x01 == 0,
        h.offset_flags & 0x04 == 0,
        !opens(h),
    ensures
        r == (Delivery { device: d, events: seq![], frames: seq![], refused: false }),
{
    flags_are_the_bits(h);
    it_is_for_one(d, p, h, seq![], max, r);
}

/// A segment whose port no connection has, on either side, changes nothing and
/// is reported as one of an unknown connection, under the device's port.
pub proof fn strange_segments_are_reported(
    d: MuxDeviceView,
    h: TcpHeader,
    payload: Seq<u8>,
    max: int,
    r: Delivery,
)
    requires
        delivered(d, h, payload, max, r),
        forall|q: u16| #[trigger]
            d.connections.contains_key(q) ==> d.connections[q].source_port != h.source_port
                && d.connections[q].dest_port != h.source_port,
    ensures
        r.device == d,
        r.frames.len() == 0,
        !r.refused,
        r.events == seq![
            ConnectionEventView::Error {
                device_id: d.device_id,
                sport: h.source_port,
                error: "unknown connection"@,
            },
        ],
{
    assert forall|q: u16| !d.exact(q, h) && !d.loose(q, h) by {}
}

/// A segment for a port that no connection has goes to the one connection that
/// has the device's port on either side, as if it were for it.
pub proof fn echoed_ports_find_their_connection(
    d: MuxDeviceView,
    p: u16,
    h: TcpHeader,
    payload: Seq<u8>,
    max: int,
    r: Delivery,
)
    requires
        d.wf(),
        !d.connections.contains_key(h.dest_port),
        d.connections.contains_key(p),
        d.connections[p].dest_port == h.source_port || p == h.source_port,
        forall|q: u16| #[trigger]
            d.connections.contains_key(q) && q != p ==> q != h.source_port
                && d.connections[q].dest_port != h.source_port,
        delivered(d, h, payload, max, r),
    ensures
        delivered(
            d,
            TcpHeader { source_port: d.connections[p].dest_port, dest_port: p, ..h },
            payload,
            max,
            r,
        ),
{
    assert(d.loose(p, h));
    assert forall|q: u16| d.loose(q, h) implies q == p by {}
    assert forall|q: u16| !d.exact(q, h) by {}
    let h1 = TcpHeader { source_port: d.connections[p].dest_port, dest_port: p, ..h };
    assert(r == delivery(d, p, h, payload, max));
    assert(delivery(d, p, h1, payload, max) == delivery(d, p, h, payload, max));
    assert(d.exact(p, h1));
}

/// A connection begins with its ports and its tag, with nothing sent or
/// received, and not yet open.
pub proof fn connections_begin_empty(sport: u16, dport: u16, tag: u32)
    ensures
        ({
            let c = fresh_connection(sport, dport, tag);
            &&& c.source_port == sport
            &&& c.dest_port == dport
            &&& c.tag == tag
            &&& c.state is SynSent
            &&& c.tx_seq == 0
            &&& c.tx_ack == 0
            &&& c.ib_buf.len() == 0
            &&& c.ob_buf.len() == 0
        }),
{
}

/// Forgetting a connection leaves every other connection of every device.
pub proof fn forgetting_leaves_the_others(
    m: Map<u32, MuxDeviceView>,
    device_id: u32,
    sport: u16,
    id: u32,
    p: u16,
)
    ensures
        without(m, device_id, sport).contains_key(id) <==> m.contains_key(id),
        m.contains_key(id) ==> {
            let after = without(m, device_id, sport)[id].connections;
            &&& after.contains_key(p) <==> m[id].connections.contains_key(p) && (id != device_id
                || p != sport)
            &&& after.contains_key(p) ==> after[p] == m[id].connections[p]
            &&& without(m, device_id, sport)[id].tx_seq == m[id].tx_seq
            &&& without(m, device_id, sport)[id].rx_seq == m[id].rx_seq
            &&& without(m, device_id, sport)[id].version == m[id].version
        },
{
}

/// Ports for connections go from 1024 to 65534, and one that is in use is not
/// given out again.
pub proof fn ports_are_given_out(d: MuxDeviceView, p: u16)
    ensures
        d.connections.contains_key(p) ==> !port_free(d, p),
        p < 1024 || p == 65535 ==> !port_free(d, p),
        1024 <= p <= 65534 && !d.connections.contains_key(p) ==> port_free(d, p),
{
}

/// A device is first seen with nothing agreed on and without connections.
pub proof fn devices_begin_idle(device_id: u32)
    ensures
        ({
            let d = fresh_device(device_id);
            &&& d.device_id == device_id
            &&& d.connections.dom().is_empty()
            &&& d.version == 1
            &&& d.state is Idle
            &&& d.tx_seq == 1
            &&& d.rx_seq == 1
        }),
{
}

/// Devices stand under their own numbers.
pub proof fn devices_stand_under_their_numbers(m: Map<u32, MuxDeviceView>, id: u32)
    requires
        manager_wf(m),
        m.contains_key(id),
    ensures
        m[id].device_id == id,
{
}

} // verus!
