//! The bulk interface of a device: which one it is, and what its transfers
//! mean.
use crate::bytes;
use crate::bytes::{push_bytes, read_be32};
use crate::text;
use crate::text::{joined, push_decimal};
use vstd::prelude::*;

verus! {

pub const APPLE_VENDOR_ID: u16 = 0x05AC;

/// The most bytes that one read asks for.
pub const USB_MRU: usize = 16384;

pub const USB_MTU: usize = 49152;

pub const ZLP_THRESHOLD: usize = 512;

pub const MUX_INTERFACE_CLASS: u8 = 0xFF;

pub const MUX_INTERFACE_SUBCLASS: u8 = 0xFE;

pub const MUX_INTERFACE_PROTOCOL: u8 = 0x02;

/// How many interfaces are asked whether a driver holds them.
pub const DRIVER_INTERFACES: u8 = 16;

/// How long to wait, in milliseconds, before a busy interface is tried again.
pub const BUSY_RETRY_MS: u64 = 200;

/// How long to wait, in milliseconds, after a read failed.
pub const READ_RETRY_MS: u64 = 10;

#[derive(Debug)]
pub enum UsbError {
    /// The bus reported an error.
    Rusb(String),
    NoMuxInterface,
    NoBulkEndpoints,
    ShortWrite { written: usize, expected: usize },
    Io(String),
    TaskJoin(String),
}

/// A `UsbError` with its text as characters.
pub ghost enum UsbErrorView {
    Rusb(Seq<char>),
    NoMuxInterface,
    NoBulkEndpoints,
    ShortWrite { written: usize, expected: usize },
    Io(Seq<char>),
    TaskJoin(Seq<char>),
}

impl View for UsbError {
    type V = UsbErrorView;

    open spec fn view(&self) -> UsbErrorView {
        match self {
            UsbError::Rusb(m) => UsbErrorView::Rusb(m@),
            UsbError::NoMuxInterface => UsbErrorView::NoMuxInterface,
            UsbError::NoBulkEndpoints => UsbErrorView::NoBulkEndpoints,
            UsbError::ShortWrite { written, expected } => UsbErrorView::ShortWrite {
                written: *written,
                expected: *expected,
            },
            UsbError::Io(m) => UsbErrorView::Io(m@),
            UsbError::TaskJoin(m) => UsbErrorView::TaskJoin(m@),
        }
    }
}

impl UsbErrorView {
    /// The message shown for the error.
    pub open spec fn text(self) -> Seq<char> {
        match self {
            UsbErrorView::Rusb(m) => "USB error: "@ + m,
            UsbErrorView::NoMuxInterface => "no mux interface found on device"@,
            UsbErrorView::NoBulkEndpoints => "mux interface has no bulk endpoints"@,
            UsbErrorView::ShortWrite { written, expected } => "short write: "@ + text::decimal(
                written as nat,
            ) + " bytes written, expected "@ + text::decimal(expected as nat),
            UsbErrorView::Io(m) => "I/O error: "@ + m,
            UsbErrorView::TaskJoin(m) => "worker task panicked: "@ + m,
        }
    }
}

impl UsbError {
    /// The message shown for the error.
    pub fn to_text(&self) -> (s: String)
        ensures
            s@ == self@.text(),
    {
        match self {
            UsbError::Rusb(m) => joined("USB error: ", m.as_str()),
            UsbError::NoMuxInterface => "no mux interface found on device".to_owned(),
            UsbError::NoBulkEndpoints => "mux interface has no bulk endpoints".to_owned(),
            UsbError::ShortWrite { written, expected } => {
                let mut s = "short write: ".to_owned();
                push_decimal(&mut s, *written as u64);
                s.append(" bytes written, expected ");
                push_decimal(&mut s, *expected as u64);
                s
            },
            UsbError::Io(m) => joined("I/O error: ", m.as_str()),
            UsbError::TaskJoin(m) => joined("worker task panicked: ", m.as_str()),
        }
    }
}

/// An endpoint, as a device describes it.
#[derive(Debug, Clone, Copy, PartialEq, Eq, Structural)]
pub struct EndpointDescriptor {
    pub address: u8,
    /// Whether it carries bulk transfers.
    pub bulk: bool,
    /// Whether data comes from the device.
    pub input: bool,
    pub max_packet_size: u16,
}

/// An interface, as a device describes it.
#[derive(Debug)]
pub struct InterfaceDescriptor {
    pub interface_number: u8,
    pub class_code: u8,
    pub sub_class_code: u8,
    pub protocol_code: u8,
    pub endpoints: Vec<EndpointDescriptor>,
}

/// A configuration, as a device describes it, with all descriptors of its
/// interfaces in order.
#[derive(Debug)]
pub struct ConfigDescriptor {
    pub number: u8,
    pub interfaces: Vec<InterfaceDescriptor>,
}

/// Where a device carries its mux traffic.
#[derive(Debug, Clone, Copy, PartialEq, Eq, Structural)]
pub struct MuxInterfaceInfo {
    pub config_number: u8,
    pub interface_number: u8,
    pub ep_in: u8,
    pub ep_out: u8,
    pub max_packet_size: u16,
}

impl InterfaceDescriptor {
    /// Whether this is the interface for mux traffic.
    pub open spec fn is_mux(self) -> bool {
        &&& self.class_code == MUX_INTERFACE_CLASS
        &&& self.sub_class_code == MUX_INTERFACE_SUBCLASS
        &&& self.protocol_code == MUX_INTERFACE_PROTOCOL
    }

    /// Whether this is the interface for mux traffic.
    pub fn carries_mux(&self) -> (b: bool)
        ensures
            b == self.is_mux(),
    {
        self.class_code == MUX_INTERFACE_CLASS && self.sub_class_code == MUX_INTERFACE_SUBCLASS
            && self.protocol_code == MUX_INTERFACE_PROTOCOL
    }
}

/// The last bulk endpoint of one direction.
pub open spec fn last_bulk(eps: Seq<EndpointDescriptor>, input: bool) -> Option<EndpointDescriptor>
    decreases eps.len(),
{
    if eps.len() == 0 {
        None
    } else if eps.last().bulk && eps.last().input == input {
        Some(eps.last())
    } else {
        last_bulk(eps.drop_last(), input)
    }
}

/// What is used of a mux interface: its last bulk endpoint of each
/// direction.
pub open spec fn endpoints_of(config_number: u8, i: InterfaceDescriptor) -> Result<
    MuxInterfaceInfo,
    UsbErrorView,
> {
    match (last_bulk(i.endpoints@, true), last_bulk(i.endpoints@, false)) {
        (Some(ep_in), Some(ep_out)) => Ok(
            MuxInterfaceInfo {
                config_number,
                interface_number: i.interface_number,
                ep_in: ep_in.address,
                ep_out: ep_out.address,
                max_packet_size: ep_in.max_packet_size,
            },
        ),
        _ => Err(UsbErrorView::NoBulkEndpoints),
    }
}

/// The first mux interface.
pub open spec fn first_mux(interfaces: Seq<InterfaceDescriptor>) -> Option<InterfaceDescriptor>
    decreases interfaces.len(),
{
    if interfaces.len() == 0 {
        None
    } else if interfaces[0].is_mux() {
        Some(interfaces[0])
    } else {
        first_mux(interfaces.skip(1))
    }
}

/// The mux interface among the first `n` configurations: the first one of the
/// last configuration that could be read and has one.
pub open spec fn mux_interface(configs: Seq<Option<ConfigDescriptor>>, n: int) -> Result<
    MuxInterfaceInfo,
    UsbErrorView,
>
    decreases n,
{
    if n <= 0 {
        Err(UsbErrorView::NoMuxInterface)
    } else {
        match configs[n - 1] {
            Some(c) => match first_mux(c.interfaces@) {
                Some(i) => endpoints_of(c.number, i),
                None => mux_interface(configs, n - 1),
            },
            None => mux_interface(configs, n - 1),
        }
    }
}

/// A result with its error as a view.
pub open spec fn info_view(r: Result<MuxInterfaceInfo, UsbError>) -> Result<
    MuxInterfaceInfo,
    UsbErrorView,
> {
    match r {
        Ok(i) => Ok(i),
        Err(e) => Err(e@),
    }
}

fn endpoints(config_number: u8, iface: &InterfaceDescriptor) -> (r: Result<
    MuxInterfaceInfo,
    UsbError,
>)
    ensures
        info_view(r) == endpoints_of(config_number, *iface),
{
    let eps = &iface.endpoints;
    let mut ep_in: Option<EndpointDescriptor> = None;
    let mut ep_out: Option<EndpointDescriptor> = None;
    let mut i: usize = 0;
    assert(eps@.take(0) =~= seq![]);
    while i < eps.len()
        invariant
            i <= eps.len(),
            ep_in == last_bulk(eps@.take(i as int), true),
            ep_out == last_bulk(eps@.take(i as int), false),
        decreases eps.len() - i,
    {
        let ep: EndpointDescriptor = eps[i];
        assert(eps@.take(i + 1).drop_last() =~= eps@.take(i as int));
        assert(eps@.take(i + 1).last() == ep);
        if ep.bulk {
            if ep.input {
                ep_in = Some(ep);
            } else {
                ep_out = Some(ep);
            }
        }
        i = i + 1;
    }
    assert(eps@.take(i as int) =~= eps@);
    let input: EndpointDescriptor = match ep_in {
        Some(e) => e,
        None => return Err(UsbError::NoBulkEndpoints),
    };
    let output: EndpointDescriptor = match ep_out {
        Some(e) => e,
        None => return Err(UsbError::NoBulkEndpoints),
    };
    Ok(
        MuxInterfaceInfo {
            config_number,
            interface_number: iface.interface_number,
            ep_in: input.address,
            ep_out: output.address,
            max_packet_size: input.max_packet_size,
        },
    )
}

/// Finds the mux interface of a device. The configurations are given in
/// order, with `None` for one that could not be read, and tried from the last
/// one back.
pub fn find_mux_interface(configs: &[Option<ConfigDescriptor>]) -> (r: Result<
    MuxInterfaceInfo,
    UsbError,
>)
    ensures
        info_view(r) == mux_interface(configs@, configs@.len() as int),
{
    let mut n: usize = configs.len();
    while n > 0
        invariant
            n <= configs.len(),
            mux_interface(configs@, n as int) == mux_interface(configs@, configs@.len() as int),
        decreases n,
    {
        if let Some(config) = &configs[n - 1] {
            let list = &config.interfaces;
            let mut i: usize = 0;
            assert(list@.skip(0) =~= list@);
            while i < list.len()
                invariant
                    i <= list.len(),
                    list == config.interfaces,
                    0 < n <= configs.len(),
                    configs@[n - 1] == Some(*config),
                    mux_interface(configs@, n as int) == mux_interface(
                        configs@,
                        configs@.len() as int,
                    ),
                    first_mux(list@.skip(i as int)) == first_mux(list@),
                decreases list.len() - i,
            {
                assert(list@.skip(i as int).skip(1) =~= list@.skip(i + 1));
                assert(list@.skip(i as int)[0] == list@[i as int]);
                if list[i].carries_mux() {
                    return endpoints(config.number, &list[i]);
                }
                i = i + 1;
            }
        }
        n = n - 1;
    }
    Err(UsbError::NoMuxInterface)
}

/// An opened mux interface.
#[derive(Debug, Clone, Copy, PartialEq, Eq, Structural)]
pub struct AppleMuxInterface {
    pub ep_out: u8,
    pub ep_in: u8,
    pub max_packet_size: u16,
}

impl AppleMuxInterface {
    /// The interface, once it is claimed.
    pub fn claimed(info: &MuxInterfaceInfo) -> (i: Self)
        ensures
            i.ep_out == info.ep_out,
            i.ep_in == info.ep_in,
            i.max_packet_size == info.max_packet_size,
    {
        AppleMuxInterface {
            ep_out: info.ep_out,
            ep_in: info.ep_in,
            max_packet_size: info.max_packet_size,
        }
    }

    pub fn max_packet_size(&self) -> (n: u16)
        ensures
            n == self.max_packet_size,
    {
        self.max_packet_size
    }

    /// Decides what follows a write of `expected` bytes of which `written`
    /// were taken: whether an empty packet must mark the end of the transfer,
    /// as it must when its last packet is full.
    pub fn after_write(&self, expected: usize, written: usize) -> (r: Result<bool, UsbError>)
        requires
            written == expected && expected > 0 ==> self.max_packet_size > 0,
        ensures
            match r {
                Ok(zlp) => written == expected && zlp == (expected > 0 && expected as int
                    % self.max_packet_size as int == 0),
                Err(e) => written != expected && e@ == (UsbErrorView::ShortWrite {
                    written,
                    expected,
                }),
            },
    {
        if written != expected {
            return Err(UsbError::ShortWrite { written, expected });
        }
        Ok(expected > 0 && expected % self.max_packet_size as usize == 0)
    }
}

/// How an attempt to claim an interface ended.
#[derive(Debug, Clone, Copy, PartialEq, Eq, Structural)]
pub enum ClaimOutcome {
    Claimed,
    Busy,
    Failed,
}

/// What to do after an attempt to claim an interface.
#[derive(Debug, Clone, Copy, PartialEq, Eq, Structural)]
pub enum ClaimStep {
    Proceed,
    /// Wait, and try once more.
    TryAgain,
    GiveUp,
}

/// Decides what follows an attempt to claim an interface: a busy one is tried
/// twice.
pub fn after_claim(attempt: u32, outcome: ClaimOutcome) -> (step: ClaimStep)
    ensures
        step == match outcome {
            ClaimOutcome::Claimed => ClaimStep::Proceed,
            ClaimOutcome::Busy => if attempt == 0 {
                ClaimStep::TryAgain
            } else {
                ClaimStep::GiveUp
            },
            ClaimOutcome::Failed => ClaimStep::GiveUp,
        },
{
    match outcome {
        ClaimOutcome::Claimed => ClaimStep::Proceed,
        ClaimOutcome::Busy => if attempt == 0 {
            ClaimStep::TryAgain
        } else {
            ClaimStep::GiveUp
        },
        ClaimOutcome::Failed => ClaimStep::GiveUp,
    }
}

/// How a read ended.
#[derive(Debug, Clone, Copy, PartialEq, Eq, Structural)]
pub enum ReadOutcome {
    /// So many bytes came.
    Bytes(usize),
    TimedOut,
    Failed,
    /// The reader itself broke down.
    Broken,
}

/// What a reader does next.
#[derive(Debug, Clone, Copy, PartialEq, Eq, Structural)]
pub enum ReadStep {
    /// Hand the bytes on and read again.
    Forward,
    ReadAgain,
    /// Wait, then read again.
    Pause,
    Stop,
}

/// Decides what a reader does next.
pub fn after_read(outcome: ReadOutcome) -> (step: ReadStep)
    ensures
        step == match outcome {
            ReadOutcome::Bytes(n) => if n == 0 {
                ReadStep::ReadAgain
            } else {
                ReadStep::Forward
            },
            ReadOutcome::TimedOut => ReadStep::ReadAgain,
            ReadOutcome::Failed => ReadStep::Pause,
            ReadOutcome::Broken => ReadStep::Stop,
        },
{
    match outcome {
        ReadOutcome::Bytes(n) => if n == 0 {
            ReadStep::ReadAgain
        } else {
            ReadStep::Forward
        },
        ReadOutcome::TimedOut => ReadStep::ReadAgain,
        ReadOutcome::Failed => ReadStep::Pause,
        ReadOutcome::Broken => ReadStep::Stop,
    }
}

/// What a reassembler holds: the bytes of an unfinished packet, and the
/// length that its first read announced, or zero.
#[verifier::ext_equal]
pub ghost struct HeldView {
    pub bytes: Seq<u8>,
    pub length: int,
}

/// What a reassembler holds after a read, and the packet that it completes.
pub open spec fn fed(h: HeldView, data: Seq<u8>, expected: Option<usize>) -> (
    Option<Seq<u8>>,
    HeldView,
) {
    let nothing = HeldView { bytes: seq![], length: 0 };
    if h.length > 0 {
        let all = h.bytes + data;
        let enough = match expected {
            Some(n) => all.len() >= n,
            None => all.len() >= 4 && all.len() >= bytes::be32_at(all, 0),
        };
        if data.len() < USB_MRU || enough {
            (Some(all), nothing)
        } else {
            (None, HeldView { bytes: all, ..h })
        }
    } else if data.len() == USB_MRU && bytes::be32_at(data, 0) > USB_MRU {
        (None, HeldView { bytes: h.bytes + data, length: bytes::be32_at(data, 0) })
    } else {
        (Some(data), h)
    }
}

/// Joins the reads of a packet that is longer than one read.
pub struct PacketReassembler {
    pktbuf: Vec<u8>,
    pktlen: usize,
}

impl View for PacketReassembler {
    type V = HeldView;

    closed spec fn view(&self) -> HeldView {
        HeldView { bytes: self.pktbuf@, length: self.pktlen as int }
    }
}

impl PacketReassembler {
    pub fn new() -> (r: Self)
        ensures
            r@ == (HeldView { bytes: seq![], length: 0 }),
    {
        let r = PacketReassembler { pktbuf: Vec::new(), pktlen: 0 };
        assert(r@.bytes =~= seq![]);
        r
    }

    /// Takes one read. A read that is not full ends its packet; a full one
    /// does so if the packet's length, given or announced, is reached.
    pub fn feed(&mut self, data: &[u8], expected_len: Option<usize>) -> (packet: Option<Vec<u8>>)
        ensures
            ({
                let (p, h) = fed(old(self)@, data@, expected_len);
                &&& final(self)@ == h
                &&& match packet {
                    Some(v) => p == Some(v@),
                    None => p is None,
                }
            }),
    {
        if self.pktlen > 0 {
            push_bytes(&mut self.pktbuf, data);
            let enough: bool = match expected_len {
                Some(n) => self.pktbuf.len() >= n,
                None => self.pktbuf.len() >= 4 && self.pktbuf.len() >= read_be32(
                    self.pktbuf.as_slice(),
                    0,
                ) as usize,
            };
            if data.len() < USB_MRU || enough {
                let mut packet: Vec<u8> = Vec::new();
                packet.append(&mut self.pktbuf);
                self.pktlen = 0;
                assert(packet@ =~= old(self)@.bytes + data@);
                assert(self@.bytes =~= seq![]);
                return Some(packet);
            }
            return None;
        }
        if data.len() == USB_MRU {
            let total: usize = read_be32(data, 0) as usize;
            if total > USB_MRU {
                push_bytes(&mut self.pktbuf, data);
                self.pktlen = total;
                return None;
            }
        }
        let mut packet: Vec<u8> = Vec::new();
        push_bytes(&mut packet, data);
        assert(packet@ =~= data@);
        Some(packet)
    }

    /// Forgets an unfinished packet.
    pub fn reset(&mut self)
        ensures
            final(self)@ == (HeldView { bytes: seq![], length: 0 }),
    {
        self.pktbuf.clear();
        self.pktlen = 0;
        assert(self@.bytes =~= seq![]);
    }
}

/// No byte of a read is lost: it is in the packet that comes out or it is
/// held, after whatever was held before.
pub proof fn reads_are_kept(h: HeldView, data: Seq<u8>, expected: Option<usize>)
    requires
        h.length >= 0,
        h.length == 0 ==> h.bytes.len() == 0,
    ensures
        match fed(h, data, expected) {
            (Some(p), rest) => p == h.bytes + data && rest.bytes.len() == 0 && rest.length == 0,
            (None, rest) => rest.bytes == h.bytes + data && rest.length > 0,
        },
{
    assert(h.length == 0 ==> h.bytes + data =~= data);
}

/// A read that is not full always ends its packet.
pub proof fn short_read_ends_the_packet(h: HeldView, data: Seq<u8>, expected: Option<usize>)
    requires
        h.length >= 0,
        data.len() < USB_MRU,
    ensures
        fed(h, data, expected).0 is Some,
{
}

/// The interface that is found stands in one of the configurations, and has
/// the class, subclass and protocol of mux traffic.
pub proof fn found_interface_is_mux(configs: Seq<Option<ConfigDescriptor>>, n: int)
    requires
        0 <= n <= configs.len(),
        mux_interface(configs, n) is Ok,
    ensures
        exists|k: int, i: int|
            {
                let c = configs[k].unwrap();
                &&& 0 <= k < n
                &&& configs[k] is Some
                &&& 0 <= i < c.interfaces@.len()
                &&& (#[trigger] configs[k].unwrap().interfaces@[i]).is_mux()
                &&& mux_interface(configs, n) == endpoints_of(c.number, c.interfaces@[i])
            },
    decreases n,
{
    if n > 0 {
        match configs[n - 1] {
            Some(c) => {
                match first_mux(c.interfaces@) {
                    Some(f) => {
                        first_mux_stands_in(c.interfaces@);
                        let i = choose|i: int|
                            0 <= i < c.interfaces@.len() && #[trigger] c.interfaces@[i] == f;
                        assert(configs[n - 1].unwrap().interfaces@[i].is_mux());
                    },
                    None => found_interface_is_mux(configs, n - 1),
                }
            },
            None => found_interface_is_mux(configs, n - 1),
        }
    }
}

proof fn first_mux_stands_in(interfaces: Seq<InterfaceDescriptor>)
    requires
        first_mux(interfaces) is Some,
    ensures
        first_mux(interfaces).unwrap().is_mux(),
        exists|i: int|
            0 <= i < interfaces.len() && #[trigger] interfaces[i] == first_mux(
                interfaces,
            ).unwrap(),
    decreases interfaces.len(),
{
    if interfaces.len() > 0 && !interfaces[0].is_mux() {
        first_mux_stands_in(interfaces.skip(1));
        let j = choose|j: int|
            0 <= j < interfaces.skip(1).len() && #[trigger] interfaces.skip(1)[j] == first_mux(
                interfaces.skip(1),
            ).unwrap();
        assert(interfaces[j + 1] == interfaces.skip(1)[j]);
    }
}

/// Of the bulk endpoints of a direction the last one counts.
pub proof fn last_bulk_endpoint_counts(eps: Seq<EndpointDescriptor>, input: bool, i: int)
    requires
        0 <= i < eps.len(),
        eps[i].bulk,
        eps[i].input == input,
        forall|j: int|
            i < j < eps.len() ==> !((#[trigger] eps[j]).bulk && eps[j].input == input),
    ensures
        last_bulk(eps, input) == Some(eps[i]),
    decreases eps.len(),
{
    if i < eps.len() - 1 {
        let last = eps[eps.len() - 1];
        assert(!(last.bulk && last.input == input));
        let front = eps.drop_last();
        assert(front[i] == eps[i]);
        assert forall|j: int| i < j < front.len() implies !((#[trigger] front[j]).bulk
            && front[j].input == input) by {
            assert(front[j] == eps[j]);
        }
        last_bulk_endpoint_counts(front, input, i);
    }
}

/// An interface without a bulk endpoint of a direction has none there.
pub proof fn missing_endpoints_are_missed(eps: Seq<EndpointDescriptor>, input: bool)
    requires
        forall|j: int|
            0 <= j < eps.len() ==> !((#[trigger] eps[j]).bulk && eps[j].input == input),
    ensures
        last_bulk(eps, input) is None,
    decreases eps.len(),
{
    if eps.len() > 0 {
        let last = eps[eps.len() - 1];
        assert(!(last.bulk && last.input == input));
        let front = eps.drop_last();
        assert forall|j: int| 0 <= j < front.len() implies !((#[trigger] front[j]).bulk
            && front[j].input == input) by {
            assert(front[j] == eps[j]);
        }
        missing_endpoints_are_missed(front, input);
    }
}

/// What is used of an interface: its number, that of its configuration, the
/// endpoints and the size of the packets that come in.
pub proof fn endpoints_are_used(
    number: u8,
    i: InterfaceDescriptor,
    ep_in: EndpointDescriptor,
    ep_out: EndpointDescriptor,
)
    requires
        last_bulk(i.endpoints@, true) == Some(ep_in),
        last_bulk(i.endpoints@, false) == Some(ep_out),
    ensures
        endpoints_of(number, i) matches Ok(m) && m.config_number == number && m.interface_number
            == i.interface_number && m.ep_in == ep_in.address && m.ep_out == ep_out.address
            && m.max_packet_size == ep_in.max_packet_size,
{
}

/// An interface without the endpoints cannot be used.
pub proof fn endpoints_are_needed(number: u8, i: InterfaceDescriptor)
    requires
        last_bulk(i.endpoints@, true) is None || last_bulk(i.endpoints@, false) is None,
    ensures
        endpoints_of(number, i) == Err::<MuxInterfaceInfo, UsbErrorView>(
            UsbErrorView::NoBulkEndpoints,
        ),
{
}

/// Mux traffic has a class, a subclass and a protocol of its own.
pub proof fn mux_interfaces_are_told_by_their_codes(i: InterfaceDescriptor)
    ensures
        i.is_mux() <==> i.class_code == 255 && i.sub_class_code == 254 && i.protocol_code == 2,
{
}

/// The first mux interface of a configuration is the one that counts.
pub proof fn first_mux_interface_counts(interfaces: Seq<InterfaceDescriptor>, i: int)
    requires
        0 <= i < interfaces.len(),
        interfaces[i].is_mux(),
        forall|j: int| 0 <= j < i ==> !(#[trigger] interfaces[j]).is_mux(),
    ensures
        first_mux(interfaces) == Some(interfaces[i]),
    decreases interfaces.len(),
{
    if i > 0 {
        assert(!interfaces[0].is_mux());
        let rest = interfaces.skip(1);
        assert(rest[i - 1] == interfaces[i]);
        assert forall|j: int| 0 <= j < i - 1 implies !(#[trigger] rest[j]).is_mux() by {
            assert(rest[j] == interfaces[j + 1]);
        }
        first_mux_interface_counts(rest, i - 1);
    }
}

/// Whether a configuration could not be read or has no mux interface.
pub open spec fn lacks_mux(c: Option<ConfigDescriptor>) -> bool {
    c matches Some(d) ==> forall|i: int|
        0 <= i < d.interfaces@.len() ==> !(#[trigger] d.interfaces@[i]).is_mux()
}

proof fn no_first_mux(interfaces: Seq<InterfaceDescriptor>)
    requires
        forall|i: int| 0 <= i < interfaces.len() ==> !(#[trigger] interfaces[i]).is_mux(),
    ensures
        first_mux(interfaces) is None,
    decreases interfaces.len(),
{
    if interfaces.len() > 0 {
        assert(!interfaces[0].is_mux());
        let rest = interfaces.skip(1);
        assert forall|j: int| 0 <= j < rest.len() implies !(#[trigger] rest[j]).is_mux() by {
            assert(rest[j] == interfaces[j + 1]);
        }
        no_first_mux(rest);
    }
}

/// The last configuration that has a mux interface is used, and of it the
/// first of those interfaces.
pub proof fn last_configuration_counts(
    configs: Seq<Option<ConfigDescriptor>>,
    n: int,
    k: int,
    i: int,
)
    requires
        0 <= k < n <= configs.len(),
        forall|j: int| k < j < n ==> lacks_mux(#[trigger] configs[j]),
        configs[k] is Some,
        0 <= i < configs[k].unwrap().interfaces@.len(),
        configs[k].unwrap().interfaces@[i].is_mux(),
        forall|j: int|
            0 <= j < i ==> !(#[trigger] configs[k].unwrap().interfaces@[j]).is_mux(),
    ensures
        mux_interface(configs, n) == endpoints_of(
            configs[k].unwrap().number,
            configs[k].unwrap().interfaces@[i],
        ),
    decreases n,
{
    if k == n - 1 {
        first_mux_interface_counts(configs[k].unwrap().interfaces@, i);
    } else {
        assert(lacks_mux(configs[n - 1]));
        if let Some(c) = configs[n - 1] {
            no_first_mux(c.interfaces@);
        }
        last_configuration_counts(configs, n - 1, k, i);
    }
}

/// Where no configuration has a mux interface there is none.
pub proof fn devices_may_lack_the_interface(configs: Seq<Option<ConfigDescriptor>>, n: int)
    requires
        0 <= n <= configs.len(),
        forall|j: int| 0 <= j < n ==> lacks_mux(#[trigger] configs[j]),
    ensures
        mux_interface(configs, n) == Err::<MuxInterfaceInfo, UsbErrorView>(
            UsbErrorView::NoMuxInterface,
        ),
    decreases n,
{
    if n > 0 {
        assert(lacks_mux(configs[n - 1]));
        if let Some(c) = configs[n - 1] {
            no_first_mux(c.interfaces@);
        }
        devices_may_lack_the_interface(configs, n - 1);
    }
}

/// A packet that fits into one read comes out of it at once.
pub proof fn short_packets_come_at_once(p: Seq<u8>, expected: Option<usize>)
    requires
        p.len() < 16384 || (p.len() == 16384 && bytes::be32_at(p, 0) <= 16384),
    ensures
        fed(HeldView { bytes: seq![], length: 0 }, p, expected) == (
            Some(p),
            (HeldView { bytes: seq![], length: 0 }),
        ),
{
}

/// A packet that is longer than a read comes out whole, and only once its last
/// read is there: the reads before are held, one behind the other.
pub proof fn long_packets_come_out_whole(p: Seq<u8>, m: int)
    requires
        p.len() > 16384,
        bytes::be32_at(p, 0) == p.len(),
        0 <= m < p.len(),
        m % 16384 == 0,
    ensures
        ({
            let before = HeldView {
                bytes: p.take(m),
                length: if m == 0 {
                    0
                } else {
                    p.len() as int
                },
            };
            &&& m + 16384 < p.len() ==> fed(before, p.subrange(m, m + 16384), None) == (
                None::<Seq<u8>>,
                (HeldView { bytes: p.take(m + 16384), length: p.len() as int }),
            )
            &&& m + 16384 >= p.len() ==> fed(before, p.skip(m), None) == (
                Some(p),
                (HeldView { bytes: seq![], length: 0 }),
            )
        }),
{
    let before = p.take(m);
    if m + 16384 < p.len() {
        let read = p.subrange(m, m + 16384);
        assert(before + read =~= p.take(m + 16384));
        assert(p.take(m + 16384).take(4) =~= p.take(4));
        same_beginning(p.take(m + 16384), p);
        if m == 0 {
            assert(read.take(4) =~= p.take(4));
            same_beginning(read, p);
        }
    } else {
        assert(m > 0);
        assert(before + p.skip(m) =~= p);
    }
}

proof fn same_beginning(a: Seq<u8>, b: Seq<u8>)
    requires
        a.len() >= 4,
        b.len() >= 4,
        a.take(4) == b.take(4),
    ensures
        bytes::be32_at(a, 0) == bytes::be32_at(b, 0),
{
    assert(a[0] == a.take(4)[0] && a[1] == a.take(4)[1] && a[2] == a.take(4)[2] && a[3]
        == a.take(4)[3]);
    assert(b[0] == b.take(4)[0] && b[1] == b.take(4)[1] && b[2] == b.take(4)[2] && b[3]
        == b.take(4)[3]);
}

/// What errors say.
pub proof fn what_bus_errors_say(m: Seq<char>, written: usize, expected: usize)
    ensures
        UsbErrorView::Rusb(m).text() == "USB error: "@ + m,
        UsbErrorView::NoMuxInterface.text() == "no mux interface found on device"@,
        UsbErrorView::NoBulkEndpoints.text() == "mux interface has no bulk endpoints"@,
        (UsbErrorView::ShortWrite { written, expected }).text() == "short write: "@
            + text::decimal(written as nat) + " bytes written, expected "@ + text::decimal(
            expected as nat,
        ),
        UsbErrorView::Io(m).text() == "I/O error: "@ + m,
        UsbErrorView::TaskJoin(m).text() == "worker task panicked: "@ + m,
{
}

} // verus!
