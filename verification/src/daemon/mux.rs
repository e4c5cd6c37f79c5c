//! The USB multiplexing protocol: frames, the TCP-like segments inside them,
//! and reassembly of frames from the bytes of bulk transfers.
use crate::bytes;
use crate::bytes::{copy_range, push_be16, push_be32, push_bytes, read_be16, read_be32};
use crate::text;
use crate::text::{joined, push_decimal};
use vstd::prelude::*;

verus! {

pub const HEADER_SIZE: usize = 8;

pub const VERSION_REQUEST_SIZE: usize = 12;

pub const SETUP_REQUEST_SIZE: usize = 1;

pub const HEADER_VERSION: u32 = 0;

pub const HEADER_CONTROL: u32 = 1;

pub const HEADER_SETUP: u32 = 2;

pub const HEADER_TCP: u32 = 6;

pub const CONTROL_RESULT: u8 = 1;

pub const CONTROL_DEVICE_ADD: u8 = 2;

pub const CONTROL_DEVICE_REMOVE: u8 = 3;

pub const SETUP_CONNECT: u8 = 7;

pub const TCP_FIN: u16 = 0x001;

pub const TCP_SYN: u16 = 0x002;

pub const TCP_RST: u16 = 0x004;

pub const TCP_PSH: u16 = 0x008;

pub const TCP_ACK: u16 = 0x010;

pub const USB_MTU: usize = 49152;

pub const USB_MRU: usize = 16384;

pub const ZLP_THRESHOLD: usize = 512;

/// The initial receive window: 128 KiB, of which the wire carries `>> 8`.
pub const INITIAL_WINDOW: u32 = 131072;

/// `INITIAL_WINDOW` in the 256-byte units of the wire.
pub const INITIAL_WINDOW_UNITS: u16 = 512;

/// The magic of extended (version 2) frames that this side sends.
pub const MAGIC_SENT: u32 = 0xFEED_FACE;

/// The magic that recent devices send back.
pub const MAGIC_ALTERNATE: u32 = 0xFACE_FACE;

/// What went wrong on a mux channel.
#[derive(Debug, Clone)]
pub enum MuxError {
    InvalidHeader(String),
    InvalidVersion(String),
    InvalidState(String),
    IoError(String),
    UsbError(String),
    ChannelError(String),
    UnsupportedVersion(u32),
    UnsupportedProtocol(u32),
}

/// A `MuxError` with its text as characters.
pub ghost enum MuxErrorView {
    InvalidHeader(Seq<char>),
    InvalidVersion(Seq<char>),
    InvalidState(Seq<char>),
    IoError(Seq<char>),
    UsbError(Seq<char>),
    ChannelError(Seq<char>),
    UnsupportedVersion(u32),
    UnsupportedProtocol(u32),
}

impl View for MuxError {
    type V = MuxErrorView;

    open spec fn view(&self) -> MuxErrorView {
        match self {
            MuxError::InvalidHeader(m) => MuxErrorView::InvalidHeader(m@),
            MuxError::InvalidVersion(m) => MuxErrorView::InvalidVersion(m@),
            MuxError::InvalidState(m) => MuxErrorView::InvalidState(m@),
            MuxError::IoError(m) => MuxErrorView::IoError(m@),
            MuxError::UsbError(m) => MuxErrorView::UsbError(m@),
            MuxError::ChannelError(m) => MuxErrorView::ChannelError(m@),
            MuxError::UnsupportedVersion(v) => MuxErrorView::UnsupportedVersion(*v),
            MuxError::UnsupportedProtocol(p) => MuxErrorView::UnsupportedProtocol(*p),
        }
    }
}

impl MuxErrorView {
    /// The message shown for the error.
    pub open spec fn text(self) -> Seq<char> {
        match self {
            MuxErrorView::InvalidHeader(m) => "invalid header: "@ + m,
            MuxErrorView::InvalidVersion(m) => "invalid version: "@ + m,
            MuxErrorView::InvalidState(m) => "invalid state: "@ + m,
            MuxErrorView::IoError(m) => "I/O error: "@ + m,
            MuxErrorView::UsbError(m) => "USB error: "@ + m,
            MuxErrorView::ChannelError(m) => "channel error: "@ + m,
            MuxErrorView::UnsupportedVersion(v) => "unsupported version: "@ + text::decimal(
                v as nat,
            ),
            MuxErrorView::UnsupportedProtocol(p) => "unsupported protocol: "@ + text::decimal(
                p as nat,
            ),
        }
    }
}

impl MuxError {
    /// The message shown for the error.
    pub fn to_text(&self) -> (s: String)
        ensures
            s@ == self@.text(),
    {
        match self {
            MuxError::InvalidHeader(m) => joined("invalid header: ", m.as_str()),
            MuxError::InvalidVersion(m) => joined("invalid version: ", m.as_str()),
            MuxError::InvalidState(m) => joined("invalid state: ", m.as_str()),
            MuxError::IoError(m) => joined("I/O error: ", m.as_str()),
            MuxError::UsbError(m) => joined("USB error: ", m.as_str()),
            MuxError::ChannelError(m) => joined("channel error: ", m.as_str()),
            MuxError::UnsupportedVersion(v) => {
                let mut s = "unsupported version: ".to_owned();
                push_decimal(&mut s, *v as u64);
                s
            },
            MuxError::UnsupportedProtocol(p) => {
                let mut s = "unsupported protocol: ".to_owned();
                push_decimal(&mut s, *p as u64);
                s
            },
        }
    }
}

/// One flag of a segment.
#[derive(Debug, Clone, Copy, PartialEq, Eq, Structural)]
pub enum TcpFlag {
    Syn,
    SynAck,
    Ack,
    Fin,
    Rst,
    Psh,
}

/// `f` alone where bit `mask` of `flags` is set, nothing otherwise.
pub open spec fn flag_if(flags: u16, mask: u16, f: TcpFlag) -> Seq<TcpFlag> {
    if flags & mask != 0 {
        seq![f]
    } else {
        seq![]
    }
}

/// The flags set in `flags`, in the order SYN, ACK, FIN, RST, PSH.
pub open spec fn flag_list(flags: u16) -> Seq<TcpFlag> {
    flag_if(flags, TCP_SYN, TcpFlag::Syn) + flag_if(flags, TCP_ACK, TcpFlag::Ack) + flag_if(
        flags,
        TCP_FIN,
        TcpFlag::Fin,
    ) + flag_if(flags, TCP_RST, TcpFlag::Rst) + flag_if(flags, TCP_PSH, TcpFlag::Psh)
}

impl TcpFlag {
    pub fn from_u16(flags: u16) -> (result: Vec<TcpFlag>)
        ensures
            result@ == flag_list(flags),
    {
        let mut result: Vec<TcpFlag> = Vec::new();
        if flags & TCP_SYN != 0 {
            result.push(TcpFlag::Syn);
        }
        if flags & TCP_ACK != 0 {
            result.push(TcpFlag::Ack);
        }
        if flags & TCP_FIN != 0 {
            result.push(TcpFlag::Fin);
        }
        if flags & TCP_RST != 0 {
            result.push(TcpFlag::Rst);
        }
        if flags & TCP_PSH != 0 {
            result.push(TcpFlag::Psh);
        }
        assert(result@ =~= flag_list(flags));
        result
    }

    /// The flag's name.
    pub open spec fn name(self) -> Seq<char> {
        match self {
            TcpFlag::Syn => "SYN"@,
            TcpFlag::SynAck => "SYN|ACK"@,
            TcpFlag::Ack => "ACK"@,
            TcpFlag::Fin => "FIN"@,
            TcpFlag::Rst => "RST"@,
            TcpFlag::Psh => "PSH"@,
        }
    }

    /// The flag's name.
    pub fn to_text(&self) -> (s: String)
        ensures
            s@ == self.name(),
    {
        match self {
            TcpFlag::Syn => "SYN".to_owned(),
            TcpFlag::SynAck => "SYN|ACK".to_owned(),
            TcpFlag::Ack => "ACK".to_owned(),
            TcpFlag::Fin => "FIN".to_owned(),
            TcpFlag::Rst => "RST".to_owned(),
            TcpFlag::Psh => "PSH".to_owned(),
        }
    }
}

/// The header of a mux frame.
#[derive(Debug, Clone)]
pub struct MuxHeader {
    pub protocol: u32,
    /// Bytes of the whole frame, this header among them.
    pub length: u32,
    /// Whether the magic is there and the header is the extended one.
    pub is_v2: bool,
    /// Valid when `is_v2`.
    pub tx_seq: u16,
    /// Valid when `is_v2`.
    pub rx_seq: u16,
}

impl MuxHeader {
    /// Where the payload begins.
    pub open spec fn payload_start(self) -> int {
        if self.is_v2 {
            16
        } else {
            8
        }
    }

    /// Byte offset of the first payload byte after this header.
    pub fn header_len(&self) -> (n: usize)
        ensures
            n == self.payload_start(),
    {
        if self.is_v2 {
            16
        } else {
            8
        }
    }
}

/// The header of a segment.
#[derive(Debug, Clone)]
pub struct TcpHeader {
    pub source_port: u16,
    pub dest_port: u16,
    pub seq: u32,
    pub ack: u32,
    pub offset_flags: u16,
    pub window: u16,
}

impl TcpHeader {
    /// The header's length in 32-bit words: the top four bits.
    pub fn offset(&self) -> (n: u8)
        ensures
            n == self.offset_flags / 4096,
    {
        let f: u16 = self.offset_flags;
        assert((f >> 12) & 0x0F == f / 4096) by (bit_vector);
        ((f >> 12) & 0x0F) as u8
    }

    /// The flag bits: the low eight bits.
    pub open spec fn flag_bits(self) -> u16 {
        self.offset_flags & 0x0FF
    }

    pub fn flags(&self) -> (f: u16)
        ensures
            f == self.flag_bits(),
    {
        self.offset_flags & 0x0FF
    }

    /// The segment header written in the first twenty bytes of `data`.
    pub open spec fn decoded(data: Seq<u8>) -> TcpHeader {
        TcpHeader {
            source_port: bytes::be16_at(data, 0) as u16,
            dest_port: bytes::be16_at(data, 2) as u16,
            seq: bytes::be32_at(data, 4) as u32,
            ack: bytes::be32_at(data, 8) as u32,
            offset_flags: bytes::be16_at(data, 12) as u16,
            window: bytes::be16_at(data, 14) as u16,
        }
    }
}

/// A segment: its header and what follows it.
#[derive(Debug, Clone)]
pub struct TcpPacket {
    pub header: TcpHeader,
    pub payload: Vec<u8>,
}

/// The sixteen bytes that a segment header writes.
pub open spec fn tcp_header_bytes(h: TcpHeader) -> Seq<u8> {
    bytes::be16(h.source_port) + bytes::be16(h.dest_port) + bytes::be32(h.seq) + bytes::be32(
        h.ack,
    ) + bytes::be16(h.offset_flags) + bytes::be16(h.window)
}

pub trait TcpPacketExt {
    fn to_bytes(&self) -> Vec<u8>;
}

impl TcpPacketExt for TcpPacket {
    fn to_bytes(&self) -> (buf: Vec<u8>)
        ensures
            buf@ == tcp_header_bytes(self.header) + seq![0u8, 0u8] + self.payload@,
    {
        let mut buf: Vec<u8> = Vec::new();
        push_be16(&mut buf, self.header.source_port);
        push_be16(&mut buf, self.header.dest_port);
        push_be32(&mut buf, self.header.seq);
        push_be32(&mut buf, self.header.ack);
        push_be16(&mut buf, self.header.offset_flags);
        push_be16(&mut buf, self.header.window);
        buf.push(0);
        buf.push(0);
        push_bytes(&mut buf, self.payload.as_slice());
        assert(buf@ =~= tcp_header_bytes(self.header) + seq![0u8, 0u8] + self.payload@);
        buf
    }
}

pub trait ParseTcp {
    fn parse_tcp_header(data: &[u8]) -> (r: Result<TcpHeader, MuxError>)
        ensures
            match r {
                Ok(h) => data@.len() >= 20 && h == TcpHeader::decoded(data@),
                Err(e) => data@.len() < 20 && e@ == MuxErrorView::InvalidHeader("too short"@),
            },
    ;
}

impl ParseTcp for TcpHeader {
    fn parse_tcp_header(data: &[u8]) -> (r: Result<TcpHeader, MuxError>) {
        if data.len() < 20 {
            return Err(MuxError::InvalidHeader("too short".to_owned()));
        }
        Ok(
            TcpHeader {
                source_port: read_be16(data, 0),
                dest_port: read_be16(data, 2),
                seq: read_be32(data, 4),
                ack: read_be32(data, 8),
                offset_flags: read_be16(data, 12),
                window: read_be16(data, 14),
            },
        )
    }
}

/// A parsed frame.
#[derive(Debug, Clone)]
pub enum MuxPacket {
    Version { major: u32, minor: u32 },
    Control { payload: Vec<u8> },
    Setup,
    Tcp { header: TcpHeader, payload: Vec<u8> },
}

/// A `MuxPacket` with its payload as a sequence.
pub ghost enum MuxPacketView {
    Version { major: u32, minor: u32 },
    Control { payload: Seq<u8> },
    Setup,
    Tcp { header: TcpHeader, payload: Seq<u8> },
}

impl View for MuxPacket {
    type V = MuxPacketView;

    open spec fn view(&self) -> MuxPacketView {
        match self {
            MuxPacket::Version { major, minor } => MuxPacketView::Version {
                major: *major,
                minor: *minor,
            },
            MuxPacket::Control { payload } => MuxPacketView::Control { payload: payload@ },
            MuxPacket::Setup => MuxPacketView::Setup,
            MuxPacket::Tcp { header, payload } => MuxPacketView::Tcp {
                header: *header,
                payload: payload@,
            },
        }
    }
}

/// Whether the magic of an extended header stands in `data`.
pub open spec fn has_magic(data: Seq<u8>) -> bool {
    data.len() >= 12 && (bytes::be32_at(data, 8) == MAGIC_SENT || bytes::be32_at(data, 8)
        == MAGIC_ALTERNATE)
}

/// The mux header at the front of `data`, which has at least eight bytes.
pub open spec fn mux_header(data: Seq<u8>) -> MuxHeader {
    MuxHeader {
        protocol: bytes::be32_at(data, 0) as u32,
        length: bytes::be32_at(data, 4) as u32,
        is_v2: has_magic(data),
        tx_seq: if has_magic(data) && data.len() >= 16 {
            bytes::be16_at(data, 12) as u16
        } else {
            0
        },
        rx_seq: if has_magic(data) && data.len() >= 16 {
            bytes::be16_at(data, 14) as u16
        } else {
            0
        },
    }
}

/// The message for data too short to hold a mux header.
pub open spec fn short_header_text(len: nat) -> Seq<char> {
    "too short: "@ + text::decimal(len) + " bytes"@
}

/// The message for a declared length that does not fit the data.
pub open spec fn bad_length_text(declared: nat, len: nat, header: nat) -> Seq<char> {
    "declared length "@ + text::decimal(declared) + " inconsistent with buffer "@ + text::decimal(
        len,
    ) + " (header "@ + text::decimal(header) + " bytes)"@
}

pub fn parse_mux_header(data: &[u8]) -> (r: Result<MuxHeader, MuxError>)
    ensures
        match r {
            Ok(h) => data@.len() >= 8 && h == mux_header(data@),
            Err(e) => data@.len() < 8 && e@ == MuxErrorView::InvalidHeader(
                short_header_text(data@.len()),
            ),
        },
{
    if data.len() < 8 {
        let mut m = "too short: ".to_owned();
        push_decimal(&mut m, data.len() as u64);
        m.append(" bytes");
        return Err(MuxError::InvalidHeader(m));
    }
    let protocol: u32 = read_be32(data, 0);
    let length: u32 = read_be32(data, 4);
    let mut is_v2: bool = false;
    let mut tx_seq: u16 = 0;
    let mut rx_seq: u16 = 0;
    if data.len() >= 12 {
        let magic: u32 = read_be32(data, 8);
        is_v2 = magic == MAGIC_SENT || magic == MAGIC_ALTERNATE;
        if is_v2 && data.len() >= 16 {
            tx_seq = read_be16(data, 12);
            rx_seq = read_be16(data, 14);
        }
    }
    Ok(MuxHeader { protocol, length, is_v2, tx_seq, rx_seq })
}

/// What the payload of a frame of protocol `protocol` says.
pub open spec fn parsed_payload(protocol: u32, payload: Seq<u8>) -> Result<
    MuxPacketView,
    MuxErrorView,
> {
    if protocol == HEADER_VERSION {
        Ok(
            MuxPacketView::Version {
                major: if payload.len() >= 4 {
                    bytes::be32_at(payload, 0) as u32
                } else {
                    0
                },
                minor: if payload.len() >= 8 {
                    bytes::be32_at(payload, 4) as u32
                } else {
                    0
                },
            },
        )
    } else if protocol == HEADER_CONTROL {
        Ok(MuxPacketView::Control { payload })
    } else if protocol == HEADER_SETUP {
        Ok(MuxPacketView::Setup)
    } else if protocol == HEADER_TCP {
        if payload.len() >= 20 {
            Ok(
                MuxPacketView::Tcp {
                    header: TcpHeader::decoded(payload),
                    payload: payload.subrange(20, payload.len() as int),
                },
            )
        } else {
            Err(MuxErrorView::InvalidHeader("TCP packet too short"@))
        }
    } else {
        Err(MuxErrorView::UnsupportedProtocol(protocol))
    }
}

/// What the frame at the front of `data` says.
pub open spec fn parsed(data: Seq<u8>) -> Result<MuxPacketView, MuxErrorView> {
    if data.len() < 8 {
        Err(MuxErrorView::InvalidHeader(short_header_text(data.len())))
    } else {
        let h = mux_header(data);
        let start = h.payload_start();
        if h.length > data.len() || h.length < start {
            Err(
                MuxErrorView::InvalidHeader(
                    bad_length_text(h.length as nat, data.len(), start as nat),
                ),
            )
        } else {
            parsed_payload(h.protocol, data.subrange(start, h.length as int))
        }
    }
}

pub fn parse_packet(data: &[u8]) -> (r: Result<MuxPacket, MuxError>)
    ensures
        match r {
            Ok(p) => parsed(data@) == Ok::<MuxPacketView, MuxErrorView>(p@),
            Err(e) => parsed(data@) == Err::<MuxPacketView, MuxErrorView>(e@),
        },
{
    let header = match parse_mux_header(data) {
        Ok(h) => h,
        Err(e) => return Err(e),
    };
    let start: usize = header.header_len();
    let end: usize = header.length as usize;
    if end > data.len() || end < start {
        let mut m = "declared length ".to_owned();
        push_decimal(&mut m, end as u64);
        m.append(" inconsistent with buffer ");
        push_decimal(&mut m, data.len() as u64);
        m.append(" (header ");
        push_decimal(&mut m, start as u64);
        m.append(" bytes)");
        return Err(MuxError::InvalidHeader(m));
    }
    let payload: &[u8] = &data[start..end];
    if header.protocol == HEADER_VERSION {
        let major: u32 = if payload.len() >= 4 {
            read_be32(payload, 0)
        } else {
            0
        };
        let minor: u32 = if payload.len() >= 8 {
            read_be32(payload, 4)
        } else {
            0
        };
        Ok(MuxPacket::Version { major, minor })
    } else if header.protocol == HEADER_CONTROL {
        let copy = copy_range(payload, 0, payload.len());
        assert(copy@ =~= payload@);
        Ok(MuxPacket::Control { payload: copy })
    } else if header.protocol == HEADER_SETUP {
        Ok(MuxPacket::Setup)
    } else if header.protocol == HEADER_TCP {
        if payload.len() >= 20 {
            let tcp_header = match TcpHeader::parse_tcp_header(payload) {
                Ok(h) => h,
                Err(e) => return Err(e),
            };
            Ok(
                MuxPacket::Tcp {
                    header: tcp_header,
                    payload: copy_range(payload, 20, payload.len()),
                },
            )
        } else {
            Err(MuxError::InvalidHeader("TCP packet too short".to_owned()))
        }
    } else {
        Err(MuxError::UnsupportedProtocol(header.protocol))
    }
}

pub fn parse_tcp_packet(data: &[u8]) -> (r: Result<TcpPacket, MuxError>)
    ensures
        match r {
            Ok(p) => data@.len() >= 20 && p.header == TcpHeader::decoded(data@) && p.payload@
                == data@.subrange(20, data@.len() as int),
            Err(e) => data@.len() < 20 && e@ == MuxErrorView::InvalidHeader("too short"@),
        },
{
    match TcpHeader::parse_tcp_header(data) {
        Ok(header) => Ok(TcpPacket { header, payload: copy_range(data, 20, data.len()) }),
        Err(e) => Err(e),
    }
}

pub fn build_control_result(tag: u32, status: u8) -> (out: Vec<u8>)
    ensures
        out@ == seq![0u8, 0, 0, 0, 0, 0, 0, 12, 0, 0, 0, 1, status, 0, 0, 0] + bytes::be32(tag)
            + seq![0u8, 0, 0, 0],
{
    let mut out: Vec<u8> = vec![0, 0, 0, 0, 0, 0, 0, 12, 0, 0, 0, 1, status, 0, 0, 0];
    push_be32(&mut out, tag);
    push_be32(&mut out, 0);
    assert(bytes::be32(0) =~= seq![0u8, 0, 0, 0]);
    out
}

pub fn build_setup_connect(source_port: u16, dest_port: u16) -> (out: Vec<u8>)
    ensures
        out@ == bytes::be32(HEADER_SETUP) + bytes::be32(17) + bytes::be32(MAGIC_SENT)
            + bytes::be32(0) + bytes::be32(1) + seq![SETUP_CONNECT] + bytes::be16(source_port)
            + bytes::be16(dest_port),
{
    let mut out: Vec<u8> = Vec::new();
    push_be32(&mut out, HEADER_SETUP);
    push_be32(&mut out, 17);
    push_be32(&mut out, MAGIC_SENT);
    push_be32(&mut out, 0);
    push_be32(&mut out, 1);
    out.push(SETUP_CONNECT);
    push_be16(&mut out, source_port);
    push_be16(&mut out, dest_port);
    assert(out@ =~= bytes::be32(HEADER_SETUP) + bytes::be32(17) + bytes::be32(MAGIC_SENT)
        + bytes::be32(0) + bytes::be32(1) + seq![SETUP_CONNECT] + bytes::be16(source_port)
        + bytes::be16(dest_port));
    out
}

/// The bytes that an extended header adds: magic and the two sequence numbers.
pub open spec fn v2_bytes(v2_seqs: Option<(u16, u16)>) -> Seq<u8> {
    match v2_seqs {
        Some((tx, rx)) => bytes::be32(MAGIC_SENT) + bytes::be16(tx) + bytes::be16(rx),
        None => seq![],
    }
}

/// The size of a header with or without the extension.
pub open spec fn header_size(v2_seqs: Option<(u16, u16)>) -> int {
    if v2_seqs is Some {
        16
    } else {
        8
    }
}

/// The length field of a frame: the low 32 bits of the payload's length, and
/// the header.
pub open spec fn length_field(v2_seqs: Option<(u16, u16)>, payload: Seq<u8>) -> int {
    header_size(v2_seqs) + payload.len() % 0x1_0000_0000
}

/// A frame: protocol, length, the extension where there is one, payload.
pub open spec fn mux_frame(protocol: u32, v2_seqs: Option<(u16, u16)>, payload: Seq<u8>) -> Seq<
    u8,
> {
    bytes::be32(protocol) + bytes::be32(length_field(v2_seqs, payload) as u32) + v2_bytes(v2_seqs)
        + payload
}

/// Builds a frame. The header has eight bytes (protocol and length) for a
/// device of version 1, and sixteen (with magic and sequence numbers) for one
/// of version 2.
pub fn build_mux_frame(protocol: u32, v2_seqs: Option<(u16, u16)>, payload: &[u8]) -> (out: Vec<u8>)
    requires
        length_field(v2_seqs, payload@) <= u32::MAX,
    ensures
        out@ == mux_frame(protocol, v2_seqs, payload@),
{
    let mut out: Vec<u8> = Vec::new();
    let low: u32 = (payload.len() as u64 % 0x1_0000_0000) as u32;
    match v2_seqs {
        Some((tx, rx)) => {
            push_be32(&mut out, protocol);
            push_be32(&mut out, 16 + low);
            push_be32(&mut out, MAGIC_SENT);
            push_be16(&mut out, tx);
            push_be16(&mut out, rx);
        },
        None => {
            push_be32(&mut out, protocol);
            push_be32(&mut out, 8 + low);
        },
    }
    push_bytes(&mut out, payload);
    assert(out@ =~= mux_frame(protocol, v2_seqs, payload@));
    out
}

/// The body of a version request: major 2, minor 0, padding.
pub open spec fn version_body() -> Seq<u8> {
    bytes::be32(2) + bytes::be32(0) + bytes::be32(0)
}

/// The version request: always an eight-byte header, then a twelve-byte body.
pub fn build_version_request() -> (out: Vec<u8>)
    ensures
        out@ == mux_frame(HEADER_VERSION, None, version_body()),
        out@.len() == 20,
{
    let mut payload: Vec<u8> = Vec::new();
    push_be32(&mut payload, 2);
    push_be32(&mut payload, 0);
    push_be32(&mut payload, 0);
    assert(payload@ =~= version_body());
    build_mux_frame(HEADER_VERSION, None, payload.as_slice())
}

/// The setup frame, whose payload is one byte. For devices of version 2.
pub fn build_setup_packet(tx_seq: u16, rx_seq: u16) -> (out: Vec<u8>)
    ensures
        out@ == mux_frame(HEADER_SETUP, Some((tx_seq, rx_seq)), seq![SETUP_CONNECT]),
{
    let mut payload: Vec<u8> = Vec::new();
    payload.push(SETUP_CONNECT);
    assert(payload@ =~= seq![SETUP_CONNECT]);
    build_mux_frame(HEADER_SETUP, Some((tx_seq, rx_seq)), payload.as_slice())
}

pub fn build_mux_header(protocol: u32, length: u32) -> (out: Vec<u8>)
    ensures
        out@ == bytes::be32(protocol) + bytes::be32(length),
{
    let mut out: Vec<u8> = Vec::new();
    push_be32(&mut out, protocol);
    push_be32(&mut out, length);
    assert(out@ =~= bytes::be32(protocol) + bytes::be32(length));
    out
}

/// The header of a segment that this side sends: a header of five words, and
/// the low twelve bits of `flags`.
pub open spec fn sent_header(
    sport: u16,
    dport: u16,
    tcp_seq: u32,
    tcp_ack: u32,
    flags: u16,
    window: u16,
) -> TcpHeader {
    TcpHeader {
        source_port: sport,
        dest_port: dport,
        seq: tcp_seq,
        ack: tcp_ack,
        offset_flags: (0x5000 + flags % 0x1000) as u16,
        window,
    }
}

/// A segment: header, four zero bytes for checksum and urgent pointer, data.
pub open spec fn tcp_segment(header: TcpHeader, payload: Seq<u8>) -> Seq<u8> {
    tcp_header_bytes(header) + seq![0u8, 0, 0, 0] + payload
}

/// The bytes of an optional payload.
pub open spec fn payload_bytes(payload: Option<&[u8]>) -> Seq<u8> {
    match payload {
        Some(data) => data@,
        None => seq![],
    }
}

/// Builds a frame that carries one segment. With `v2` the frame has the
/// extended header with these sequence numbers.
pub fn build_tcp_packet(
    v2: Option<(u16, u16)>,
    sport: u16,
    dport: u16,
    tcp_seq: u32,
    tcp_ack: u32,
    flags: u16,
    window: u16,
    payload: Option<&[u8]>,
) -> (out: Vec<u8>)
    requires
        length_field(
            v2,
            tcp_segment(
                sent_header(sport, dport, tcp_seq, tcp_ack, flags, window),
                payload_bytes(payload),
            ),
        ) <= u32::MAX,
    ensures
        out@ == mux_frame(
            HEADER_TCP,
            v2,
            tcp_segment(
                sent_header(sport, dport, tcp_seq, tcp_ack, flags, window),
                payload_bytes(payload),
            ),
        ),
{
    let offset_flags: u16 = (0x5u16 << 12) | (0x0FFF & flags);
    assert(((0x5u16 << 12) | (0x0FFF & flags)) == 0x5000 + flags % 0x1000) by (bit_vector);
    let mut tcp: Vec<u8> = Vec::new();
    push_be16(&mut tcp, sport);
    push_be16(&mut tcp, dport);
    push_be32(&mut tcp, tcp_seq);
    push_be32(&mut tcp, tcp_ack);
    push_be16(&mut tcp, offset_flags);
    push_be16(&mut tcp, window);
    push_be16(&mut tcp, 0);
    push_be16(&mut tcp, 0);
    if let Some(data) = payload {
        push_bytes(&mut tcp, data);
    }
    assert(tcp@ =~= tcp_segment(
        sent_header(sport, dport, tcp_seq, tcp_ack, flags, window),
        payload_bytes(payload),
    ));
    build_mux_frame(HEADER_TCP, v2, tcp.as_slice())
}

/// Builds a control frame, in which errors and status are reported.
pub fn build_control_packet(v2: Option<(u16, u16)>, payload: &[u8]) -> (out: Vec<u8>)
    requires
        length_field(v2, payload@) <= u32::MAX,
    ensures
        out@ == mux_frame(HEADER_CONTROL, v2, payload@),
{
    build_mux_frame(HEADER_CONTROL, v2, payload)
}

/// Builds a packet whose length field counts the data alone.
pub fn build_packet(protocol: u32, data: &[u8]) -> (out: Vec<u8>)
    ensures
        out@ == bytes::be32(protocol) + bytes::be32((data@.len() % 0x1_0000_0000) as u32) + data@,
{
    let mut out: Vec<u8> = Vec::new();
    push_be32(&mut out, protocol);
    push_be32(&mut out, (data.len() as u64 % 0x1_0000_0000) as u32);
    push_bytes(&mut out, data);
    assert(out@ =~= bytes::be32(protocol) + bytes::be32((data@.len() % 0x1_0000_0000) as u32)
        + data@);
    out
}

/// The sequence number after `seq`.
pub open spec fn next_seq(seq: u16) -> u16 {
    if seq == 0xFFFF {
        0
    } else {
        (seq + 1) as u16
    }
}

pub fn increment_seq(seq: u16) -> (next: u16)
    ensures
        next == next_seq(seq),
{
    seq.wrapping_add(1)
}

/// The window that `free` bytes of buffer allow, in 256-byte units.
pub open spec fn window_units(free: int) -> int {
    if free / 256 < 0xFFFF {
        free / 256
    } else {
        0xFFFF
    }
}

/// The window to advertise for an amount of free buffer space, in 256-byte
/// units.
pub fn scaled_window(free_bytes: usize) -> (w: u16)
    ensures
        w == window_units(free_bytes as int),
{
    let units: usize = free_bytes / 256;
    if units < 0xFFFF {
        units as u16
    } else {
        0xFFFF
    }
}

/// The byte sequences held by `v`.
pub open spec fn byte_seqs(v: Seq<Vec<u8>>) -> Seq<Seq<u8>> {
    v.map_values(|p: Vec<u8>| p@)
}

/// What a byte stream holds for a receiver that takes frames of up to `max`
/// bytes: the complete frames, and the bytes left over. A length field that
/// no frame can have is taken for corruption, and one byte is dropped.
pub open spec fn reassembled(buf: Seq<u8>, max: int) -> (Seq<Seq<u8>>, Seq<u8>)
    decreases buf.len(),
{
    if buf.len() < HEADER_SIZE {
        (seq![], buf)
    } else {
        let length = bytes::be32_at(buf, 4);
        if length < HEADER_SIZE || length > max {
            reassembled(buf.skip(1), max)
        } else if buf.len() < length {
            (seq![], buf)
        } else {
            let (frames, rest) = reassembled(buf.skip(length), max);
            (seq![buf.take(length)] + frames, rest)
        }
    }
}

/// What is kept of leftover bytes: nothing once they exceed the limit.
pub open spec fn kept(rest: Seq<u8>, max: int) -> Seq<u8> {
    if rest.len() > max {
        seq![]
    } else {
        rest
    }
}

/// Collects frames from the chunks in which a stream arrives.
pub struct PacketReassembler {
    max_buffer: usize,
    buffers: Vec<u8>,
}

impl PacketReassembler {
    /// The limit on buffered bytes and on the size of a frame.
    pub closed spec fn limit(&self) -> usize {
        self.max_buffer
    }

    /// The bytes held back for the next call.
    pub closed spec fn buffered(&self) -> Seq<u8> {
        self.buffers@
    }

    pub fn new(max_buffer: usize) -> (r: Self)
        ensures
            r.limit() == max_buffer,
            r.buffered() == Seq::<u8>::empty(),
    {
        PacketReassembler { max_buffer, buffers: Vec::new() }
    }

    /// Takes raw bytes and returns every frame that is complete. Leftover
    /// bytes stay for the next call, unless they exceed the limit.
    pub fn feed(&mut self, data: &[u8]) -> (frames: Vec<Vec<u8>>)
        ensures
            final(self).limit() == old(self).limit(),
            byte_seqs(frames@) == reassembled(
                old(self).buffered() + data@,
                old(self).limit() as int,
            ).0,
            final(self).buffered() == kept(
                reassembled(old(self).buffered() + data@, old(self).limit() as int).1,
                old(self).limit() as int,
            ),
            final(self).buffered().len() <= final(self).limit(),
    {
        push_bytes(&mut self.buffers, data);
        let ghost whole = self.buffers@;
        let max: usize = self.max_buffer;
        let mut frames: Vec<Vec<u8>> = Vec::new();
        let mut pos: usize = 0;
        assert(whole.skip(0) =~= whole);
        assert(byte_seqs(frames@) =~= seq![]);
        assert(seq![] + reassembled(whole, max as int).0 =~= reassembled(whole, max as int).0);
        loop
            invariant
                pos <= whole.len(),
                self.buffers@ == whole,
                self.max_buffer == max,
                byte_seqs(frames@) + reassembled(whole.skip(pos as int), max as int).0
                    == reassembled(whole, max as int).0,
                reassembled(whole.skip(pos as int), max as int).1 == reassembled(
                    whole,
                    max as int,
                ).1,
            ensures
                pos <= whole.len(),
                reassembled(whole.skip(pos as int), max as int) == (
                    Seq::<Seq<u8>>::empty(),
                    whole.skip(pos as int),
                ),
            decreases whole.len() - pos,
        {
            let left: usize = self.buffers.len() - pos;
            if left < HEADER_SIZE {
                break;
            }
            let length: usize = read_be32(self.buffers.as_slice(), pos + 4) as usize;
            let ghost buf = whole.skip(pos as int);
            assert(length == bytes::be32_at(buf, 4));
            if length < HEADER_SIZE || length > max {
                assert(buf.skip(1) =~= whole.skip(pos + 1));
                pos = pos + 1;
                continue;
            }
            if left < length {
                break;
            }
            let frame = copy_range(self.buffers.as_slice(), pos, pos + length);
            assert(frame@ =~= buf.take(length as int));
            assert(buf.skip(length as int) =~= whole.skip(pos + length));
            let ghost before = byte_seqs(frames@);
            frames.push(frame);
            assert(byte_seqs(frames@) =~= before.push(buf.take(length as int)));
            assert(byte_seqs(frames@) + reassembled(buf.skip(length as int), max as int).0
                =~= before + reassembled(buf, max as int).0);
            pos = pos + length;
        }
        assert(byte_seqs(frames@) + Seq::<Seq<u8>>::empty() =~= byte_seqs(frames@));
        let rest = copy_range(self.buffers.as_slice(), pos, self.buffers.len());
        assert(rest@ =~= whole.skip(pos as int));
        if rest.len() > max {
            self.buffers.clear();
        } else {
            self.buffers = rest;
        }
        frames
    }

    pub fn clear(&mut self)
        ensures
            final(self).limit() == old(self).limit(),
            final(self).buffered() == Seq::<u8>::empty(),
    {
        self.buffers.clear();
    }

    pub fn len(&self) -> (n: usize)
        ensures
            n == self.buffered().len(),
    {
        self.buffers.len()
    }

    pub fn is_empty(&self) -> (b: bool)
        ensures
            b == (self.buffered().len() == 0),
    {
        self.buffers.len() == 0
    }
}

/// Whether `f` is a whole frame that a receiver with limit `max` takes: its
/// length field counts its bytes, and they fit.
pub open spec fn is_frame(f: Seq<u8>, max: int) -> bool {
    HEADER_SIZE <= f.len() <= max && bytes::be32_at(f, 4) == f.len()
}

/// Everything that reassembly hands out is a whole frame, and what it leaves
/// over is too short to be one.
pub proof fn reassembled_frames_are_whole(buf: Seq<u8>, max: int)
    ensures
        forall|i: int|
            0 <= i < reassembled(buf, max).0.len() ==> is_frame(
                #[trigger] reassembled(buf, max).0[i],
                max,
            ),
        reassembled(buf, max).1.len() < HEADER_SIZE || reassembled(buf, max).1.len() < max,
    decreases buf.len(),
{
    if buf.len() >= HEADER_SIZE {
        let length = bytes::be32_at(buf, 4);
        if length < HEADER_SIZE || length > max {
            reassembled_frames_are_whole(buf.skip(1), max);
        } else if buf.len() >= length {
            reassembled_frames_are_whole(buf.skip(length), max);
            let tail = reassembled(buf.skip(length), max).0;
            let all = reassembled(buf, max).0;
            assert(all =~= seq![buf.take(length)] + tail);
            assert forall|i: int| 0 <= i < all.len() implies is_frame(#[trigger] all[i], max) by {
                if i == 0 {
                    assert(all[0] == buf.take(length));
                } else {
                    assert(all[i] == tail[i - 1]);
                }
            }
        }
    }
}

/// The way a stream is cut into chunks does not matter: reassembling the two
/// parts one after the other, the leftover of the first in front of the
/// second, gives the frames and the leftover of the whole.
pub proof fn reassembly_ignores_chunking(a: Seq<u8>, b: Seq<u8>, max: int)
    ensures
        reassembled(a + b, max).0 == reassembled(a, max).0 + reassembled(
            reassembled(a, max).1 + b,
            max,
        ).0,
        reassembled(a + b, max).1 == reassembled(reassembled(a, max).1 + b, max).1,
    decreases a.len(),
{
    if a.len() < HEADER_SIZE {
        assert(reassembled(a, max).0 + reassembled(a + b, max).0 =~= reassembled(a + b, max).0);
    } else {
        let length = bytes::be32_at(a, 4);
        assert(bytes::be32_at(a + b, 4) == length);
        if length < HEADER_SIZE || length > max {
            assert((a + b).skip(1) =~= a.skip(1) + b);
            reassembly_ignores_chunking(a.skip(1), b, max);
        } else if a.len() < length {
            assert(reassembled(a, max).0 + reassembled(a + b, max).0 =~= reassembled(a + b, max).0);
        } else {
            assert((a + b).skip(length) =~= a.skip(length) + b);
            assert((a + b).take(length) =~= a.take(length));
            reassembly_ignores_chunking(a.skip(length), b, max);
            assert(reassembled(a + b, max).0 =~= reassembled(a, max).0 + reassembled(
                reassembled(a, max).1 + b,
                max,
            ).0);
        }
    }
}

/// For a reassembler whose limit has room for the seven bytes that can stay
/// over, two calls return together what one call on both chunks returns, and
/// leave the same bytes behind.
pub proof fn two_feeds_are_one(start: Seq<u8>, a: Seq<u8>, b: Seq<u8>, max: int)
    requires
        max >= 7,
    ensures
        ({
            let first = reassembled(start + a, max);
            let second = reassembled(kept(first.1, max) + b, max);
            let once = reassembled(start + (a + b), max);
            &&& once.0 == first.0 + second.0
            &&& kept(once.1, max) == kept(second.1, max)
        }),
{
    reassembled_frames_are_whole(start + a, max);
    reassembly_ignores_chunking(start + a, b, max);
    assert(start + (a + b) =~= (start + a) + b);
}

/// The frames one after the other.
pub open spec fn concatenated(frames: Seq<Seq<u8>>) -> Seq<u8>
    decreases frames.len(),
{
    if frames.len() == 0 {
        seq![]
    } else {
        frames[0] + concatenated(frames.skip(1))
    }
}

/// Whole frames sent one after the other come out one by one, in order and
/// unchanged, with nothing left over.
pub proof fn frames_come_out_in_order(frames: Seq<Seq<u8>>, max: int)
    requires
        forall|i: int| 0 <= i < frames.len() ==> is_frame(#[trigger] frames[i], max),
    ensures
        reassembled(concatenated(frames), max) == (frames, Seq::<u8>::empty()),
    decreases frames.len(),
{
    if frames.len() > 0 {
        let tail = frames.skip(1);
        assert forall|i: int| 0 <= i < tail.len() implies is_frame(#[trigger] tail[i], max) by {
            assert(tail[i] == frames[i + 1]);
        }
        frames_come_out_in_order(tail, max);
        let f = frames[0];
        assert(is_frame(f, max));
        let s = concatenated(frames);
        assert(bytes::be32_at(s, 4) == bytes::be32_at(f, 4));
        assert(s.take(f.len() as int) =~= f);
        assert(s.skip(f.len() as int) =~= concatenated(tail));
        assert(seq![f] + tail =~= frames);
    } else {
        assert(frames =~= seq![]);
    }
}

/// A frame that this side builds is whole for every receiver that has room
/// for it, as long as its size can be written in the length field.
pub proof fn built_frames_are_whole(
    protocol: u32,
    v2_seqs: Option<(u16, u16)>,
    payload: Seq<u8>,
    max: int,
)
    requires
        header_size(v2_seqs) + payload.len() <= u32::MAX,
        header_size(v2_seqs) + payload.len() <= max,
    ensures
        is_frame(mux_frame(protocol, v2_seqs, payload), max),
{
    built_frame_fields(protocol, v2_seqs, payload);
}

/// Whether the first four bytes of `payload` read as the magic of an
/// extended header.
pub open spec fn begins_with_magic(payload: Seq<u8>) -> bool {
    payload.len() >= 4 && (bytes::be32_at(payload, 0) == MAGIC_SENT || bytes::be32_at(payload, 0)
        == MAGIC_ALTERNATE)
}

/// Where the fields of a built frame stand.
proof fn built_frame_fields(protocol: u32, v2_seqs: Option<(u16, u16)>, payload: Seq<u8>)
    requires
        header_size(v2_seqs) + payload.len() <= u32::MAX,
    ensures
        ({
            let f = mux_frame(protocol, v2_seqs, payload);
            let len = header_size(v2_seqs) + payload.len();
            &&& f.len() == len
            &&& bytes::be32_at(f, 0) == protocol
            &&& bytes::be32_at(f, 4) == len
            &&& f.subrange(header_size(v2_seqs), len) == payload
            &&& v2_seqs matches Some((tx, rx)) ==> {
                &&& bytes::be32_at(f, 8) == MAGIC_SENT
                &&& bytes::be16_at(f, 12) == tx
                &&& bytes::be16_at(f, 14) == rx
            }
            &&& v2_seqs is None && payload.len() >= 4 ==> bytes::be32_at(f, 8) == bytes::be32_at(
                payload,
                0,
            )
        }),
{
    let f = mux_frame(protocol, v2_seqs, payload);
    let len = length_field(v2_seqs, payload) as u32;
    let a = bytes::be32(protocol);
    let b = bytes::be32(len);
    let c = v2_bytes(v2_seqs);
    assert(bytes::be32_at(f, 0) == protocol) by {
        bytes::be32_round_trip(seq![], protocol, b + c + payload);
        assert(f =~= seq![] + a + (b + c + payload));
    }
    assert(bytes::be32_at(f, 4) == len) by {
        bytes::be32_round_trip(a, len, c + payload);
        assert(f =~= a + b + (c + payload));
    }
    assert(f.subrange(header_size(v2_seqs), len as int) =~= payload);
    if let Some((tx, rx)) = v2_seqs {
        let m = bytes::be32(MAGIC_SENT);
        let t = bytes::be16(tx);
        let r = bytes::be16(rx);
        assert(bytes::be32_at(f, 8) == MAGIC_SENT) by {
            bytes::be32_round_trip(a + b, MAGIC_SENT, t + r + payload);
            assert(f =~= (a + b) + m + (t + r + payload));
        }
        assert(bytes::be16_at(f, 12) == tx) by {
            bytes::be16_round_trip(a + b + m, tx, r + payload);
            assert(f =~= (a + b + m) + t + (r + payload));
        }
        assert(bytes::be16_at(f, 14) == rx) by {
            bytes::be16_round_trip(a + b + m + t, rx, payload);
            assert(f =~= (a + b + m + t) + r + payload);
        }
    }
}

/// Parsing a built frame gives its protocol and payload back. A frame with
/// the short header is ambiguous when its payload begins with the magic.
pub proof fn built_frame_parses_back(
    protocol: u32,
    v2_seqs: Option<(u16, u16)>,
    payload: Seq<u8>,
)
    requires
        header_size(v2_seqs) + payload.len() <= u32::MAX,
        v2_seqs is None ==> !begins_with_magic(payload),
    ensures
        parsed(mux_frame(protocol, v2_seqs, payload)) == parsed_payload(protocol, payload),
        v2_seqs matches Some((tx, rx)) ==> mux_header(mux_frame(protocol, v2_seqs, payload))
            == (MuxHeader {
            protocol,
            length: (16 + payload.len()) as u32,
            is_v2: true,
            tx_seq: tx,
            rx_seq: rx,
        }),
{
    built_frame_fields(protocol, v2_seqs, payload);
}

/// Reading the header of a segment gives the header that was written.
pub proof fn segment_header_reads_back(h: TcpHeader, rest: Seq<u8>)
    ensures
        TcpHeader::decoded(tcp_header_bytes(h) + rest) == h,
        tcp_header_bytes(h).len() == 16,
{
    let s = tcp_header_bytes(h) + rest;
    let a = bytes::be16(h.source_port);
    let b = bytes::be16(h.dest_port);
    let c = bytes::be32(h.seq);
    let d = bytes::be32(h.ack);
    let e = bytes::be16(h.offset_flags);
    let f = bytes::be16(h.window);
    bytes::be16_round_trip(seq![], h.source_port, b + c + d + e + f + rest);
    assert(s =~= seq![] + a + (b + c + d + e + f + rest));
    bytes::be16_round_trip(a, h.dest_port, c + d + e + f + rest);
    assert(s =~= a + b + (c + d + e + f + rest));
    bytes::be32_round_trip(a + b, h.seq, d + e + f + rest);
    assert(s =~= (a + b) + c + (d + e + f + rest));
    bytes::be32_round_trip(a + b + c, h.ack, e + f + rest);
    assert(s =~= (a + b + c) + d + (e + f + rest));
    bytes::be16_round_trip(a + b + c + d, h.offset_flags, f + rest);
    assert(s =~= (a + b + c + d) + e + (f + rest));
    bytes::be16_round_trip(a + b + c + d + e, h.window, rest);
    assert(s =~= (a + b + c + d + e) + f + rest);
}

/// A segment that was built and framed parses back to its header and data.
/// With the short frame header the pair of ports must not read as the magic.
pub proof fn built_segment_parses_back(v2: Option<(u16, u16)>, h: TcpHeader, payload: Seq<u8>)
    requires
        header_size(v2) + 20 + payload.len() <= u32::MAX,
        v2 is None ==> h.source_port * 0x1_0000 + h.dest_port != MAGIC_SENT,
        v2 is None ==> h.source_port * 0x1_0000 + h.dest_port != MAGIC_ALTERNATE,
    ensures
        parsed(mux_frame(HEADER_TCP, v2, tcp_segment(h, payload))) == Ok::<
            MuxPacketView,
            MuxErrorView,
        >(MuxPacketView::Tcp { header: h, payload }),
{
    let seg = tcp_segment(h, payload);
    let zeros = seq![0u8, 0, 0, 0];
    segment_header_reads_back(h, zeros + payload);
    assert(seg =~= tcp_header_bytes(h) + (zeros + payload));
    assert(seg.subrange(20, seg.len() as int) =~= payload);
    assert(bytes::be32_at(seg, 0) == bytes::be16_at(seg, 0) * 0x1_0000 + bytes::be16_at(seg, 2));
    built_frame_parses_back(HEADER_TCP, v2, seg);
}

/// A control payload that was framed parses back.
pub proof fn built_control_parses_back(v2: Option<(u16, u16)>, payload: Seq<u8>)
    requires
        header_size(v2) + payload.len() <= u32::MAX,
        v2 is None ==> !begins_with_magic(payload),
    ensures
        parsed(mux_frame(HEADER_CONTROL, v2, payload)) == Ok::<MuxPacketView, MuxErrorView>(
            MuxPacketView::Control { payload },
        ),
{
    built_frame_parses_back(HEADER_CONTROL, v2, payload);
}

/// The version request parses back to version 2.0.
pub proof fn version_request_parses_back()
    ensures
        parsed(mux_frame(HEADER_VERSION, None, version_body())) == Ok::<
            MuxPacketView,
            MuxErrorView,
        >(MuxPacketView::Version { major: 2, minor: 0 }),
{
    assert(bytes::be32_at(version_body(), 0) == 2);
    assert(bytes::be32_at(version_body(), 4) == 0);
    built_frame_parses_back(HEADER_VERSION, None, version_body());
}

/// A frame on the wire: four bytes for the protocol, four for the number of
/// all its bytes; for a device of version 2 the magic and the two sequence
/// numbers; and then the payload.
pub proof fn frames_on_the_wire(protocol: u32, v2_seqs: Option<(u16, u16)>, payload: Seq<u8>)
    requires
        payload.len() + 16 <= u32::MAX,
    ensures
        ({
            let f = mux_frame(protocol, v2_seqs, payload);
            &&& f.subrange(0, 4) == bytes::be32(protocol)
            &&& f.subrange(4, 8) == bytes::be32(f.len() as u32)
            &&& match v2_seqs {
                Some((tx, rx)) => {
                    &&& f.len() == 16 + payload.len()
                    &&& f.subrange(8, 12) == seq![0xFEu8, 0xED, 0xFA, 0xCE]
                    &&& f.subrange(12, 14) == bytes::be16(tx)
                    &&& f.subrange(14, 16) == bytes::be16(rx)
                    &&& f.skip(16) == payload
                },
                None => f.len() == 8 + payload.len() && f.skip(8) == payload,
            }
        }),
{
    let f = mux_frame(protocol, v2_seqs, payload);
    assert(f.subrange(0, 4) =~= bytes::be32(protocol));
    assert(f.subrange(4, 8) =~= bytes::be32(f.len() as u32));
    match v2_seqs {
        Some((tx, rx)) => {
            assert(f.subrange(8, 12) =~= seq![0xFEu8, 0xED, 0xFA, 0xCE]);
            assert(f.subrange(12, 14) =~= bytes::be16(tx));
            assert(f.subrange(14, 16) =~= bytes::be16(rx));
            assert(f.skip(16) =~= payload);
        },
        None => {
            assert(f.skip(8) =~= payload);
        },
    }
}

/// A segment on the wire: the ports, the two numbers, a header of five words
/// and the flags, the window, four bytes of zero, and the data.
pub proof fn segments_on_the_wire(
    sport: u16,
    dport: u16,
    tcp_seq: u32,
    tcp_ack: u32,
    flags: u16,
    window: u16,
    payload: Seq<u8>,
)
    ensures
        ({
            let s = tcp_segment(
                sent_header(sport, dport, tcp_seq, tcp_ack, flags, window),
                payload,
            );
            &&& s.len() == 20 + payload.len()
            &&& s.subrange(0, 2) == bytes::be16(sport)
            &&& s.subrange(2, 4) == bytes::be16(dport)
            &&& s.subrange(4, 8) == bytes::be32(tcp_seq)
            &&& s.subrange(8, 12) == bytes::be32(tcp_ack)
            &&& s[12] == 0x50 + flags / 256 % 16
            &&& s[13] == flags % 256
            &&& s.subrange(14, 16) == bytes::be16(window)
            &&& s.subrange(16, 20) == seq![0u8, 0, 0, 0]
            &&& s.skip(20) == payload
        }),
{
    let s = tcp_segment(sent_header(sport, dport, tcp_seq, tcp_ack, flags, window), payload);
    assert(s.subrange(0, 2) =~= bytes::be16(sport));
    assert(s.subrange(2, 4) =~= bytes::be16(dport));
    assert(s.subrange(4, 8) =~= bytes::be32(tcp_seq));
    assert(s.subrange(8, 12) =~= bytes::be32(tcp_ack));
    assert(s.subrange(14, 16) =~= bytes::be16(window));
    assert(s.subrange(16, 20) =~= seq![0u8, 0, 0, 0]);
    assert(s.skip(20) =~= payload);
}

/// What a device sends is read by its protocol number, from behind the header
/// to the end that the header gives; bytes behind that end are no part of it.
pub proof fn frames_are_read_by_their_protocol(data: Seq<u8>, length: int, start: int)
    requires
        data.len() >= 8,
        length == data[4] * 0x100_0000 + data[5] * 0x1_0000 + data[6] * 256 + data[7],
        start == if data.len() >= 12 && (data.subrange(8, 12) == seq![0xFEu8, 0xED, 0xFA, 0xCE]
            || data.subrange(8, 12) == seq![0xFAu8, 0xCE, 0xFA, 0xCE]) {
            16int
        } else {
            8
        },
    ensures
        !(start <= length <= data.len()) ==> parsed(data) is Err,
        start <= length <= data.len() && data[0] == 0 && data[1] == 0 && data[2] == 0 ==> {
            let body = data.subrange(start, length);
            &&& data[3] == 0 && body.len() >= 8 ==> parsed(data) == Ok::<
                MuxPacketView,
                MuxErrorView,
            >(
                MuxPacketView::Version {
                    major: (body[0] * 0x100_0000 + body[1] * 0x1_0000 + body[2] * 256
                        + body[3]) as u32,
                    minor: (body[4] * 0x100_0000 + body[5] * 0x1_0000 + body[6] * 256
                        + body[7]) as u32,
                },
            )
            &&& data[3] == 0 && body.len() < 4 ==> parsed(data) == Ok::<
                MuxPacketView,
                MuxErrorView,
            >(MuxPacketView::Version { major: 0, minor: 0 })
            &&& data[3] == 1 ==> parsed(data) == Ok::<MuxPacketView, MuxErrorView>(
                MuxPacketView::Control { payload: body },
            )
            &&& data[3] == 2 ==> parsed(data) == Ok::<MuxPacketView, MuxErrorView>(
                MuxPacketView::Setup,
            )
            &&& data[3] == 6 && body.len() < 20 ==> parsed(data) is Err
            &&& data[3] == 6 && body.len() >= 20 ==> parsed(data) == Ok::<
                MuxPacketView,
                MuxErrorView,
            >(
                MuxPacketView::Tcp {
                    header: TcpHeader {
                        source_port: (body[0] * 256 + body[1]) as u16,
                        dest_port: (body[2] * 256 + body[3]) as u16,
                        seq: (body[4] * 0x100_0000 + body[5] * 0x1_0000 + body[6] * 256
                            + body[7]) as u32,
                        ack: (body[8] * 0x100_0000 + body[9] * 0x1_0000 + body[10] * 256
                            + body[11]) as u32,
                        offset_flags: (body[12] * 256 + body[13]) as u16,
                        window: (body[14] * 256 + body[15]) as u16,
                    },
                    payload: body.skip(20),
                },
            )
            &&& data[3] != 0 && data[3] != 1 && data[3] != 2 && data[3] != 6 ==> parsed(data)
                == Err::<MuxPacketView, MuxErrorView>(
                MuxErrorView::UnsupportedProtocol(data[3] as u32),
            )
        },
        data[0] != 0 || data[1] != 0 || data[2] != 0 ==> parsed(data) is Err,
{
    if data.len() >= 12 {
        let m = data.subrange(8, 12);
        assert(m[0] == data[8] && m[1] == data[9] && m[2] == data[10] && m[3] == data[11]);
        if has_magic(data) {
            if bytes::be32_at(data, 8) == MAGIC_SENT {
                assert(m =~= seq![0xFEu8, 0xED, 0xFA, 0xCE]);
            } else {
                assert(m =~= seq![0xFAu8, 0xCE, 0xFA, 0xCE]);
            }
        }
    }
    if start <= length <= data.len() {
        let body = data.subrange(start, length);
        if body.len() >= 20 {
            assert(body.subrange(20, body.len() as int) =~= body.skip(20));
        }
    }
}

/// The sequence numbers of a frame of version 2 are those that it carries.
pub proof fn sequence_numbers_are_read(data: Seq<u8>)
    requires
        data.len() >= 16,
        data.subrange(8, 12) == seq![0xFEu8, 0xED, 0xFA, 0xCE] || data.subrange(8, 12)
            == seq![0xFAu8, 0xCE, 0xFA, 0xCE],
    ensures
        mux_header(data).is_v2,
        mux_header(data).tx_seq == data[12] * 256 + data[13],
        mux_header(data).rx_seq == data[14] * 256 + data[15],
{
    let m = data.subrange(8, 12);
    assert(m[0] == data[8] && m[1] == data[9] && m[2] == data[10] && m[3] == data[11]);
}

/// A window counts whole units of 256 bytes, as many as are free, up to the
/// most that a window can say.
pub proof fn windows_say_what_is_free(free: int)
    requires
        free >= 0,
    ensures
        0 <= window_units(free) <= 65535,
        window_units(free) * 256 <= free,
        free < (window_units(free) + 1) * 256 || window_units(free) == 65535,
{
}

/// Sequence numbers go up by one, and begin anew after the last.
pub proof fn sequence_numbers_go_up(seq: u16)
    ensures
        next_seq(seq) == (seq + 1) % 0x1_0000,
{
}

/// Bytes that cannot begin a frame are passed over one by one, and a frame
/// that is not complete waits for the rest of it.
pub proof fn streams_find_back_to_frames(noise: Seq<u8>, f: Seq<u8>, max: int)
    requires
        noise.len() == 1,
        f.len() >= 8,
        is_frame(f, max),
        ({
            let length = f[3] * 0x100_0000 + f[4] * 0x1_0000 + f[5] * 256 + f[6];
            length < 8 || length > max
        }),
    ensures
        reassembled(noise + f, max) == (seq![f], Seq::<u8>::empty()),
        forall|n: int|
            8 <= n < f.len() ==> #[trigger] reassembled(f.take(n), max) == (
                Seq::<Seq<u8>>::empty(),
                f.take(n),
            ),
{
    let s = noise + f;
    assert(s.skip(1) =~= f);
    assert(bytes::be32_at(s, 4) == f[3] * 0x100_0000 + f[4] * 0x1_0000 + f[5] * 256 + f[6]);
    assert(f.take(f.len() as int) =~= f);
    assert(f.skip(f.len() as int) =~= seq![]);
    assert(reassembled(f.skip(f.len() as int), max) == (Seq::<Seq<u8>>::empty(), Seq::<u8>::empty()));
    assert(seq![f] + Seq::<Seq<u8>>::empty() =~= seq![f]);
    assert(reassembled(f, max) == (seq![f], Seq::<u8>::empty()));
    assert(reassembled(s, max) == reassembled(f, max));
    assert forall|n: int| 8 <= n < f.len() implies #[trigger] reassembled(f.take(n), max) == (
        Seq::<Seq<u8>>::empty(),
        f.take(n),
    ) by {
        assert(bytes::be32_at(f.take(n), 4) == bytes::be32_at(f, 4));
    }
}

/// The names of the flags that are set are exactly those of the bits.
pub proof fn flags_are_named_by_their_bits(flags: u16)
    ensures
        flag_list(flags).contains(TcpFlag::Fin) <==> flags & 0x01 != 0,
        flag_list(flags).contains(TcpFlag::Syn) <==> flags & 0x02 != 0,
        flag_list(flags).contains(TcpFlag::Rst) <==> flags & 0x04 != 0,
        flag_list(flags).contains(TcpFlag::Psh) <==> flags & 0x08 != 0,
        flag_list(flags).contains(TcpFlag::Ack) <==> flags & 0x10 != 0,
        !flag_list(flags).contains(TcpFlag::SynAck),
        flag_list(flags).len() <= 5,
{
    let a = flag_if(flags, TCP_SYN, TcpFlag::Syn);
    let b = flag_if(flags, TCP_ACK, TcpFlag::Ack);
    let c = flag_if(flags, TCP_FIN, TcpFlag::Fin);
    let d = flag_if(flags, TCP_RST, TcpFlag::Rst);
    let e = flag_if(flags, TCP_PSH, TcpFlag::Psh);
    let all = flag_list(flags);
    assert(all == a + b + c + d + e);
    if a.len() > 0 {
        assert(all[0] == TcpFlag::Syn);
    }
    if b.len() > 0 {
        assert(all[a.len() as int] == TcpFlag::Ack);
    }
    if c.len() > 0 {
        assert(all[(a + b).len() as int] == TcpFlag::Fin);
    }
    if d.len() > 0 {
        assert(all[(a + b + c).len() as int] == TcpFlag::Rst);
    }
    if e.len() > 0 {
        assert(all[(a + b + c + d).len() as int] == TcpFlag::Psh);
    }
}

/// Whether a frame is read as one segment with this header and this data, and
/// carries these sequence numbers.
#[verifier::opaque]
pub open spec fn says(
    f: Seq<u8>,
    v2: Option<(u16, u16)>,
    header: TcpHeader,
    data: Seq<u8>,
) -> bool {
    &&& parsed(f) == Ok::<MuxPacketView, MuxErrorView>(
        MuxPacketView::Tcp { header, payload: data },
    )
    &&& v2 matches Some((tx, rx)) ==> {
        &&& mux_header(f).is_v2
        &&& mux_header(f).tx_seq == tx
        &&& mux_header(f).rx_seq == rx
    }
}

/// A frame that was built for a segment says what it was built for.
pub proof fn built_segments_say_so(v2: Option<(u16, u16)>, h: TcpHeader, data: Seq<u8>)
    requires
        36 + data.len() <= u32::MAX,
        v2 is None ==> h.source_port * 0x1_0000 + h.dest_port != 0xFEED_FACE,
        v2 is None ==> h.source_port * 0x1_0000 + h.dest_port != 0xFACE_FACE,
    ensures
        says(mux_frame(HEADER_TCP, v2, tcp_segment(h, data)), v2, h, data),
{
    reveal(says);
    let seg = tcp_segment(h, data);
    segment_header_reads_back(h, seq![0u8, 0, 0, 0] + data);
    built_segment_parses_back(v2, h, data);
    if v2 is Some {
        built_frame_parses_back(HEADER_TCP, v2, seg);
    }
}

/// What a frame says is what is read from it.
pub proof fn what_is_said_is_read(
    f: Seq<u8>,
    v2: Option<(u16, u16)>,
    header: TcpHeader,
    data: Seq<u8>,
)
    requires
        says(f, v2, header, data),
    ensures
        parsed(f) == Ok::<MuxPacketView, MuxErrorView>(
            MuxPacketView::Tcp { header, payload: data },
        ),
{
    reveal(says);
}

/// The length of a frame is that of its header and its payload.
pub proof fn lengths_count_header_and_payload(tx: u16, rx: u16, payload: Seq<u8>)
    requires
        payload.len() <= 0xFFFF_FFFF,
    ensures
        length_field(None, payload) == 8 + payload.len(),
        length_field(Some((tx, rx)), payload) == 16 + payload.len(),
{
}

/// The daemon asks for version two, zero: three numbers of four bytes, the last
/// of them zero.
pub proof fn version_request_is_for_two_zero()
    ensures
        version_body() == seq![0u8, 0, 0, 2, 0, 0, 0, 0, 0, 0, 0, 0],
        bytes::be32_at(version_body(), 0) == 2,
        bytes::be32_at(version_body(), 4) == 0,
        bytes::be32_at(version_body(), 8) == 0,
{
    assert(version_body() =~= seq![0u8, 0, 0, 2, 0, 0, 0, 0, 0, 0, 0, 0]);
}

/// A header without the extension, or cut off before its numbers, has none.
pub proof fn short_headers_have_no_numbers(data: Seq<u8>)
    requires
        !has_magic(data) || data.len() < 16,
    ensures
        mux_header(data).tx_seq == 0,
        mux_header(data).rx_seq == 0,
{
}

/// What errors say.
pub proof fn what_mux_errors_say(m: Seq<char>, v: u32, len: nat, declared: nat, header: nat)
    ensures
        MuxErrorView::InvalidHeader(m).text() == "invalid header: "@ + m,
        MuxErrorView::InvalidVersion(m).text() == "invalid version: "@ + m,
        MuxErrorView::InvalidState(m).text() == "invalid state: "@ + m,
        MuxErrorView::IoError(m).text() == "I/O error: "@ + m,
        MuxErrorView::UsbError(m).text() == "USB error: "@ + m,
        MuxErrorView::ChannelError(m).text() == "channel error: "@ + m,
        MuxErrorView::UnsupportedVersion(v).text() == "unsupported version: "@ + text::decimal(
            v as nat,
        ),
        MuxErrorView::UnsupportedProtocol(v).text() == "unsupported protocol: "@ + text::decimal(
            v as nat,
        ),
        short_header_text(len) == "too short: "@ + text::decimal(len) + " bytes"@,
        bad_length_text(declared, len, header) == "declared length "@ + text::decimal(declared)
            + " inconsistent with buffer "@ + text::decimal(len) + " (header "@ + text::decimal(
            header,
        ) + " bytes)"@,
{
}

} // verus!
