//! The client protocol: packets of a sixteen-byte header and a property list.
pub mod result;

use crate::bytes;
use crate::bytes::{copy_range, push_bytes, push_le32, read_le32};
use crate::daemon::device_scanner;
use crate::daemon::device_scanner::UsbDevice;
use crate::dates;
use crate::plists;
use crate::plists::{array_value, dict_value, put_integer, put_text};
use crate::text;
use crate::text::{joined, push_decimal};
use vstd::prelude::*;

verus! {

pub const XML_PLIST_VERSION: u32 = 1;

pub const PLIST_MESSAGE_TYPE: u32 = 8;

/// The size of a packet's header.
pub const PACKET_HEADER: usize = 16;

/// A packet of the client protocol.
#[derive(Debug)]
pub struct RawPacket {
    pub size: u32,
    pub version: u32,
    pub message: u32,
    pub tag: u32,
    pub plist: plist::Dictionary,
}

/// A `RawPacket` with the entries of its property list.
#[verifier::ext_equal]
pub ghost struct PacketView {
    pub size: u32,
    pub version: u32,
    pub message: u32,
    pub tag: u32,
    pub plist: Seq<(Seq<char>, plists::Plist)>,
}

impl View for RawPacket {
    type V = PacketView;

    open spec fn view(&self) -> PacketView {
        PacketView {
            size: self.size,
            version: self.version,
            message: self.message,
            tag: self.tag,
            plist: plists::entries(self.plist),
        }
    }
}

/// The size field of a packet whose property list takes `len` bytes.
pub open spec fn size_field(len: nat) -> u32 {
    ((len + 16) % 0x1_0000_0000) as u32
}

/// A packet's bytes, given those of its property list.
pub open spec fn packet_bytes(p: PacketView, xml: Seq<u8>) -> Seq<u8> {
    bytes::le32(size_field(xml.len())) + bytes::le32(p.version) + bytes::le32(p.message)
        + bytes::le32(p.tag) + xml
}

/// What is sent for a packet, or why it cannot be written.
pub open spec fn written(p: PacketView) -> Result<Seq<u8>, Seq<char>> {
    match plists::packet_written(p.plist) {
        Ok(xml) => Ok(packet_bytes(p, xml)),
        Err(m) => Err(m),
    }
}

impl RawPacket {
    pub fn new(plist: plist::Dictionary, version: u32, message: u32, tag: u32) -> (p: Self)
        ensures
            p@ == (PacketView { size: 0, version, message, tag, plist: plists::entries(plist) }),
    {
        RawPacket { size: 0, version, message, tag, plist }
    }

    /// The packet's bytes as they are sent. A property list of plain values
    /// can always be written, and then its dates are in range: there are none.
    pub fn to_bytes(&self) -> (r: Result<Vec<u8>, String>)
        ensures
            match r {
                Ok(b) => written(self@) == Ok::<Seq<u8>, Seq<char>>(b@),
                Err(m) => written(self@) == Err::<Seq<u8>, Seq<char>>(m@),
            },
            plists::plain(plists::Plist::Dict(self@.plist)) ==> r is Ok,
            plists::plain(plists::Plist::Dict(self@.plist)) ==> (plists::packet_written(
                self@.plist,
            ) matches Ok(xml) && dates::fit(xml)),
    {
        let xml = match plists::write_packet(&self.plist) {
            Ok(b) => b,
            Err(m) => return Err(m),
        };
        Ok(self.framed(xml.as_slice()))
    }

    /// The packet's bytes, given those of its property list.
    pub fn framed(&self, xml: &[u8]) -> (b: Vec<u8>)
        ensures
            b@ == packet_bytes(self@, xml@),
    {
        let low: u64 = xml.len() as u64 % 0x1_0000_0000;
        let size: u32 = ((low + 16) % 0x1_0000_0000) as u32;
        assert(size == size_field(xml@.len()));
        let mut out: Vec<u8> = Vec::new();
        push_le32(&mut out, size);
        push_le32(&mut out, self.version);
        push_le32(&mut out, self.message);
        push_le32(&mut out, self.tag);
        push_bytes(&mut out, xml);
        assert(out@ =~= packet_bytes(self@, xml@));
        out
    }
}

/// The header of a packet.
#[derive(Debug, Clone, Copy, PartialEq, Eq, Structural)]
pub struct PacketHeader {
    pub size: u32,
    pub version: u32,
    pub message: u32,
    pub tag: u32,
}

/// Why a packet could not be read.
#[derive(Debug, Clone, PartialEq, Eq)]
pub enum PacketError {
    /// The stream ended.
    UnexpectedEof,
    /// The packet is malformed; the message says how.
    Invalid(String),
}

/// A `PacketError` with its text as characters.
pub ghost enum PacketErrorView {
    UnexpectedEof,
    Invalid(Seq<char>),
}

impl View for PacketError {
    type V = PacketErrorView;

    open spec fn view(&self) -> PacketErrorView {
        match self {
            PacketError::UnexpectedEof => PacketErrorView::UnexpectedEof,
            PacketError::Invalid(m) => PacketErrorView::Invalid(m@),
        }
    }
}

/// The header that the first sixteen bytes write.
pub open spec fn header_of(data: Seq<u8>) -> PacketHeader {
    PacketHeader {
        size: bytes::le32_at(data, 0) as u32,
        version: bytes::le32_at(data, 4) as u32,
        message: bytes::le32_at(data, 8) as u32,
        tag: bytes::le32_at(data, 12) as u32,
    }
}

/// The message for a size that does not even count the header.
pub open spec fn small_packet_text(size: nat) -> Seq<char> {
    "packet size too small: "@ + text::decimal(size) + " bytes"@
}

/// The message for a body over the limit.
pub open spec fn large_packet_text(body: nat, max: nat) -> Seq<char> {
    "packet body too large: "@ + text::decimal(body) + " bytes (max "@ + text::decimal(max) + ")"@
}

/// What is wrong with a header, for bodies of up to `max` bytes.
pub open spec fn header_fault(h: PacketHeader, max: nat) -> Option<Seq<char>> {
    if h.size < 16 {
        Some(small_packet_text(h.size as nat))
    } else if h.size - 16 > max {
        Some(large_packet_text((h.size - 16) as nat, max))
    } else {
        None
    }
}

/// Reads a packet's header, and checks it before any of the body is read.
pub fn parse_header(data: &[u8], max_packet_bytes: usize) -> (r: Result<PacketHeader, PacketError>)
    ensures
        match r {
            Ok(h) => data@.len() >= 16 && h == header_of(data@) && header_fault(
                h,
                max_packet_bytes as nat,
            ) is None,
            Err(e) => if data@.len() < 16 {
                e@ is UnexpectedEof
            } else {
                header_fault(header_of(data@), max_packet_bytes as nat) is Some && e@
                    == PacketErrorView::Invalid(
                    header_fault(header_of(data@), max_packet_bytes as nat).unwrap(),
                )
            },
        },
{
    if data.len() < PACKET_HEADER {
        return Err(PacketError::UnexpectedEof);
    }
    let size: u32 = read_le32(data, 0);
    let version: u32 = read_le32(data, 4);
    let message: u32 = read_le32(data, 8);
    let tag: u32 = read_le32(data, 12);
    if size < 16 {
        let mut m = "packet size too small: ".to_owned();
        push_decimal(&mut m, size as u64);
        m.append(" bytes");
        return Err(PacketError::Invalid(m));
    }
    let body: u32 = size - 16;
    if body as u64 > max_packet_bytes as u64 {
        let mut m = "packet body too large: ".to_owned();
        push_decimal(&mut m, body as u64);
        m.append(" bytes (max ");
        push_decimal(&mut m, max_packet_bytes as u64);
        m.append(")");
        return Err(PacketError::Invalid(m));
    }
    Ok(PacketHeader { size, version, message, tag })
}

/// The message for a body that is no property list. Binary lists are told by
/// their first byte.
pub open spec fn bad_body_text(body: Seq<u8>, why: Seq<char>) -> Seq<char> {
    if body.len() > 0 && body[0] == 0x62 {
        "binary plist parse error: "@ + why
    } else {
        "xml plist parse error: "@ + why
    }
}

/// The packet that a header and the reading of its body give.
pub open spec fn packet_of(
    h: PacketHeader,
    body: Seq<u8>,
    read: Result<Seq<(Seq<char>, plists::Plist)>, Seq<char>>,
) -> Result<PacketView, PacketErrorView> {
    match read {
        Ok(e) => Ok(
            PacketView {
                size: h.size,
                version: h.version,
                message: h.message,
                tag: h.tag,
                plist: e,
            },
        ),
        Err(why) => Err(PacketErrorView::Invalid(bad_body_text(body, why))),
    }
}

/// Whether `r` is the result `want`.
pub open spec fn packet_result_is(
    r: Result<RawPacket, PacketError>,
    want: Result<PacketView, PacketErrorView>,
) -> bool {
    match r {
        Ok(p) => want == Ok::<PacketView, PacketErrorView>(p@),
        Err(e) => want == Err::<PacketView, PacketErrorView>(e@),
    }
}

/// The packet that a header and the reading of its body give.
pub fn packet_from(
    header: PacketHeader,
    body: &[u8],
    read: Result<plist::Dictionary, String>,
) -> (r: Result<RawPacket, PacketError>)
    ensures
        packet_result_is(
            r,
            packet_of(
                header,
                body@,
                match read {
                    Ok(d) => Ok(plists::entries(d)),
                    Err(m) => Err(m@),
                },
            ),
        ),
{
    match read {
        Ok(plist) => Ok(
            RawPacket {
                size: header.size,
                version: header.version,
                message: header.message,
                tag: header.tag,
                plist,
            },
        ),
        Err(why) => {
            let binary: bool = body.len() > 0 && body[0] == 0x62;
            Err(
                PacketError::Invalid(
                    if binary {
                        joined("binary plist parse error: ", why.as_str())
                    } else {
                        joined("xml plist parse error: ", why.as_str())
                    },
                ),
            )
        },
    }
}

/// Reads the body of a packet whose header was read.
pub fn parse_body(header: PacketHeader, body: &[u8]) -> (r: Result<RawPacket, PacketError>)
    ensures
        packet_result_is(r, packet_of(header, body@, plists::packet_read(body@))),
        plists::gives_packet_back(
            body@,
            match r {
                Ok(p) => Some(p@.plist),
                Err(_) => None,
            },
        ),
{
    let read = plists::read_packet(body);
    packet_from(header, body, read)
}

/// What a stream that begins with `data`, and then ends, holds for a reader
/// that takes bodies of up to `max` bytes.
pub open spec fn read_from(data: Seq<u8>, max: nat) -> Result<PacketView, PacketErrorView> {
    if data.len() < 16 {
        Err(PacketErrorView::UnexpectedEof)
    } else {
        let h = header_of(data);
        match header_fault(h, max) {
            Some(m) => Err(PacketErrorView::Invalid(m)),
            None => if data.len() < h.size {
                Err(PacketErrorView::UnexpectedEof)
            } else {
                let body = data.subrange(16, h.size as int);
                packet_of(h, body, plists::packet_read(body))
            },
        }
    }
}

/// Whether a packet's property list, written as `xml`, can be read by
/// someone who takes bodies of up to `max` bytes with dates in range.
pub open spec fn fits(xml: Seq<u8>, max: nat) -> bool {
    xml.len() <= max && xml.len() + 16 <= u32::MAX && dates::fit(xml)
}

/// Whether reading gave `got` back wherever `data` begins with a packet that
/// was written with plain values and is not over the limit.
pub open spec fn gives_back(data: Seq<u8>, max: nat, got: Option<PacketView>) -> bool {
    forall|p: PacketView, xml: Seq<u8>|
        plists::plain(plists::Plist::Dict(p.plist)) && plists::packet_written(p.plist) == Ok::<
            Seq<u8>,
            Seq<char>,
        >(xml) && fits(xml, max) && (#[trigger] packet_bytes(p, xml)).is_prefix_of(data) ==> got
            == Some(PacketView { size: size_field(xml.len()), ..p })
}

proof fn packet_header_reads_back(p: PacketView, xml: Seq<u8>, rest: Seq<u8>)
    ensures
        ({
            let s = packet_bytes(p, xml) + rest;
            &&& bytes::le32_at(s, 0) == size_field(xml.len())
            &&& bytes::le32_at(s, 4) == p.version
            &&& bytes::le32_at(s, 8) == p.message
            &&& bytes::le32_at(s, 12) == p.tag
            &&& s.subrange(16, 16int + xml.len()) == xml
        }),
{
    let s = packet_bytes(p, xml) + rest;
    let size = size_field(xml.len());
    let a = bytes::le32(size);
    let b = bytes::le32(p.version);
    let c = bytes::le32(p.message);
    let d = bytes::le32(p.tag);
    assert(bytes::le32_at(s, 0) == size) by {
        bytes::le32_round_trip(seq![], size, b + c + d + xml + rest);
        assert(s =~= seq![] + a + (b + c + d + xml + rest));
    }
    assert(bytes::le32_at(s, 4) == p.version) by {
        bytes::le32_round_trip(a, p.version, c + d + xml + rest);
        assert(s =~= a + b + (c + d + xml + rest));
    }
    assert(bytes::le32_at(s, 8) == p.message) by {
        bytes::le32_round_trip(a + b, p.message, d + xml + rest);
        assert(s =~= (a + b) + c + (d + xml + rest));
    }
    assert(bytes::le32_at(s, 12) == p.tag) by {
        bytes::le32_round_trip(a + b + c, p.tag, xml + rest);
        assert(s =~= (a + b + c) + d + (xml + rest));
    }
    assert(s.subrange(16, 16int + xml.len()) =~= xml);
}

/// The header and the body of a packet that stands at the front of `data`.
proof fn front_packet(data: Seq<u8>, p: PacketView, xml: Seq<u8>)
    requires
        xml.len() + 16 <= u32::MAX,
        packet_bytes(p, xml).is_prefix_of(data),
    ensures
        data.len() >= 16 + xml.len(),
        header_of(data) == (PacketHeader {
            size: (xml.len() + 16) as u32,
            version: p.version,
            message: p.message,
            tag: p.tag,
        }),
        data.subrange(16, 16int + xml.len()) == xml,
{
    let whole = packet_bytes(p, xml);
    let rest = data.skip(whole.len() as int);
    assert(data =~= whole + rest);
    packet_header_reads_back(p, xml, rest);
}

/// Reads the packet at the front of `data`.
fn read_front(data: &[u8], max_packet_bytes: usize) -> (r: Result<RawPacket, PacketError>)
    ensures
        packet_result_is(r, read_from(data@, max_packet_bytes as nat)),
        data@.len() >= 16 && header_fault(header_of(data@), max_packet_bytes as nat) is None
            && data@.len() >= header_of(data@).size ==> plists::gives_packet_back(
            data@.subrange(16, header_of(data@).size as int),
            match r {
                Ok(p) => Some(p@.plist),
                Err(_) => None,
            },
        ),
{
    let header = match parse_header(data, max_packet_bytes) {
        Ok(h) => h,
        Err(e) => return Err(e),
    };
    let end: usize = header.size as usize;
    if data.len() < end {
        return Err(PacketError::UnexpectedEof);
    }
    let body = copy_range(data, PACKET_HEADER, end);
    parse_body(header, body.as_slice())
}

/// Reads the packet at the front of `data`, which is all that the stream
/// holds. What was written for a packet of plain values reads back as that
/// packet.
pub fn read_packet(data: &[u8], max_packet_bytes: usize) -> (r: Result<RawPacket, PacketError>)
    ensures
        packet_result_is(r, read_from(data@, max_packet_bytes as nat)),
        gives_back(
            data@,
            max_packet_bytes as nat,
            match r {
                Ok(p) => Some(p@),
                Err(_) => None,
            },
        ),
{
    let r = read_front(data, max_packet_bytes);
    proof {
        let got = match &r {
            Ok(p) => Some(p@),
            Err(_) => None,
        };
        assert forall|p: PacketView, xml: Seq<u8>|
            plists::plain(plists::Plist::Dict(p.plist)) && plists::packet_written(p.plist) == Ok::<
                Seq<u8>,
                Seq<char>,
            >(xml) && fits(xml, max_packet_bytes as nat) && (#[trigger] packet_bytes(
                p,
                xml,
            )).is_prefix_of(data@) implies got == Some(
            PacketView { size: size_field(xml.len()), ..p },
        ) by {
            front_packet(data@, p, xml);
        }
    }
    r
}

/// A packet from the daemon with this tag and these entries.
pub open spec fn answer(tag: u32, plist: Seq<(Seq<char>, plists::Plist)>) -> PacketView {
    PacketView {
        size: 0,
        version: XML_PLIST_VERSION,
        message: PLIST_MESSAGE_TYPE,
        tag,
        plist,
    }
}

/// The entries of a `Result` answer.
pub open spec fn result_entries(number: u32) -> Seq<(Seq<char>, plists::Plist)> {
    seq![
        ("MessageType"@, plists::Plist::Text("Result"@)),
        ("Number"@, plists::Plist::Integer(number as int)),
    ]
}

/// The properties of a device, as clients see them.
pub open spec fn device_properties(d: device_scanner::UsbDeviceView) -> Seq<
    (Seq<char>, plists::Plist),
> {
    seq![
        ("DeviceID"@, plists::Plist::Integer(d.device_id as int)),
        ("ConnectionType"@, plists::Plist::Text("USB"@)),
        ("SerialNumber"@, plists::Plist::Text(d.udid)),
        ("ProductID"@, plists::Plist::Integer(d.product_id as int)),
        ("LocationID"@, plists::Plist::Integer(0)),
        ("Port"@, plists::Plist::Integer(0)),
    ]
}

/// The entry of a device in a list.
pub open spec fn listed(d: device_scanner::UsbDeviceView) -> plists::Plist {
    plists::Plist::Dict(seq![("Properties"@, plists::Plist::Dict(device_properties(d)))])
}

/// The devices in `v`, in order.
pub open spec fn usb_views(v: Seq<UsbDevice>) -> Seq<device_scanner::UsbDeviceView> {
    v.map_values(|d: UsbDevice| d@)
}

/// The entries of a device list.
pub open spec fn list_entries(devices: Seq<device_scanner::UsbDeviceView>) -> Seq<
    (Seq<char>, plists::Plist),
> {
    seq![
        (
            "DeviceList"@,
            plists::Plist::Array(
                devices.map_values(|d: device_scanner::UsbDeviceView| listed(d)),
            ),
        ),
    ]
}

/// The entries of the event that a device was attached.
pub open spec fn attached_entries(d: device_scanner::UsbDeviceView) -> Seq<
    (Seq<char>, plists::Plist),
> {
    seq![
        ("MessageType"@, plists::Plist::Text("Attached"@)),
        ("DeviceID"@, plists::Plist::Integer(d.device_id as int)),
        ("Properties"@, plists::Plist::Dict(device_properties(d))),
    ]
}

/// The entries of the event that a device was detached.
pub open spec fn detached_entries(device_id: u32) -> Seq<(Seq<char>, plists::Plist)> {
    seq![
        ("MessageType"@, plists::Plist::Text("Detached"@)),
        ("DeviceID"@, plists::Plist::Integer(device_id as int)),
    ]
}

/// The entries of an answer with statistics.
pub open spec fn stats_entries(json: Seq<char>) -> Seq<(Seq<char>, plists::Plist)> {
    seq![
        ("MessageType"@, plists::Plist::Text("Result"@)),
        ("Number"@, plists::Plist::Integer(0)),
        ("Stats"@, plists::Plist::Text(json)),
    ]
}

/// The entries of the request for statistics.
pub open spec fn stats_request_entries() -> Seq<(Seq<char>, plists::Plist)> {
    seq![("MessageType"@, plists::Plist::Text("MeridianStats"@))]
}

/// How long the keys of the answers are: within one answer no two are alike.
proof fn key_lengths()
    ensures
        "MessageType"@.len() == 11,
        "Number"@.len() == 6,
        "DeviceID"@.len() == 8,
        "ConnectionType"@.len() == 14,
        "SerialNumber"@.len() == 12,
        "ProductID"@.len() == 9,
        "LocationID"@.len() == 10,
        "Port"@.len() == 4,
        "Properties"@.len() == 10,
        "Stats"@.len() == 5,
{
    reveal_strlit("MessageType");
    reveal_strlit("Number");
    reveal_strlit("DeviceID");
    reveal_strlit("ConnectionType");
    reveal_strlit("SerialNumber");
    reveal_strlit("ProductID");
    reveal_strlit("LocationID");
    reveal_strlit("Port");
    reveal_strlit("Properties");
    reveal_strlit("Stats");
}

/// A key of another length than all before it goes last.
pub proof fn key_of_new_length_goes_last(
    e: Seq<(Seq<char>, plists::Plist)>,
    k: Seq<char>,
    v: plists::Plist,
)
    requires
        forall|i: int| 0 <= i < e.len() ==> (#[trigger] e[i]).0.len() != k.len(),
    ensures
        plists::inserted(e, k, v) == e.push((k, v)),
{
    plists::absent_key_is_not_found(e, k);
}

/// A dictionary with one text in it.
fn dict_with_text(key: &str, value: &str) -> (d: plist::Dictionary)
    ensures
        plists::entries(d) == seq![(key@, plists::Plist::Text(value@))],
{
    let mut d = plist::Dictionary::new();
    put_text(&mut d, key, value);
    assert(plists::entries(d) =~= seq![(key@, plists::Plist::Text(value@))]);
    d
}

/// The entries of a `Result` answer can be written.
proof fn result_entries_are_plain(number: u32)
    ensures
        plists::plain(plists::Plist::Dict(result_entries(number))),
{
    key_lengths();
    let e = result_entries(number);
    assert forall|i: int| 0 <= i < e.len() implies plists::plain((#[trigger] e[i]).1) by {}
}

pub fn make_result_response(tag: u32, number: u32) -> (p: RawPacket)
    ensures
        p@ == answer(tag, result_entries(number)),
        plists::plain(plists::Plist::Dict(p@.plist)),
{
    let mut d = dict_with_text("MessageType", "Result");
    proof {
        key_lengths();
        key_of_new_length_goes_last(
            plists::entries(d),
            "Number"@,
            plists::Plist::Integer(number as int),
        );
        result_entries_are_plain(number);
    }
    put_integer(&mut d, "Number", number as u64);
    assert(plists::entries(d) =~= result_entries(number));
    RawPacket::new(d, XML_PLIST_VERSION, PLIST_MESSAGE_TYPE, tag)
}

proof fn properties_are_plain(d: device_scanner::UsbDeviceView)
    ensures
        plists::plain(plists::Plist::Dict(device_properties(d))),
{
    key_lengths();
    let e = device_properties(d);
    assert forall|i: int| 0 <= i < e.len() implies plists::plain((#[trigger] e[i]).1) by {}
}

/// The properties of a device, as clients see them.
fn properties_of(dev: &UsbDevice) -> (d: plist::Dictionary)
    ensures
        plists::entries(d) == device_properties(dev@),
{
    let mut d = plist::Dictionary::new();
    let ghost want = device_properties(dev@);
    proof {
        key_lengths();
    }
    put_integer(&mut d, "DeviceID", dev.device_id as u64);
    assert(plists::entries(d) =~= want.take(1));
    proof {
        key_of_new_length_goes_last(want.take(1), want[1].0, want[1].1);
        key_of_new_length_goes_last(want.take(2), want[2].0, want[2].1);
        key_of_new_length_goes_last(want.take(3), want[3].0, want[3].1);
        key_of_new_length_goes_last(want.take(4), want[4].0, want[4].1);
        key_of_new_length_goes_last(want.take(5), want[5].0, want[5].1);
    }
    put_text(&mut d, "ConnectionType", "USB");
    assert(plists::entries(d) =~= want.take(2));
    put_text(&mut d, "SerialNumber", dev.udid.as_str());
    assert(plists::entries(d) =~= want.take(3));
    put_integer(&mut d, "ProductID", dev.product_id as u64);
    assert(plists::entries(d) =~= want.take(4));
    put_integer(&mut d, "LocationID", 0);
    assert(plists::entries(d) =~= want.take(5));
    put_integer(&mut d, "Port", 0);
    assert(plists::entries(d) =~= want);
    d
}

proof fn listed_is_plain(d: device_scanner::UsbDeviceView)
    ensures
        plists::plain(listed(d)),
{
    properties_are_plain(d);
    let e = seq![("Properties"@, plists::Plist::Dict(device_properties(d)))];
    assert(plists::distinct_keys(e));
    assert forall|i: int| 0 <= i < e.len() implies plists::plain((#[trigger] e[i]).1) by {}
}

proof fn list_entries_are_plain(devices: Seq<device_scanner::UsbDeviceView>)
    ensures
        plists::plain(plists::Plist::Dict(list_entries(devices))),
{
    let a = devices.map_values(|d: device_scanner::UsbDeviceView| listed(d));
    assert forall|i: int| 0 <= i < a.len() implies plists::plain(#[trigger] a[i]) by {
        listed_is_plain(devices[i]);
    }
    assert(plists::plain(plists::Plist::Array(a)));
    let e = list_entries(devices);
    assert(plists::distinct_keys(e));
    assert forall|i: int| 0 <= i < e.len() implies plists::plain((#[trigger] e[i]).1) by {}
}

/// The answer that lists the devices, in the order given.
pub fn make_device_list_response(tag: u32, devices: &[UsbDevice]) -> (p: RawPacket)
    ensures
        p@ == answer(tag, list_entries(usb_views(devices@))),
        plists::plain(plists::Plist::Dict(p@.plist)),
{
    let mut list: Vec<plist::Value> = Vec::new();
    let ghost want = usb_views(devices@).map_values(
        |d: device_scanner::UsbDeviceView| listed(d),
    );
    let mut i: usize = 0;
    while i < devices.len()
        invariant
            i <= devices@.len(),
            want == usb_views(devices@).map_values(
                |d: device_scanner::UsbDeviceView| listed(d),
            ),
            plists::contents_of(list@) =~= want.take(i as int),
        decreases devices@.len() - i,
    {
        let props = properties_of(&devices[i]);
        let mut entry = plist::Dictionary::new();
        entry.insert("Properties".to_owned(), dict_value(props));
        assert(plists::entries(entry) =~= seq![
            ("Properties"@, plists::Plist::Dict(device_properties(devices@[i as int]@))),
        ]);
        let ghost was = plists::contents_of(list@);
        let value = dict_value(entry);
        let ghost c = plists::contents(value);
        list.push(value);
        assert(plists::contents_of(list@) =~= was.push(c));
        assert(c == want[i as int]);
        i = i + 1;
    }
    assert(want.take(i as int) =~= want);
    let mut d = plist::Dictionary::new();
    d.insert("DeviceList".to_owned(), array_value(list));
    assert(plists::entries(d) =~= list_entries(usb_views(devices@)));
    proof {
        list_entries_are_plain(usb_views(devices@));
    }
    RawPacket::new(d, XML_PLIST_VERSION, PLIST_MESSAGE_TYPE, tag)
}

/// The event that a device was attached.
pub fn make_attached_event(tag: u32, device: &UsbDevice) -> (p: RawPacket)
    ensures
        p@ == answer(tag, attached_entries(device@)),
        plists::plain(plists::Plist::Dict(p@.plist)),
{
    let ghost want = attached_entries(device@);
    let props = properties_of(device);
    let mut d = dict_with_text("MessageType", "Attached");
    proof {
        key_lengths();
        properties_are_plain(device@);
        key_of_new_length_goes_last(want.take(1), want[1].0, want[1].1);
        key_of_new_length_goes_last(want.take(2), want[2].0, want[2].1);
        assert forall|i: int| 0 <= i < want.len() implies plists::plain((#[trigger] want[i]).1) by {
        }
    }
    assert(plists::entries(d) =~= want.take(1));
    put_integer(&mut d, "DeviceID", device.device_id as u64);
    assert(plists::entries(d) =~= want.take(2));
    d.insert("Properties".to_owned(), dict_value(props));
    assert(plists::entries(d) =~= want);
    RawPacket::new(d, XML_PLIST_VERSION, PLIST_MESSAGE_TYPE, tag)
}

/// The event that a device was detached.
pub fn make_detached_event(tag: u32, device_id: u32) -> (p: RawPacket)
    ensures
        p@ == answer(tag, detached_entries(device_id)),
        plists::plain(plists::Plist::Dict(p@.plist)),
{
    let ghost want = detached_entries(device_id);
    let mut d = dict_with_text("MessageType", "Detached");
    proof {
        key_lengths();
        key_of_new_length_goes_last(want.take(1), want[1].0, want[1].1);
        assert forall|i: int| 0 <= i < want.len() implies plists::plain((#[trigger] want[i]).1) by {
        }
    }
    assert(plists::entries(d) =~= want.take(1));
    put_integer(&mut d, "DeviceID", device_id as u64);
    assert(plists::entries(d) =~= want);
    RawPacket::new(d, XML_PLIST_VERSION, PLIST_MESSAGE_TYPE, tag)
}

/// The answer with statistics, which come as text.
pub fn make_stats_response(tag: u32, json: &str) -> (p: RawPacket)
    ensures
        p@ == answer(tag, stats_entries(json@)),
        plists::plain(plists::Plist::Dict(p@.plist)),
{
    let ghost want = stats_entries(json@);
    let mut d = dict_with_text("MessageType", "Result");
    proof {
        key_lengths();
        key_of_new_length_goes_last(want.take(1), want[1].0, want[1].1);
        key_of_new_length_goes_last(want.take(2), want[2].0, want[2].1);
        assert forall|i: int| 0 <= i < want.len() implies plists::plain((#[trigger] want[i]).1) by {
        }
    }
    assert(plists::entries(d) =~= want.take(1));
    put_integer(&mut d, "Number", 0);
    assert(plists::entries(d) =~= want.take(2));
    put_text(&mut d, "Stats", json);
    assert(plists::entries(d) =~= want);
    RawPacket::new(d, XML_PLIST_VERSION, PLIST_MESSAGE_TYPE, tag)
}

/// The request for statistics.
pub fn make_stats_command(tag: u32) -> (p: RawPacket)
    ensures
        p@ == answer(tag, stats_request_entries()),
        plists::plain(plists::Plist::Dict(p@.plist)),
{
    let d = dict_with_text("MessageType", "MeridianStats");
    proof {
        let want = stats_request_entries();
        assert(plists::distinct_keys(want));
        assert forall|i: int| 0 <= i < want.len() implies plists::plain((#[trigger] want[i]).1) by {
        }
    }
    RawPacket::new(d, XML_PLIST_VERSION, PLIST_MESSAGE_TYPE, tag)
}

/// A packet on the wire: four numbers of four bytes each, least significant
/// first, which are the number of all its bytes, the version, the kind of
/// message and the tag; and then the property list.
pub proof fn packets_on_the_wire(p: PacketView, xml: Seq<u8>)
    requires
        xml.len() + 16 <= u32::MAX,
    ensures
        ({
            let b = packet_bytes(p, xml);
            &&& b.len() == 16 + xml.len()
            &&& b[0] + 256 * b[1] + 0x1_0000 * b[2] + 0x100_0000 * b[3] == b.len()
            &&& b[4] + 256 * b[5] + 0x1_0000 * b[6] + 0x100_0000 * b[7] == p.version
            &&& b[8] + 256 * b[9] + 0x1_0000 * b[10] + 0x100_0000 * b[11] == p.message
            &&& b[12] + 256 * b[13] + 0x1_0000 * b[14] + 0x100_0000 * b[15] == p.tag
            &&& b.skip(16) == xml
        }),
{
    packet_header_reads_back(p, xml, seq![]);
    let b = packet_bytes(p, xml);
    assert(b + Seq::<u8>::empty() =~= b);
    assert(b.skip(16) =~= xml);
}

/// What comes on a stream is read by the same numbers: the body is what lies
/// between the header and the end that the header gives, and the packet has
/// the header's version, kind and tag. A header that counts less than itself,
/// or a body over the limit, is refused before the body is there; and as long
/// as bytes are missing, that is what is said.
pub proof fn streams_are_read_by_their_headers(data: Seq<u8>, max: nat, size: int)
    requires
        data.len() >= 16,
        size == data[0] + 256 * data[1] + 0x1_0000 * data[2] + 0x100_0000 * data[3],
    ensures
        size < 16 ==> (read_from(data, max) matches Err(PacketErrorView::Invalid(_))),
        size - 16 > max ==> (read_from(data, max) matches Err(PacketErrorView::Invalid(_))),
        16 <= size <= max + 16 && data.len() < size ==> read_from(data, max) == Err::<
            PacketView,
            PacketErrorView,
        >(PacketErrorView::UnexpectedEof),
        16 <= size <= max + 16 && size <= data.len() ==> {
            let body = data.subrange(16, size);
            match plists::packet_read(body) {
                Ok(e) => read_from(data, max) == Ok::<PacketView, PacketErrorView>(
                    PacketView {
                        size: size as u32,
                        version: (data[4] + 256 * data[5] + 0x1_0000 * data[6] + 0x100_0000
                            * data[7]) as u32,
                        message: (data[8] + 256 * data[9] + 0x1_0000 * data[10] + 0x100_0000
                            * data[11]) as u32,
                        tag: (data[12] + 256 * data[13] + 0x1_0000 * data[14] + 0x100_0000
                            * data[15]) as u32,
                        plist: e,
                    },
                ),
                Err(m) => read_from(data, max) matches Err(PacketErrorView::Invalid(_)),
            }
        },
{
}

/// Less than a header is the end of the stream.
pub proof fn short_streams_have_ended(data: Seq<u8>, max: nat)
    requires
        data.len() < 16,
    ensures
        read_from(data, max) == Err::<PacketView, PacketErrorView>(PacketErrorView::UnexpectedEof),
{
}

/// The messages for packets that cannot be taken say the sizes.
pub proof fn bad_sizes_are_told(h: PacketHeader, max: nat)
    ensures
        h.size < 16 ==> header_fault(h, max) == Some(
            "packet size too small: "@ + text::decimal(h.size as nat) + " bytes"@,
        ),
        h.size - 16 > max ==> header_fault(h, max) == Some(
            "packet body too large: "@ + text::decimal((h.size - 16) as nat) + " bytes (max "@
                + text::decimal(max) + ")"@,
        ),
        16 <= h.size <= max + 16 ==> header_fault(h, max) is None,
{
}

/// Answers are property lists in XML, with the tag and the entries given.
pub proof fn answers_are_property_lists(tag: u32, e: Seq<(Seq<char>, plists::Plist)>)
    ensures
        answer(tag, e).tag == tag,
        answer(tag, e).plist == e,
        answer(tag, e).version == 1,
        answer(tag, e).message == 8,
{
}

/// The answer to a command says that it is a result, and its number.
pub proof fn results_say_their_number(number: u32)
    ensures
        plists::lookup(result_entries(number), "MessageType"@) == Some(
            plists::Plist::Text("Result"@),
        ),
        plists::lookup(result_entries(number), "Number"@) == Some(
            plists::Plist::Integer(number as int),
        ),
        result_entries(number).len() == 2,
{
    key_lengths();
    plists::entry_is_found(result_entries(number), 0);
    plists::entry_is_found(result_entries(number), 1);
}

/// A device is described by its number, its identifier and its product number,
/// as one on USB.
pub proof fn devices_are_described(d: device_scanner::UsbDeviceView)
    ensures
        ({
            let e = device_properties(d);
            &&& plists::lookup(e, "DeviceID"@) == Some(plists::Plist::Integer(d.device_id as int))
            &&& plists::lookup(e, "SerialNumber"@) == Some(plists::Plist::Text(d.udid))
            &&& plists::lookup(e, "ProductID"@) == Some(
                plists::Plist::Integer(d.product_id as int),
            )
            &&& plists::lookup(e, "ConnectionType"@) == Some(plists::Plist::Text("USB"@))
            &&& plists::lookup(e, "LocationID"@) == Some(plists::Plist::Integer(0))
            &&& plists::lookup(e, "Port"@) == Some(plists::Plist::Integer(0))
        }),
{
    key_lengths();
    let e = device_properties(d);
    plists::entry_is_found(e, 0);
    plists::entry_is_found(e, 1);
    plists::entry_is_found(e, 2);
    plists::entry_is_found(e, 3);
    plists::entry_is_found(e, 4);
    plists::entry_is_found(e, 5);
}

/// The list has one entry for each device, in order, with its description.
pub proof fn lists_describe_every_device(devices: Seq<device_scanner::UsbDeviceView>, i: int)
    requires
        0 <= i < devices.len(),
    ensures
        plists::lookup(list_entries(devices), "DeviceList"@) matches Some(
            plists::Plist::Array(a),
        ) && a.len() == devices.len() && (a[i] matches plists::Plist::Dict(e) && plists::lookup(
            e,
            "Properties"@,
        ) == Some(plists::Plist::Dict(device_properties(devices[i])))),
{
    let e = list_entries(devices);
    plists::entry_is_found(e, 0);
    let a = devices.map_values(|d: device_scanner::UsbDeviceView| listed(d));
    let entry = seq![("Properties"@, plists::Plist::Dict(device_properties(devices[i])))];
    plists::entry_is_found(entry, 0);
    assert(a[i] == plists::Plist::Dict(entry));
}

/// The events say what happened and to which device; and one that was attached
/// is described.
pub proof fn events_say_what_happened(d: device_scanner::UsbDeviceView, device_id: u32)
    ensures
        ({
            let e = attached_entries(d);
            &&& plists::lookup(e, "MessageType"@) == Some(plists::Plist::Text("Attached"@))
            &&& plists::lookup(e, "DeviceID"@) == Some(plists::Plist::Integer(d.device_id as int))
            &&& plists::lookup(e, "Properties"@) == Some(
                plists::Plist::Dict(device_properties(d)),
            )
        }),
        ({
            let e = detached_entries(device_id);
            &&& plists::lookup(e, "MessageType"@) == Some(plists::Plist::Text("Detached"@))
            &&& plists::lookup(e, "DeviceID"@) == Some(plists::Plist::Integer(device_id as int))
        }),
{
    key_lengths();
    let e = attached_entries(d);
    plists::entry_is_found(e, 0);
    plists::entry_is_found(e, 1);
    plists::entry_is_found(e, 2);
    let f = detached_entries(device_id);
    plists::entry_is_found(f, 0);
    plists::entry_is_found(f, 1);
}

/// The answer with the counters has them as its text, and is a success; and the
/// request for them asks for them.
pub proof fn counters_are_handed_over(json: Seq<char>)
    ensures
        plists::lookup(stats_entries(json), "Stats"@) == Some(plists::Plist::Text(json)),
        plists::lookup(stats_entries(json), "Number"@) == Some(plists::Plist::Integer(0)),
        plists::lookup(stats_entries(json), "MessageType"@) == Some(
            plists::Plist::Text("Result"@),
        ),
        plists::lookup(stats_request_entries(), "MessageType"@) == Some(
            plists::Plist::Text("MeridianStats"@),
        ),
{
    key_lengths();
    let e = stats_entries(json);
    plists::entry_is_found(e, 0);
    plists::entry_is_found(e, 1);
    plists::entry_is_found(e, 2);
    plists::entry_is_found(stats_request_entries(), 0);
}

/// A packet of the daemon has the version and the type of a property list; its
/// size is filled in when it is written.
pub proof fn answers_are_marked_as_lists(tag: u32, plist: Seq<(Seq<char>, plists::Plist)>)
    ensures
        ({
            let p = answer(tag, plist);
            &&& p.size == 0
            &&& p.version == 1
            &&& p.message == 8
            &&& p.tag == tag
            &&& p.plist == plist
        }),
{
}

/// A body that cannot be read is reported by its kind, which its first byte
/// tells.
pub proof fn bad_bodies_are_told_by_their_first_byte(body: Seq<u8>, why: Seq<char>)
    requires
        body.len() > 0,
    ensures
        body[0] == 'b' as u8 ==> bad_body_text(body, why) == "binary plist parse error: "@ + why,
        body[0] != 'b' as u8 ==> bad_body_text(body, why) == "xml plist parse error: "@ + why,
{
}

/// A result is the one that is wanted if and only if both are packets and the
/// same, or both errors and the same.
pub proof fn packet_results_are_compared(
    r: Result<RawPacket, PacketError>,
    want: Result<PacketView, PacketErrorView>,
)
    ensures
        packet_result_is(r, want) ==> (r is Ok <==> want is Ok),
        packet_result_is(r, want) && r is Ok ==> r->Ok_0@ == want->Ok_0,
        packet_result_is(r, want) && r is Err ==> r->Err_0@ == want->Err_0,
{
}

/// What is given back is the packet that the data begin with: its property
/// list, its tag, its version and its type.
pub proof fn packets_are_given_back(
    p: PacketView,
    xml: Seq<u8>,
    rest: Seq<u8>,
    max: nat,
    got: Option<PacketView>,
)
    requires
        plists::plain(plists::Plist::Dict(p.plist)),
        plists::packet_written(p.plist) == Ok::<Seq<u8>, Seq<char>>(xml),
        xml.len() <= max,
        xml.len() + 16 <= u32::MAX,
        dates::fit(xml),
        gives_back(packet_bytes(p, xml) + rest, max, got),
    ensures
        got matches Some(q) && q.plist == p.plist && q.tag == p.tag && q.version == p.version
            && q.message == p.message,
{
    let data = packet_bytes(p, xml) + rest;
    assert(packet_bytes(p, xml).is_prefix_of(data)) by {
        assert(data.subrange(0, packet_bytes(p, xml).len() as int) =~= packet_bytes(p, xml));
    }
    assert(fits(xml, max));
}

} // verus!
