//! The exchange with a device's lockdown service: which messages are sent, in
//! which order, and what the answers mean.
use crate::bytes;
use crate::bytes::{
    copy_range, native_order, network16, push_be32, push_bytes, read_be32, ByteOrder,
};
use crate::daemon::connection;
use crate::daemon::connection::LOCKDOWN_PORT;
use crate::daemon::protocol;
use crate::daemon::protocol::{RawPacket, PLIST_MESSAGE_TYPE, XML_PLIST_VERSION};
use crate::dates;
use crate::device;
use crate::device::info;
use crate::device::info::friendly_model;
use crate::device::Device;
use crate::plists;
use crate::plists::{
    get_boolean, get_data, get_text, get_unsigned, put_integer, put_text, shown_value,
};
use crate::text;
use crate::text::{joined, push_decimal, same};
use vstd::prelude::*;

verus! {

/// The keys that say what a device is.
pub const BASIC_KEYS: [&'static str; 6] = [
    "DeviceName",
    "ProductType",
    "ProductVersion",
    "BuildVersion",
    "ModelNumber",
    "SerialNumber",
];

/// The most bytes that an answer of the service may have.
pub const MAX_LOCKDOWN_RESPONSE: usize = 1048576;

/// How long an answer may take, in seconds.
pub const REQUEST_TIMEOUT_SECS: u64 = 10;

/// The most bytes that the daemon's answer to a connection request may have.
pub const MAX_CONNECT_RESPONSE: usize = 65536;

/// The most bytes that the daemon's answer with a pair record may have.
pub const MAX_RECORD_RESPONSE: usize = 16777216;

/// The tag of a connection request.
pub const CONNECT_TAG: u32 = 1;

/// The tag of a request for a pair record.
pub const RECORD_TAG: u32 = 2;

/// How long the keys are: those of one message have different lengths.
proof fn key_lengths()
    ensures
        "MessageType"@.len() == 11,
        "DeviceID"@.len() == 8,
        "PortNumber"@.len() == 10,
        "PairRecordID"@.len() == 12,
        "Request"@.len() == 7,
        "Key"@.len() == 3,
        "Label"@.len() == 5,
        "ProtocolVersion"@.len() == 15,
        "HostID"@.len() == 6,
        "SystemBUID"@.len() == 10,
{
    reveal_strlit("MessageType");
    reveal_strlit("DeviceID");
    reveal_strlit("PortNumber");
    reveal_strlit("PairRecordID");
    reveal_strlit("Request");
    reveal_strlit("Key");
    reveal_strlit("Label");
    reveal_strlit("ProtocolVersion");
    reveal_strlit("HostID");
    reveal_strlit("SystemBUID");
}

/// The entries of the request to be connected to the service, from a machine
/// of this byte order. The port is in network order.
pub open spec fn connect_entries(order: ByteOrder, device_id: u32) -> Seq<(Seq<char>, plists::Plist)> {
    seq![
        ("MessageType"@, plists::Plist::Text("Connect"@)),
        ("DeviceID"@, plists::Plist::Integer(device_id as int)),
        ("PortNumber"@, plists::Plist::Integer(order.network(LOCKDOWN_PORT))),
    ]
}

/// The request to be connected to the service, from a machine of this byte
/// order.
pub fn connect_request(order: ByteOrder, device_id: u32) -> (p: RawPacket)
    ensures
        p@ == protocol::answer(CONNECT_TAG, connect_entries(order, device_id)),
        plists::plain(plists::Plist::Dict(p@.plist)),
{
    let ghost want = connect_entries(order, device_id);
    proof {
        key_lengths();
        protocol::key_of_new_length_goes_last(want.take(1), want[1].0, want[1].1);
        protocol::key_of_new_length_goes_last(want.take(2), want[2].0, want[2].1);
        assert forall|i: int| 0 <= i < want.len() implies plists::plain((#[trigger] want[i]).1) by {
        }
    }
    let mut d = plist::Dictionary::new();
    put_text(&mut d, "MessageType", "Connect");
    assert(plists::entries(d) =~= want.take(1));
    put_integer(&mut d, "DeviceID", device_id as u64);
    assert(plists::entries(d) =~= want.take(2));
    put_integer(&mut d, "PortNumber", network16(order, LOCKDOWN_PORT) as u64);
    assert(plists::entries(d) =~= want);
    RawPacket::new(d, XML_PLIST_VERSION, PLIST_MESSAGE_TYPE, CONNECT_TAG)
}

/// The result number in an answer of the daemon; one where there is none.
pub open spec fn result_number(e: Seq<(Seq<char>, plists::Plist)>) -> int {
    match plists::unsigned_of(plists::lookup(e, "Number"@)) {
        Some(n) => n,
        None => 1,
    }
}

/// The result number in an answer of the daemon.
pub fn number_in(p: &RawPacket) -> (n: u64)
    ensures
        n == result_number(p@.plist),
{
    match get_unsigned(&p.plist, "Number") {
        Some(n) => n,
        None => 1,
    }
}

/// The entries of the request for a pair record.
pub open spec fn record_request_entries(udid: Seq<char>) -> Seq<(Seq<char>, plists::Plist)> {
    seq![
        ("MessageType"@, plists::Plist::Text("ReadPairRecord"@)),
        ("PairRecordID"@, plists::Plist::Text(udid)),
    ]
}

/// The request for a pair record.
pub fn record_request(udid: &str) -> (p: RawPacket)
    ensures
        p@ == protocol::answer(RECORD_TAG, record_request_entries(udid@)),
        plists::plain(plists::Plist::Dict(p@.plist)),
{
    let ghost want = record_request_entries(udid@);
    proof {
        key_lengths();
        protocol::key_of_new_length_goes_last(want.take(1), want[1].0, want[1].1);
        assert forall|i: int| 0 <= i < want.len() implies plists::plain((#[trigger] want[i]).1) by {
        }
    }
    let mut d = plist::Dictionary::new();
    put_text(&mut d, "MessageType", "ReadPairRecord");
    assert(plists::entries(d) =~= want.take(1));
    put_text(&mut d, "PairRecordID", udid);
    assert(plists::entries(d) =~= want);
    RawPacket::new(d, XML_PLIST_VERSION, PLIST_MESSAGE_TYPE, RECORD_TAG)
}

/// The pair record that the reading of its bytes gives.
pub open spec fn record_of(read: Result<plists::Plist, Seq<char>>) -> Result<
    Seq<(Seq<char>, plists::Plist)>,
    Seq<char>,
> {
    match read {
        Ok(plists::Plist::Dict(e)) => Ok(e),
        Ok(_) => Err("pair record payload is not a dictionary"@),
        Err(m) => Err(m),
    }
}

/// Whether `r` is the result `want`.
pub open spec fn dict_result_is(
    r: Result<plist::Dictionary, String>,
    want: Result<Seq<(Seq<char>, plists::Plist)>, Seq<char>>,
) -> bool {
    match r {
        Ok(d) => want == Ok::<Seq<(Seq<char>, plists::Plist)>, Seq<char>>(plists::entries(d)),
        Err(m) => want == Err::<Seq<(Seq<char>, plists::Plist)>, Seq<char>>(m@),
    }
}

/// A value that was read, or the message.
pub open spec fn read_view(read: Result<plist::Value, String>) -> Result<
    plists::Plist,
    Seq<char>,
> {
    match read {
        Ok(v) => Ok(plists::contents(v)),
        Err(m) => Err(m@),
    }
}

/// The pair record that the reading of its bytes gives.
pub fn record_from(read: Result<plist::Value, String>) -> (r: Result<plist::Dictionary, String>)
    ensures
        dict_result_is(r, record_of(read_view(read))),
{
    match read {
        Ok(v) => match v.as_dictionary() {
            Some(d) => Ok(d.clone()),
            None => Err("pair record payload is not a dictionary".to_owned()),
        },
        Err(m) => Err(m),
    }
}

/// The pair record in an answer of the daemon.
pub open spec fn record_in(e: Seq<(Seq<char>, plists::Plist)>) -> Result<
    Seq<(Seq<char>, plists::Plist)>,
    Seq<char>,
> {
    match plists::data_of(plists::lookup(e, "PairRecordData"@)) {
        Some(data) => record_of(plists::value_read(data)),
        None => Err("pair record absent or unreadable"@),
    }
}

/// Reads the pair record in an answer of the daemon.
pub fn pair_record(p: &RawPacket) -> (r: Result<plist::Dictionary, String>)
    ensures
        dict_result_is(r, record_in(p@.plist)),
{
    match get_data(&p.plist, "PairRecordData") {
        Some(data) => record_from(plists::read_value(data.as_slice())),
        None => Err("pair record absent or unreadable".to_owned()),
    }
}

/// The entries of the request for a value.
pub open spec fn value_request(key: Seq<char>) -> Seq<(Seq<char>, plists::Plist)> {
    seq![
        ("Request"@, plists::Plist::Text("GetValue"@)),
        ("Key"@, plists::Plist::Text(key)),
        ("Label"@, plists::Plist::Text("meridian-relay"@)),
    ]
}

/// The entries of the request to start a session, or why the pair record is
/// not enough for one.
pub open spec fn session_request(record: Seq<(Seq<char>, plists::Plist)>) -> Result<
    Seq<(Seq<char>, plists::Plist)>,
    Seq<char>,
> {
    match plists::text_of(plists::lookup(record, "HostID"@)) {
        None => Err("pair record missing HostID"@),
        Some(host) => match plists::text_of(plists::lookup(record, "SystemBUID"@)) {
            None => Err("pair record missing SystemBUID"@),
            Some(buid) => Ok(
                seq![
                    ("Label"@, plists::Plist::Text("meridian-relay"@)),
                    ("Request"@, plists::Plist::Text("StartSession"@)),
                    ("ProtocolVersion"@, plists::Plist::Text("2"@)),
                    ("HostID"@, plists::Plist::Text(host)),
                    ("SystemBUID"@, plists::Plist::Text(buid)),
                ],
            ),
        },
    }
}

/// Builds the request for a value.
pub fn build_value_request(key: &str) -> (d: plist::Dictionary)
    ensures
        plists::entries(d) == value_request(key@),
        plists::plain(plists::Plist::Dict(plists::entries(d))),
{
    let ghost want = value_request(key@);
    proof {
        key_lengths();
        protocol::key_of_new_length_goes_last(want.take(1), want[1].0, want[1].1);
        protocol::key_of_new_length_goes_last(want.take(2), want[2].0, want[2].1);
        assert forall|i: int| 0 <= i < want.len() implies plists::plain((#[trigger] want[i]).1) by {
        }
    }
    let mut d = plist::Dictionary::new();
    put_text(&mut d, "Request", "GetValue");
    assert(plists::entries(d) =~= want.take(1));
    put_text(&mut d, "Key", key);
    assert(plists::entries(d) =~= want.take(2));
    put_text(&mut d, "Label", "meridian-relay");
    assert(plists::entries(d) =~= want);
    d
}

/// Builds the request to start a session.
pub fn build_session_request(record: &plist::Dictionary) -> (r: Result<plist::Dictionary, String>)
    ensures
        dict_result_is(r, session_request(plists::entries(*record))),
        r matches Ok(d) ==> plists::plain(plists::Plist::Dict(plists::entries(d))),
{
    let host = match get_text(record, "HostID") {
        Some(s) => s,
        None => return Err("pair record missing HostID".to_owned()),
    };
    let buid = match get_text(record, "SystemBUID") {
        Some(s) => s,
        None => return Err("pair record missing SystemBUID".to_owned()),
    };
    let ghost want = session_request(plists::entries(*record))->Ok_0;
    proof {
        key_lengths();
        protocol::key_of_new_length_goes_last(want.take(1), want[1].0, want[1].1);
        protocol::key_of_new_length_goes_last(want.take(2), want[2].0, want[2].1);
        protocol::key_of_new_length_goes_last(want.take(3), want[3].0, want[3].1);
        protocol::key_of_new_length_goes_last(want.take(4), want[4].0, want[4].1);
        assert forall|i: int| 0 <= i < want.len() implies plists::plain((#[trigger] want[i]).1) by {
        }
    }
    let mut d = plist::Dictionary::new();
    put_text(&mut d, "Label", "meridian-relay");
    assert(plists::entries(d) =~= want.take(1));
    put_text(&mut d, "Request", "StartSession");
    assert(plists::entries(d) =~= want.take(2));
    put_text(&mut d, "ProtocolVersion", "2");
    assert(plists::entries(d) =~= want.take(3));
    put_text(&mut d, "HostID", host.as_str());
    assert(plists::entries(d) =~= want.take(4));
    put_text(&mut d, "SystemBUID", buid.as_str());
    assert(plists::entries(d) =~= want);
    Ok(d)
}

/// A message as it is sent: its length in four bytes, the highest first, and
/// then the message.
pub open spec fn framed(body: Seq<u8>) -> Seq<u8> {
    bytes::be32((body.len() % 0x1_0000_0000) as u32) + body
}

/// A message as it is sent.
pub fn frame(body: &[u8]) -> (b: Vec<u8>)
    ensures
        b@ == framed(body@),
{
    let mut out: Vec<u8> = Vec::new();
    push_be32(&mut out, (body.len() as u64 % 0x1_0000_0000) as u32);
    push_bytes(&mut out, body);
    assert(out@ =~= framed(body@));
    out
}

/// What is sent for a request, or why it cannot be written.
pub open spec fn request_bytes(e: Seq<(Seq<char>, plists::Plist)>) -> Result<Seq<u8>, Seq<char>> {
    match plists::value_written(e) {
        Ok(xml) => Ok(framed(xml)),
        Err(m) => Err(m),
    }
}

/// What is sent for a request. One of plain values can always be written, and
/// then its dates are in range: there are none.
pub fn encode_request(d: &plist::Dictionary) -> (r: Result<Vec<u8>, String>)
    ensures
        match r {
            Ok(b) => request_bytes(plists::entries(*d)) == Ok::<Seq<u8>, Seq<char>>(b@),
            Err(m) => request_bytes(plists::entries(*d)) == Err::<Seq<u8>, Seq<char>>(m@),
        },
        plists::plain(plists::Plist::Dict(plists::entries(*d))) ==> r is Ok,
        plists::plain(plists::Plist::Dict(plists::entries(*d))) ==> (plists::value_written(
            plists::entries(*d),
        ) matches Ok(xml) && dates::fit(xml)),
        r matches Ok(b) ==> b@.len() > 4,
{
    match plists::write_value(d) {
        Ok(xml) => Ok(frame(xml.as_slice())),
        Err(m) => Err(m),
    }
}

/// Checks the length that stands before an answer.
pub fn answer_length(prefix: &[u8]) -> (r: Result<usize, String>)
    ensures
        match r {
            Ok(n) => prefix@.len() >= 4 && n == bytes::be32_at(prefix@, 0) && n
                <= MAX_LOCKDOWN_RESPONSE,
            Err(m) => if prefix@.len() < 4 {
                m@ == "lockdown closed connection"@
            } else {
                bytes::be32_at(prefix@, 0) > MAX_LOCKDOWN_RESPONSE && m@
                    == "lockdown response exceeded cap"@
            },
        },
{
    if prefix.len() < 4 {
        return Err("lockdown closed connection".to_owned());
    }
    let n: u32 = read_be32(prefix, 0);
    if n as u64 > MAX_LOCKDOWN_RESPONSE as u64 {
        return Err("lockdown response exceeded cap".to_owned());
    }
    Ok(n as usize)
}

/// The answer that the reading of its bytes gives.
pub open spec fn answer_of(body: Seq<u8>, read: Result<plists::Plist, Seq<char>>) -> Result<
    Seq<(Seq<char>, plists::Plist)>,
    Seq<char>,
> {
    if body.len() == 0 {
        Err("lockdown sent no data"@)
    } else {
        match read {
            Ok(plists::Plist::Dict(e)) => Ok(e),
            Ok(_) => Err("lockdown response was not a dictionary"@),
            Err(m) => Err("lockdown plist parse failed: "@ + m),
        }
    }
}

/// The answer that the reading of its bytes gives.
pub fn answer_from(body: &[u8], read: Result<plist::Value, String>) -> (r: Result<
    plist::Dictionary,
    String,
>)
    ensures
        dict_result_is(r, answer_of(body@, read_view(read))),
{
    if body.len() == 0 {
        return Err("lockdown sent no data".to_owned());
    }
    match read {
        Ok(v) => match v.as_dictionary() {
            Some(d) => Ok(d.clone()),
            None => Err("lockdown response was not a dictionary".to_owned()),
        },
        Err(m) => Err(joined("lockdown plist parse failed: ", m.as_str())),
    }
}

/// Whether what was read from `body`, whose dates are in range, is what was
/// written, wherever `body` was written for plain entries.
pub open spec fn gives_entries_back(
    body: Seq<u8>,
    read: Option<Seq<(Seq<char>, plists::Plist)>>,
) -> bool {
    dates::fit(body) ==> forall|e: Seq<(Seq<char>, plists::Plist)>|
        plists::plain(plists::Plist::Dict(e)) && #[trigger] plists::value_written(e) == Ok::<
            Seq<u8>,
            Seq<char>,
        >(body) ==> read == Some(e)
}

/// The entries that were read, if any were.
pub open spec fn entries_read(r: Result<plist::Dictionary, String>) -> Option<
    Seq<(Seq<char>, plists::Plist)>,
> {
    match r {
        Ok(d) => Some(plists::entries(d)),
        Err(_) => None,
    }
}

/// Reads an answer. One that was written with plain values is read as it was
/// written.
pub fn read_answer(body: &[u8]) -> (r: Result<plist::Dictionary, String>)
    ensures
        dict_result_is(r, answer_of(body@, plists::value_read(body@))),
        body@.len() > 0 ==> gives_entries_back(body@, entries_read(r)),
{
    let read = plists::read_value(body);
    let ghost got = read_view(read);
    let r = answer_from(body, read);
    proof {
        assert forall|e: Seq<(Seq<char>, plists::Plist)>|
            body@.len() > 0 && dates::fit(body@) && plists::plain(plists::Plist::Dict(e))
                && #[trigger] plists::value_written(e) == Ok::<Seq<u8>, Seq<char>>(
                body@,
            ) implies entries_read(r) == Some(e) by {
            assert(got == Ok::<plists::Plist, Seq<char>>(plists::Plist::Dict(e)));
        }
    }
    r
}

/// What a stream that begins with `data`, and then ends, holds: an answer, or
/// why there is none.
pub open spec fn message_in(data: Seq<u8>) -> Result<Seq<(Seq<char>, plists::Plist)>, Seq<char>> {
    if data.len() < 4 {
        Err("lockdown closed connection"@)
    } else {
        let n = bytes::be32_at(data, 0);
        if n > MAX_LOCKDOWN_RESPONSE {
            Err("lockdown response exceeded cap"@)
        } else if data.len() < 4 + n {
            Err("lockdown closed connection"@)
        } else {
            let body = data.subrange(4, 4 + n);
            answer_of(body, plists::value_read(body))
        }
    }
}

/// Whether reading gave `got` back wherever `data` begins with a message that
/// was written with plain values, has its dates in range, and is not over the
/// limit.
pub open spec fn gives_message_back(
    data: Seq<u8>,
    got: Option<Seq<(Seq<char>, plists::Plist)>>,
) -> bool {
    forall|e: Seq<(Seq<char>, plists::Plist)>, xml: Seq<u8>|
        plists::plain(plists::Plist::Dict(e)) && plists::value_written(e) == Ok::<
            Seq<u8>,
            Seq<char>,
        >(xml) && dates::fit(xml) && 0 < xml.len() <= MAX_LOCKDOWN_RESPONSE && (#[trigger] framed(
            xml,
        )).is_prefix_of(data) && #[trigger] plists::value_written(e) is Ok ==> got == Some(e)
}

proof fn front_message(data: Seq<u8>, xml: Seq<u8>)
    requires
        xml.len() <= MAX_LOCKDOWN_RESPONSE,
        framed(xml).is_prefix_of(data),
    ensures
        data.len() >= 4 + xml.len(),
        bytes::be32_at(data, 0) == xml.len(),
        data.subrange(4, 4int + xml.len()) == xml,
{
    let n = xml.len() as u32;
    let whole = framed(xml);
    let rest = data.skip(whole.len() as int);
    assert(data =~= whole + rest);
    bytes::be32_round_trip(seq![], n, xml + rest);
    assert(data =~= seq![] + bytes::be32(n) + (xml + rest));
    assert(data.subrange(4, 4int + xml.len()) =~= xml);
}

/// Reads the answer at the front of `data`, which is all that the stream
/// holds. What was written for a message of plain values reads back as that
/// message.
pub fn read_message(data: &[u8]) -> (r: Result<plist::Dictionary, String>)
    ensures
        dict_result_is(r, message_in(data@)),
        gives_message_back(data@, entries_read(r)),
{
    let n: usize = match answer_length(data) {
        Ok(n) => n,
        Err(m) => {
            proof {
                assert forall|e: Seq<(Seq<char>, plists::Plist)>, xml: Seq<u8>|
                    0 < xml.len() <= MAX_LOCKDOWN_RESPONSE && (#[trigger] framed(
                        xml,
                    )).is_prefix_of(data@) && #[trigger] plists::value_written(
                        e,
                    ) is Ok implies false by {
                    front_message(data@, xml);
                }
            }
            return Err(m);
        },
    };
    if data.len() - 4 < n {
        proof {
            assert forall|e: Seq<(Seq<char>, plists::Plist)>, xml: Seq<u8>|
                0 < xml.len() <= MAX_LOCKDOWN_RESPONSE && (#[trigger] framed(xml)).is_prefix_of(
                    data@,
                ) && #[trigger] plists::value_written(e) is Ok implies false by {
                front_message(data@, xml);
            }
        }
        return Err("lockdown closed connection".to_owned());
    }
    let body = copy_range(data, 4, 4 + n);
    let r = read_answer(body.as_slice());
    proof {
        assert forall|e: Seq<(Seq<char>, plists::Plist)>, xml: Seq<u8>|
            plists::plain(plists::Plist::Dict(e)) && plists::value_written(e) == Ok::<
                Seq<u8>,
                Seq<char>,
            >(xml) && dates::fit(xml) && 0 < xml.len() <= MAX_LOCKDOWN_RESPONSE && (
            #[trigger] framed(xml)).is_prefix_of(data@) && #[trigger] plists::value_written(
                e,
            ) is Ok implies entries_read(r) == Some(e) by {
            front_message(data@, xml);
        }
    }
    r
}

/// The value in the answer to a request for one: a text, or how another value
/// is shown, if it can be.
pub open spec fn value_in(e: Seq<(Seq<char>, plists::Plist)>) -> Option<Seq<char>> {
    if plists::text_of(plists::lookup(e, "Error"@)) is Some {
        None
    } else {
        match plists::lookup(e, "Value"@) {
            Some(plists::Plist::Text(s)) => Some(s),
            Some(v) => if plists::writable(v) {
                Some(plists::debug_shown(v))
            } else {
                None
            },
            None => None,
        }
    }
}

/// The value in the answer to a request for one.
pub fn answered_value(d: &plist::Dictionary) -> (r: Option<String>)
    ensures
        text::opt_view(r) == value_in(plists::entries(*d)),
{
    if get_text(d, "Error").is_some() {
        return None;
    }
    match d.get("Value") {
        Some(v) => match v.as_string() {
            Some(s) => Some(s.to_owned()),
            None => shown_value(v),
        },
        None => None,
    }
}

/// Whether a session that was asked for is to be encrypted, or why there is
/// none.
pub open spec fn session_in(e: Seq<(Seq<char>, plists::Plist)>) -> Result<bool, Seq<char>> {
    match plists::text_of(plists::lookup(e, "Error"@)) {
        Some(m) => Err("StartSession failed: "@ + m),
        None => match plists::boolean_of(plists::lookup(e, "EnableSessionSSL"@)) {
            Some(b) => Ok(b),
            None => Ok(false),
        },
    }
}

/// Whether a session that was asked for is to be encrypted.
pub fn session_started(d: &plist::Dictionary) -> (r: Result<bool, String>)
    ensures
        match r {
            Ok(b) => session_in(plists::entries(*d)) == Ok::<bool, Seq<char>>(b),
            Err(m) => session_in(plists::entries(*d)) == Err::<bool, Seq<char>>(m@),
        },
{
    if let Some(m) = get_text(d, "Error") {
        return Err(joined("StartSession failed: ", m.as_str()));
    }
    match get_boolean(d, "EnableSessionSSL") {
        Some(b) => Ok(b),
        None => Ok(false),
    }
}

/// The form of a private key.
#[derive(Debug, Clone, Copy, PartialEq, Eq, Structural)]
pub enum KeyForm {
    Pkcs1,
    Sec1,
    Pkcs8,
    Other,
}

/// A private key.
#[derive(Debug)]
pub struct HostKey {
    pub form: KeyForm,
    pub der: Vec<u8>,
}

/// With what the host presents itself to a device.
#[derive(Debug)]
pub struct HostIdentity {
    pub certificates: Vec<Vec<u8>>,
    pub key: HostKey,
}

/// A `HostIdentity` with its parts as sequences.
pub ghost struct IdentityView {
    pub certificates: Seq<Seq<u8>>,
    pub form: KeyForm,
    pub der: Seq<u8>,
}

impl View for HostIdentity {
    type V = IdentityView;

    open spec fn view(&self) -> IdentityView {
        IdentityView {
            certificates: seqs_of(self.certificates@),
            form: self.key.form,
            der: self.key.der@,
        }
    }
}

/// The byte sequences in `v`.
pub open spec fn seqs_of(v: Seq<Vec<u8>>) -> Seq<Seq<u8>> {
    v.map_values(|b: Vec<u8>| b@)
}

/// The certificates that `rustls_pemfile::certs` finds in a PEM text, or the
/// message of its first error.
pub uninterp spec fn pem_certificates(pem: Seq<u8>) -> Result<Seq<Seq<u8>>, Seq<char>>;

/// The key that `rustls_pemfile::private_key` finds in a PEM text, with its
/// form, or the message of its error.
pub uninterp spec fn pem_key(pem: Seq<u8>) -> Result<Option<(KeyForm, Seq<u8>)>, Seq<char>>;

/// `rustls_pemfile::certs` on a text in memory: claims that the outcome is
/// the one named by `pem_certificates`, which depends on the text alone.
#[verifier::external_body]
fn read_certificates(pem: &[u8]) -> (r: Result<Vec<Vec<u8>>, String>)
    ensures
        match r {
            Ok(v) => pem_certificates(pem@) == Ok::<Seq<Seq<u8>>, Seq<char>>(seqs_of(v@)),
            Err(m) => pem_certificates(pem@) == Err::<Seq<Seq<u8>>, Seq<char>>(m@),
        },
{
    let found: Result<Vec<_>, std::io::Error> =
        rustls_pemfile::certs(&mut std::io::Cursor::new(pem)).collect();
    match found {
        Ok(v) => Ok(v.iter().map(|der| der.to_vec()).collect()),
        Err(e) => Err(e.to_string()),
    }
}

/// `rustls_pemfile::private_key` on a text in memory: claims that the outcome
/// is the one named by `pem_key`, which depends on the text alone.
#[verifier::external_body]
fn read_key(pem: &[u8]) -> (r: Result<Option<HostKey>, String>)
    ensures
        match r {
            Ok(Some(k)) => pem_key(pem@) == Ok::<Option<(KeyForm, Seq<u8>)>, Seq<char>>(
                Some((k.form, k.der@)),
            ),
            Ok(None) => pem_key(pem@) == Ok::<Option<(KeyForm, Seq<u8>)>, Seq<char>>(None),
            Err(m) => pem_key(pem@) == Err::<Option<(KeyForm, Seq<u8>)>, Seq<char>>(m@),
        },
{
    let found = rustls_pemfile::private_key(&mut std::io::Cursor::new(pem));
    let key = found.map_err(|e| e.to_string())?;
    Ok(key.map(|k| HostKey {
        form: match &k {
            rustls::pki_types::PrivateKeyDer::Pkcs1(_) => KeyForm::Pkcs1,
            rustls::pki_types::PrivateKeyDer::Sec1(_) => KeyForm::Sec1,
            rustls::pki_types::PrivateKeyDer::Pkcs8(_) => KeyForm::Pkcs8,
            _ => KeyForm::Other,
        },
        der: k.secret_der().to_vec(),
    }))
}

/// The identity that the readings of its certificate and its key give.
pub open spec fn identity_of(
    certificates: Result<Seq<Seq<u8>>, Seq<char>>,
    key: Result<Option<(KeyForm, Seq<u8>)>, Seq<char>>,
) -> Result<IdentityView, Seq<char>> {
    match certificates {
        Err(m) => Err(m),
        Ok(certificates) => match key {
            Err(m) => Err(m),
            Ok(None) => Err("failed to parse host private key from pair record"@),
            Ok(Some((form, der))) => Ok(IdentityView { certificates, form, der }),
        },
    }
}

/// Whether `r` is the result `want`.
pub open spec fn identity_result_is(
    r: Result<HostIdentity, String>,
    want: Result<IdentityView, Seq<char>>,
) -> bool {
    match r {
        Ok(i) => want == Ok::<IdentityView, Seq<char>>(i@),
        Err(m) => want == Err::<IdentityView, Seq<char>>(m@),
    }
}

/// The identity that the readings of its certificate and its key give.
pub fn identity_from(
    certificates: Result<Vec<Vec<u8>>, String>,
    key: Result<Option<HostKey>, String>,
) -> (r: Result<HostIdentity, String>)
    ensures
        identity_result_is(
            r,
            identity_of(
                match certificates {
                    Ok(v) => Ok(seqs_of(v@)),
                    Err(m) => Err(m@),
                },
                match key {
                    Ok(Some(k)) => Ok(Some((k.form, k.der@))),
                    Ok(None) => Ok(None),
                    Err(m) => Err(m@),
                },
            ),
        ),
{
    let certificates = match certificates {
        Ok(v) => v,
        Err(m) => return Err(m),
    };
    match key {
        Err(m) => Err(m),
        Ok(None) => Err("failed to parse host private key from pair record".to_owned()),
        Ok(Some(key)) => Ok(HostIdentity { certificates, key }),
    }
}

/// The identity in a pair record.
pub open spec fn identity_in(record: Seq<(Seq<char>, plists::Plist)>) -> Result<
    IdentityView,
    Seq<char>,
> {
    match plists::data_of(plists::lookup(record, "HostCertificate"@)) {
        None => Err("pair record has no HostCertificate"@),
        Some(cert) => match plists::data_of(plists::lookup(record, "HostPrivateKey"@)) {
            None => Err("pair record has no HostPrivateKey"@),
            Some(key) => identity_of(pem_certificates(cert), pem_key(key)),
        },
    }
}

/// The identity in a pair record.
pub fn host_identity(record: &plist::Dictionary) -> (r: Result<HostIdentity, String>)
    ensures
        identity_result_is(r, identity_in(plists::entries(*record))),
{
    let cert = match get_data(record, "HostCertificate") {
        Some(b) => b,
        None => return Err("pair record has no HostCertificate".to_owned()),
    };
    let key = match get_data(record, "HostPrivateKey") {
        Some(b) => b,
        None => return Err("pair record has no HostPrivateKey".to_owned()),
    };
    identity_from(read_certificates(cert.as_slice()), read_key(key.as_slice()))
}

/// How far an exchange has come.
#[derive(Debug)]
enum Phase {
    /// A connection to the service was asked for.
    Connecting,
    /// The first value was asked for, without a session.
    Probing,
    /// The value with this place was asked for, without a session.
    Following(usize),
    /// The pair record was asked for.
    Fetching,
    /// A session was asked for, with this pair record.
    Starting(plist::Dictionary),
    /// The channel is being encrypted.
    Upgrading,
    /// The value with this place was asked for, in the session.
    Asking(usize),
    /// The exchange is over.
    Over,
}

/// How far an exchange has come.
pub ghost enum PhaseView {
    Connecting,
    Probing,
    Following(int),
    Fetching,
    Starting(Seq<(Seq<char>, plists::Plist)>),
    Upgrading,
    Asking(int),
    Over,
}

impl View for Phase {
    type V = PhaseView;

    closed spec fn view(&self) -> PhaseView {
        match self {
            Phase::Connecting => PhaseView::Connecting,
            Phase::Probing => PhaseView::Probing,
            Phase::Following(i) => PhaseView::Following(*i as int),
            Phase::Fetching => PhaseView::Fetching,
            Phase::Starting(d) => PhaseView::Starting(plists::entries(*d)),
            Phase::Upgrading => PhaseView::Upgrading,
            Phase::Asking(i) => PhaseView::Asking(*i as int),
            Phase::Over => PhaseView::Over,
        }
    }
}

/// An exchange with the service of a device, in which values are asked for:
/// first without a session; and if the device will not answer that, in a
/// session for which the pair record is fetched.
#[derive(Debug)]
pub struct LockdownExchange {
    device_id: u32,
    udid: String,
    keys: Vec<String>,
    phase: Phase,
    values: Vec<(String, String)>,
}

/// A `LockdownExchange` with its parts as their views.
#[verifier::ext_equal]
pub ghost struct ExchangeView {
    pub device_id: u32,
    pub udid: Seq<char>,
    pub keys: Seq<Seq<char>>,
    pub phase: PhaseView,
    pub values: Seq<(Seq<char>, Seq<char>)>,
}

impl View for LockdownExchange {
    type V = ExchangeView;

    closed spec fn view(&self) -> ExchangeView {
        ExchangeView {
            device_id: self.device_id,
            udid: self.udid@,
            keys: text::text_views(self.keys@),
            phase: self.phase@,
            values: info::pair_views(self.values@),
        }
    }
}

/// What an exchange asks for next.
#[derive(Debug)]
pub enum Ask {
    /// Go to the daemon, send this packet, and hand its answer back. What
    /// follows it on the stream is the channel to the service.
    Connect(RawPacket),
    /// Send these bytes on the channel, and hand the answer back.
    Request(Vec<u8>),
    /// Go to the daemon anew, send this packet, and hand its answer back.
    Fetch(RawPacket),
    /// Encrypt the channel, and say whether that succeeded.
    Encrypt(HostIdentity),
    /// The exchange is over, with these values or this error.
    Finish(Result<Vec<(String, String)>, String>),
}

/// An `Ask` with its parts as their views.
pub ghost enum AskView {
    Connect(protocol::PacketView),
    Request(Seq<u8>),
    Fetch(protocol::PacketView),
    Encrypt(IdentityView),
    Finish(Result<Seq<(Seq<char>, Seq<char>)>, Seq<char>>),
}

impl View for Ask {
    type V = AskView;

    open spec fn view(&self) -> AskView {
        match self {
            Ask::Connect(p) => AskView::Connect(p@),
            Ask::Request(b) => AskView::Request(b@),
            Ask::Fetch(p) => AskView::Fetch(p@),
            Ask::Encrypt(i) => AskView::Encrypt(i@),
            Ask::Finish(Ok(v)) => AskView::Finish(Ok(info::pair_views(v@))),
            Ask::Finish(Err(m)) => AskView::Finish(Err(m@)),
        }
    }
}

/// What came of an `Ask`.
#[derive(Debug)]
pub enum Reply {
    /// The daemon's answer.
    Packet(Result<RawPacket, String>),
    /// The service's answer.
    Answer(Result<plist::Dictionary, String>),
    /// Whether the channel is encrypted.
    Encrypted(Result<(), String>),
}

/// A `Reply` with its parts as their views.
pub ghost enum ReplyView {
    Packet(Result<protocol::PacketView, Seq<char>>),
    Answer(Result<Seq<(Seq<char>, plists::Plist)>, Seq<char>>),
    Encrypted(Result<(), Seq<char>>),
}

impl View for Reply {
    type V = ReplyView;

    open spec fn view(&self) -> ReplyView {
        match self {
            Reply::Packet(Ok(p)) => ReplyView::Packet(Ok(p@)),
            Reply::Packet(Err(m)) => ReplyView::Packet(Err(m@)),
            Reply::Answer(Ok(d)) => ReplyView::Answer(Ok(plists::entries(*d))),
            Reply::Answer(Err(m)) => ReplyView::Answer(Err(m@)),
            Reply::Encrypted(Ok(_)) => ReplyView::Encrypted(Ok(())),
            Reply::Encrypted(Err(m)) => ReplyView::Encrypted(Err(m@)),
        }
    }
}

impl ExchangeView {
    /// The key that is asked for first.
    pub open spec fn first_key(self) -> Seq<char> {
        if self.keys.len() > 0 {
            self.keys[0]
        } else {
            "DeviceName"@
        }
    }

    /// The exchange in another phase.
    pub open spec fn at(self, phase: PhaseView) -> ExchangeView {
        ExchangeView { phase, ..self }
    }

    /// The exchange with the value that an answer holds, if it holds one. An
    /// answer that did not come holds none.
    pub open spec fn with_answer(
        self,
        key: Seq<char>,
        r: Result<Seq<(Seq<char>, plists::Plist)>, Seq<char>>,
    ) -> ExchangeView {
        match answered(r) {
            Some(v) => ExchangeView { values: self.values.push((key, v)), ..self },
            None => self,
        }
    }

    /// The end of the exchange, with an error.
    pub open spec fn failed(self, m: Seq<char>) -> (ExchangeView, AskView) {
        (self.at(PhaseView::Over), AskView::Finish(Err(m)))
    }

    /// The next value without a session, or the end.
    pub open spec fn follow(self, i: int) -> (ExchangeView, AskView) {
        if i < self.keys.len() {
            (
                self.at(PhaseView::Following(i)),
                AskView::Request(request_bytes(value_request(self.keys[i]))->Ok_0),
            )
        } else {
            (self.at(PhaseView::Over), AskView::Finish(Ok(self.values)))
        }
    }

    /// The next value in the session, or the end, at which there must be some
    /// value.
    pub open spec fn ask(self, i: int) -> (ExchangeView, AskView) {
        if i < self.keys.len() {
            (
                self.at(PhaseView::Asking(i)),
                AskView::Request(request_bytes(value_request(self.keys[i]))->Ok_0),
            )
        } else if self.values.len() == 0 {
            self.failed(no_values_text())
        } else {
            (self.at(PhaseView::Over), AskView::Finish(Ok(self.values)))
        }
    }
}

/// The value that an answer holds, if it came and holds one.
pub open spec fn answered(r: Result<Seq<(Seq<char>, plists::Plist)>, Seq<char>>) -> Option<
    Seq<char>,
> {
    match r {
        Ok(e) => value_in(e),
        Err(_) => None,
    }
}

/// The message for a session in which no value was given.
pub open spec fn no_values_text() -> Seq<char> {
    "started session but lockdown returned no values (device may need to be unlocked/trusted)"@
}

/// How an exchange begins.
pub open spec fn begun(device_id: u32, udid: Seq<char>, keys: Seq<Seq<char>>) -> ExchangeView {
    ExchangeView { device_id, udid, keys, phase: PhaseView::Connecting, values: seq![] }
}

/// What follows a pair record.
pub open spec fn with_record(
    x: ExchangeView,
    record: Result<Seq<(Seq<char>, plists::Plist)>, Seq<char>>,
) -> (ExchangeView, AskView) {
    match record {
        Err(m) => x.failed(m),
        Ok(record) => match session_request(record) {
            Err(m) => x.failed(m),
            Ok(e) => (
                x.at(PhaseView::Starting(record)),
                AskView::Request(request_bytes(e)->Ok_0),
            ),
        },
    }
}

/// What follows the answer to the request for a session.
pub open spec fn with_session(
    x: ExchangeView,
    record: Seq<(Seq<char>, plists::Plist)>,
    e: Seq<(Seq<char>, plists::Plist)>,
) -> (ExchangeView, AskView) {
    match session_in(e) {
        Err(m) => x.failed(m),
        Ok(false) => x.ask(0),
        Ok(true) => match identity_in(record) {
            Err(m) => x.failed(m),
            Ok(i) => (x.at(PhaseView::Upgrading), AskView::Encrypt(i)),
        },
    }
}

/// What follows a reply: the exchange afterwards, and what it asks for.
pub open spec fn advanced(x: ExchangeView, reply: ReplyView) -> (ExchangeView, AskView) {
    match (x.phase, reply) {
        (PhaseView::Connecting, ReplyView::Packet(Ok(p))) => if result_number(p.plist) == 0 {
            (
                x.at(PhaseView::Probing),
                AskView::Request(request_bytes(value_request(x.first_key()))->Ok_0),
            )
        } else {
            x.failed(
                "Connect to lockdown failed: result code "@ + text::decimal(
                    result_number(p.plist) as nat,
                ),
            )
        },
        (PhaseView::Connecting, ReplyView::Packet(Err(m))) => x.failed(m),
        (PhaseView::Probing, ReplyView::Answer(r)) => if answered(r) is Some {
            x.with_answer(x.first_key(), r).follow(1)
        } else {
            (
                x.at(PhaseView::Fetching),
                AskView::Fetch(protocol::answer(RECORD_TAG, record_request_entries(x.udid))),
            )
        },
        (PhaseView::Following(i), ReplyView::Answer(r)) => x.with_answer(x.keys[i], r).follow(
            i + 1,
        ),
        (PhaseView::Fetching, ReplyView::Packet(Ok(p))) => with_record(x, record_in(p.plist)),
        (PhaseView::Fetching, ReplyView::Packet(Err(m))) => x.failed(m),
        (PhaseView::Starting(record), ReplyView::Answer(Ok(e))) => with_session(x, record, e),
        (PhaseView::Starting(_), ReplyView::Answer(Err(m))) => x.failed(m),
        (PhaseView::Upgrading, ReplyView::Encrypted(Ok(_))) => x.ask(0),
        (PhaseView::Upgrading, ReplyView::Encrypted(Err(m))) => x.failed(m),
        (PhaseView::Asking(i), ReplyView::Answer(r)) => x.with_answer(x.keys[i], r).ask(i + 1),
        _ => x.failed("internal: unexpected reply"@),
    }
}

/// Whether the place of the value that is asked for is one of the keys.
pub open spec fn exchange_wf(x: ExchangeView) -> bool {
    match x.phase {
        PhaseView::Following(i) => 0 <= i < x.keys.len(),
        PhaseView::Asking(i) => 0 <= i < x.keys.len(),
        _ => true,
    }
}

/// What is sent to ask for a value.
fn ask_for(key: &str) -> (b: Vec<u8>)
    ensures
        request_bytes(value_request(key@)) == Ok::<Seq<u8>, Seq<char>>(b@),
{
    let d = build_value_request(key);
    match encode_request(&d) {
        Ok(b) => b,
        Err(_) => Vec::new(),
    }
}

impl LockdownExchange {
    /// Begins an exchange that asks for these keys, and with the connection
    /// that it needs.
    pub fn begin(device_id: u32, udid: &str, keys: Vec<String>) -> (r: (Self, Ask))
        ensures
            r.0@ == begun(device_id, udid@, text::text_views(keys@)),
            exchange_wf(r.0@),
            exists|one: u16| #[trigger]
                call_ensures(u16::to_be, (1u16,), one) && r.1@ == AskView::Connect(
                    protocol::answer(CONNECT_TAG, connect_entries(bytes::order_of(one), device_id)),
                ),
    {
        let x = LockdownExchange {
            device_id,
            udid: udid.to_owned(),
            keys,
            phase: Phase::Connecting,
            values: Vec::new(),
        };
        assert(x@.values =~= seq![]);
        (x, Ask::Connect(connect_request(native_order(), device_id)))
    }

    fn fail(&mut self, m: String) -> (a: Ask)
        ensures
            (final(self)@, a@) == old(self)@.failed(m@),
    {
        self.phase = Phase::Over;
        Ask::Finish(Err(m))
    }

    /// Ends with the values that were given.
    fn deliver(&mut self) -> (a: Ask)
        ensures
            final(self)@ == old(self)@.at(PhaseView::Over),
            a@ == AskView::Finish(Ok(old(self)@.values)),
    {
        self.phase = Phase::Over;
        let mut out: Vec<(String, String)> = Vec::new();
        let mut i: usize = 0;
        let ghost want = info::pair_views(self.values@);
        assert(info::pair_views(out@) =~= want.take(0));
        while i < self.values.len()
            invariant
                i <= self.values@.len(),
                want == info::pair_views(self.values@),
                info::pair_views(out@) == want.take(i as int),
            decreases self.values@.len() - i,
        {
            let ghost was = info::pair_views(out@);
            let pair = (self.values[i].0.clone(), self.values[i].1.clone());
            let ghost v = (pair.0@, pair.1@);
            out.push(pair);
            assert(info::pair_views(out@) =~= was.push(v));
            assert(want.take(i + 1) =~= was.push(v));
            i = i + 1;
        }
        assert(want.take(i as int) =~= want);
        Ask::Finish(Ok(out))
    }

    fn take_answer(&mut self, key: String, r: &Result<plist::Dictionary, String>) -> (given: bool)
        ensures
            final(self)@ == old(self)@.with_answer(
                key@,
                match r {
                    Ok(d) => Ok(plists::entries(*d)),
                    Err(m) => Err(m@),
                },
            ),
            given == match r {
                Ok(d) => value_in(plists::entries(*d)) is Some,
                Err(_) => false,
            },
    {
        if let Ok(d) = r {
            if let Some(v) = answered_value(d) {
                let ghost was = info::pair_views(self.values@);
                let ghost p = (key@, v@);
                self.values.push((key, v));
                assert(info::pair_views(self.values@) =~= was.push(p));
                return true;
            }
        }
        false
    }

    fn follow(&mut self, i: usize) -> (a: Ask)
        ensures
            (final(self)@, a@) == old(self)@.follow(i as int),
    {
        if i < self.keys.len() {
            self.phase = Phase::Following(i);
            Ask::Request(ask_for(self.keys[i].as_str()))
        } else {
            self.deliver()
        }
    }

    fn ask(&mut self, i: usize) -> (a: Ask)
        ensures
            (final(self)@, a@) == old(self)@.ask(i as int),
    {
        if i < self.keys.len() {
            self.phase = Phase::Asking(i);
            Ask::Request(ask_for(self.keys[i].as_str()))
        } else if self.values.len() == 0 {
            self.fail(
                "started session but lockdown returned no values (device may need to be unlocked/trusted)".to_owned(),
            )
        } else {
            self.deliver()
        }
    }

    fn connected(&mut self, p: &RawPacket) -> (a: Ask)
        requires
            old(self)@.phase is Connecting,
        ensures
            (final(self)@, a@) == advanced(old(self)@, ReplyView::Packet(Ok(p@))),
    {
        let number: u64 = number_in(p);
        if number != 0 {
            let mut m = "Connect to lockdown failed: result code ".to_owned();
            push_decimal(&mut m, number);
            return self.fail(m);
        }
        self.phase = Phase::Probing;
        if self.keys.len() > 0 {
            Ask::Request(ask_for(self.keys[0].as_str()))
        } else {
            Ask::Request(ask_for("DeviceName"))
        }
    }

    fn probed(&mut self, r: Result<plist::Dictionary, String>) -> (a: Ask)
        requires
            old(self)@.phase is Probing,
        ensures
            (final(self)@, a@) == advanced(
                old(self)@,
                ReplyView::Answer(
                    match r {
                        Ok(d) => Ok(plists::entries(d)),
                        Err(m) => Err(m@),
                    },
                ),
            ),
    {
        let key: String = if self.keys.len() > 0 {
            self.keys[0].clone()
        } else {
            "DeviceName".to_owned()
        };
        if self.take_answer(key, &r) {
            self.follow(1)
        } else {
            self.phase = Phase::Fetching;
            Ask::Fetch(record_request(self.udid.as_str()))
        }
    }

    fn fetched(&mut self, p: &RawPacket) -> (a: Ask)
        requires
            old(self)@.phase is Fetching,
        ensures
            (final(self)@, a@) == advanced(old(self)@, ReplyView::Packet(Ok(p@))),
    {
        let record = match pair_record(p) {
            Ok(d) => d,
            Err(m) => return self.fail(m),
        };
        let request = match build_session_request(&record) {
            Ok(d) => d,
            Err(m) => return self.fail(m),
        };
        let bytes: Vec<u8> = match encode_request(&request) {
            Ok(b) => b,
            Err(_) => Vec::new(),
        };
        self.phase = Phase::Starting(record);
        Ask::Request(bytes)
    }

    fn started(&mut self, record: &plist::Dictionary, d: &plist::Dictionary) -> (a: Ask)
        ensures
            (final(self)@, a@) == with_session(
                old(self)@,
                plists::entries(*record),
                plists::entries(*d),
            ),
    {
        match session_started(d) {
            Err(m) => self.fail(m),
            Ok(false) => self.ask(0),
            Ok(true) => match host_identity(record) {
                Err(m) => self.fail(m),
                Ok(i) => {
                    self.phase = Phase::Upgrading;
                    Ask::Encrypt(i)
                },
            },
        }
    }

    /// Takes a reply, and says what to do next.
    pub fn advance(&mut self, reply: Reply) -> (a: Ask)
        requires
            exchange_wf(old(self)@),
        ensures
            (final(self)@, a@) == advanced(old(self)@, reply@),
            exchange_wf(final(self)@),
    {
        match reply {
            Reply::Packet(Ok(p)) => match &self.phase {
                Phase::Connecting => self.connected(&p),
                Phase::Fetching => self.fetched(&p),
                _ => self.fail("internal: unexpected reply".to_owned()),
            },
            Reply::Packet(Err(m)) => match &self.phase {
                Phase::Connecting => self.fail(m),
                Phase::Fetching => self.fail(m),
                _ => self.fail("internal: unexpected reply".to_owned()),
            },
            Reply::Answer(r) => match &self.phase {
                Phase::Probing => self.probed(r),
                Phase::Following(i) => {
                    let i: usize = *i;
                    let key = self.keys[i].clone();
                    assert(i < self.keys.len());
                    let next: usize = i + 1;
                    self.take_answer(key, &r);
                    self.follow(next)
                },
                Phase::Starting(record) => match r {
                    Ok(d) => {
                        let record = record.clone();
                        self.started(&record, &d)
                    },
                    Err(m) => self.fail(m),
                },
                Phase::Asking(i) => {
                    let i: usize = *i;
                    let key = self.keys[i].clone();
                    assert(i < self.keys.len());
                    let next: usize = i + 1;
                    self.take_answer(key, &r);
                    self.ask(next)
                },
                _ => self.fail("internal: unexpected reply".to_owned()),
            },
            Reply::Encrypted(r) => match &self.phase {
                Phase::Upgrading => match r {
                    Ok(_) => self.ask(0),
                    Err(m) => self.fail(m),
                },
                _ => self.fail("internal: unexpected reply".to_owned()),
            },
        }
    }
}

/// The keys that are asked for to fill in what is known of a device.
pub open spec fn enrichment_keys() -> Seq<Seq<char>> {
    seq!["DeviceName"@, "ProductType"@, "ProductVersion"@, "BuildVersion"@]
}

/// The keys that are asked for to fill in what is known of a device.
pub fn keys_to_fill() -> (keys: Vec<String>)
    ensures
        text::text_views(keys@) == enrichment_keys(),
{
    let mut keys: Vec<String> = Vec::new();
    keys.push("DeviceName".to_owned());
    keys.push("ProductType".to_owned());
    keys.push("ProductVersion".to_owned());
    keys.push("BuildVersion".to_owned());
    assert(text::text_views(keys@) =~= enrichment_keys());
    keys
}

/// The device with one value filled in, and whether it was: only where there
/// was a gap.
pub open spec fn with_value(d: device::DeviceView, k: Seq<char>, v: Seq<char>) -> (
    device::DeviceView,
    bool,
) {
    if k == "DeviceName"@ && d.name is None {
        (device::DeviceView { name: Some(v), ..d }, true)
    } else if k == "ProductType"@ && d.model is None {
        (device::DeviceView { model: Some(info::friendly(v)), ..d }, true)
    } else if k == "ProductVersion"@ && d.ios_version is None {
        (device::DeviceView { ios_version: Some(v), ..d }, true)
    } else if k == "BuildVersion"@ && d.build_version is None {
        (device::DeviceView { build_version: Some(v), ..d }, true)
    } else {
        (d, false)
    }
}

/// The device with the values filled in, one after the other, and those that
/// were.
pub open spec fn with_values(d: device::DeviceView, values: Seq<(Seq<char>, Seq<char>)>) -> (
    device::DeviceView,
    Seq<(Seq<char>, Seq<char>)>,
)
    decreases values.len(),
{
    if values.len() == 0 {
        (d, seq![])
    } else {
        let (d1, filled) = with_values(d, values.drop_last());
        let (d2, given) = with_value(d1, values.last().0, values.last().1);
        (
            d2,
            if given {
                filled.push(values.last())
            } else {
                filled
            },
        )
    }
}

fn fill_value(device: &mut Device, k: &str, v: &str) -> (given: bool)
    ensures
        (final(device)@, given) == with_value(old(device)@, k@, v@),
{
    if same(k, "DeviceName") && device.name.is_none() {
        device.name = Some(v.to_owned());
        return true;
    }
    if same(k, "ProductType") && device.model.is_none() {
        device.model = Some(friendly_model(v));
        return true;
    }
    if same(k, "ProductVersion") && device.ios_version.is_none() {
        device.ios_version = Some(v.to_owned());
        return true;
    }
    if same(k, "BuildVersion") && device.build_version.is_none() {
        device.build_version = Some(v.to_owned());
        return true;
    }
    false
}

/// Fills the gaps in what is known of a device with the values of an
/// exchange, and returns those that were filled in.
pub fn fill_from_values(device: &mut Device, values: &Vec<(String, String)>) -> (filled: Vec<
    (String, String),
>)
    ensures
        (final(device)@, info::pair_views(filled@)) == with_values(
            old(device)@,
            info::pair_views(values@),
        ),
{
    let ghost start = device@;
    let ghost views = info::pair_views(values@);
    let mut filled: Vec<(String, String)> = Vec::new();
    let mut i: usize = 0;
    assert(views.take(0) =~= seq![]);
    assert(info::pair_views(filled@) =~= seq![]);
    while i < values.len()
        invariant
            i <= values@.len(),
            views == info::pair_views(values@),
            (device@, info::pair_views(filled@)) == with_values(start, views.take(i as int)),
        decreases values@.len() - i,
    {
        assert(views.take(i + 1).drop_last() =~= views.take(i as int));
        assert(views.take(i + 1).last() == views[i as int]);
        let given: bool = fill_value(device, values[i].0.as_str(), values[i].1.as_str());
        if given {
            let ghost was = info::pair_views(filled@);
            filled.push((values[i].0.clone(), values[i].1.clone()));
            assert(info::pair_views(filled@) =~= was.push(views[i as int]));
        }
        i = i + 1;
    }
    assert(views.take(i as int) =~= views);
    filled
}

/// An exchange only fills gaps: what was known of a device stays as it was,
/// and so does its identity.
pub proof fn values_fill_gaps_only(
    d: device::DeviceView,
    values: Seq<(Seq<char>, Seq<char>)>,
)
    ensures
        ({
            let r = with_values(d, values).0;
            &&& r.udid == d.udid
            &&& r.device_id == d.device_id
            &&& r.connection_type == d.connection_type
            &&& d.name is Some ==> r.name == d.name
            &&& d.model is Some ==> r.model == d.model
            &&& d.ios_version is Some ==> r.ios_version == d.ios_version
            &&& d.build_version is Some ==> r.build_version == d.build_version
        }),
    decreases values.len(),
{
    if values.len() > 0 {
        values_fill_gaps_only(d, values.drop_last());
    }
}

/// The values of all four keys, in their order, tell everything about a
/// device of which nothing was known.
pub proof fn all_values_fill_the_device(
    d: device::DeviceView,
    name: Seq<char>,
    model: Seq<char>,
    version: Seq<char>,
    build: Seq<char>,
)
    requires
        d.name is None,
        d.model is None,
        d.ios_version is None,
        d.build_version is None,
    ensures
        ({
            let values = seq![
                ("DeviceName"@, name),
                ("ProductType"@, model),
                ("ProductVersion"@, version),
                ("BuildVersion"@, build),
            ];
            &&& with_values(d, values).0 == (device::DeviceView {
                name: Some(name),
                model: Some(info::friendly(model)),
                ios_version: Some(version),
                build_version: Some(build),
                ..d
            })
            &&& with_values(d, values).1 == values
        }),
{
    reveal_strlit("DeviceName");
    reveal_strlit("ProductType");
    reveal_strlit("ProductVersion");
    reveal_strlit("BuildVersion");
    assert("DeviceName"@.len() == 10);
    assert("ProductType"@.len() == 11);
    assert("ProductVersion"@.len() == 14);
    assert("BuildVersion"@.len() == 12);
    let values = seq![
        ("DeviceName"@, name),
        ("ProductType"@, model),
        ("ProductVersion"@, version),
        ("BuildVersion"@, build),
    ];
    let v3 = values.drop_last();
    let v2 = v3.drop_last();
    let v1 = v2.drop_last();
    reveal_with_fuel(with_values, 5);
    assert(v1.drop_last() =~= seq![]);
    assert(with_values(d, v1).1 =~= seq![values[0]]);
    assert(with_values(d, v2).1 =~= seq![values[0], values[1]]);
    assert(with_values(d, v3).1 =~= seq![values[0], values[1], values[2]]);
    assert(with_values(d, values).1 =~= values);
}

/// Whether every value stands under a key that was asked for.
pub open spec fn values_were_asked_for(x: ExchangeView) -> bool {
    forall|i: int|
        0 <= i < x.values.len() ==> x.keys.contains((#[trigger] x.values[i]).0)
            || x.values[i].0 == x.first_key()
}

/// An exchange yields values under keys that were asked for alone, whatever
/// the device and the daemon reply.
pub proof fn only_asked_values_are_given(x: ExchangeView, reply: ReplyView)
    requires
        exchange_wf(x),
        values_were_asked_for(x),
    ensures
        exchange_wf(advanced(x, reply).0),
        values_were_asked_for(advanced(x, reply).0),
        advanced(x, reply).1 matches AskView::Finish(Ok(v)) ==> v == advanced(x, reply).0.values,
{
}

/// How many replies an exchange may still take.
pub open spec fn replies_left(x: ExchangeView) -> int {
    let n = x.keys.len() as int;
    match x.phase {
        PhaseView::Connecting => n + 6,
        PhaseView::Probing => n + 5,
        PhaseView::Following(i) => n - i,
        PhaseView::Fetching => n + 4,
        PhaseView::Starting(_) => n + 3,
        PhaseView::Upgrading => n + 2,
        PhaseView::Asking(i) => n - i,
        PhaseView::Over => 0,
    }
}

/// Every exchange ends: each reply brings it nearer to its end, and it is
/// over when it says so.
pub proof fn exchanges_end(x: ExchangeView, reply: ReplyView)
    requires
        exchange_wf(x),
        !(x.phase is Over),
    ensures
        0 <= replies_left(advanced(x, reply).0) < replies_left(x),
        advanced(x, reply).1 is Finish <==> advanced(x, reply).0.phase is Over,
{
}

/// A device that answers without a session is never asked for one: no pair
/// record is fetched, and the channel stays as it is.
pub proof fn open_devices_need_no_session(
    x: ExchangeView,
    r: Result<Seq<(Seq<char>, plists::Plist)>, Seq<char>>,
)
    requires
        x.phase is Following || (x.phase is Probing && answered(r) is Some),
    ensures
        ({
            let (y, a) = advanced(x, ReplyView::Answer(r));
            &&& a is Request || (a matches AskView::Finish(v) && v is Ok)
            &&& y.phase is Following || y.phase is Over
        }),
{
}

/// The daemon takes the request to be connected for what it is: with the
/// device attached, the lockdown port is opened, after the check for a pair
/// record where one is required.
pub proof fn connect_request_is_understood(
    order: ByteOrder,
    devices: Map<u32, crate::daemon::device_scanner::UsbDeviceView>,
    device_id: u32,
    require_pair_record: bool,
)
    requires
        device_id != 0,
        devices.contains_key(device_id),
    ensures
        connection::action(
            protocol::answer(CONNECT_TAG, connect_entries(order, device_id)),
            order,
            devices,
            require_pair_record,
        ) == if require_pair_record {
            connection::ClientActionView::CheckPairRecord {
                device_id,
                port: LOCKDOWN_PORT,
                tag: CONNECT_TAG,
                udid: devices[device_id].udid,
            }
        } else {
            connection::ClientActionView::OpenChannel {
                device_id,
                port: LOCKDOWN_PORT,
                tag: CONNECT_TAG,
            }
        },
{
    key_lengths();
    let e = connect_entries(order, device_id);
    let e2 = e.drop_last();
    let e1 = e2.drop_last();
    reveal_with_fuel(plists::lookup, 4);
    assert(plists::lookup(e1, "MessageType"@) == Some(plists::Plist::Text("Connect"@)));
    assert(plists::lookup(e, "MessageType"@) == plists::lookup(e1, "MessageType"@));
    assert(plists::lookup(e2, "DeviceID"@) == Some(plists::Plist::Integer(device_id as int)));
    assert(plists::lookup(e, "DeviceID"@) == plists::lookup(e2, "DeviceID"@));
    assert(plists::lookup(e, "PortNumber"@) == Some(
        plists::Plist::Integer(order.network(LOCKDOWN_PORT)),
    ));
    bytes::network_order_is_undone(order, LOCKDOWN_PORT);
    reveal_strlit("Connect");
    reveal_strlit("ListDevices");
    reveal_strlit("Listen");
    assert("Connect"@.len() == 7);
    assert("ListDevices"@.len() == 11);
    assert("Listen"@.len() == 6);
}

/// The daemon takes the request for a pair record for what it is.
pub proof fn record_request_is_understood(
    order: ByteOrder,
    devices: Map<u32, crate::daemon::device_scanner::UsbDeviceView>,
    udid: Seq<char>,
    require_pair_record: bool,
)
    requires
        crate::security::udid_fault(udid) is None,
    ensures
        connection::action(
            protocol::answer(RECORD_TAG, record_request_entries(udid)),
            order,
            devices,
            require_pair_record,
        ) == (connection::ClientActionView::ReadPairRecord { id: udid, tag: RECORD_TAG }),
{
    key_lengths();
    let e = record_request_entries(udid);
    let e1 = e.drop_last();
    reveal_with_fuel(plists::lookup, 3);
    assert(plists::lookup(e1, "MessageType"@) == Some(plists::Plist::Text("ReadPairRecord"@)));
    assert(plists::lookup(e, "MessageType"@) == plists::lookup(e1, "MessageType"@));
    assert(plists::lookup(e, "PairRecordID"@) == Some(plists::Plist::Text(udid)));
    reveal_strlit("ReadPairRecord");
    reveal_strlit("Connect");
    reveal_strlit("ListDevices");
    reveal_strlit("Listen");
    reveal_strlit("ReadBUID");
    assert("ReadPairRecord"@.len() == 14);
    assert("Connect"@.len() == 7);
    assert("ListDevices"@.len() == 11);
    assert("Listen"@.len() == 6);
    assert("ReadBUID"@.len() == 8);
}

/// An exchange after replies, one after the other, and what it asked for
/// after each.
pub open spec fn replied(x: ExchangeView, replies: Seq<ReplyView>) -> (ExchangeView, Seq<AskView>)
    decreases replies.len(),
{
    if replies.len() == 0 {
        (x, seq![])
    } else {
        let (y, asks) = replied(x, replies.drop_last());
        let (z, a) = advanced(y, replies.last());
        (z, asks.push(a))
    }
}

/// Whether a reply of the service tells the value `v`, or none: a text under
/// `Value`, where no text stands under `Error`.
pub open spec fn tells(reply: ReplyView, v: Option<Seq<char>>) -> bool {
    match (reply, v) {
        (ReplyView::Answer(Ok(e)), Some(s)) => plists::lookup(e, "Value"@) == Some(
            plists::Plist::Text(s),
        ) && !(plists::lookup(e, "Error"@) matches Some(plists::Plist::Text(_))),
        (ReplyView::Answer(Ok(e)), None) => plists::lookup(e, "Value"@) is None
            || plists::lookup(e, "Error"@) matches Some(plists::Plist::Text(_)),
        (ReplyView::Answer(Err(_)), v) => v is None,
        _ => false,
    }
}

/// The keys of which a value was told, with their values, in the order of the
/// keys.
pub open spec fn told(keys: Seq<Seq<char>>, values: Seq<Option<Seq<char>>>) -> Seq<
    (Seq<char>, Seq<char>),
> {
    Seq::new(values.len(), |i: int| (keys[i], values[i])).filter(
        |p: (Seq<char>, Option<Seq<char>>)| p.1 is Some,
    ).map_values(|p: (Seq<char>, Option<Seq<char>>)| (p.0, p.1.unwrap()))
}

proof fn telling_one_more(keys: Seq<Seq<char>>, values: Seq<Option<Seq<char>>>, k: int)
    requires
        0 <= k < values.len(),
    ensures
        told(keys, values.take(0)) == Seq::<(Seq<char>, Seq<char>)>::empty(),
        told(keys, values.take(k + 1)) == match values[k] {
            Some(v) => told(keys, values.take(k)).push((keys[k], v)),
            None => told(keys, values.take(k)),
        },
{
    reveal(Seq::filter);
    let some = |p: (Seq<char>, Option<Seq<char>>)| p.1 is Some;
    let a = values.take(k);
    let b = values.take(k + 1);
    let pa = Seq::new(a.len(), |i: int| (keys[i], a[i]));
    let pb = Seq::new(b.len(), |i: int| (keys[i], b[i]));
    assert(pb.drop_last() =~= pa);
    assert(pb.last() == (keys[k], values[k]));
    assert(pb.filter(some) == if values[k] is Some {
        pa.filter(some).push(pb.last())
    } else {
        pa.filter(some)
    });
    match values[k] {
        Some(v) => {
            assert(told(keys, b) =~= told(keys, a).push((keys[k], v)));
        },
        None => {
            assert(told(keys, b) =~= told(keys, a));
        },
    }
    let e = values.take(0);
    assert(Seq::new(e.len(), |i: int| (keys[i], e[i])) =~= seq![]);
    assert(told(keys, e) =~= seq![]);
}

proof fn telling_nothing(keys: Seq<Seq<char>>, values: Seq<Option<Seq<char>>>, k: int)
    requires
        0 <= k <= values.len(),
    ensures
        told(keys, values.take(k)).len() == 0 <==> forall|i: int|
            0 <= i < k ==> (#[trigger] values[i]) is None,
    decreases k,
{
    if k > 0 {
        telling_nothing(keys, values, k - 1);
        telling_one_more(keys, values, k - 1);
    } else if values.len() > 0 {
        telling_one_more(keys, values, 0);
    } else {
        reveal(Seq::filter);
        let e = values.take(0);
        assert(Seq::new(e.len(), |i: int| (keys[i], e[i])) =~= seq![]);
        assert(told(keys, e) =~= seq![]);
    }
}

/// What is asked for a value.
pub open spec fn asks_for(a: AskView, key: Seq<char>) -> bool {
    exists|e: Seq<(Seq<char>, plists::Plist)>|
        {
            &&& a == AskView::Request((#[trigger] request_bytes(e))->Ok_0)
            &&& plists::lookup(e, "Request"@) == Some(plists::Plist::Text("GetValue"@))
            &&& plists::lookup(e, "Key"@) == Some(plists::Plist::Text(key))
            &&& plists::lookup(e, "Label"@) == Some(plists::Plist::Text("meridian-relay"@))
        }
}

/// The request for a value says which value is asked for.
pub proof fn value_request_names_its_key(key: Seq<char>)
    ensures
        plists::lookup(value_request(key), "Request"@) == Some(plists::Plist::Text("GetValue"@)),
        plists::lookup(value_request(key), "Key"@) == Some(plists::Plist::Text(key)),
        plists::lookup(value_request(key), "Label"@) == Some(
            plists::Plist::Text("meridian-relay"@),
        ),
        asks_for(AskView::Request(request_bytes(value_request(key))->Ok_0), key),
{
    key_lengths();
    let e = value_request(key);
    reveal_with_fuel(plists::lookup, 4);
    assert(e.drop_last().drop_last().last().0 == "Request"@);
    assert(e.drop_last().last().0 == "Key"@);
}

/// The request for a session presents the host by what the pair record says
/// of it.
pub proof fn session_request_presents_the_host(
    record: Seq<(Seq<char>, plists::Plist)>,
    host: Seq<char>,
    buid: Seq<char>,
)
    requires
        plists::lookup(record, "HostID"@) == Some(plists::Plist::Text(host)),
        plists::lookup(record, "SystemBUID"@) == Some(plists::Plist::Text(buid)),
    ensures
        session_request(record) matches Ok(e) && {
            &&& plists::lookup(e, "Request"@) == Some(plists::Plist::Text("StartSession"@))
            &&& plists::lookup(e, "HostID"@) == Some(plists::Plist::Text(host))
            &&& plists::lookup(e, "SystemBUID"@) == Some(plists::Plist::Text(buid))
            &&& plists::lookup(e, "ProtocolVersion"@) == Some(plists::Plist::Text("2"@))
            &&& plists::lookup(e, "Label"@) == Some(plists::Plist::Text("meridian-relay"@))
        },
{
    key_lengths();
    let e = session_request(record)->Ok_0;
    reveal_with_fuel(plists::lookup, 6);
    let e4 = e.drop_last();
    let e3 = e4.drop_last();
    let e2 = e3.drop_last();
    let e1 = e2.drop_last();
    assert(e1.last().0 == "Label"@);
    assert(e2.last().0 == "Request"@);
    assert(e3.last().0 == "ProtocolVersion"@);
    assert(e4.last().0 == "HostID"@);
    assert(plists::lookup(e1, "Label"@) == Some(plists::Plist::Text("meridian-relay"@)));
    assert(plists::lookup(e2, "Request"@) == Some(plists::Plist::Text("StartSession"@)));
    assert(plists::lookup(e3, "ProtocolVersion"@) == Some(plists::Plist::Text("2"@)));
    assert(plists::lookup(e4, "HostID"@) == Some(plists::Plist::Text(host)));
}

/// Without both names of the host in the pair record there is no request for a
/// session, and the message says which one is missing.
pub proof fn incomplete_records_start_no_session(record: Seq<(Seq<char>, plists::Plist)>)
    ensures
        !(plists::lookup(record, "HostID"@) matches Some(plists::Plist::Text(_)))
            ==> session_request(record) == Err::<Seq<(Seq<char>, plists::Plist)>, Seq<char>>(
            "pair record missing HostID"@,
        ),
        plists::lookup(record, "HostID"@) matches Some(plists::Plist::Text(_)) && !(
        plists::lookup(record, "SystemBUID"@) matches Some(plists::Plist::Text(_)))
            ==> session_request(record) == Err::<Seq<(Seq<char>, plists::Plist)>, Seq<char>>(
            "pair record missing SystemBUID"@,
        ),
{
}

#[verifier::spinoff_prover]
proof fn cut_messages_are_incomplete(xml: Seq<u8>, n: int)
    requires
        0 < xml.len() <= MAX_LOCKDOWN_RESPONSE,
        bytes::be32_at(framed(xml), 0) == xml.len(),
        framed(xml).len() == 4 + xml.len(),
        0 <= n < framed(xml).len(),
    ensures
        message_in(framed(xml).take(n)) == Err::<Seq<(Seq<char>, plists::Plist)>, Seq<char>>(
            "lockdown closed connection"@,
        ),
{
    let whole = framed(xml);
    let cut = whole.take(n);
    if n >= 4 {
        assert(cut[0] == whole[0] && cut[1] == whole[1] && cut[2] == whole[2] && cut[3]
            == whole[3]);
        assert(bytes::be32_at(cut, 0) == bytes::be32_at(whole, 0));
    }
}

/// What is sent is a length in four bytes and as many bytes after it, and
/// whoever reads them takes exactly those bytes for the message, whatever
/// follows.
#[verifier::spinoff_prover]
#[verifier::rlimit(40)]
pub proof fn sent_messages_are_cut_out(xml: Seq<u8>, rest: Seq<u8>)
    requires
        0 < xml.len() <= MAX_LOCKDOWN_RESPONSE,
    ensures
        framed(xml).len() == 4 + xml.len(),
        bytes::be32_at(framed(xml), 0) == xml.len(),
        framed(xml).skip(4) == xml,
        message_in(framed(xml) + rest) == match plists::value_read(xml) {
            Ok(plists::Plist::Dict(e)) => Ok::<Seq<(Seq<char>, plists::Plist)>, Seq<char>>(e),
            Ok(_) => Err("lockdown response was not a dictionary"@),
            Err(m) => Err("lockdown plist parse failed: "@ + m),
        },
        forall|n: int|
            0 <= n < framed(xml).len() ==> #[trigger] message_in(framed(xml).take(n)) == Err::<
                Seq<(Seq<char>, plists::Plist)>,
                Seq<char>,
            >("lockdown closed connection"@),
{
    let whole = framed(xml);
    assert(whole.is_prefix_of(whole + rest)) by {
        assert((whole + rest).subrange(0, whole.len() as int) =~= whole);
    }
    front_message(whole + rest, xml);
    front_message(whole, xml);
    assert(whole.skip(4) =~= xml);
    assert forall|n: int| 0 <= n < whole.len() implies #[trigger] message_in(whole.take(n)) == Err::<
        Seq<(Seq<char>, plists::Plist)>,
        Seq<char>,
    >("lockdown closed connection"@) by {
        cut_messages_are_incomplete(xml, n);
    }
}

/// An answer that is longer than the limit is refused by its length alone.
pub proof fn long_answers_are_refused(data: Seq<u8>)
    requires
        data.len() >= 4,
        data[0] != 0 || data[1] > 0x10 || (data[1] == 0x10 && (data[2] != 0 || data[3] != 0)),
    ensures
        message_in(data) == Err::<Seq<(Seq<char>, plists::Plist)>, Seq<char>>(
            "lockdown response exceeded cap"@,
        ),
{
}

/// A text is told as it is, another value by how it is shown, and an answer
/// with an error tells nothing.
pub proof fn answers_tell_their_values(e: Seq<(Seq<char>, plists::Plist)>, v: plists::Plist)
    requires
        plists::lookup(e, "Value"@) == Some(v),
    ensures
        plists::lookup(e, "Error"@) matches Some(plists::Plist::Text(_)) ==> value_in(e) is None,
        !(plists::lookup(e, "Error"@) matches Some(plists::Plist::Text(_))) ==> match v {
            plists::Plist::Text(s) => value_in(e) == Some(s),
            _ => plists::writable(v) ==> value_in(e) == Some(plists::debug_shown(v)),
        },
{
}

/// No reply takes a value away that was told before: it adds the value that
/// it tells, under the key that was asked for, or nothing. What is asked for,
/// and of which device, never changes.
pub proof fn values_are_never_lost(x: ExchangeView, reply: ReplyView, v: Seq<char>)
    requires
        exchange_wf(x),
    ensures
        ({
            let (y, a) = advanced(x, reply);
            &&& x.values.is_prefix_of(y.values)
            &&& y.values.len() <= x.values.len() + 1
            &&& y.keys == x.keys
            &&& y.udid == x.udid
            &&& y.device_id == x.device_id
            &&& a matches AskView::Finish(Ok(all)) ==> all == y.values
            &&& tells(reply, Some(v)) ==> match x.phase {
                PhaseView::Asking(i) => y.values == x.values.push((x.keys[i], v)),
                PhaseView::Following(i) => y.values == x.values.push((x.keys[i], v)),
                PhaseView::Probing => x.keys.len() > 0 ==> y.values == x.values.push(
                    (x.keys[0], v),
                ),
                _ => y.values == x.values,
            }
            &&& !(reply is Answer) ==> y.values == x.values
            &&& tells(reply, None) ==> y.values == x.values
        }),
{
    let (y, a) = advanced(x, reply);
    assert(x.values.is_prefix_of(x.values)) by {
        assert(x.values.subrange(0, x.values.len() as int) =~= x.values);
    }
    assert(x.values.is_prefix_of(y.values)) by {
        assert(y.values.subrange(0, x.values.len() as int) =~= x.values);
    }
}

proof fn asking_goes_on(
    x: ExchangeView,
    replies: Seq<ReplyView>,
    values: Seq<Option<Seq<char>>>,
    k: int,
)
    requires
        x.phase == PhaseView::Asking(0),
        x.values.len() == 0,
        replies.len() == values.len() == x.keys.len(),
        0 <= k < x.keys.len(),
        forall|i: int| 0 <= i < replies.len() ==> tells(#[trigger] replies[i], values[i]),
    ensures
        ({
            let (y, asks) = replied(x, replies.take(k));
            &&& y == (ExchangeView {
                phase: PhaseView::Asking(k),
                values: told(x.keys, values.take(k)),
                ..x
            })
            &&& asks.len() == k
            &&& forall|i: int| 0 <= i < k ==> asks_for(#[trigger] asks[i], x.keys[i + 1])
        }),
    decreases k,
{
    telling_one_more(x.keys, values, 0);
    if k > 0 {
        asking_goes_on(x, replies, values, k - 1);
        telling_one_more(x.keys, values, k - 1);
        value_request_names_its_key(x.keys[k]);
        assert(replies.take(k).drop_last() =~= replies.take(k - 1));
        assert(tells(replies[k - 1], values[k - 1]));
    } else {
        assert(x.values =~= seq![]);
    }
}

/// In a session every key is asked for, in order, and at the end all values
/// that the device told are handed over, each under its key and in the order
/// of the keys. If it told none, that is an error.
pub proof fn sessions_tell_every_value(
    x: ExchangeView,
    replies: Seq<ReplyView>,
    values: Seq<Option<Seq<char>>>,
)
    requires
        x.phase == PhaseView::Asking(0),
        x.values.len() == 0,
        x.keys.len() > 0,
        replies.len() == values.len() == x.keys.len(),
        forall|i: int| 0 <= i < replies.len() ==> tells(#[trigger] replies[i], values[i]),
    ensures
        ({
            let (y, asks) = replied(x, replies);
            &&& y.phase is Over
            &&& asks.len() == x.keys.len()
            &&& forall|i: int|
                0 <= i < asks.len() - 1 ==> asks_for(#[trigger] asks[i], x.keys[i + 1])
            &&& asks.last() == if forall|i: int|
                0 <= i < values.len() ==> (#[trigger] values[i]) is None {
                AskView::Finish(
                    Err(
                        "started session but lockdown returned no values (device may need to be unlocked/trusted)"@,
                    ),
                )
            } else {
                AskView::Finish(Ok(told(x.keys, values)))
            }
        }),
{
    let n = x.keys.len() as int;
    asking_goes_on(x, replies, values, n - 1);
    telling_one_more(x.keys, values, n - 1);
    telling_nothing(x.keys, values, n);
    assert(replies.drop_last() =~= replies.take(n - 1));
    assert(values.take(n) =~= values);
    assert(tells(replies[n - 1], values[n - 1]));
}

proof fn following_goes_on(
    x: ExchangeView,
    replies: Seq<ReplyView>,
    values: Seq<Option<Seq<char>>>,
    k: int,
)
    requires
        x.phase == PhaseView::Probing,
        x.values.len() == 0,
        replies.len() == values.len() == x.keys.len(),
        1 <= k < x.keys.len(),
        values[0] is Some,
        forall|i: int| 0 <= i < replies.len() ==> tells(#[trigger] replies[i], values[i]),
    ensures
        ({
            let (y, asks) = replied(x, replies.take(k));
            &&& y == (ExchangeView {
                phase: PhaseView::Following(k),
                values: told(x.keys, values.take(k)),
                ..x
            })
            &&& asks.len() == k
            &&& forall|i: int| 0 <= i < k ==> asks_for(#[trigger] asks[i], x.keys[i + 1])
        }),
    decreases k,
{
    telling_one_more(x.keys, values, k - 1);
    value_request_names_its_key(x.keys[k]);
    assert(replies.take(k).drop_last() =~= replies.take(k - 1));
    assert(tells(replies[k - 1], values[k - 1]));
    if k > 1 {
        following_goes_on(x, replies, values, k - 1);
    } else {
        assert(x.values =~= seq![]);
        assert(replied(x, replies.take(0)) == (x, Seq::<AskView>::empty()));
    }
}

/// A device that answers the first request without a session is asked for all
/// other keys in the same way, and all values that it told are handed over,
/// each under its key and in the order of the keys.
pub proof fn open_devices_tell_every_value(
    x: ExchangeView,
    replies: Seq<ReplyView>,
    values: Seq<Option<Seq<char>>>,
)
    requires
        x.phase == PhaseView::Probing,
        x.values.len() == 0,
        x.keys.len() > 0,
        replies.len() == values.len() == x.keys.len(),
        values[0] is Some,
        forall|i: int| 0 <= i < replies.len() ==> tells(#[trigger] replies[i], values[i]),
    ensures
        ({
            let (y, asks) = replied(x, replies);
            &&& y.phase is Over
            &&& asks.len() == x.keys.len()
            &&& forall|i: int|
                0 <= i < asks.len() - 1 ==> asks_for(#[trigger] asks[i], x.keys[i + 1])
            &&& asks.last() == AskView::Finish(Ok(told(x.keys, values)))
        }),
{
    let n = x.keys.len() as int;
    telling_one_more(x.keys, values, n - 1);
    assert(replies.drop_last() =~= replies.take(n - 1));
    assert(values.take(n) =~= values);
    assert(tells(replies[n - 1], values[n - 1]));
    if n > 1 {
        following_goes_on(x, replies, values, n - 1);
    } else {
        assert(x.values =~= seq![]);
        assert(replied(x, replies.take(0)) == (x, Seq::<AskView>::empty()));
    }
}

proof fn replies_follow_replies(x: ExchangeView, a: Seq<ReplyView>, b: Seq<ReplyView>)
    ensures
        replied(x, a + b).0 == replied(replied(x, a).0, b).0,
        replied(x, a + b).1 == replied(x, a).1 + replied(replied(x, a).0, b).1,
    decreases b.len(),
{
    if b.len() == 0 {
        assert(a + b =~= a);
        assert(replied(x, a).1 + Seq::<AskView>::empty() =~= replied(x, a).1);
    } else {
        replies_follow_replies(x, a, b.drop_last());
        assert((a + b).drop_last() =~= a + b.drop_last());
        assert(replied(x, a + b).1 =~= replied(x, a).1 + replied(replied(x, a).0, b).1);
    }
}

/// Whether a packet of the daemon has the pair record in it.
pub open spec fn brings_record(
    p: protocol::PacketView,
    record: Seq<(Seq<char>, plists::Plist)>,
) -> bool {
    plists::lookup(p.plist, "PairRecordData"@) matches Some(plists::Plist::Data(b))
        && plists::value_read(b) == Ok::<plists::Plist, Seq<char>>(plists::Plist::Dict(record))
}

/// Whether an answer of the service starts the session, encrypted or not.
pub open spec fn starts_session(e: Seq<(Seq<char>, plists::Plist)>, encrypted: bool) -> bool {
    &&& !(plists::lookup(e, "Error"@) matches Some(plists::Plist::Text(_)))
    &&& encrypted <==> plists::lookup(e, "EnableSessionSSL"@) == Some(plists::Plist::Boolean(true))
}

/// The way of an exchange with a device that answers in a session only: the
/// daemon connects it, the device refuses the first request, the pair record
/// is fetched for this device, the session is asked for with it, the channel
/// is encrypted with the host's identity if the device asks for that, and then
/// every key is asked for. All values that the device told are handed over.
pub proof fn paired_devices_tell_every_value(
    device_id: u32,
    udid: Seq<char>,
    keys: Seq<Seq<char>>,
    connected: protocol::PacketView,
    refused: ReplyView,
    fetched: protocol::PacketView,
    record: Seq<(Seq<char>, plists::Plist)>,
    host: Seq<char>,
    buid: Seq<char>,
    started: Seq<(Seq<char>, plists::Plist)>,
    replies: Seq<ReplyView>,
    values: Seq<Option<Seq<char>>>,
)
    requires
        keys.len() > 0,
        plists::lookup(connected.plist, "Number"@) == Some(plists::Plist::Integer(0)),
        tells(refused, None),
        brings_record(fetched, record),
        plists::lookup(record, "HostID"@) == Some(plists::Plist::Text(host)),
        plists::lookup(record, "SystemBUID"@) == Some(plists::Plist::Text(buid)),
        starts_session(started, false) || (starts_session(started, true) && identity_in(
            record,
        ) is Ok),
        replies.len() == values.len() == keys.len(),
        forall|i: int| 0 <= i < replies.len() ==> tells(#[trigger] replies[i], values[i]),
        exists|i: int| 0 <= i < values.len() && (#[trigger] values[i]) is Some,
    ensures
        ({
            let front = seq![
                ReplyView::Packet(Ok(connected)),
                refused,
                ReplyView::Packet(Ok(fetched)),
                ReplyView::Answer(Ok(started)),
            ];
            let encrypted = starts_session(started, true);
            let all = if encrypted {
                front.push(ReplyView::Encrypted(Ok(()))) + replies
            } else {
                front + replies
            };
            let (y, asks) = replied(begun(device_id, udid, keys), all);
            let first = if encrypted {
                4int
            } else {
                3int
            };
            &&& asks.len() == all.len()
            &&& asks_for(asks[0], keys[0])
            &&& asks[1] matches AskView::Fetch(q) && plists::lookup(q.plist, "MessageType"@)
                == Some(plists::Plist::Text("ReadPairRecord"@)) && plists::lookup(
                q.plist,
                "PairRecordID"@,
            ) == Some(plists::Plist::Text(udid))
            &&& asks[2] == AskView::Request(request_bytes(session_request(record)->Ok_0)->Ok_0)
            &&& encrypted ==> asks[3] == AskView::Encrypt(identity_in(record)->Ok_0)
            &&& forall|i: int|
                0 <= i < keys.len() ==> asks_for(#[trigger] asks[first + i], keys[i])
            &&& asks.last() == AskView::Finish(Ok(told(keys, values)))
            &&& y.phase is Over
        }),
{
    let x = begun(device_id, udid, keys);
    let r0 = ReplyView::Packet(Ok(connected));
    let r2 = ReplyView::Packet(Ok(fetched));
    let r3 = ReplyView::Answer(Ok(started));
    let r4 = ReplyView::Encrypted(Ok(()));
    let encrypted = starts_session(started, true);
    let front = seq![r0, refused, r2, r3];
    let whole = if encrypted {
        front.push(r4)
    } else {
        front
    };
    sessions_are_reached(
        x,
        connected,
        refused,
        fetched,
        record,
        host,
        buid,
        started,
    );
    let y = x.at(PhaseView::Asking(0));
    let before = replied(x, whole).1;
    sessions_tell_every_value(y, replies, values);
    replies_follow_replies(x, whole, replies);
    let asks = replied(x, whole + replies).1;
    let after = replied(y, replies).1;
    assert(asks == before + after);
    let first = if encrypted {
        4int
    } else {
        3int
    };
    assert forall|i: int| 0 <= i < keys.len() implies asks_for(#[trigger] asks[first + i], keys[i]) by {
        if i > 0 {
            assert(asks[first + i] == after[i - 1]);
        }
    }
    assert(asks.last() == after.last());
}

proof fn reply_comes_last(x: ExchangeView, a: Seq<ReplyView>, r: ReplyView)
    ensures
        replied(x, a.push(r)).0 == advanced(replied(x, a).0, r).0,
        replied(x, a.push(r)).1 == replied(x, a).1.push(advanced(replied(x, a).0, r).1),
{
    assert(a.push(r).drop_last() =~= a);
}

#[verifier::spinoff_prover]
proof fn sessions_are_reached(
    x: ExchangeView,
    connected: protocol::PacketView,
    refused: ReplyView,
    fetched: protocol::PacketView,
    record: Seq<(Seq<char>, plists::Plist)>,
    host: Seq<char>,
    buid: Seq<char>,
    started: Seq<(Seq<char>, plists::Plist)>,
)
    requires
        x == begun(x.device_id, x.udid, x.keys),
        x.keys.len() > 0,
        plists::lookup(connected.plist, "Number"@) == Some(plists::Plist::Integer(0)),
        tells(refused, None),
        brings_record(fetched, record),
        plists::lookup(record, "HostID"@) == Some(plists::Plist::Text(host)),
        plists::lookup(record, "SystemBUID"@) == Some(plists::Plist::Text(buid)),
        starts_session(started, false) || (starts_session(started, true) && identity_in(
            record,
        ) is Ok),
    ensures
        ({
            let front = seq![
                ReplyView::Packet(Ok(connected)),
                refused,
                ReplyView::Packet(Ok(fetched)),
                ReplyView::Answer(Ok(started)),
            ];
            let encrypted = starts_session(started, true);
            let whole = if encrypted {
                front.push(ReplyView::Encrypted(Ok(())))
            } else {
                front
            };
            let (y, asks) = replied(x, whole);
            &&& y == x.at(PhaseView::Asking(0))
            &&& asks.len() == whole.len()
            &&& asks_for(asks[0], x.keys[0])
            &&& asks[1] matches AskView::Fetch(q) && plists::lookup(q.plist, "MessageType"@)
                == Some(plists::Plist::Text("ReadPairRecord"@)) && plists::lookup(
                q.plist,
                "PairRecordID"@,
            ) == Some(plists::Plist::Text(x.udid))
            &&& asks[2] == AskView::Request(request_bytes(session_request(record)->Ok_0)->Ok_0)
            &&& encrypted ==> asks[3] == AskView::Encrypt(identity_in(record)->Ok_0)
            &&& asks_for(asks.last(), x.keys[0])
        }),
{
    let r0 = ReplyView::Packet(Ok(connected));
    let r2 = ReplyView::Packet(Ok(fetched));
    let r3 = ReplyView::Answer(Ok(started));
    let r4 = ReplyView::Encrypted(Ok(()));
    let none = Seq::<ReplyView>::empty();
    let f1 = none.push(r0);
    let f2 = f1.push(refused);
    let f3 = f2.push(r2);
    let f4 = f3.push(r3);
    assert(f4 =~= seq![r0, refused, r2, r3]);
    value_request_names_its_key(x.keys[0]);
    record_request_lookups(x.udid);
    reply_comes_last(x, none, r0);
    reply_comes_last(x, f1, refused);
    reply_comes_last(x, f2, r2);
    reply_comes_last(x, f3, r3);
    reply_comes_last(x, f4, r4);
    assert(replied(x, none) == (x, Seq::<AskView>::empty()));
    assert(replied(x, f1).0 == x.at(PhaseView::Probing));
    assert(replied(x, f2).0 == x.at(PhaseView::Fetching));
    assert(replied(x, f3).0 == x.at(PhaseView::Starting(record)));
    assert(replied(x, f1).1.len() == 1);
    assert(replied(x, f2).1.len() == 2);
    assert(replied(x, f3).1.len() == 3);
    assert(replied(x, f4).1.len() == 4);
}

proof fn record_request_lookups(udid: Seq<char>)
    ensures
        plists::lookup(record_request_entries(udid), "MessageType"@) == Some(
            plists::Plist::Text("ReadPairRecord"@),
        ),
        plists::lookup(record_request_entries(udid), "PairRecordID"@) == Some(
            plists::Plist::Text(udid),
        ),
{
    key_lengths();
    let e = record_request_entries(udid);
    reveal_with_fuel(plists::lookup, 3);
    assert(e.drop_last().last().0 == "MessageType"@);
}

/// Whatever goes wrong on the way ends the exchange with the message of what
/// went wrong, and with no values.
pub proof fn failures_are_told(x: ExchangeView, m: Seq<char>)
    ensures
        x.phase is Connecting || x.phase is Fetching ==> advanced(
            x,
            ReplyView::Packet(Err(m)),
        ).1 == AskView::Finish(Err(m)),
        x.phase is Starting ==> advanced(x, ReplyView::Answer(Err(m))).1 == AskView::Finish(Err(m)),
        x.phase is Upgrading ==> advanced(x, ReplyView::Encrypted(Err(m))).1 == AskView::Finish(
            Err(m),
        ),
        forall|e: Seq<(Seq<char>, plists::Plist)>|
            x.phase is Starting && #[trigger] plists::lookup(e, "Error"@) == Some(
                plists::Plist::Text(m),
            ) ==> advanced(x, ReplyView::Answer(Ok(e))).1 == AskView::Finish(
                Err("StartSession failed: "@ + m),
            ),
        forall|p: protocol::PacketView|
            x.phase is Fetching && !(#[trigger] plists::lookup(
                p.plist,
                "PairRecordData"@,
            ) matches Some(plists::Plist::Data(_))) ==> advanced(
                x,
                ReplyView::Packet(Ok(p)),
            ).1 == AskView::Finish(Err("pair record absent or unreadable"@)),
        forall|p: protocol::PacketView|
            x.phase is Connecting && (#[trigger] plists::lookup(p.plist, "Number"@) matches Some(
                plists::Plist::Integer(n),
            ) && 0 < n <= u64::MAX) ==> advanced(x, ReplyView::Packet(Ok(p))).1
                == AskView::Finish(
                Err(
                    "Connect to lockdown failed: result code "@ + text::decimal(
                        plists::lookup(p.plist, "Number"@).unwrap()->Integer_0 as nat,
                    ),
                ),
            ),
{
}

/// The identity for an encrypted channel is made of the certificates and the
/// key in the pair record, and of nothing else.
pub proof fn identity_comes_from_the_record(
    record: Seq<(Seq<char>, plists::Plist)>,
    cert: Seq<u8>,
    key: Seq<u8>,
    certificates: Seq<Seq<u8>>,
    form: KeyForm,
    der: Seq<u8>,
)
    requires
        plists::lookup(record, "HostCertificate"@) == Some(plists::Plist::Data(cert)),
        plists::lookup(record, "HostPrivateKey"@) == Some(plists::Plist::Data(key)),
        pem_certificates(cert) == Ok::<Seq<Seq<u8>>, Seq<char>>(certificates),
        pem_key(key) == Ok::<Option<(KeyForm, Seq<u8>)>, Seq<char>>(Some((form, der))),
    ensures
        identity_in(record) == Ok::<IdentityView, Seq<char>>(
            IdentityView { certificates, form, der },
        ),
{
}

/// A pair record is a dictionary; anything else is none, and so is what cannot
/// be read.
pub proof fn records_are_dictionaries(
    e: Seq<(Seq<char>, plists::Plist)>,
    s: Seq<char>,
    b: Seq<u8>,
)
    ensures
        record_of(Ok(plists::Plist::Dict(e))) == Ok::<Seq<(Seq<char>, plists::Plist)>, Seq<char>>(
            e,
        ),
        record_of(Ok(plists::Plist::Text(s))) == Err::<Seq<(Seq<char>, plists::Plist)>, Seq<char>>(
            "pair record payload is not a dictionary"@,
        ),
        record_of(Ok(plists::Plist::Data(b))) == Err::<Seq<(Seq<char>, plists::Plist)>, Seq<char>>(
            "pair record payload is not a dictionary"@,
        ),
        record_of(Err(s)) == Err::<Seq<(Seq<char>, plists::Plist)>, Seq<char>>(s),
{
}

/// What is asked of a device to fill in what is known of it.
pub proof fn devices_are_asked_for_four_values()
    ensures
        enrichment_keys().len() == 4,
        enrichment_keys()[0] == "DeviceName"@,
        enrichment_keys()[1] == "ProductType"@,
        enrichment_keys()[2] == "ProductVersion"@,
        enrichment_keys()[3] == "BuildVersion"@,
{
}

/// An identity is a certificate and a key; where one of them cannot be read or
/// is not there, the reason is told.
pub proof fn identities_need_certificate_and_key(
    certificates: Seq<Seq<u8>>,
    form: KeyForm,
    der: Seq<u8>,
    m: Seq<char>,
    key: Result<Option<(KeyForm, Seq<u8>)>, Seq<char>>,
    record: Seq<(Seq<char>, plists::Plist)>,
)
    ensures
        identity_of(Ok(certificates), Ok(Some((form, der)))) == Ok::<IdentityView, Seq<char>>(
            (IdentityView { certificates, form, der }),
        ),
        identity_of(Err(m), key) == Err::<IdentityView, Seq<char>>(m),
        identity_of(Ok(certificates), Err(m)) == Err::<IdentityView, Seq<char>>(m),
        identity_of(Ok(certificates), Ok(None)) == Err::<IdentityView, Seq<char>>(
            "failed to parse host private key from pair record"@,
        ),
        plists::lookup(record, "HostCertificate"@) is None ==> identity_in(record) == Err::<
            IdentityView,
            Seq<char>,
        >("pair record has no HostCertificate"@),
        plists::data_of(plists::lookup(record, "HostCertificate"@)) is Some && plists::lookup(
            record,
            "HostPrivateKey"@,
        ) is None ==> identity_in(record) == Err::<IdentityView, Seq<char>>(
            "pair record has no HostPrivateKey"@,
        ),
{
}

/// A result is the one that is wanted if and only if both succeed and are the
/// same, or both fail and for the same reason.
pub proof fn results_are_compared(
    d: Result<plist::Dictionary, String>,
    dict: Result<Seq<(Seq<char>, plists::Plist)>, Seq<char>>,
    i: Result<HostIdentity, String>,
    identity: Result<IdentityView, Seq<char>>,
)
    ensures
        dict_result_is(d, dict) ==> (d is Ok <==> dict is Ok),
        dict_result_is(d, dict) && d is Ok ==> plists::entries(d->Ok_0) == dict->Ok_0,
        dict_result_is(d, dict) && d is Err ==> d->Err_0@ == dict->Err_0,
        identity_result_is(i, identity) ==> (i is Ok <==> identity is Ok),
        identity_result_is(i, identity) && i is Ok ==> i->Ok_0@ == identity->Ok_0,
        identity_result_is(i, identity) && i is Err ==> i->Err_0@ == identity->Err_0,
{
}

/// What is given back is the message that the data begin with.
pub proof fn messages_are_given_back(
    e: Seq<(Seq<char>, plists::Plist)>,
    xml: Seq<u8>,
    rest: Seq<u8>,
    got: Option<Seq<(Seq<char>, plists::Plist)>>,
)
    requires
        plists::plain(plists::Plist::Dict(e)),
        plists::value_written(e) == Ok::<Seq<u8>, Seq<char>>(xml),
        dates::fit(xml),
        0 < xml.len() <= MAX_LOCKDOWN_RESPONSE,
        gives_message_back(framed(xml) + rest, got),
    ensures
        got == Some(e),
{
    let data = framed(xml) + rest;
    assert(framed(xml).is_prefix_of(data)) by {
        assert(data.subrange(0, framed(xml).len() as int) =~= framed(xml));
    }
    assert(plists::value_written(e) is Ok);
}

} // verus!
