//! Devices as a client of the daemon sees them.
pub mod detect;
pub mod error;
pub mod info;
pub mod lockdown;
pub mod monitor;

use crate::daemon::device_scanner::UsbDevice;
use crate::security;
use crate::security::{core_of_udid, dashed_udid};
use crate::text;
use crate::text::clone_opt;
use vstd::prelude::*;

verus! {

#[derive(Debug, Clone, Copy, PartialEq, Eq, Structural)]
pub enum ConnectionType {
    Usb,
    Network,
}

impl ConnectionType {
    /// The connection's name.
    pub open spec fn name(self) -> Seq<char> {
        match self {
            ConnectionType::Usb => "USB"@,
            ConnectionType::Network => "Network"@,
        }
    }

    /// The connection's name.
    pub fn to_text(&self) -> (s: &'static str)
        ensures
            s@ == self.name(),
    {
        match self {
            ConnectionType::Usb => "USB",
            ConnectionType::Network => "Network",
        }
    }
}

/// A device, and what is known of it.
#[derive(Debug)]
pub struct Device {
    pub udid: String,
    pub device_id: u32,
    pub name: Option<String>,
    pub model: Option<String>,
    pub ios_version: Option<String>,
    pub build_version: Option<String>,
    pub connection_type: ConnectionType,
}

/// A `Device` with its texts as characters.
#[verifier::ext_equal]
pub ghost struct DeviceView {
    pub udid: Seq<char>,
    pub device_id: u32,
    pub name: Option<Seq<char>>,
    pub model: Option<Seq<char>>,
    pub ios_version: Option<Seq<char>>,
    pub build_version: Option<Seq<char>>,
    pub connection_type: ConnectionType,
}

impl View for Device {
    type V = DeviceView;

    open spec fn view(&self) -> DeviceView {
        DeviceView {
            udid: self.udid@,
            device_id: self.device_id,
            name: text::opt_view(self.name),
            model: text::opt_view(self.model),
            ios_version: text::opt_view(self.ios_version),
            build_version: text::opt_view(self.build_version),
            connection_type: self.connection_type,
        }
    }
}

impl Clone for Device {
    fn clone(&self) -> (d: Self)
        ensures
            d@ == self@,
    {
        Device {
            udid: self.udid.clone(),
            device_id: self.device_id,
            name: clone_opt(&self.name),
            model: clone_opt(&self.model),
            ios_version: clone_opt(&self.ios_version),
            build_version: clone_opt(&self.build_version),
            connection_type: self.connection_type,
        }
    }
}

/// A device of which no more is known than its identifier and its number.
pub open spec fn bare_device(udid: Seq<char>, device_id: u32) -> DeviceView {
    DeviceView {
        udid,
        device_id,
        name: None,
        model: None,
        ios_version: None,
        build_version: None,
        connection_type: ConnectionType::Usb,
    }
}

impl Device {
    /// A device from what the bus says of it.
    pub fn from_usb_device(dev: &UsbDevice) -> (d: Self)
        requires
            security::dash_has_place(security::udid_core(dev@.udid)),
        ensures
            d@ == bare_device(shown_udid(dev@.udid), dev@.device_id),
    {
        Device {
            udid: format_device_udid(dev.udid.as_str()),
            device_id: dev.device_id,
            name: None,
            model: None,
            ios_version: None,
            build_version: None,
            connection_type: ConnectionType::Usb,
        }
    }
}

/// An identifier as it is shown: trimmed, and with its dash.
pub open spec fn shown_udid(raw: Seq<char>) -> Seq<char> {
    security::dashed(security::udid_core(raw))
}

/// An identifier as it is shown.
pub fn format_device_udid(raw: &str) -> (r: String)
    requires
        security::dash_has_place(security::udid_core(raw@)),
    ensures
        r@ == shown_udid(raw@),
{
    let core = core_of_udid(raw);
    dashed_udid(core.as_str())
}

/// A device came or went.
#[derive(Debug)]
pub enum DeviceEvent {
    Connected(Device),
    Disconnected { udid: String, device_id: u32 },
}

/// A `DeviceEvent` with its parts as their views.
pub ghost enum DeviceEventView {
    Connected(DeviceView),
    Disconnected { udid: Seq<char>, device_id: u32 },
}

impl View for DeviceEvent {
    type V = DeviceEventView;

    open spec fn view(&self) -> DeviceEventView {
        match self {
            DeviceEvent::Connected(d) => DeviceEventView::Connected(d@),
            DeviceEvent::Disconnected { udid, device_id } => DeviceEventView::Disconnected {
                udid: udid@,
                device_id: *device_id,
            },
        }
    }
}

/// The text, or `d` where there is none.
pub open spec fn or_text(a: Option<Seq<char>>, d: Seq<char>) -> Seq<char> {
    match a {
        Some(s) => s,
        None => d,
    }
}

/// The text, or `d` where there is none.
pub fn text_or<'a>(a: &'a Option<String>, d: &'a str) -> (s: &'a str)
    ensures
        s@ == or_text(text::opt_view(*a), d@),
{
    match a {
        Some(s) => s.as_str(),
        None => d,
    }
}

impl DeviceEventView {
    /// The line shown for the event.
    pub open spec fn text(self) -> Seq<char> {
        match self {
            DeviceEventView::Connected(d) => "+ CONNECTED  "@ + or_text(d.name, "Unknown"@) + " ("@
                + d.udid + ") ["@ + or_text(d.model, "?"@) + "] iOS "@ + or_text(
                d.ios_version,
                "?"@,
            ),
            DeviceEventView::Disconnected { udid, .. } => "- DISCONNECTED  "@ + udid,
        }
    }
}

impl DeviceEvent {
    /// The line shown for the event.
    pub fn to_text(&self) -> (s: String)
        ensures
            s@ == self@.text(),
    {
        match self {
            DeviceEvent::Connected(d) => {
                let mut s = "+ CONNECTED  ".to_owned();
                s.append(text_or(&d.name, "Unknown"));
                s.append(" (");
                s.append(d.udid.as_str());
                s.append(") [");
                s.append(text_or(&d.model, "?"));
                s.append("] iOS ");
                s.append(text_or(&d.ios_version, "?"));
                s
            },
            DeviceEvent::Disconnected { udid, .. } => {
                let mut s = "- DISCONNECTED  ".to_owned();
                s.append(udid.as_str());
                s
            },
        }
    }
}

/// An identifier is shown without what stands around it; one of 24 digits with
/// a dash after the first eight.
pub proof fn identifiers_are_shown_with_their_dash(s: Seq<char>)
    requires
        0 < s.len() <= 64,
        security::all_udid_chars(s),
    ensures
        s.len() == 24 && !s.contains('-') ==> shown_udid(s) == s.take(8) + "-"@ + s.skip(8),
        s.len() != 24 || s.contains('-') ==> shown_udid(s) == s,
{
    let none: Seq<char> = seq![];
    assert forall|i: int| 0 <= i < s.len() implies '0' <= #[trigger] s[i] <= '9' || 'a' <= s[i]
        <= 'f' || 'A' <= s[i] <= 'F' || s[i] == '-' by {
        assert(security::is_udid_char(s[i]));
    }
    security::digits_and_dashes_are_an_identifier(none, s, 0, none);
    assert(none + (s + Seq::new(0, |i: int| '\0')) + none =~= s);
    security::newer_identifiers_get_a_dash(s);
}

/// Of a device from the bus its identifier and its number are known, and that
/// it is on the bus.
pub proof fn bare_devices_have_an_identity(udid: Seq<char>, device_id: u32)
    ensures
        ({
            let d = bare_device(udid, device_id);
            &&& d.udid == udid
            &&& d.device_id == device_id
            &&& d.connection_type == ConnectionType::Usb
            &&& d.name is None && d.model is None && d.ios_version is None && d.build_version
                is None
        }),
        ConnectionType::Usb.name() == "USB"@,
        ConnectionType::Network.name() == "Network"@,
{
}

/// The line for an event says what happened to which device.
pub proof fn event_lines_say_what_happened(
    d: DeviceView,
    name: Seq<char>,
    model: Seq<char>,
    version: Seq<char>,
    device_id: u32,
)
    requires
        d.name == Some(name),
        d.model == Some(model),
        d.ios_version == Some(version),
    ensures
        DeviceEventView::Connected(d).text() == "+ CONNECTED  "@ + name + " ("@ + d.udid + ") ["@
            + model + "] iOS "@ + version,
        DeviceEventView::Connected(bare_device(d.udid, device_id)).text() == "+ CONNECTED  "@
            + "Unknown"@ + " ("@ + d.udid + ") ["@ + "?"@ + "] iOS "@ + "?"@,
        (DeviceEventView::Disconnected { udid: d.udid, device_id }).text() == "- DISCONNECTED  "@
            + d.udid,
{
}

} // verus!
