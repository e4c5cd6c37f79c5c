//! Following the devices that come and go.
use crate::device;
use crate::device::detect;
use crate::device::detect::ListenEvent;
use crate::device::{Device, DeviceEvent};
use crate::text;
use crate::text::same;
use std::collections::HashMap;
use vstd::prelude::*;

verus! {

broadcast use vstd::std_specs::hash::group_hash_axioms;

/// How long to wait, in milliseconds, before the daemon is asked again.
pub const RECONNECT_MS: u64 = 2000;

/// The devices that are there, by their numbers.
#[derive(Debug)]
pub struct KnownDevices {
    known: HashMap<u32, Device>,
}

impl View for KnownDevices {
    type V = Map<u32, device::DeviceView>;

    closed spec fn view(&self) -> Map<u32, device::DeviceView> {
        self.known@.map_values(|d: Device| d@)
    }
}

/// The devices that are there after an event.
pub open spec fn known_after(
    known: Map<u32, device::DeviceView>,
    event: detect::ListenEventView,
) -> Map<u32, device::DeviceView> {
    match event {
        detect::ListenEventView::Attached(d) => known.insert(d.device_id, d),
        detect::ListenEventView::Detached(id) => known.remove(id),
    }
}

/// What is reported of an event: that a device left only if it was there.
pub open spec fn report(
    known: Map<u32, device::DeviceView>,
    event: detect::ListenEventView,
) -> Option<device::DeviceEventView> {
    match event {
        detect::ListenEventView::Attached(d) => Some(device::DeviceEventView::Connected(d)),
        detect::ListenEventView::Detached(id) => if known.contains_key(id) {
            Some(
                device::DeviceEventView::Disconnected { udid: known[id].udid, device_id: id },
            )
        } else {
            None
        },
    }
}

impl KnownDevices {
    pub fn new() -> (k: Self)
        ensures
            k@ == Map::<u32, device::DeviceView>::empty(),
    {
        let k = KnownDevices { known: HashMap::new() };
        assert(k@ =~= Map::<u32, device::DeviceView>::empty());
        k
    }

    /// Follows an event, and says what to report of it.
    pub fn follow(&mut self, event: ListenEvent) -> (r: Option<DeviceEvent>)
        ensures
            final(self)@ == known_after(old(self)@, event@),
            match r {
                Some(e) => report(old(self)@, event@) == Some(e@),
                None => report(old(self)@, event@) is None,
            },
    {
        match event {
            ListenEvent::Attached(dev) => {
                let ghost d = dev@;
                self.known.insert(dev.device_id, dev.clone());
                assert(self@ =~= old(self)@.insert(d.device_id, d));
                Some(DeviceEvent::Connected(dev))
            },
            ListenEvent::Detached(device_id) => {
                let gone = self.known.remove(&device_id);
                assert(self@ =~= old(self)@.remove(device_id));
                match gone {
                    Some(dev) => Some(DeviceEvent::Disconnected { udid: dev.udid, device_id }),
                    None => None,
                }
            },
        }
    }
}

/// The identifier of the device that an event is about.
pub open spec fn event_udid(e: device::DeviceEventView) -> Seq<char> {
    match e {
        device::DeviceEventView::Connected(d) => d.udid,
        device::DeviceEventView::Disconnected { udid, .. } => udid,
    }
}

/// Whether an event is about the device that is watched; without one, all
/// are.
pub fn is_watched(event: &DeviceEvent, watched: &Option<String>) -> (b: bool)
    ensures
        b == (watched is None || text::opt_view(*watched) == Some(event_udid(event@))),
{
    let udid: &str = match event {
        DeviceEvent::Connected(d) => d.udid.as_str(),
        DeviceEvent::Disconnected { udid, .. } => udid.as_str(),
    };
    match watched {
        Some(w) => same(w.as_str(), udid),
        None => true,
    }
}

/// A device that came and then leaves is reported with the identifier with
/// which it came, and is not known afterwards; when it leaves once more,
/// nothing is reported.
pub proof fn departures_match_arrivals(
    known: Map<u32, device::DeviceView>,
    d: device::DeviceView,
)
    ensures
        ({
            let came = known_after(known, detect::ListenEventView::Attached(d));
            let left = known_after(came, detect::ListenEventView::Detached(d.device_id));
            &&& report(came, detect::ListenEventView::Detached(d.device_id)) == Some(
                device::DeviceEventView::Disconnected { udid: d.udid, device_id: d.device_id },
            )
            &&& !left.contains_key(d.device_id)
            &&& report(left, detect::ListenEventView::Detached(d.device_id)) is None
        }),
{
}

/// A device that comes is reported as it came and known from then on; what is
/// known of others stays, and one that was not known leaves unseen.
pub proof fn arrivals_are_reported(
    known: Map<u32, device::DeviceView>,
    d: device::DeviceView,
    other: u32,
)
    requires
        other != d.device_id,
    ensures
        ({
            let came = detect::ListenEventView::Attached(d);
            let left = detect::ListenEventView::Detached(d.device_id);
            &&& report(known, came) == Some(device::DeviceEventView::Connected(d))
            &&& known_after(known, came).contains_key(d.device_id)
            &&& known_after(known, came)[d.device_id] == d
            &&& known_after(known, came).contains_key(other) == known.contains_key(other)
            &&& known.contains_key(other) ==> known_after(known, came)[other] == known[other]
            &&& known_after(known, left).contains_key(other) == known.contains_key(other)
            &&& known.contains_key(other) ==> known_after(known, left)[other] == known[other]
            &&& !known.contains_key(d.device_id) ==> report(known, left) is None
            &&& event_udid(device::DeviceEventView::Connected(d)) == d.udid
            &&& event_udid(
                device::DeviceEventView::Disconnected { udid: d.udid, device_id: other },
            ) == d.udid
        }),
{
}

} // verus!
