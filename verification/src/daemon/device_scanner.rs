//! Which devices are attached: the difference between what is known and what
//! one look at the bus shows.
use crate::security;
use crate::security::core_of_udid;
use crate::text;
use crate::text::{trim, trim_back_char, trim_front_char};
use std::collections::HashMap;
use vstd::prelude::*;

verus! {

broadcast use vstd::std_specs::hash::group_hash_axioms;

pub const APPLE_VENDOR_ID: u16 = 0x05AC;

/// A known device must be absent from this many looks in a row before it
/// counts as detached: what the bus shows right at plug time can be
/// incomplete, and must not tear down live connections.
pub const DETACH_AFTER_MISSES: u32 = 2;

/// An attached device.
#[derive(Debug)]
pub struct UsbDevice {
    pub device_id: u32,
    pub udid: String,
    pub product_id: u16,
    pub usb_bus: u8,
    pub usb_address: u8,
}

impl Clone for UsbDevice {
    fn clone(&self) -> (r: Self)
        ensures
            r@ == self@,
    {
        UsbDevice {
            device_id: self.device_id,
            udid: self.udid.clone(),
            product_id: self.product_id,
            usb_bus: self.usb_bus,
            usb_address: self.usb_address,
        }
    }
}

/// A `UsbDevice` with its serial as characters.
pub ghost struct UsbDeviceView {
    pub device_id: u32,
    pub udid: Seq<char>,
    pub product_id: u16,
    pub usb_bus: u8,
    pub usb_address: u8,
}

impl View for UsbDevice {
    type V = UsbDeviceView;

    open spec fn view(&self) -> UsbDeviceView {
        UsbDeviceView {
            device_id: self.device_id,
            udid: self.udid@,
            product_id: self.product_id,
            usb_bus: self.usb_bus,
            usb_address: self.usb_address,
        }
    }
}

/// A change in the set of attached devices.
#[derive(Debug, Clone)]
pub enum DeviceChange {
    Attached(UsbDevice),
    Detached { device_id: u32 },
}

/// A `DeviceChange` with the device as its view.
pub ghost enum DeviceChangeView {
    Attached(UsbDeviceView),
    Detached { device_id: u32 },
}

impl View for DeviceChange {
    type V = DeviceChangeView;

    open spec fn view(&self) -> DeviceChangeView {
        match self {
            DeviceChange::Attached(d) => DeviceChangeView::Attached(d@),
            DeviceChange::Detached { device_id } => DeviceChangeView::Detached {
                device_id: *device_id,
            },
        }
    }
}

/// The changes in `v`, in order.
pub open spec fn change_views(v: Seq<DeviceChange>) -> Seq<DeviceChangeView> {
    v.map_values(|c: DeviceChange| c@)
}

/// What one look saw at a physical port. `udid` is `None` when a device was
/// there but its serial could not be read this time.
#[derive(Debug, Clone, PartialEq, Eq)]
pub struct ScanObservation {
    pub usb_bus: u8,
    pub usb_address: u8,
    pub product_id: u16,
    pub udid: Option<String>,
}

/// A `ScanObservation` with its serial as characters.
pub ghost struct ObservationView {
    pub usb_bus: u8,
    pub usb_address: u8,
    pub product_id: u16,
    pub udid: Option<Seq<char>>,
}

impl View for ScanObservation {
    type V = ObservationView;

    open spec fn view(&self) -> ObservationView {
        ObservationView {
            usb_bus: self.usb_bus,
            usb_address: self.usb_address,
            product_id: self.product_id,
            udid: match self.udid {
                Some(u) => Some(u@),
                None => None,
            },
        }
    }
}

/// The observations in `v`, in order.
pub open spec fn observation_views(v: Seq<ScanObservation>) -> Seq<ObservationView> {
    v.map_values(|o: ScanObservation| o@)
}

/// A physical port as one number. Addresses are unique per bus only.
pub open spec fn port_number(bus: u8, address: u8) -> u16 {
    (bus * 256 + address) as u16
}

/// A physical port as one number.
pub fn port_key(bus: u8, address: u8) -> (k: u16)
    ensures
        k == port_number(bus, address),
{
    bus as u16 * 256 + address as u16
}

/// The devices in a map, by number.
pub open spec fn device_views(m: Map<u32, UsbDevice>) -> Map<u32, UsbDeviceView> {
    m.map_values(|d: UsbDevice| d@)
}

impl UsbDeviceView {
    /// The port at which the device stands.
    pub open spec fn port(self) -> u16 {
        port_number(self.usb_bus, self.usb_address)
    }
}

impl ObservationView {
    /// The port that was looked at.
    pub open spec fn port(self) -> u16 {
        port_number(self.usb_bus, self.usb_address)
    }
}

/// Every device stands under its own number, no two stand at one port, and
/// all their numbers have been given out.
pub open spec fn devices_wf(devices: Map<u32, UsbDeviceView>, next_id: int) -> bool {
    &&& forall|id: u32| #[trigger]
        devices.contains_key(id) ==> devices[id].device_id == id && id < next_id
    &&& forall|a: u32, b: u32|
        #![trigger devices.contains_key(a), devices.contains_key(b)]
        devices.contains_key(a) && devices.contains_key(b) && devices[a].port()
            == devices[b].port() ==> a == b
}

/// Whether device `id` stands at port `k`.
pub open spec fn stands_at(devices: Map<u32, UsbDeviceView>, id: u32, k: u16) -> bool {
    devices.contains_key(id) && devices[id].port() == k
}

/// The device at port `k`.
pub open spec fn device_at(devices: Map<u32, UsbDeviceView>, k: u16) -> Option<u32> {
    if exists|id: u32| stands_at(devices, id, k) {
        Some(choose|id: u32| stands_at(devices, id, k))
    } else {
        None
    }
}

/// Whether port `k` was seen occupied.
pub open spec fn seen(obs: Seq<ObservationView>, k: u16) -> bool {
    exists|i: int| 0 <= i < obs.len() && (#[trigger] obs[i]).port() == k
}

/// What is known about the bus, and what changed.
pub ghost struct ScanView {
    pub devices: Map<u32, UsbDeviceView>,
    pub misses: Map<u16, u32>,
    pub next_id: int,
    pub changes: Seq<DeviceChangeView>,
}

/// The device that an observation introduces under number `id`.
pub open spec fn new_device(o: ObservationView, id: int) -> UsbDeviceView {
    UsbDeviceView {
        device_id: id as u32,
        udid: o.udid.unwrap(),
        product_id: o.product_id,
        usb_bus: o.usb_bus,
        usb_address: o.usb_address,
    }
}

/// What one observation adds. Its port is alive. A readable device at a free
/// port is attached; one with another serial than the device known there
/// replaces it.
pub open spec fn attach_step(s: ScanView, o: ObservationView) -> ScanView {
    let misses = s.misses.remove(o.port());
    match (device_at(s.devices, o.port()), o.udid) {
        (Some(old_id), Some(udid)) => if s.devices[old_id].udid != udid {
            ScanView {
                devices: s.devices.remove(old_id).insert(s.next_id as u32, new_device(o, s.next_id)),
                misses,
                next_id: s.next_id + 1,
                changes: s.changes + seq![
                    DeviceChangeView::Detached { device_id: old_id },
                    DeviceChangeView::Attached(new_device(o, s.next_id)),
                ],
            }
        } else {
            ScanView { misses, ..s }
        },
        (None, Some(udid)) => ScanView {
            devices: s.devices.insert(s.next_id as u32, new_device(o, s.next_id)),
            misses,
            next_id: s.next_id + 1,
            changes: s.changes + seq![DeviceChangeView::Attached(new_device(o, s.next_id))],
        },
        _ => ScanView { misses, ..s },
    }
}

/// What the observations add, one after the other.
pub open spec fn attach_all(s: ScanView, obs: Seq<ObservationView>) -> ScanView
    decreases obs.len(),
{
    if obs.len() == 0 {
        s
    } else {
        attach_step(attach_all(s, obs.drop_last()), obs.last())
    }
}

/// How often port `k` has been missed so far.
pub open spec fn misses_at(s: ScanView, k: u16) -> int {
    if s.misses.contains_key(k) {
        s.misses[k] as int
    } else {
        0
    }
}

/// Whether the device at port `k` is missing from this look.
pub open spec fn missing(s: ScanView, obs: Seq<ObservationView>, k: u16) -> bool {
    device_at(s.devices, k) is Some && !seen(obs, k)
}

/// Whether device `id` has been missing long enough to count as detached.
pub open spec fn gone(s: ScanView, obs: Seq<ObservationView>, id: u32) -> bool {
    &&& s.devices.contains_key(id)
    &&& !seen(obs, s.devices[id].port())
    &&& misses_at(s, s.devices[id].port()) + 1 >= DETACH_AFTER_MISSES
}

/// The count of misses at port `k` after this look.
pub open spec fn miss_after(s: ScanView, obs: Seq<ObservationView>, k: u16) -> Option<u32> {
    if missing(s, obs, k) {
        if misses_at(s, k) + 1 >= DETACH_AFTER_MISSES {
            None
        } else {
            Some((misses_at(s, k) + 1) as u32)
        }
    } else {
        s.misses.get(k)
    }
}

/// The changes for the devices of `ids` that are gone, in that order.
pub open spec fn detach_changes(s: ScanView, obs: Seq<ObservationView>, ids: Seq<u32>) -> Seq<
    DeviceChangeView,
>
    decreases ids.len(),
{
    if ids.len() == 0 {
        seq![]
    } else {
        let before = detach_changes(s, obs, ids.drop_last());
        if gone(s, obs, ids.last()) {
            before.push(DeviceChangeView::Detached { device_id: ids.last() })
        } else {
            before
        }
    }
}

/// The devices without those that are gone.
pub open spec fn remaining(s: ScanView, obs: Seq<ObservationView>) -> Map<u32, UsbDeviceView> {
    Map::new(
        |id: u32| s.devices.contains_key(id) && !gone(s, obs, id),
        |id: u32| s.devices[id],
    )
}

/// The devices without those of `ids` that are gone.
spec fn remaining_of(s: ScanView, obs: Seq<ObservationView>, ids: Seq<u32>) -> Map<
    u32,
    UsbDeviceView,
> {
    Map::new(
        |id: u32| s.devices.contains_key(id) && !(ids.contains(id) && gone(s, obs, id)),
        |id: u32| s.devices[id],
    )
}

/// Whether `ids` lists each device once. The order is open.
pub open spec fn lists_devices(s: ScanView, ids: Seq<u32>) -> bool {
    ids.no_duplicates() && ids.to_set() == s.devices.dom()
}

/// Whether `end` is what one look leads to: first the attachments, then the
/// devices that have been missing too long, in any order.
pub open spec fn scanned(start: ScanView, obs: Seq<ObservationView>, end: ScanView) -> bool {
    let mid = attach_all(start, obs);
    &&& end.next_id == mid.next_id
    &&& end.devices == remaining(mid, obs)
    &&& forall|k: u16| #[trigger] end.misses.get(k) == miss_after(mid, obs, k)
    &&& exists|ids: Seq<u32>| #[trigger]
        lists_devices(mid, ids) && end.changes == mid.changes + detach_changes(mid, obs, ids)
}

proof fn device_at_is_unique(devices: Map<u32, UsbDeviceView>, next_id: int, id: u32)
    requires
        devices_wf(devices, next_id),
        devices.contains_key(id),
    ensures
        device_at(devices, devices[id].port()) == Some(id),
{
    let k = devices[id].port();
    assert(stands_at(devices, id, k));
    let other = choose|other: u32| stands_at(devices, other, k);
    assert(devices.contains_key(other));
}

/// Two ports are the same only when both bus and address agree: devices on
/// different buses never collide.
pub proof fn port_number_injective(b1: u8, a1: u8, b2: u8, a2: u8)
    ensures
        port_number(b1, a1) == port_number(b2, a2) <==> b1 == b2 && a1 == a2,
{
}

/// One observation keeps the invariant.
proof fn attach_step_keeps_wf(s: ScanView, o: ObservationView)
    requires
        devices_wf(s.devices, s.next_id),
        0 <= s.next_id,
        attach_step(s, o).next_id <= u32::MAX,
    ensures
        devices_wf(attach_step(s, o).devices, attach_step(s, o).next_id),
        s.next_id <= attach_step(s, o).next_id,
{
    let e = attach_step(s, o);
    let k = o.port();
    if e.next_id == s.next_id + 1 {
        let base = match device_at(s.devices, k) {
            Some(old_id) => s.devices.remove(old_id),
            None => s.devices,
        };
        assert(e.devices == base.insert(s.next_id as u32, new_device(o, s.next_id)));
        assert forall|id: u32| base.contains_key(id) implies base[id].port() != k by {
            assert(s.devices.contains_key(id));
            if s.devices[id].port() == k {
                device_at_is_unique(s.devices, s.next_id, id);
            }
        }
        assert forall|a: u32, b: u32|
            #![trigger e.devices.contains_key(a), e.devices.contains_key(b)]
            e.devices.contains_key(a) && e.devices.contains_key(b) && e.devices[a].port()
                == e.devices[b].port() implies a == b by {
            if a != s.next_id as u32 {
                assert(base.contains_key(a));
                assert(s.devices.contains_key(a));
            }
            if b != s.next_id as u32 {
                assert(base.contains_key(b));
                assert(s.devices.contains_key(b));
            }
        }
        assert forall|id: u32| #[trigger] e.devices.contains_key(id) implies e.devices[id].device_id
            == id && id < e.next_id by {
            if id != s.next_id as u32 {
                assert(base.contains_key(id));
                assert(s.devices.contains_key(id));
            }
        }
    }
}

proof fn attach_all_next_id_grows(s: ScanView, obs: Seq<ObservationView>, n: int)
    requires
        0 <= n <= obs.len(),
    ensures
        s.next_id <= attach_all(s, obs.take(n)).next_id <= attach_all(s, obs).next_id,
    decreases obs.len(),
{
    if n == obs.len() {
        assert(obs.take(n) =~= obs);
        if n > 0 {
            attach_all_next_id_grows(s, obs.drop_last(), n - 1);
        }
    } else {
        attach_all_next_id_grows(s, obs.drop_last(), n);
        assert(obs.drop_last().take(n) =~= obs.take(n));
    }
}

/// Looking keeps the invariant, as long as device numbers do not run out.
pub proof fn attaching_keeps_wf(s: ScanView, obs: Seq<ObservationView>)
    requires
        devices_wf(s.devices, s.next_id),
        0 <= s.next_id,
        attach_all(s, obs).next_id <= u32::MAX,
    ensures
        devices_wf(attach_all(s, obs).devices, attach_all(s, obs).next_id),
        s.next_id <= attach_all(s, obs).next_id,
    decreases obs.len(),
{
    if obs.len() > 0 {
        let n = obs.len() - 1;
        attach_all_next_id_grows(s, obs, n);
        assert(obs.take(n) =~= obs.drop_last());
        attaching_keeps_wf(s, obs.drop_last());
        attach_step_keeps_wf(attach_all(s, obs.drop_last()), obs.last());
    }
}

/// The number of the device at a port.
fn find_at(
    devices: &HashMap<u32, UsbDevice>,
    bus: u8,
    address: u8,
    Ghost(next_id): Ghost<int>,
) -> (r:
    Option<u32>)
    requires
        devices_wf(device_views(devices@), next_id),
    ensures
        r == device_at(device_views(devices@), port_number(bus, address)),
{
    let ghost m = device_views(devices@);
    let ghost k = port_number(bus, address);
    let mut found: Option<u32> = None;
    for id in it: devices.keys()
        invariant
            m == device_views(devices@),
            k == port_number(bus, address),
            it.seq().unref().to_set() == devices@.dom(),
            match found {
                Some(q) => stands_at(m, q, k),
                None => forall|i: int| 0 <= i < it.index() ==> !stands_at(m, *it.seq()[i], k),
            },
    {
        assert(it.seq().unref()[it.index() as int] == *id);
        assert(it.seq().unref().to_set().contains(*id));
        let d: &UsbDevice = devices.get(id).unwrap();
        assert(m[*id] == d@);
        proof {
            port_number_injective(d.usb_bus, d.usb_address, bus, address);
        }
        if d.usb_bus == bus && d.usb_address == address {
            found = Some(*id);
        }
    }
    proof {
        match found {
            Some(q) => {
                device_at_is_unique(m, next_id, q);
            },
            None => {
                assert forall|q: u32| !stands_at(m, q, k) by {
                    if m.contains_key(q) {
                        assert(devices@.dom().contains(q));
                    }
                }
            },
        }
    }
    found
}

/// Whether a port is among the observed ones.
fn port_seen(current: &[ScanObservation], bus: u8, address: u8) -> (b: bool)
    ensures
        b == seen(observation_views(current@), port_number(bus, address)),
{
    let ghost obs = observation_views(current@);
    let ghost k = port_number(bus, address);
    let mut i: usize = 0;
    while i < current.len()
        invariant
            obs == observation_views(current@),
            k == port_number(bus, address),
            i <= current.len(),
            forall|j: int| 0 <= j < i ==> (#[trigger] obs[j]).port() != k,
        decreases current.len() - i,
    {
        let o: &ScanObservation = &current[i];
        assert(obs[i as int] == o@);
        proof {
            port_number_injective(o.usb_bus, o.usb_address, bus, address);
        }
        if o.usb_bus == bus && o.usb_address == address {
            return true;
        }
        i = i + 1;
    }
    false
}

/// The numbers of the devices, in the order in which the map is walked.
fn known_ids(devices: &HashMap<u32, UsbDevice>) -> (ids: Vec<u32>)
    ensures
        ids@.no_duplicates(),
        ids@.to_set() == devices@.dom(),
{
    let mut ids: Vec<u32> = Vec::new();
    for id in it: devices.keys()
        invariant
            it.seq().unref().to_set() == devices@.dom(),
            it.seq().no_duplicates(),
            ids@.len() == it.index(),
            ids@ =~= it.seq().unref().take(it.index() as int),
            it.index() == it.seq().len() ==> ids@ =~= it.seq().unref(),
    {
        ids.push(*id);
    }
    assert forall|i: int, j: int| 0 <= i < ids@.len() && 0 <= j < ids@.len() && i != j implies ids@[i]
        != ids@[j] by {}
    assert(ids@.to_set() =~= devices@.dom());
    ids
}

/// What is known at the start of a look.
pub open spec fn scan_start(
    devices: Map<u32, UsbDevice>,
    misses: Map<u16, u32>,
    next_id: u32,
) -> ScanView {
    ScanView { devices: device_views(devices), misses, next_id: next_id as int, changes: seq![] }
}

/// Adds what the observations introduce.
fn attach_observed(
    devices: &mut HashMap<u32, UsbDevice>,
    miss_counts: &mut HashMap<u16, u32>,
    next_id: &mut u32,
    current: &[ScanObservation],
) -> (changes: Vec<DeviceChange>)
    requires
        devices_wf(device_views(old(devices)@), *old(next_id) as int),
        attach_all(
            scan_start(old(devices)@, old(miss_counts)@, *old(next_id)),
            observation_views(current@),
        ).next_id <= u32::MAX,
    ensures
        attach_all(
            scan_start(old(devices)@, old(miss_counts)@, *old(next_id)),
            observation_views(current@),
        ) == (ScanView {
            devices: device_views(final(devices)@),
            misses: final(miss_counts)@,
            next_id: *final(next_id) as int,
            changes: change_views(changes@),
        }),
{
    let ghost start = scan_start(devices@, miss_counts@, *next_id);
    let ghost obs = observation_views(current@);
    let mut changes: Vec<DeviceChange> = Vec::new();
    let mut i: usize = 0;
    assert(change_views(changes@) =~= seq![]);
    while i < current.len()
        invariant
            obs == observation_views(current@),
            i <= current.len(),
            devices_wf(start.devices, start.next_id),
            0 <= start.next_id,
            attach_all(start, obs).next_id <= u32::MAX,
            attach_all(start, obs.take(i as int)) == (ScanView {
                devices: device_views(devices@),
                misses: miss_counts@,
                next_id: *next_id as int,
                changes: change_views(changes@),
            }),
        decreases current.len() - i,
    {
        let ghost before = attach_all(start, obs.take(i as int));
        let ghost o = obs[i as int];
        proof {
            assert(obs.take(i + 1).drop_last() =~= obs.take(i as int));
            assert(obs.take(i + 1).last() == o);
            attach_all_next_id_grows(start, obs, i as int);
            attach_all_next_id_grows(start, obs, i + 1);
            attaching_keeps_wf(start, obs.take(i as int));
        }
        let observed: &ScanObservation = &current[i];
        assert(o == observed@);
        let key: u16 = port_key(observed.usb_bus, observed.usb_address);
        miss_counts.remove(&key);
        let existing: Option<u32> = find_at(
            devices,
            observed.usb_bus,
            observed.usb_address,
            Ghost(*next_id as int),
        );
        if let Some(udid) = &observed.udid {
            let replaces: bool = match existing {
                Some(old_id) => {
                    assert(stands_at(before.devices, old_id, key));
                    let known: &UsbDevice = devices.get(&old_id).unwrap();
                    assert(before.devices[old_id] == known@);
                    known.udid != *udid
                },
                None => true,
            };
            if replaces {
                if let Some(old_id) = existing {
                    devices.remove(&old_id);
                    let ghost was = changes@;
                    changes.push(DeviceChange::Detached { device_id: old_id });
                    assert(change_views(changes@) =~= change_views(was).push(
                        DeviceChangeView::Detached { device_id: old_id },
                    ));
                    assert(device_views(devices@) =~= before.devices.remove(old_id));
                }
                let device_id: u32 = *next_id;
                *next_id = device_id + 1;
                let dev = UsbDevice {
                    device_id,
                    udid: udid.clone(),
                    product_id: observed.product_id,
                    usb_bus: observed.usb_bus,
                    usb_address: observed.usb_address,
                };
                assert(dev@ == new_device(o, device_id as int));
                let ghost mid = device_views(devices@);
                devices.insert(device_id, dev.clone());
                assert(device_views(devices@) =~= mid.insert(device_id, dev@));
                let ghost was = changes@;
                changes.push(DeviceChange::Attached(dev));
                assert(change_views(changes@) =~= change_views(was).push(
                    DeviceChangeView::Attached(new_device(o, device_id as int)),
                ));
                assert(change_views(changes@) =~= attach_step(before, o).changes);
            }
        }
        i = i + 1;
    }
    assert(obs.take(i as int) =~= obs);
    changes
}

/// Counts a miss for every device that was not seen, and drops those that
/// have been missing too long.
fn detach_missing(
    devices: &mut HashMap<u32, UsbDevice>,
    miss_counts: &mut HashMap<u16, u32>,
    current: &[ScanObservation],
    changes: &mut Vec<DeviceChange>,
    Ghost(mid): Ghost<ScanView>,
)
    requires
        mid.devices == device_views(old(devices)@),
        mid.misses == old(miss_counts)@,
        mid.changes == change_views(old(changes)@),
        devices_wf(mid.devices, mid.next_id),
        forall|k: u16|
            missing(mid, observation_views(current@), k) ==> #[trigger] misses_at(mid, k)
                < u32::MAX,
    ensures
        device_views(final(devices)@) == remaining(mid, observation_views(current@)),
        forall|k: u16| #[trigger]
            final(miss_counts)@.get(k) == miss_after(mid, observation_views(current@), k),
        exists|ids: Seq<u32>| #[trigger]
            lists_devices(mid, ids) && change_views(final(changes)@) == mid.changes
                + detach_changes(mid, observation_views(current@), ids),
{
    let ghost obs = observation_views(current@);
    let ids: Vec<u32> = known_ids(devices);
    assert(mid.devices.dom() =~= devices@.dom());
    let mut i: usize = 0;
    proof {
        assert(ids@.take(0).to_set() =~= Set::empty());
        assert(mid.changes + seq![] =~= mid.changes);
        assert(device_views(devices@) =~= remaining_of(mid, obs, ids@.take(0)));
    }
    while i < ids.len()
        invariant
            obs == observation_views(current@),
            i <= ids.len(),
            ids@.no_duplicates(),
            ids@.to_set() == mid.devices.dom(),
            devices_wf(mid.devices, mid.next_id),
            forall|k: u16|
                missing(mid, obs, k) ==> #[trigger] misses_at(mid, k) < u32::MAX,
            device_views(devices@) == remaining_of(mid, obs, ids@.take(i as int)),
            forall|k: u16| #[trigger]
                miss_counts@.get(k) == match device_at(mid.devices, k) {
                    Some(id) => if ids@.take(i as int).contains(id) {
                        miss_after(mid, obs, k)
                    } else {
                        mid.misses.get(k)
                    },
                    None => mid.misses.get(k),
                },
            change_views(changes@) == mid.changes + detach_changes(mid, obs, ids@.take(i as int)),
        decreases ids.len() - i,
    {
        let id: u32 = ids[i];
        let ghost done = ids@.take(i as int);
        let ghost next = ids@.take(i + 1);
        proof {
            assert(next.drop_last() =~= done);
            assert(next.last() == id);
            assert(next =~= done.push(id));
            assert(ids@.to_set().contains(id));
            assert(!done.contains(id));
            assert(mid.devices.contains_key(id));
            device_at_is_unique(mid.devices, mid.next_id, id);
            assert(remaining_of(mid, obs, done).contains_key(id));
            assert(device_views(devices@).contains_key(id));
            assert forall|q: u32| next.contains(q) <==> done.contains(q) || q == id by {
                if done.contains(q) {
                    let j = choose|j: int| 0 <= j < done.len() && done[j] == q;
                    assert(next[j] == q);
                }
                assert(next[i as int] == id);
            }
        }
        let d: &UsbDevice = devices.get(&id).unwrap();
        assert(d@ == device_views(devices@)[id]);
        assert(d@ == mid.devices[id]);
        let ghost k = mid.devices[id].port();
        let key: u16 = port_key(d.usb_bus, d.usb_address);
        let ghost misses_before = miss_counts@;
        let ghost devices_before = device_views(devices@);
        let ghost changes_before = changes@;
        assert(misses_before.get(k) == mid.misses.get(k));
        if !port_seen(current, d.usb_bus, d.usb_address) {
            assert(missing(mid, obs, k));
            let so_far: u32 = match miss_counts.get(&key) {
                Some(n) => *n,
                None => 0,
            };
            assert(so_far == misses_at(mid, k));
            let misses: u32 = so_far + 1;
            if misses >= DETACH_AFTER_MISSES {
                assert(gone(mid, obs, id));
                devices.remove(&id);
                assert(device_views(devices@) =~= devices_before.remove(id));
                miss_counts.remove(&key);
                changes.push(DeviceChange::Detached { device_id: id });
                assert(change_views(changes@) =~= change_views(changes_before).push(
                    DeviceChangeView::Detached { device_id: id },
                ));
            } else {
                assert(!gone(mid, obs, id));
                miss_counts.insert(key, misses);
            }
        } else {
            assert(!gone(mid, obs, id));
        }
        proof {
            assert(change_views(changes@) =~= mid.changes + detach_changes(mid, obs, next));
            assert(device_views(devices@) == if gone(mid, obs, id) {
                devices_before.remove(id)
            } else {
                devices_before
            });
            assert forall|q: u32| #[trigger]
                device_views(devices@).contains_key(q) == remaining_of(
                    mid,
                    obs,
                    next,
                ).contains_key(q) by {
                assert(devices_before.contains_key(q) == remaining_of(
                    mid,
                    obs,
                    done,
                ).contains_key(q));
            }
            assert(device_views(devices@) =~= remaining_of(mid, obs, next));
            assert forall|q: u16| #[trigger] miss_counts@.get(q) == match device_at(
                mid.devices,
                q,
            ) {
                Some(x) => if next.contains(x) {
                    miss_after(mid, obs, q)
                } else {
                    mid.misses.get(q)
                },
                None => mid.misses.get(q),
            } by {
                assert(misses_before.get(q) == match device_at(mid.devices, q) {
                    Some(x) => if done.contains(x) {
                        miss_after(mid, obs, q)
                    } else {
                        mid.misses.get(q)
                    },
                    None => mid.misses.get(q),
                });
                if q != k {
                    assert(miss_counts@.get(q) == misses_before.get(q));
                    if device_at(mid.devices, q) == Some(id) {
                        assert(stands_at(mid.devices, id, q));
                    }
                }
            }
        }
        i = i + 1;
    }
    proof {
        assert(ids@.take(i as int) =~= ids@);
        assert(device_views(devices@) =~= remaining(mid, obs)) by {
            assert forall|id: u32| gone(mid, obs, id) implies ids@.contains(id) by {
                assert(ids@.to_set().contains(id));
            }
        }
        assert forall|k: u16| #[trigger] miss_counts@.get(k) == miss_after(mid, obs, k) by {
            match device_at(mid.devices, k) {
                Some(id) => {
                    assert(stands_at(mid.devices, id, k));
                    assert(ids@.to_set().contains(id));
                },
                None => {},
            }
        }
        assert(lists_devices(mid, ids@));
    }
}

/// Brings the known devices up to date with one look at the bus, and returns
/// what changed. Ports are told apart by bus and address. A device that stays
/// keeps its number; another serial at its port is a replacement; a port
/// whose serial cannot be read counts as alive and is not attached until it
/// can be.
pub fn diff_devices(
    devices: &mut HashMap<u32, UsbDevice>,
    miss_counts: &mut HashMap<u16, u32>,
    next_id: &mut u32,
    current: &[ScanObservation],
) -> (changes: Vec<DeviceChange>)
    requires
        devices_wf(device_views(old(devices)@), *old(next_id) as int),
        attach_all(
            scan_start(old(devices)@, old(miss_counts)@, *old(next_id)),
            observation_views(current@),
        ).next_id <= u32::MAX,
        forall|k: u16|
            missing(
                attach_all(
                    scan_start(old(devices)@, old(miss_counts)@, *old(next_id)),
                    observation_views(current@),
                ),
                observation_views(current@),
                k,
            ) ==> #[trigger] misses_at(
                attach_all(
                    scan_start(old(devices)@, old(miss_counts)@, *old(next_id)),
                    observation_views(current@),
                ),
                k,
            ) < u32::MAX,
    ensures
        scanned(
            scan_start(old(devices)@, old(miss_counts)@, *old(next_id)),
            observation_views(current@),
            ScanView {
                devices: device_views(final(devices)@),
                misses: final(miss_counts)@,
                next_id: *final(next_id) as int,
                changes: change_views(changes@),
            },
        ),
        devices_wf(device_views(final(devices)@), *final(next_id) as int),
{
    let ghost start = scan_start(devices@, miss_counts@, *next_id);
    let ghost obs = observation_views(current@);
    let ghost mid = attach_all(start, obs);
    proof {
        attaching_keeps_wf(start, obs);
    }
    let mut changes = attach_observed(devices, miss_counts, next_id, current);
    detach_missing(devices, miss_counts, current, &mut changes, Ghost(mid));
    proof {
        let left = device_views(devices@);
        assert forall|a: u32| #[trigger] left.contains_key(a) implies mid.devices.contains_key(a)
            && left[a] == mid.devices[a] by {}
    }
    changes
}

/// What the attachments leave alone: a device whose port shows either the
/// same serial or none.
proof fn attaching_keeps_agreeing_device(s: ScanView, obs: Seq<ObservationView>, id: u32)
    requires
        devices_wf(s.devices, s.next_id),
        0 <= s.next_id,
        attach_all(s, obs).next_id <= u32::MAX,
        s.devices.contains_key(id),
        forall|i: int|
            0 <= i < obs.len() && (#[trigger] obs[i]).port() == s.devices[id].port() ==> (
            obs[i].udid matches Some(u) ==> u == s.devices[id].udid),
    ensures
        attach_all(s, obs).devices.contains_key(id),
        attach_all(s, obs).devices[id] == s.devices[id],
        attach_all(s, obs).changes.contains(DeviceChangeView::Detached { device_id: id })
            ==> s.changes.contains(DeviceChangeView::Detached { device_id: id }),
    decreases obs.len(),
{
    if obs.len() > 0 {
        let n = obs.len() - 1;
        attach_all_next_id_grows(s, obs, n);
        assert(obs.take(n) =~= obs.drop_last());
        assert forall|i: int|
            0 <= i < obs.drop_last().len() && (#[trigger] obs.drop_last()[i]).port()
                == s.devices[id].port() implies (obs.drop_last()[i].udid matches Some(u) ==> u
            == s.devices[id].udid) by {
            assert(obs.drop_last()[i] == obs[i]);
        }
        attaching_keeps_agreeing_device(s, obs.drop_last(), id);
        attaching_keeps_wf(s, obs.drop_last());
        let before = attach_all(s, obs.drop_last());
        let o = obs.last();
        assert(obs[n] == o);
        device_at_is_unique(before.devices, before.next_id, id);
        let gone_id = DeviceChangeView::Detached { device_id: id };
        match device_at(before.devices, o.port()) {
            Some(old_id) => {
                assert(stands_at(before.devices, old_id, o.port()));
            },
            None => {},
        }
        let after = attach_step(before, o);
        if after.changes.contains(gone_id) {
            let j = choose|j: int| 0 <= j < after.changes.len() && after.changes[j] == gone_id;
            if j < before.changes.len() {
                assert(before.changes[j] == gone_id);
            }
        }
    }
}

proof fn attaching_and_misses(s: ScanView, obs: Seq<ObservationView>, k: u16)
    ensures
        attach_all(s, obs).misses.get(k) == if seen(obs, k) {
            None
        } else {
            s.misses.get(k)
        },
    decreases obs.len(),
{
    if obs.len() > 0 {
        attaching_and_misses(s, obs.drop_last(), k);
        let last = obs.len() - 1;
        if obs.last().port() == k {
            assert(obs[last].port() == k);
        } else if seen(obs, k) {
            let i = choose|i: int| 0 <= i < obs.len() && (#[trigger] obs[i]).port() == k;
            assert(obs.drop_last()[i] == obs[i]);
        } else {
            assert(!seen(obs.drop_last(), k)) by {
                if seen(obs.drop_last(), k) {
                    let i = choose|i: int|
                        0 <= i < obs.drop_last().len() && (#[trigger] obs.drop_last()[i]).port()
                            == k;
                    assert(obs[i].port() == k);
                }
            }
        }
    }
}

proof fn detach_changes_are_gone(s: ScanView, obs: Seq<ObservationView>, ids: Seq<u32>)
    ensures
        forall|j: int|
            0 <= j < detach_changes(s, obs, ids).len() ==> (#[trigger] detach_changes(
                s,
                obs,
                ids,
            )[j] matches DeviceChangeView::Detached { device_id } && gone(s, obs, device_id)),
        forall|i: int|
            0 <= i < ids.len() && gone(s, obs, #[trigger] ids[i]) ==> detach_changes(
                s,
                obs,
                ids,
            ).contains(DeviceChangeView::Detached { device_id: ids[i] }),
    decreases ids.len(),
{
    if ids.len() > 0 {
        detach_changes_are_gone(s, obs, ids.drop_last());
        let before = detach_changes(s, obs, ids.drop_last());
        let all = detach_changes(s, obs, ids);
        assert forall|i: int| 0 <= i < ids.len() && gone(s, obs, #[trigger] ids[i]) implies all.contains(
            DeviceChangeView::Detached { device_id: ids[i] },
        ) by {
            if i == ids.len() - 1 {
                assert(all[all.len() - 1] == DeviceChangeView::Detached { device_id: ids[i] });
            } else {
                assert(ids.drop_last()[i] == ids[i]);
                let j = choose|j: int|
                    0 <= j < before.len() && before[j] == DeviceChangeView::Detached {
                        device_id: ids[i],
                    };
                assert(all[j] == before[j]);
            }
        }
    }
}

/// A device that stays at its port keeps its number, also while its serial
/// cannot be read: it is not reported as detached.
pub proof fn staying_device_keeps_its_identity(
    start: ScanView,
    obs: Seq<ObservationView>,
    end: ScanView,
    id: u32,
)
    requires
        devices_wf(start.devices, start.next_id),
        0 <= start.next_id,
        attach_all(start, obs).next_id <= u32::MAX,
        start.changes.len() == 0,
        scanned(start, obs, end),
        start.devices.contains_key(id),
        seen(obs, start.devices[id].port()),
        forall|i: int|
            0 <= i < obs.len() && (#[trigger] obs[i]).port() == start.devices[id].port() ==> (
            obs[i].udid matches Some(u) ==> u == start.devices[id].udid),
    ensures
        end.devices.contains_key(id),
        end.devices[id] == start.devices[id],
        !end.changes.contains(DeviceChangeView::Detached { device_id: id }),
{
    attaching_keeps_agreeing_device(start, obs, id);
    let mid = attach_all(start, obs);
    let ids = choose|ids: Seq<u32>| #[trigger]
        lists_devices(mid, ids) && end.changes == mid.changes + detach_changes(mid, obs, ids);
    detach_changes_are_gone(mid, obs, ids);
    let gone_id = DeviceChangeView::Detached { device_id: id };
    if end.changes.contains(gone_id) {
        let j = choose|j: int| 0 <= j < end.changes.len() && end.changes[j] == gone_id;
        if j < mid.changes.len() {
            assert(mid.changes[j] == gone_id);
        } else {
            assert(detach_changes(mid, obs, ids)[j - mid.changes.len()] == gone_id);
        }
    }
}

/// One look without a device does not detach it: it stays, and the miss is
/// counted.
pub proof fn first_miss_does_not_detach(
    start: ScanView,
    obs: Seq<ObservationView>,
    end: ScanView,
    id: u32,
)
    requires
        devices_wf(start.devices, start.next_id),
        0 <= start.next_id,
        attach_all(start, obs).next_id <= u32::MAX,
        start.changes.len() == 0,
        scanned(start, obs, end),
        start.devices.contains_key(id),
        !seen(obs, start.devices[id].port()),
        start.misses.get(start.devices[id].port()) is None,
    ensures
        end.devices.contains_key(id),
        end.devices[id] == start.devices[id],
        !end.changes.contains(DeviceChangeView::Detached { device_id: id }),
        end.misses.get(start.devices[id].port()) == Some(1u32),
{
    let k = start.devices[id].port();
    attaching_keeps_agreeing_device(start, obs, id);
    attaching_and_misses(start, obs, k);
    attaching_keeps_wf(start, obs);
    let mid = attach_all(start, obs);
    device_at_is_unique(mid.devices, mid.next_id, id);
    assert(misses_at(mid, k) == 0);
    assert(!gone(mid, obs, id));
    assert(end.misses.get(k) == miss_after(mid, obs, k));
    let ids = choose|ids: Seq<u32>| #[trigger]
        lists_devices(mid, ids) && end.changes == mid.changes + detach_changes(mid, obs, ids);
    detach_changes_are_gone(mid, obs, ids);
    let gone_id = DeviceChangeView::Detached { device_id: id };
    if end.changes.contains(gone_id) {
        let j = choose|j: int| 0 <= j < end.changes.len() && end.changes[j] == gone_id;
        if j < mid.changes.len() {
            assert(mid.changes[j] == gone_id);
        } else {
            assert(detach_changes(mid, obs, ids)[j - mid.changes.len()] == gone_id);
        }
    }
}

/// The second look in a row without a device detaches it, reports it, and
/// forgets its misses.
pub proof fn second_miss_detaches(
    start: ScanView,
    obs: Seq<ObservationView>,
    end: ScanView,
    id: u32,
)
    requires
        devices_wf(start.devices, start.next_id),
        0 <= start.next_id,
        attach_all(start, obs).next_id <= u32::MAX,
        scanned(start, obs, end),
        start.devices.contains_key(id),
        !seen(obs, start.devices[id].port()),
        start.misses.get(start.devices[id].port()) == Some(1u32),
    ensures
        !end.devices.contains_key(id),
        end.changes.contains(DeviceChangeView::Detached { device_id: id }),
        end.misses.get(start.devices[id].port()) is None,
{
    let k = start.devices[id].port();
    attaching_keeps_agreeing_device(start, obs, id);
    attaching_and_misses(start, obs, k);
    attaching_keeps_wf(start, obs);
    let mid = attach_all(start, obs);
    device_at_is_unique(mid.devices, mid.next_id, id);
    assert(misses_at(mid, k) == 1);
    assert(gone(mid, obs, id));
    assert(end.misses.get(k) == miss_after(mid, obs, k));
    let ids = choose|ids: Seq<u32>| #[trigger]
        lists_devices(mid, ids) && end.changes == mid.changes + detach_changes(mid, obs, ids);
    detach_changes_are_gone(mid, obs, ids);
    assert(ids.to_set().contains(id));
    let i = choose|i: int| 0 <= i < ids.len() && ids[i] == id;
    let tail = detach_changes(mid, obs, ids);
    assert(gone(mid, obs, ids[i]));
    let j = choose|j: int|
        0 <= j < tail.len() && tail[j] == DeviceChangeView::Detached { device_id: id };
    assert(end.changes[mid.changes.len() + j] == tail[j]);
}

/// A port that is seen has no misses afterwards: only misses in a row count.
pub proof fn being_seen_clears_misses(
    start: ScanView,
    obs: Seq<ObservationView>,
    end: ScanView,
    k: u16,
)
    requires
        scanned(start, obs, end),
        seen(obs, k),
    ensures
        end.misses.get(k) is None,
{
    attaching_and_misses(start, obs, k);
    assert(end.misses.get(k) == miss_after(attach_all(start, obs), obs, k));
}

proof fn attached_changes(s: ScanView, obs: Seq<ObservationView>, d: UsbDeviceView)
    requires
        0 <= s.next_id,
        attach_all(s, obs).next_id <= u32::MAX,
        attach_all(s, obs).changes.contains(DeviceChangeView::Attached(d)),
        !s.changes.contains(DeviceChangeView::Attached(d)),
    ensures
        s.next_id <= d.device_id < attach_all(s, obs).next_id,
        exists|i: int|
            0 <= i < obs.len() && (#[trigger] obs[i]).udid == Some(d.udid) && obs[i].port()
                == d.port(),
    decreases obs.len(),
{
    let after = attach_all(s, obs);
    let n = obs.len() - 1;
    let before = attach_all(s, obs.drop_last());
    attach_all_next_id_grows(s, obs, n);
    assert(obs.take(n) =~= obs.drop_last());
    let j = choose|j: int|
        0 <= j < after.changes.len() && after.changes[j] == DeviceChangeView::Attached(d);
    if j < before.changes.len() {
        assert(before.changes[j] == DeviceChangeView::Attached(d));
        attached_changes(s, obs.drop_last(), d);
        let i = choose|i: int|
            0 <= i < obs.drop_last().len() && (#[trigger] obs.drop_last()[i]).udid == Some(d.udid)
                && obs.drop_last()[i].port() == d.port();
        assert(obs[i].udid == Some(d.udid));
    } else {
        attach_all_next_id_grows(s, obs.drop_last(), 0);
        assert(obs[n].udid == Some(d.udid));
    }
}

/// A device is attached only when its serial was read at its port, and it
/// gets a number that no device had before.
pub proof fn attached_devices_are_readable_and_fresh(
    start: ScanView,
    obs: Seq<ObservationView>,
    end: ScanView,
    d: UsbDeviceView,
)
    requires
        0 <= start.next_id,
        attach_all(start, obs).next_id <= u32::MAX,
        start.changes.len() == 0,
        scanned(start, obs, end),
        end.changes.contains(DeviceChangeView::Attached(d)),
    ensures
        start.next_id <= d.device_id < end.next_id,
        exists|i: int|
            0 <= i < obs.len() && (#[trigger] obs[i]).udid == Some(d.udid) && obs[i].port()
                == d.port(),
{
    let mid = attach_all(start, obs);
    let ids = choose|ids: Seq<u32>| #[trigger]
        lists_devices(mid, ids) && end.changes == mid.changes + detach_changes(mid, obs, ids);
    detach_changes_are_gone(mid, obs, ids);
    let j = choose|j: int|
        0 <= j < end.changes.len() && end.changes[j] == DeviceChangeView::Attached(d);
    if j >= mid.changes.len() {
        assert(detach_changes(mid, obs, ids)[j - mid.changes.len()] is Detached);
    } else {
        assert(mid.changes[j] == DeviceChangeView::Attached(d));
    }
    attached_changes(start, obs, d);
}

/// A device at a port with another serial than the one known there is a
/// replacement: the old device is detached, then the new one attached, under
/// a number of its own.
pub proof fn other_serial_is_a_replacement(s: ScanView, o: ObservationView, id: u32)
    requires
        devices_wf(s.devices, s.next_id),
        0 <= s.next_id < u32::MAX,
        s.devices.contains_key(id),
        s.devices[id].port() == o.port(),
        o.udid is Some,
        o.udid.unwrap() != s.devices[id].udid,
    ensures
        ({
            let end = attach_step(s, o);
            let new = new_device(o, s.next_id);
            &&& !end.devices.contains_key(id)
            &&& end.devices[s.next_id as u32] == new
            &&& end.changes == s.changes + seq![
                DeviceChangeView::Detached { device_id: id },
                DeviceChangeView::Attached(new),
            ]
        }),
{
    device_at_is_unique(s.devices, s.next_id, id);
}

/// A port whose serial cannot be read adds nothing and detaches nothing; it
/// only counts as alive.
pub proof fn unreadable_ports_change_nothing(s: ScanView, o: ObservationView)
    requires
        o.udid is None,
    ensures
        attach_step(s, o) == (ScanView { misses: s.misses.remove(o.port()), ..s }),
{
}

/// Whether no two observations are of one port.
pub open spec fn distinct_ports(obs: Seq<ObservationView>) -> bool {
    forall|i: int, j: int|
        #![trigger obs[i], obs[j]]
        0 <= i < j < obs.len() ==> obs[i].port() != obs[j].port()
}

/// Whether the port of every known device was seen.
pub open spec fn covers(obs: Seq<ObservationView>, devices: Map<u32, UsbDeviceView>) -> bool {
    forall|id: u32| #[trigger] devices.contains_key(id) ==> seen(obs, devices[id].port())
}

/// Whether a port that was seen with a serial has the device with that
/// serial.
spec fn settled(devices: Map<u32, UsbDeviceView>, o: ObservationView) -> bool {
    o.udid matches Some(u) ==> (device_at(devices, o.port()) matches Some(id) && devices[id].udid
        == u)
}

proof fn attaching_settles(s: ScanView, obs: Seq<ObservationView>, all: Seq<ObservationView>)
    requires
        devices_wf(s.devices, s.next_id),
        0 <= s.next_id,
        attach_all(s, obs).next_id <= u32::MAX,
        distinct_ports(obs),
        covers(all, s.devices),
        obs.len() <= all.len(),
        obs == all.take(obs.len() as int),
    ensures
        covers(all, attach_all(s, obs).devices),
        forall|i: int|
            0 <= i < obs.len() ==> settled(attach_all(s, obs).devices, #[trigger] obs[i]),
    decreases obs.len(),
{
    if obs.len() > 0 {
        let n = obs.len() - 1;
        let front = obs.drop_last();
        let o = obs.last();
        attach_all_next_id_grows(s, obs, n);
        assert(obs.take(n) =~= front);
        assert(front =~= all.take(n));
        assert forall|i: int, j: int|
            #![trigger front[i], front[j]]
            0 <= i < j < front.len() implies front[i].port() != front[j].port() by {
            assert(obs[i].port() != obs[j].port());
        }
        attaching_settles(s, front, all);
        attaching_keeps_wf(s, front);
        attaching_keeps_wf(s, obs);
        let before = attach_all(s, front);
        let after = attach_all(s, obs);
        assert(after == attach_step(before, o));
        assert(all[n] == o);
        match device_at(before.devices, o.port()) {
            Some(x) => assert(stands_at(before.devices, x, o.port())),
            None => {},
        }
        assert forall|id: u32| #[trigger] after.devices.contains_key(id) implies seen(
            all,
            after.devices[id].port(),
        ) by {
            if before.devices.contains_key(id) && after.devices[id] == before.devices[id] {
                assert(seen(all, before.devices[id].port()));
            } else {
                assert(all[n].port() == after.devices[id].port());
            }
        }
        assert forall|i: int| 0 <= i < obs.len() implies settled(
            after.devices,
            #[trigger] obs[i],
        ) by {
            if i < n {
                assert(settled(before.devices, front[i]));
                assert(obs[i].port() != obs[n].port());
                if obs[i].udid is Some {
                    let k = obs[i].port();
                    let id = device_at(before.devices, k).unwrap();
                    assert(stands_at(before.devices, id, k));
                    assert(before.devices.contains_key(id) && id < before.next_id);
                    assert(after.devices.contains_key(id));
                    assert(after.devices[id] == before.devices[id]);
                    device_at_is_unique(after.devices, after.next_id, id);
                }
            } else if o.udid is Some {
                if after.next_id == before.next_id + 1 {
                    let id = before.next_id as u32;
                    assert(after.devices.contains_key(id));
                    assert(after.devices[id] == new_device(o, before.next_id));
                    device_at_is_unique(after.devices, after.next_id, id);
                } else {
                    let id = device_at(before.devices, o.port()).unwrap();
                    assert(after.devices[id].udid == o.udid.unwrap());
                }
            }
        }
    }
}

proof fn settled_observations_add_nothing(s: ScanView, obs: Seq<ObservationView>)
    requires
        forall|i: int| 0 <= i < obs.len() ==> settled(s.devices, #[trigger] obs[i]),
        forall|i: int|
            0 <= i < obs.len() ==> !s.misses.contains_key((#[trigger] obs[i]).port()),
    ensures
        attach_all(s, obs) == s,
    decreases obs.len(),
{
    if obs.len() > 0 {
        let n = obs.len() - 1;
        let front = obs.drop_last();
        assert forall|i: int| 0 <= i < front.len() implies settled(
            s.devices,
            #[trigger] front[i],
        ) && !s.misses.contains_key(front[i].port()) by {
            assert(front[i] == obs[i]);
        }
        settled_observations_add_nothing(s, front);
        assert(settled(s.devices, obs[n]));
        assert(!s.misses.contains_key(obs[n].port()));
        assert(s.misses.remove(obs[n].port()) =~= s.misses);
    }
}

proof fn nothing_is_gone(s: ScanView, obs: Seq<ObservationView>, ids: Seq<u32>)
    requires
        covers(obs, s.devices),
    ensures
        detach_changes(s, obs, ids) == Seq::<DeviceChangeView>::empty(),
        remaining(s, obs) == s.devices,
        forall|k: u16| #[trigger] miss_after(s, obs, k) == s.misses.get(k),
    decreases ids.len(),
{
    if ids.len() > 0 {
        nothing_is_gone(s, obs, ids.drop_last());
        if s.devices.contains_key(ids.last()) {
            assert(seen(obs, s.devices[ids.last()].port()));
        }
    }
    assert forall|id: u32| !gone(s, obs, id) by {
        if s.devices.contains_key(id) {
            assert(seen(obs, s.devices[id].port()));
        }
    }
    assert(remaining(s, obs) =~= s.devices);
    assert forall|k: u16| #[trigger] miss_after(s, obs, k) == s.misses.get(k) by {
        if let Some(id) = device_at(s.devices, k) {
            assert(stands_at(s.devices, id, k));
            assert(seen(obs, s.devices[id].port()));
        }
    }
}

/// A second look that shows the same as the first changes nothing, where the
/// first showed every known device, and no port twice: no change is reported,
/// and the devices, the counts of misses and the next number stay.
pub proof fn looking_again_changes_nothing(
    start: ScanView,
    obs: Seq<ObservationView>,
    end: ScanView,
    again: ScanView,
)
    requires
        devices_wf(start.devices, start.next_id),
        0 <= start.next_id,
        attach_all(start, obs).next_id <= u32::MAX,
        distinct_ports(obs),
        covers(obs, start.devices),
        scanned(start, obs, end),
        scanned((ScanView { changes: seq![], ..end }), obs, again),
    ensures
        again.changes == Seq::<DeviceChangeView>::empty(),
        again.devices == end.devices,
        again.misses == end.misses,
        again.next_id == end.next_id,
{
    let mid = attach_all(start, obs);
    assert(obs =~= obs.take(obs.len() as int));
    attaching_settles(start, obs, obs);
    nothing_is_gone(mid, obs, seq![]);
    assert(end.devices == mid.devices);
    let next = ScanView { changes: seq![], ..end };
    assert forall|i: int| 0 <= i < obs.len() implies settled(next.devices, #[trigger] obs[i])
        && !next.misses.contains_key(obs[i].port()) by {
        let k = obs[i].port();
        being_seen_clears_misses(start, obs, end, k);
        assert(end.misses.get(k) is None);
        assert(settled(mid.devices, obs[i]));
    }
    settled_observations_add_nothing(next, obs);
    let ids = choose|ids: Seq<u32>| #[trigger]
        lists_devices(next, ids) && again.changes == next.changes + detach_changes(next, obs, ids);
    nothing_is_gone(next, obs, ids);
    assert(again.changes =~= seq![]);
    assert forall|k: u16| #[trigger] again.misses.contains_key(k) == end.misses.contains_key(k)
        && (end.misses.contains_key(k) ==> again.misses[k] == end.misses[k]) by {
        assert(again.misses.get(k) == miss_after(next, obs, k));
        assert(next.misses.get(k) == end.misses.get(k));
    }
    assert(again.misses.dom() =~= end.misses.dom());
    assert(again.misses =~= end.misses);
}

/// The serial that a descriptor gives: none if it is blank.
pub open spec fn serial_of(s: Seq<char>) -> Option<Seq<char>> {
    if text::trimmed(text::without_back(text::without_front(s, '\0'), '\0')).len() == 0 {
        None
    } else {
        Some(security::udid_core(s))
    }
}

/// The serial that a descriptor gives: none if it is blank.
pub fn read_serial(s: &str) -> (r: Option<String>)
    ensures
        text::opt_view(r) == serial_of(s@),
{
    let bare = trim_back_char(trim_front_char(s, '\0').as_str(), '\0');
    if trim(bare.as_str()).as_str().is_empty() {
        None
    } else {
        Some(core_of_udid(s))
    }
}

/// What the bus shows at a port: nothing of interest unless the vendor is
/// the right one. `serial` is what its descriptor says, if it could be read.
pub fn observe(
    vendor_id: u16,
    product_id: u16,
    usb_bus: u8,
    usb_address: u8,
    serial: Option<&str>,
) -> (r: Option<ScanObservation>)
    ensures
        match r {
            Some(o) => vendor_id == APPLE_VENDOR_ID && o@ == (ObservationView {
                usb_bus,
                usb_address,
                product_id,
                udid: match serial {
                    Some(s) => serial_of(s@),
                    None => None,
                },
            }),
            None => vendor_id != APPLE_VENDOR_ID,
        },
{
    if vendor_id != APPLE_VENDOR_ID {
        return None;
    }
    let udid = match serial {
        Some(s) => read_serial(s),
        None => None,
    };
    Some(ScanObservation { usb_bus, usb_address, product_id, udid })
}

/// Whether no count of misses has reached the limit.
pub open spec fn misses_wf(misses: Map<u16, u32>) -> bool {
    forall|k: u16| #[trigger] misses.contains_key(k) ==> misses[k] < DETACH_AFTER_MISSES
}

/// Keeps the set of attached devices from look to look.
pub struct DeviceScanner {
    devices: HashMap<u32, UsbDevice>,
    /// Looks in a row that missed a device, by port.
    miss_counts: HashMap<u16, u32>,
    next_id: u32,
}

impl DeviceScanner {
    /// What is known.
    pub closed spec fn state(&self) -> ScanView {
        scan_start(self.devices@, self.miss_counts@, self.next_id)
    }

    /// The scanner's invariant.
    pub open spec fn wf(&self) -> bool {
        &&& devices_wf(self.state().devices, self.state().next_id)
        &&& 0 <= self.state().next_id <= u32::MAX
        &&& misses_wf(self.state().misses)
        &&& self.state().changes == Seq::<DeviceChangeView>::empty()
    }

    /// A scanner that knows no device; the first one gets number 1.
    pub fn new() -> (s: Self)
        ensures
            s.wf(),
            s.state() == (ScanView {
                devices: Map::empty(),
                misses: Map::empty(),
                next_id: 1,
                changes: seq![],
            }),
    {
        let s = DeviceScanner { devices: HashMap::new(), miss_counts: HashMap::new(), next_id: 1 };
        assert(s.state().devices =~= Map::empty());
        s
    }

    /// Whether there are numbers left for this many new devices.
    pub fn room_for(&self, count: usize) -> (b: bool)
        requires
            self.wf(),
        ensures
            b == (self.state().next_id + count <= u32::MAX),
    {
        count as u64 <= (u32::MAX - self.next_id) as u64
    }

    /// Brings the devices up to date with one look at the bus. A look that
    /// failed changes nothing: it must not pass for an empty bus.
    pub fn scan(&mut self, enumerated: &Result<Vec<ScanObservation>, String>) -> (changes: Vec<
        DeviceChange,
    >)
        requires
            old(self).wf(),
            enumerated matches Ok(obs) ==> attach_all(
                old(self).state(),
                observation_views(obs@),
            ).next_id <= u32::MAX,
        ensures
            final(self).wf(),
            match enumerated {
                Ok(obs) => scanned(
                    old(self).state(),
                    observation_views(obs@),
                    (ScanView { changes: change_views(changes@), ..final(self).state() }),
                ),
                Err(_) => final(self).state() == old(self).state() && changes@.len() == 0,
            },
    {
        match enumerated {
            Ok(current) => {
                let ghost start = self.state();
                let ghost obs = observation_views(current@);
                let ghost mid = attach_all(start, obs);
                proof {
                    assert forall|k: u16| missing(mid, obs, k) implies #[trigger] misses_at(mid, k)
                        < u32::MAX by {
                        attaching_and_misses(start, obs, k);
                        if start.misses.contains_key(k) {
                            assert(start.misses.get(k) == Some(start.misses[k]));
                        }
                    }
                }
                let changes = diff_devices(
                    &mut self.devices,
                    &mut self.miss_counts,
                    &mut self.next_id,
                    current.as_slice(),
                );
                proof {
                    let end = self.state();
                    assert forall|k: u16| #[trigger] end.misses.contains_key(k) implies end.misses[k]
                        < DETACH_AFTER_MISSES by {
                        assert(end.misses.get(k) == miss_after(mid, obs, k));
                        attaching_and_misses(start, obs, k);
                        if start.misses.contains_key(k) {
                            assert(start.misses.get(k) == Some(start.misses[k]));
                        }
                    }
                }
                changes
            },
            Err(_) => Vec::new(),
        }
    }

    /// The devices, in the order in which they are kept.
    pub fn get_devices(&self) -> (r: Vec<UsbDevice>)
        ensures
            lists_all(self.state().devices, r@.map_values(|d: UsbDevice| d@)),
    {
        let ids = known_ids(&self.devices);
        let ghost m = self.state().devices;
        assert(m.dom() =~= self.devices@.dom());
        let mut r: Vec<UsbDevice> = Vec::new();
        let mut i: usize = 0;
        while i < ids.len()
            invariant
                i <= ids@.len(),
                m == self.state().devices,
                ids@.to_set() == self.devices@.dom(),
                r@.map_values(|d: UsbDevice| d@) =~= ids@.take(i as int).map_values(
                    |id: u32| m[id],
                ),
            decreases ids@.len() - i,
        {
            let id: u32 = ids[i];
            assert(ids@.to_set().contains(id));
            let d: &UsbDevice = self.devices.get(&id).unwrap();
            assert(m[id] == d@);
            let ghost was = r@.map_values(|d: UsbDevice| d@);
            r.push(d.clone());
            assert(r@.map_values(|d: UsbDevice| d@) =~= was.push(m[id]));
            i = i + 1;
        }
        assert(ids@.take(i as int) =~= ids@);
        assert(listing(m, ids@));
        r
    }

    /// How many devices there are.
    pub fn device_count(&self) -> (n: usize)
        ensures
            n == self.state().devices.dom().len(),
    {
        assert(self.state().devices.dom() =~= self.devices@.dom());
        self.devices.len()
    }

    /// The device with this number.
    pub fn get_device_by_id(&self, id: u32) -> (r: Option<UsbDevice>)
        ensures
            match r {
                Some(d) => self.state().devices.contains_key(id) && d@ == self.state().devices[id],
                None => !self.state().devices.contains_key(id),
            },
    {
        match self.devices.get(&id) {
            Some(d) => Some(d.clone()),
            None => None,
        }
    }
}

impl Default for DeviceScanner {
    fn default() -> (s: Self)
        ensures
            s.wf(),
            s.state().devices == Map::<u32, UsbDeviceView>::empty(),
            s.state().next_id == 1,
    {
        DeviceScanner::new()
    }
}

/// Whether `ids` names each device once.
pub open spec fn listing(devices: Map<u32, UsbDeviceView>, ids: Seq<u32>) -> bool {
    ids.no_duplicates() && ids.to_set() == devices.dom()
}

/// Whether `list` has each device once. The order is open.
pub open spec fn lists_all(devices: Map<u32, UsbDeviceView>, list: Seq<UsbDeviceView>) -> bool {
    exists|ids: Seq<u32>| #[trigger]
        listing(devices, ids) && list == ids.map_values(|id: u32| devices[id])
}

/// As many numbers are used up as there are observations, at most.
pub proof fn numbers_used_up(s: ScanView, obs: Seq<ObservationView>)
    ensures
        attach_all(s, obs).next_id <= s.next_id + obs.len(),
    decreases obs.len(),
{
    if obs.len() > 0 {
        numbers_used_up(s, obs.drop_last());
    }
}

/// The models that share a product number.
pub open spec fn models_of(pid: u16) -> Seq<char> {
    if 0x12A8 <= pid <= 0x12AF {
        "iPhone 5s / SE (1st gen)"@
    } else if 0x12B0 <= pid <= 0x12B7 {
        "iPhone 6 / 6 Plus"@
    } else if 0x12B8 <= pid <= 0x12BF {
        "iPhone 6s / 6s Plus / SE (2nd gen)"@
    } else if 0x12C0 <= pid <= 0x12C7 {
        "iPhone 7 / 7 Plus"@
    } else if 0x12C8 <= pid <= 0x12CF {
        "iPhone 8 / 8 Plus / X"@
    } else if 0x12D0 <= pid <= 0x12D7 {
        "iPhone XR / XS / XS Max"@
    } else if 0x12D8 <= pid <= 0x12DF {
        "iPhone 11 / 11 Pro / 11 Pro Max"@
    } else if 0x12E0 <= pid <= 0x12E7 {
        "iPhone SE (2nd/3rd gen) / 12 mini / 12 / 12 Pro / 12 Pro Max"@
    } else if 0x12E8 <= pid <= 0x12EF {
        "iPhone 13 / 13 mini / 13 Pro / 13 Pro Max"@
    } else if 0x12F0 <= pid <= 0x12F7 {
        "iPhone 14 / 14 Plus / 14 Pro / 14 Pro Max"@
    } else if 0x12F8 <= pid <= 0x12FF {
        "iPhone 15 / 15 Plus / 15 Pro / 15 Pro Max"@
    } else if 0x1300 <= pid <= 0x1307 {
        "iPhone 16 / 16 Plus / 16 Pro / 16 Pro Max"@
    } else if 0x1310 <= pid <= 0x1317 {
        "iPad (various models)"@
    } else if 0x1318 <= pid <= 0x131F {
        "iPad Pro (various models)"@
    } else if 0x1400 <= pid <= 0x1407 {
        "iPod Touch (7th gen)"@
    } else {
        "Unknown Apple Device"@
    }
}

/// The models that share a product number.
pub fn product_id_to_model(pid: u16) -> (s: &'static str)
    ensures
        s@ == models_of(pid),
{
    if 0x12A8 <= pid && pid <= 0x12AF {
        "iPhone 5s / SE (1st gen)"
    } else if 0x12B0 <= pid && pid <= 0x12B7 {
        "iPhone 6 / 6 Plus"
    } else if 0x12B8 <= pid && pid <= 0x12BF {
        "iPhone 6s / 6s Plus / SE (2nd gen)"
    } else if 0x12C0 <= pid && pid <= 0x12C7 {
        "iPhone 7 / 7 Plus"
    } else if 0x12C8 <= pid && pid <= 0x12CF {
        "iPhone 8 / 8 Plus / X"
    } else if 0x12D0 <= pid && pid <= 0x12D7 {
        "iPhone XR / XS / XS Max"
    } else if 0x12D8 <= pid && pid <= 0x12DF {
        "iPhone 11 / 11 Pro / 11 Pro Max"
    } else if 0x12E0 <= pid && pid <= 0x12E7 {
        "iPhone SE (2nd/3rd gen) / 12 mini / 12 / 12 Pro / 12 Pro Max"
    } else if 0x12E8 <= pid && pid <= 0x12EF {
        "iPhone 13 / 13 mini / 13 Pro / 13 Pro Max"
    } else if 0x12F0 <= pid && pid <= 0x12F7 {
        "iPhone 14 / 14 Plus / 14 Pro / 14 Pro Max"
    } else if 0x12F8 <= pid && pid <= 0x12FF {
        "iPhone 15 / 15 Plus / 15 Pro / 15 Pro Max"
    } else if 0x1300 <= pid && pid <= 0x1307 {
        "iPhone 16 / 16 Plus / 16 Pro / 16 Pro Max"
    } else if 0x1310 <= pid && pid <= 0x1317 {
        "iPad (various models)"
    } else if 0x1318 <= pid && pid <= 0x131F {
        "iPad Pro (various models)"
    } else if 0x1400 <= pid && pid <= 0x1407 {
        "iPod Touch (7th gen)"
    } else {
        "Unknown Apple Device"
    }
}

/// The devices after changes, one after the other.
pub open spec fn applied(
    devices: Map<u32, UsbDeviceView>,
    changes: Seq<DeviceChangeView>,
) -> Map<u32, UsbDeviceView>
    decreases changes.len(),
{
    if changes.len() == 0 {
        devices
    } else {
        let before = applied(devices, changes.drop_last());
        match changes.last() {
            DeviceChangeView::Attached(d) => before.insert(d.device_id, d),
            DeviceChangeView::Detached { device_id } => before.remove(device_id),
        }
    }
}

proof fn changes_follow_changes(
    devices: Map<u32, UsbDeviceView>,
    a: Seq<DeviceChangeView>,
    b: Seq<DeviceChangeView>,
)
    ensures
        applied(devices, a + b) == applied(applied(devices, a), b),
    decreases b.len(),
{
    if b.len() == 0 {
        assert(a + b =~= a);
    } else {
        changes_follow_changes(devices, a, b.drop_last());
        assert((a + b).drop_last() =~= a + b.drop_last());
    }
}

proof fn attaching_reports_every_change(s: ScanView, obs: Seq<ObservationView>)
    requires
        s.changes.len() == 0,
    ensures
        applied(s.devices, attach_all(s, obs).changes) == attach_all(s, obs).devices,
    decreases obs.len(),
{
    if obs.len() > 0 {
        let before = attach_all(s, obs.drop_last());
        let o = obs.last();
        attaching_reports_every_change(s, obs.drop_last());
        let after = attach_step(before, o);
        let new = DeviceChangeView::Attached(new_device(o, before.next_id));
        match (device_at(before.devices, o.port()), o.udid) {
            (Some(old_id), Some(udid)) => {
                if before.devices[old_id].udid != udid {
                    let old = DeviceChangeView::Detached { device_id: old_id };
                    assert(after.changes =~= before.changes.push(old).push(new));
                    assert(before.changes.push(old).push(new).drop_last()
                        =~= before.changes.push(old));
                    assert(before.changes.push(old).drop_last() =~= before.changes);
                    reveal_with_fuel(applied, 3);
                }
            },
            (None, Some(udid)) => {
                assert(after.changes =~= before.changes.push(new));
                assert(before.changes.push(new).drop_last() =~= before.changes);
            },
            _ => {},
        }
    }
}

proof fn detaching_reports_every_change(s: ScanView, obs: Seq<ObservationView>, ids: Seq<u32>)
    ensures
        applied(s.devices, detach_changes(s, obs, ids)) == remaining_of(s, obs, ids),
    decreases ids.len(),
{
    if ids.len() > 0 {
        let front = ids.drop_last();
        let last = ids.last();
        detaching_reports_every_change(s, obs, front);
        let before = detach_changes(s, obs, front);
        assert forall|id: u32| ids.contains(id) <==> front.contains(id) || id == last by {
            if ids.contains(id) {
                let i = choose|i: int| 0 <= i < ids.len() && ids[i] == id;
                if i < ids.len() - 1 {
                    assert(front[i] == id);
                }
            }
            if front.contains(id) {
                let i = choose|i: int| 0 <= i < front.len() && front[i] == id;
                assert(ids[i] == id);
            }
            assert(ids[ids.len() - 1] == last);
        }
        if gone(s, obs, last) {
            let c = DeviceChangeView::Detached { device_id: last };
            assert(before.push(c).drop_last() =~= before);
            assert(remaining_of(s, obs, front).remove(last) =~= remaining_of(s, obs, ids));
        } else {
            assert(remaining_of(s, obs, front) =~= remaining_of(s, obs, ids));
        }
    } else {
        assert(remaining_of(s, obs, ids) =~= s.devices);
    }
}

/// Every change is reported, and nothing else: whoever knew the devices before
/// a look and follows the changes that it reports knows the devices after it.
pub proof fn changes_lead_to_the_devices(
    start: ScanView,
    obs: Seq<ObservationView>,
    end: ScanView,
)
    requires
        start.changes.len() == 0,
        scanned(start, obs, end),
    ensures
        applied(start.devices, end.changes) == end.devices,
{
    let mid = attach_all(start, obs);
    let ids = choose|ids: Seq<u32>| #[trigger]
        lists_devices(mid, ids) && end.changes == mid.changes + detach_changes(mid, obs, ids);
    attaching_reports_every_change(start, obs);
    detaching_reports_every_change(mid, obs, ids);
    changes_follow_changes(start.devices, mid.changes, detach_changes(mid, obs, ids));
    assert(remaining_of(mid, obs, ids) =~= remaining(mid, obs)) by {
        assert forall|id: u32| mid.devices.contains_key(id) implies ids.contains(id) by {
            assert(ids.to_set().contains(id));
        }
    }
}

proof fn attaching_reaches_every_port(s: ScanView, obs: Seq<ObservationView>)
    requires
        devices_wf(s.devices, s.next_id),
        0 <= s.next_id,
        attach_all(s, obs).next_id <= u32::MAX,
        distinct_ports(obs),
    ensures
        forall|i: int|
            0 <= i < obs.len() ==> settled(attach_all(s, obs).devices, #[trigger] obs[i]),
    decreases obs.len(),
{
    if obs.len() > 0 {
        let n = obs.len() - 1;
        let front = obs.drop_last();
        let o = obs.last();
        attach_all_next_id_grows(s, obs, n);
        assert(obs.take(n) =~= front);
        assert forall|i: int, j: int|
            #![trigger front[i], front[j]]
            0 <= i < j < front.len() implies front[i].port() != front[j].port() by {
            assert(obs[i].port() != obs[j].port());
        }
        attaching_reaches_every_port(s, front);
        attaching_keeps_wf(s, front);
        attaching_keeps_wf(s, obs);
        let before = attach_all(s, front);
        let after = attach_all(s, obs);
        match device_at(before.devices, o.port()) {
            Some(x) => assert(stands_at(before.devices, x, o.port())),
            None => {},
        }
        assert forall|i: int| 0 <= i < obs.len() implies settled(
            after.devices,
            #[trigger] obs[i],
        ) by {
            if i < n {
                assert(settled(before.devices, front[i]));
                assert(obs[i].port() != obs[n].port());
                if obs[i].udid is Some {
                    let k = obs[i].port();
                    let id = device_at(before.devices, k).unwrap();
                    assert(stands_at(before.devices, id, k));
                    assert(before.devices.contains_key(id) && id < before.next_id);
                    assert(after.devices.contains_key(id));
                    assert(after.devices[id] == before.devices[id]);
                    device_at_is_unique(after.devices, after.next_id, id);
                }
            } else if o.udid is Some {
                if after.next_id == before.next_id + 1 {
                    let id = before.next_id as u32;
                    assert(after.devices.contains_key(id));
                    assert(after.devices[id] == new_device(o, before.next_id));
                    device_at_is_unique(after.devices, after.next_id, id);
                } else {
                    let id = device_at(before.devices, o.port()).unwrap();
                    assert(after.devices[id].udid == o.udid.unwrap());
                }
            }
        }
    }
}

/// Whatever device the bus shows, with a serial that can be read, is among the
/// devices afterwards: at its port, and with its serial.
pub proof fn readable_devices_are_known(
    start: ScanView,
    obs: Seq<ObservationView>,
    end: ScanView,
    i: int,
)
    requires
        devices_wf(start.devices, start.next_id),
        0 <= start.next_id,
        attach_all(start, obs).next_id <= u32::MAX,
        distinct_ports(obs),
        scanned(start, obs, end),
        0 <= i < obs.len(),
        obs[i].udid is Some,
    ensures
        exists|id: u32|
            {
                &&& #[trigger] end.devices.contains_key(id)
                &&& end.devices[id].udid == obs[i].udid.unwrap()
                &&& end.devices[id].usb_bus == obs[i].usb_bus
                &&& end.devices[id].usb_address == obs[i].usb_address
                &&& end.devices[id].device_id == id
            },
{
    let mid = attach_all(start, obs);
    attaching_reaches_every_port(start, obs);
    attaching_keeps_wf(start, obs);
    assert(settled(mid.devices, obs[i]));
    let k = obs[i].port();
    let id = device_at(mid.devices, k).unwrap();
    assert(stands_at(mid.devices, id, k));
    assert(seen(obs, k));
    assert(!gone(mid, obs, id));
    assert(end.devices.contains_key(id));
    let d = end.devices[id];
    port_number_injective(d.usb_bus, d.usb_address, obs[i].usb_bus, obs[i].usb_address);
}

/// A device at a port where none was known is attached as it was seen, under
/// the next number, and this is reported.
pub proof fn new_devices_are_attached(s: ScanView, o: ObservationView, udid: Seq<char>)
    requires
        o.udid == Some(udid),
        forall|id: u32| #[trigger]
            s.devices.contains_key(id) ==> s.devices[id].usb_bus != o.usb_bus
                || s.devices[id].usb_address != o.usb_address,
        0 <= s.next_id < u32::MAX,
    ensures
        ({
            let d = UsbDeviceView {
                device_id: s.next_id as u32,
                udid,
                product_id: o.product_id,
                usb_bus: o.usb_bus,
                usb_address: o.usb_address,
            };
            let end = attach_step(s, o);
            &&& end.devices == s.devices.insert(s.next_id as u32, d)
            &&& end.changes == s.changes.push(DeviceChangeView::Attached(d))
            &&& end.next_id == s.next_id + 1
            &&& end.misses == s.misses.remove((o.usb_bus * 256 + o.usb_address) as u16)
        }),
{
    assert forall|id: u32| !stands_at(s.devices, id, o.port()) by {
        if s.devices.contains_key(id) {
            port_number_injective(
                s.devices[id].usb_bus,
                s.devices[id].usb_address,
                o.usb_bus,
                o.usb_address,
            );
        }
    }
    assert(attach_step(s, o).changes =~= s.changes.push(
        DeviceChangeView::Attached(new_device(o, s.next_id)),
    ));
}

/// A device that is seen again where it is known, with the same serial, stays
/// what it is, and nothing is reported.
pub proof fn known_devices_stay(s: ScanView, o: ObservationView, id: u32)
    requires
        devices_wf(s.devices, s.next_id),
        s.devices.contains_key(id),
        s.devices[id].usb_bus == o.usb_bus,
        s.devices[id].usb_address == o.usb_address,
        o.udid == Some(s.devices[id].udid) || o.udid is None,
    ensures
        attach_step(s, o).devices == s.devices,
        attach_step(s, o).changes == s.changes,
        attach_step(s, o).next_id == s.next_id,
{
    device_at_is_unique(s.devices, s.next_id, id);
}

/// A device that takes the place of another is attached as it was seen, under
/// a number of its own, once the other is detached.
pub proof fn replacements_are_attached(s: ScanView, o: ObservationView, id: u32, udid: Seq<char>)
    requires
        devices_wf(s.devices, s.next_id),
        0 <= s.next_id < u32::MAX,
        s.devices.contains_key(id),
        s.devices[id].usb_bus == o.usb_bus,
        s.devices[id].usb_address == o.usb_address,
        o.udid == Some(udid),
        udid != s.devices[id].udid,
    ensures
        ({
            let d = UsbDeviceView {
                device_id: s.next_id as u32,
                udid,
                product_id: o.product_id,
                usb_bus: o.usb_bus,
                usb_address: o.usb_address,
            };
            let end = attach_step(s, o);
            &&& end.devices == s.devices.remove(id).insert(s.next_id as u32, d)
            &&& end.changes == s.changes.push(
                DeviceChangeView::Detached { device_id: id },
            ).push(DeviceChangeView::Attached(d))
            &&& end.next_id == s.next_id + 1
        }),
{
    device_at_is_unique(s.devices, s.next_id, id);
    let new = DeviceChangeView::Attached(new_device(o, s.next_id));
    assert(attach_step(s, o).changes =~= s.changes.push(
        DeviceChangeView::Detached { device_id: id },
    ).push(new));
}

/// A device leaves only after it was missed: whoever was there before and is
/// not any more was not seen at its port in this look, nor in the one before;
/// or another serial was read there.
pub proof fn devices_leave_for_a_reason(
    start: ScanView,
    obs: Seq<ObservationView>,
    end: ScanView,
    id: u32,
)
    requires
        devices_wf(start.devices, start.next_id),
        0 <= start.next_id,
        attach_all(start, obs).next_id <= u32::MAX,
        start.changes.len() == 0,
        scanned(start, obs, end),
        start.devices.contains_key(id),
        !end.devices.contains_key(id),
    ensures
        ({
            let k = start.devices[id].port();
            ||| !seen(obs, k) && start.misses.contains_key(k) && start.misses[k] >= 1
            ||| exists|i: int|
                0 <= i < obs.len() && (#[trigger] obs[i]).port() == k && obs[i].udid is Some
                    && obs[i].udid != Some(start.devices[id].udid)
        }),
{
    let k = start.devices[id].port();
    if forall|i: int|
        0 <= i < obs.len() && (#[trigger] obs[i]).port() == k ==> (obs[i].udid matches Some(u) ==> u
            == start.devices[id].udid) {
        if seen(obs, k) {
            staying_device_keeps_its_identity(start, obs, end, id);
        } else if start.misses.get(k) is None {
            first_miss_does_not_detach(start, obs, end, id);
        } else if start.misses[k] == 0 {
            attaching_keeps_agreeing_device(start, obs, id);
            attaching_and_misses(start, obs, k);
            let mid = attach_all(start, obs);
            assert(misses_at(mid, k) == 0);
            assert(!gone(mid, obs, id));
        }
    }
}

/// A list of all devices has every device, each once.
pub proof fn lists_have_every_device_once(
    devices: Map<u32, UsbDeviceView>,
    list: Seq<UsbDeviceView>,
)
    requires
        lists_all(devices, list),
    ensures
        forall|id: u32| #[trigger] devices.contains_key(id) ==> list.contains(devices[id]),
        list.len() == devices.dom().len(),
{
    let ids = choose|ids: Seq<u32>| #[trigger]
        listing(devices, ids) && list == ids.map_values(|id: u32| devices[id]);
    ids.unique_seq_to_set();
    assert forall|id: u32| #[trigger] devices.contains_key(id) implies list.contains(
        devices[id],
    ) by {
        assert(ids.to_set().contains(id));
        let i = choose|i: int| 0 <= i < ids.len() && ids[i] == id;
        assert(list[i] == devices[id]);
    }
}

/// A list of all devices has nothing but devices.
pub proof fn lists_have_devices_only(
    devices: Map<u32, UsbDeviceView>,
    list: Seq<UsbDeviceView>,
    i: int,
) -> (id: u32)
    requires
        lists_all(devices, list),
        0 <= i < list.len(),
    ensures
        devices.contains_key(id),
        devices[id] == list[i],
{
    let ids = choose|ids: Seq<u32>| #[trigger]
        listing(devices, ids) && list == ids.map_values(|id: u32| devices[id]);
    assert(ids.to_set().contains(ids[i]));
    assert(devices.dom().contains(ids[i]));
    ids[i]
}

/// The product numbers go by blocks of eight.
pub proof fn models_go_by_blocks(r: int)
    requires
        0 <= r < 8,
    ensures
        models_of((0x12A8 + r) as u16) == "iPhone 5s / SE (1st gen)"@,
        models_of((0x12B0 + r) as u16) == "iPhone 6 / 6 Plus"@,
        models_of((0x12B8 + r) as u16) == "iPhone 6s / 6s Plus / SE (2nd gen)"@,
        models_of((0x12C0 + r) as u16) == "iPhone 7 / 7 Plus"@,
        models_of((0x12C8 + r) as u16) == "iPhone 8 / 8 Plus / X"@,
        models_of((0x12D0 + r) as u16) == "iPhone XR / XS / XS Max"@,
        models_of((0x12D8 + r) as u16) == "iPhone 11 / 11 Pro / 11 Pro Max"@,
        models_of((0x12E0 + r) as u16) == "iPhone SE (2nd/3rd gen) / 12 mini / 12 / 12 Pro / 12 Pro Max"@,
        models_of((0x12E8 + r) as u16) == "iPhone 13 / 13 mini / 13 Pro / 13 Pro Max"@,
        models_of((0x12F0 + r) as u16) == "iPhone 14 / 14 Plus / 14 Pro / 14 Pro Max"@,
        models_of((0x12F8 + r) as u16) == "iPhone 15 / 15 Plus / 15 Pro / 15 Pro Max"@,
        models_of((0x1300 + r) as u16) == "iPhone 16 / 16 Plus / 16 Pro / 16 Pro Max"@,
        models_of((0x1310 + r) as u16) == "iPad (various models)"@,
        models_of((0x1318 + r) as u16) == "iPad Pro (various models)"@,
        models_of((0x1400 + r) as u16) == "iPod Touch (7th gen)"@,
        models_of(0x12A7) == "Unknown Apple Device"@,
        models_of((0x1308 + r) as u16) == "Unknown Apple Device"@,
        models_of((0x1320 + r) as u16) == "Unknown Apple Device"@,
        models_of((0x1408 + r) as u16) == "Unknown Apple Device"@,
{
}

/// A descriptor gives the serial that it holds, without the white space and the
/// zeros around it; a blank one gives none.
pub proof fn descriptors_give_their_serial(a: Seq<char>, s: Seq<char>, b: Seq<char>)
    requires
        forall|i: int| 0 <= i < a.len() ==> text::is_space(#[trigger] a[i]),
        forall|i: int| 0 <= i < b.len() ==> text::is_space(#[trigger] b[i]),
        s.len() > 0,
        forall|i: int| 0 <= i < s.len() ==> '!' <= #[trigger] s[i] <= '~',
    ensures
        serial_of(a + s + b) == Some(s),
        serial_of(s.push('\0')) == Some(s),
        serial_of(seq![]) is None,
        serial_of(seq![' ']) is None,
        serial_of(seq!['\0']) is None,
{
    let none: Seq<char> = seq![];
    let first = s[0];
    let last = s[s.len() - 1];
    text::words_are_no_white_space(first);
    text::words_are_no_white_space(last);
    text::words_are_no_white_space('\0');
    let t = a + s + b;
    assert(t.len() > 0);
    assert(t[0] == if a.len() > 0 {
        a[0]
    } else {
        first
    });
    assert(t.last() == if b.len() > 0 {
        b[b.len() - 1]
    } else {
        last
    });
    assert(t[0] != '\0' && t.last() != '\0');
    assert(text::without_front(t, '\0') == t);
    assert(text::without_back(t, '\0') == t);
    text::surrounded_text_is_trimmed(a, s, b);
    assert(security::udid_core(t) == s);
    let z = s.push('\0');
    assert(z[0] == first && z.last() == '\0');
    assert(z.drop_last() =~= s);
    assert(text::without_front(z, '\0') == z);
    assert(text::without_back(s, '\0') == s);
    assert(text::without_back(z, '\0') == s);
    text::surrounded_text_is_trimmed(none, s, none);
    assert(none + s + none =~= s);
    text::surrounded_text_is_trimmed(none, z, none);
    assert(none + z + none =~= z);
    let blank: Seq<char> = seq![' '];
    let zero: Seq<char> = seq!['\0'];
    assert(blank.skip(1) =~= none);
    assert(zero.skip(1) =~= none);
    reveal_with_fuel(text::trimmed_front, 2);
    reveal_with_fuel(text::without_front, 2);
}

} // verus!
