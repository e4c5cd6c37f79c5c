//! A client's session: from what has happened to what is done next.
use crate::bytes;
use crate::bytes::{native_order, ByteOrder};
use crate::config::DaemonConfig;
use crate::daemon::conn_table;
use crate::daemon::connection;
use crate::daemon::connection::{
    after_connect, after_delete_record, after_pair_check, after_read_record, after_save_record,
    buid_response, event_packet, handle_packet, list_devices_response, proxy_ended, proxy_started,
    read_failure_text, ClientAction,
};
use crate::daemon::device_manager;
use crate::daemon::device_manager::{DeviceManager, ManagedDevice};
use crate::daemon::device_scanner;
use crate::daemon::device_scanner::{DeviceChange, DeviceScanner};
use crate::daemon::protocol;
use crate::daemon::protocol::{make_stats_response, result, PacketError, RawPacket};
use crate::device;
use crate::device::detect;
use crate::metrics::{ListenGuard, Metrics};
use crate::plists;
use crate::text::joined;
use vstd::prelude::*;

verus! {

/// What follows an answer.
#[derive(Debug, Clone, Copy, PartialEq, Eq, Structural)]
pub enum Next {
    /// The next packet is read.
    Read,
    /// The client is told of every change.
    Follow,
    /// The data of a connection is passed on.
    Pass { device_id: u32, sport: u16 },
}

/// How far a session has come.
#[derive(Debug, Clone, Copy, PartialEq, Eq, Structural)]
pub enum Phase {
    /// A packet is being read.
    Reading,
    /// An answer is being sent.
    Answering { required: bool, next: Next },
    /// It is being looked whether there is a pair record.
    Checking { device_id: u32, port: u16, tag: u32 },
    /// A connection is being opened.
    Opening { device_id: u32, tag: u32 },
    /// The host's identifier is being looked up.
    Naming { tag: u32 },
    /// A pair record is being read.
    Fetching { tag: u32 },
    /// A pair record is being stored.
    Saving { tag: u32 },
    /// A pair record is being removed.
    Deleting { tag: u32 },
    /// The counters are being written out.
    Counting { tag: u32 },
    /// The next change is being waited for.
    Following,
    /// The client is being told of a change.
    Telling,
    /// The data of a connection is being passed on.
    Passing { device_id: u32, sport: u16 },
    /// The session is over.
    Over,
}

/// What has happened.
#[derive(Debug)]
pub enum Event {
    /// A packet was read, or could not be.
    Packet(Result<RawPacket, PacketError>),
    /// A packet was sent, or could not be.
    Sent(Result<(), String>),
    /// Whether there is a pair record.
    Checked(bool),
    /// A connection was opened, on this port, or could not be.
    Opened(Result<u16, String>),
    /// The host's identifier.
    Buid(String),
    /// A pair record, if it could be read.
    RecordRead(Option<Vec<u8>>),
    /// Whether a pair record was stored.
    RecordSaved(bool),
    /// Whether a pair record was removed.
    RecordDeleted(bool),
    /// The counters as text.
    Stats(String),
    /// The devices changed.
    Changed(DeviceChange),
    /// Some changes were missed.
    Missed,
    /// There will be no more changes.
    NoMoreChanges,
    /// The data of the connection is no longer passed on.
    Passed,
}

/// An `Event` with its parts as their views.
pub ghost enum EventView {
    Packet(Result<protocol::PacketView, protocol::PacketErrorView>),
    Sent(Result<(), Seq<char>>),
    Checked(bool),
    Opened(Result<u16, Seq<char>>),
    Buid(Seq<char>),
    RecordRead(Option<Seq<u8>>),
    RecordSaved(bool),
    RecordDeleted(bool),
    Stats(Seq<char>),
    Changed(device_scanner::DeviceChangeView),
    Missed,
    NoMoreChanges,
    Passed,
}

impl View for Event {
    type V = EventView;

    open spec fn view(&self) -> EventView {
        match self {
            Event::Packet(Ok(p)) => EventView::Packet(Ok(p@)),
            Event::Packet(Err(e)) => EventView::Packet(Err(e@)),
            Event::Sent(Ok(_)) => EventView::Sent(Ok(())),
            Event::Sent(Err(m)) => EventView::Sent(Err(m@)),
            Event::Checked(b) => EventView::Checked(*b),
            Event::Opened(Ok(p)) => EventView::Opened(Ok(*p)),
            Event::Opened(Err(m)) => EventView::Opened(Err(m@)),
            Event::Buid(s) => EventView::Buid(s@),
            Event::RecordRead(Some(d)) => EventView::RecordRead(Some(d@)),
            Event::RecordRead(None) => EventView::RecordRead(None),
            Event::RecordSaved(b) => EventView::RecordSaved(*b),
            Event::RecordDeleted(b) => EventView::RecordDeleted(*b),
            Event::Stats(s) => EventView::Stats(s@),
            Event::Changed(c) => EventView::Changed(c@),
            Event::Missed => EventView::Missed,
            Event::NoMoreChanges => EventView::NoMoreChanges,
            Event::Passed => EventView::Passed,
        }
    }
}

/// What is done next.
#[derive(Debug)]
pub enum Step {
    /// Read a packet.
    Read,
    /// Send this packet.
    Send(RawPacket),
    /// Look whether there is a pair record for the device.
    CheckRecord { udid: String },
    /// Open a connection to a port of a device.
    Open { device_id: u32, port: u16, tag: u32 },
    /// Look up the host's identifier.
    FindBuid,
    ReadRecord { id: String },
    SaveRecord { id: String, data: Vec<u8> },
    DeleteRecord { id: String },
    /// Write the counters out.
    WriteStats,
    /// Wait for the next change.
    Follow,
    /// Pass on the data of a connection, until either side is done.
    Pass { device_id: u32, sport: u16 },
    /// The session is over; the text says why, unless it just ended.
    End(Result<(), String>),
}

/// A `Step` with its parts as their views.
pub ghost enum StepView {
    Read,
    Send(protocol::PacketView),
    CheckRecord { udid: Seq<char> },
    Open { device_id: u32, port: u16, tag: u32 },
    FindBuid,
    ReadRecord { id: Seq<char> },
    SaveRecord { id: Seq<char>, data: Seq<u8> },
    DeleteRecord { id: Seq<char> },
    WriteStats,
    Follow,
    Pass { device_id: u32, sport: u16 },
    End(Result<(), Seq<char>>),
}

impl View for Step {
    type V = StepView;

    open spec fn view(&self) -> StepView {
        match self {
            Step::Read => StepView::Read,
            Step::Send(p) => StepView::Send(p@),
            Step::CheckRecord { udid } => StepView::CheckRecord { udid: udid@ },
            Step::Open { device_id, port, tag } => StepView::Open {
                device_id: *device_id,
                port: *port,
                tag: *tag,
            },
            Step::FindBuid => StepView::FindBuid,
            Step::ReadRecord { id } => StepView::ReadRecord { id: id@ },
            Step::SaveRecord { id, data } => StepView::SaveRecord { id: id@, data: data@ },
            Step::DeleteRecord { id } => StepView::DeleteRecord { id: id@ },
            Step::WriteStats => StepView::WriteStats,
            Step::Follow => StepView::Follow,
            Step::Pass { device_id, sport } => StepView::Pass {
                device_id: *device_id,
                sport: *sport,
            },
            Step::End(Ok(_)) => StepView::End(Ok(())),
            Step::End(Err(m)) => StepView::End(Err(m@)),
        }
    }
}

/// What a session shares with the rest of the daemon.
pub ghost struct World {
    pub metrics: Metrics,
    pub managed: Map<u32, ManagedDevice>,
    pub conns: Map<u32, conn_table::MuxDeviceView>,
}

/// What comes of an event: the phase, the step and the world after it.
pub ghost struct Outcome {
    pub phase: Phase,
    pub step: StepView,
    pub world: World,
}

/// What comes of an action that was decided on. The list of devices, which is
/// answered in no particular order, is given.
pub open spec fn acted(
    a: connection::ClientActionView,
    list: Seq<device_scanner::UsbDeviceView>,
    w: World,
) -> Outcome {
    match a {
        connection::ClientActionView::ListDevices { tag } => answered(
            protocol::answer(tag, protocol::list_entries(list)),
            true,
            Next::Read,
            w,
        ),
        connection::ClientActionView::Respond { packet, required } => answered(
            packet,
            required,
            Next::Read,
            w,
        ),
        connection::ClientActionView::Subscribe { packet } => answered(
            packet,
            true,
            Next::Follow,
            w,
        ),
        connection::ClientActionView::CheckPairRecord { device_id, port, tag, udid } => Outcome {
            phase: Phase::Checking { device_id, port, tag },
            step: StepView::CheckRecord { udid },
            world: w,
        },
        connection::ClientActionView::OpenChannel { device_id, port, tag } => Outcome {
            phase: Phase::Opening { device_id, tag },
            step: StepView::Open { device_id, port, tag },
            world: w,
        },
        connection::ClientActionView::ReadBuid { tag } => Outcome {
            phase: Phase::Naming { tag },
            step: StepView::FindBuid,
            world: w,
        },
        connection::ClientActionView::ReadPairRecord { tag, id } => Outcome {
            phase: Phase::Fetching { tag },
            step: StepView::ReadRecord { id },
            world: w,
        },
        connection::ClientActionView::SavePairRecord { tag, id, data } => Outcome {
            phase: Phase::Saving { tag },
            step: StepView::SaveRecord { id, data },
            world: w,
        },
        connection::ClientActionView::DeletePairRecord { tag, id } => Outcome {
            phase: Phase::Deleting { tag },
            step: StepView::DeleteRecord { id },
            world: w,
        },
        connection::ClientActionView::Stats { tag } => Outcome {
            phase: Phase::Counting { tag },
            step: StepView::WriteStats,
            world: w,
        },
    }
}

/// An answer is sent.
pub open spec fn answered(
    packet: protocol::PacketView,
    required: bool,
    next: Next,
    w: World,
) -> Outcome {
    Outcome { phase: Phase::Answering { required, next }, step: StepView::Send(packet), world: w }
}

/// The world once the session is over: a subscription is taken back, a
/// connection whose data was passed on is forgotten.
pub open spec fn closed(phase: Phase, w: World) -> World {
    match phase {
        Phase::Following | Phase::Telling => World {
            metrics: Metrics {
                listens_active: w.metrics.listens_active.wrapping_sub(1),
                ..w.metrics
            },
            ..w
        },
        Phase::Passing { device_id, sport } => World {
            metrics: Metrics {
                proxies_ended: w.metrics.proxies_ended.wrapping_add(1),
                ..w.metrics
            },
            managed: device_manager::recounted(
                w.managed,
                device_id,
                w.managed[device_id].refcount.wrapping_sub(1),
            ),
            conns: conn_table::without(w.conns, device_id, sport),
        },
        _ => w,
    }
}

/// The session ends.
pub open spec fn ended(phase: Phase, why: Result<(), Seq<char>>, w: World) -> Outcome {
    Outcome { phase: Phase::Over, step: StepView::End(why), world: closed(phase, w) }
}

/// What follows an answer that was sent, or need not have been.
pub open spec fn resumed(next: Next, w: World) -> Outcome {
    match next {
        Next::Read => Outcome { phase: Phase::Reading, step: StepView::Read, world: w },
        Next::Follow => Outcome {
            phase: Phase::Following,
            step: StepView::Follow,
            world: World {
                metrics: Metrics {
                    listens_active: w.metrics.listens_active.wrapping_add(1),
                    ..w.metrics
                },
                ..w
            },
        },
        Next::Pass { device_id, sport } => if w.managed.contains_key(device_id) {
            Outcome {
                phase: Phase::Passing { device_id, sport },
                step: StepView::Pass { device_id, sport },
                world: World {
                    metrics: Metrics {
                        proxies_started: w.metrics.proxies_started.wrapping_add(1),
                        ..w.metrics
                    },
                    managed: device_manager::recounted(
                        w.managed,
                        device_id,
                        w.managed[device_id].refcount.wrapping_add(1),
                    ),
                    ..w
                },
            }
        } else {
            Outcome {
                phase: Phase::Over,
                step: StepView::End(Err("device not found for proxy"@)),
                world: w,
            }
        },
    }
}

/// What comes of an event.
pub open spec fn outcome(
    phase: Phase,
    event: EventView,
    order: ByteOrder,
    devices: Map<u32, device_scanner::UsbDeviceView>,
    require_pair_record: bool,
    w: World,
    list: Seq<device_scanner::UsbDeviceView>,
) -> Outcome {
    match (phase, event) {
        (Phase::Reading, EventView::Packet(Ok(p))) => acted(
            connection::action(p, order, devices, require_pair_record),
            list,
            World {
                metrics: connection::counted(
                    w.metrics,
                    plists::text_of(plists::lookup(p.plist, "MessageType"@)),
                ),
                ..w
            },
        ),
        (Phase::Reading, EventView::Packet(Err(e))) => ended(
            phase,
            Err(connection::read_failure(e)),
            w,
        ),
        (Phase::Answering { next, .. }, EventView::Sent(Ok(_))) => resumed(next, w),
        (Phase::Answering { required, next }, EventView::Sent(Err(m))) => if required {
            ended(phase, Err("write failed: "@ + m), w)
        } else {
            resumed(next, w)
        },
        (Phase::Checking { device_id, port, tag }, EventView::Checked(has_record)) => acted(
            connection::checked_action(device_id, port, tag, has_record),
            list,
            w,
        ),
        (Phase::Opening { device_id, tag }, EventView::Opened(Ok(sport))) => answered(
            protocol::answer(tag, protocol::result_entries(result::OK)),
            true,
            Next::Pass { device_id, sport },
            w,
        ),
        (Phase::Opening { tag, .. }, EventView::Opened(Err(_))) => answered(
            protocol::answer(tag, protocol::result_entries(result::CONNECTION_REFUSED)),
            true,
            Next::Read,
            World {
                metrics: Metrics {
                    connect_failures: w.metrics.connect_failures.wrapping_add(1),
                    ..w.metrics
                },
                ..w
            },
        ),
        (Phase::Naming { tag }, EventView::Buid(buid)) => answered(
            protocol::answer(tag, connection::buid_entries(buid)),
            true,
            Next::Read,
            w,
        ),
        (Phase::Fetching { tag }, EventView::RecordRead(Some(data))) => acted(
            connection::ClientActionView::Respond {
                packet: protocol::answer(tag, connection::record_entries(data)),
                required: true,
            },
            list,
            World {
                metrics: Metrics {
                    pair_reads: w.metrics.pair_reads.wrapping_add(1),
                    ..w.metrics
                },
                ..w
            },
        ),
        (Phase::Fetching { tag }, EventView::RecordRead(None)) => acted(
            connection::lenient_refusal(tag, result::BAD_DEVICE),
            list,
            w,
        ),
        (Phase::Saving { tag }, EventView::RecordSaved(true)) => acted(
            connection::refusal(tag, result::OK),
            list,
            World {
                metrics: Metrics {
                    pair_writes: w.metrics.pair_writes.wrapping_add(1),
                    ..w.metrics
                },
                ..w
            },
        ),
        (Phase::Saving { tag }, EventView::RecordSaved(false)) => acted(
            connection::lenient_refusal(tag, result::BAD_COMMAND),
            list,
            w,
        ),
        (Phase::Deleting { tag }, EventView::RecordDeleted(true)) => acted(
            connection::refusal(tag, result::OK),
            list,
            World {
                metrics: Metrics {
                    pair_deletes: w.metrics.pair_deletes.wrapping_add(1),
                    ..w.metrics
                },
                ..w
            },
        ),
        (Phase::Deleting { tag }, EventView::RecordDeleted(false)) => acted(
            connection::lenient_refusal(tag, result::BAD_COMMAND),
            list,
            w,
        ),
        (Phase::Counting { tag }, EventView::Stats(json)) => answered(
            protocol::answer(tag, protocol::stats_entries(json)),
            true,
            Next::Read,
            w,
        ),
        (Phase::Following, EventView::Changed(c)) => Outcome {
            phase: Phase::Telling,
            step: StepView::Send(protocol::answer(0, connection::event_entries(c))),
            world: w,
        },
        (Phase::Following, EventView::Missed) => Outcome {
            phase: Phase::Following,
            step: StepView::Follow,
            world: w,
        },
        (Phase::Following, EventView::NoMoreChanges) => ended(phase, Ok(()), w),
        (Phase::Telling, EventView::Sent(Ok(_))) => Outcome {
            phase: Phase::Following,
            step: StepView::Follow,
            world: w,
        },
        (Phase::Telling, EventView::Sent(Err(_))) => ended(phase, Ok(()), w),
        (Phase::Passing { .. }, EventView::Passed) => ended(phase, Ok(()), w),
        _ => ended(phase, Err("internal: unexpected event"@), w),
    }
}

/// A client's session.
#[derive(Debug)]
pub struct ClientSession {
    pub order: ByteOrder,
    pub phase: Phase,
    pub listening: Option<ListenGuard>,
}

impl ClientSession {
    /// A session counts as a subscription exactly while it is one.
    pub open spec fn wf(&self) -> bool {
        self.listening is Some <==> (self.phase is Following || self.phase is Telling)
    }

    /// Begins a session: its first packet is read.
    pub fn begin() -> (r: (Self, Step))
        ensures
            r.0.wf(),
            r.0.phase is Reading,
            exists|one: u16| #[trigger]
                call_ensures(u16::to_be, (1u16,), one) && r.0.order == bytes::order_of(one),
            r.1@ is Read,
    {
        (
            ClientSession { order: native_order(), phase: Phase::Reading, listening: None },
            Step::Read,
        )
    }

    fn answer(&mut self, packet: RawPacket, required: bool, next: Next) -> (step: Step)
        ensures
            final(self).phase == (Phase::Answering { required, next }),
            final(self).listening == old(self).listening,
            final(self).order == old(self).order,
            step@ == StepView::Send(packet@),
    {
        self.phase = Phase::Answering { required, next };
        Step::Send(packet)
    }

    /// Does what was decided. The list of devices comes from the scanner.
    fn act(&mut self, action: ClientAction, scanner: &DeviceScanner) -> (r: (
        Step,
        Ghost<Seq<device_scanner::UsbDeviceView>>,
    ))
        requires
            old(self).listening is None,
        ensures
            final(self).wf(),
            final(self).order == old(self).order,
            action@ is ListDevices ==> device_scanner::lists_all(scanner.state().devices, r.1@),
            forall|w: World| #[trigger]
                acted(action@, r.1@, w) == (Outcome {
                    phase: final(self).phase,
                    step: r.0@,
                    world: w,
                }),
    {
        let ghost a = action@;
        let step = match action {
            ClientAction::Respond { packet, required } => self.answer(packet, required, Next::Read),
            ClientAction::ListDevices { tag } => self.answer(
                list_devices_response(tag, scanner),
                true,
                Next::Read,
            ),
            ClientAction::Subscribe { packet } => self.answer(packet, true, Next::Follow),
            ClientAction::CheckPairRecord { device_id, port, tag, udid } => {
                self.phase = Phase::Checking { device_id, port, tag };
                Step::CheckRecord { udid }
            },
            ClientAction::OpenChannel { device_id, port, tag } => {
                self.phase = Phase::Opening { device_id, tag };
                Step::Open { device_id, port, tag }
            },
            ClientAction::ReadBuid { tag } => {
                self.phase = Phase::Naming { tag };
                Step::FindBuid
            },
            ClientAction::ReadPairRecord { tag, id } => {
                self.phase = Phase::Fetching { tag };
                Step::ReadRecord { id }
            },
            ClientAction::SavePairRecord { tag, id, data } => {
                self.phase = Phase::Saving { tag };
                Step::SaveRecord { id, data }
            },
            ClientAction::DeletePairRecord { tag, id } => {
                self.phase = Phase::Deleting { tag };
                Step::DeleteRecord { id }
            },
            ClientAction::Stats { tag } => {
                self.phase = Phase::Counting { tag };
                Step::WriteStats
            },
        };
        let ghost list = choose|list: Seq<device_scanner::UsbDeviceView>|
            device_scanner::lists_all(scanner.state().devices, list) && step@ == StepView::Send(
                protocol::answer(a->ListDevices_tag, #[trigger] protocol::list_entries(list)),
            );
        (step, Ghost(list))
    }

    /// Ends the session, and takes back what it holds.
    fn end(
        &mut self,
        why: Result<(), String>,
        manager: &mut DeviceManager,
        metrics: &mut Metrics,
    ) -> (step: Step)
        requires
            old(self).wf(),
            old(manager).wf(),
        ensures
            final(self).wf(),
            final(self).order == old(self).order,
            final(manager).wf(),
            ended(
                old(self).phase,
                match why {
                    Ok(_) => Ok(()),
                    Err(m) => Err(m@),
                },
                world(*old(manager), *old(metrics)),
            ) == (Outcome {
                phase: final(self).phase,
                step: step@,
                world: world(*final(manager), *final(metrics)),
            }),
    {
        if let Some(guard) = self.listening.take() {
            guard.release(metrics);
        }
        if let Phase::Passing { device_id, sport } = self.phase {
            manager.conn_mgr.remove_connection(device_id, sport);
            manager.decrement_refcount(device_id);
            proxy_ended(metrics);
        }
        self.phase = Phase::Over;
        Step::End(why)
    }

    /// Goes on after an answer.
    fn resume(
        &mut self,
        next: Next,
        manager: &mut DeviceManager,
        metrics: &mut Metrics,
    ) -> (step: Step)
        requires
            old(self).wf(),
            old(self).phase is Answering,
            old(manager).wf(),
        ensures
            final(self).wf(),
            final(self).order == old(self).order,
            final(manager).wf(),
            resumed(next, world(*old(manager), *old(metrics))) == (Outcome {
                phase: final(self).phase,
                step: step@,
                world: world(*final(manager), *final(metrics)),
            }),
    {
        match next {
            Next::Read => {
                self.phase = Phase::Reading;
                Step::Read
            },
            Next::Follow => {
                self.listening = Some(ListenGuard::new(metrics));
                self.phase = Phase::Following;
                Step::Follow
            },
            Next::Pass { device_id, sport } => {
                if manager.is_managed(device_id) {
                    manager.increment_refcount(device_id);
                    proxy_started(metrics);
                    self.phase = Phase::Passing { device_id, sport };
                    Step::Pass { device_id, sport }
                } else {
                    self.phase = Phase::Over;
                    Step::End(Err("device not found for proxy".to_owned()))
                }
            },
        }
    }

    /// Takes an event, and says what is done next.
    pub fn advance(
        &mut self,
        event: Event,
        scanner: &DeviceScanner,
        config: &DaemonConfig,
        manager: &mut DeviceManager,
        metrics: &mut Metrics,
    ) -> (step: Step)
        requires
            old(self).wf(),
            old(manager).wf(),
        ensures
            final(self).wf(),
            final(self).order == old(self).order,
            final(manager).wf(),
            exists|list: Seq<device_scanner::UsbDeviceView>|
                {
                    &&& asks_for_list(
                        old(self).phase,
                        event@,
                        old(self).order,
                        scanner.state().devices,
                        config@.require_pair_record,
                    ) ==> device_scanner::lists_all(scanner.state().devices, list)
                    &&& #[trigger] outcome(
                        old(self).phase,
                        event@,
                        old(self).order,
                        scanner.state().devices,
                        config@.require_pair_record,
                        world(*old(manager), *old(metrics)),
                        list,
                    ) == (Outcome {
                        phase: final(self).phase,
                        step: step@,
                        world: world(*final(manager), *final(metrics)),
                    })
                },
    {
        let ghost mut list: Seq<device_scanner::UsbDeviceView> = seq![];
        let step = match (self.phase, event) {
            (Phase::Reading, Event::Packet(Ok(p))) => {
                let action = handle_packet(&p, self.order, scanner, config, metrics);
                let (step, Ghost(l)) = self.act(action, scanner);
                proof {
                    list = l;
                }
                step
            },
            (Phase::Reading, Event::Packet(Err(e))) => self.end(
                Err(read_failure_text(&e)),
                manager,
                metrics,
            ),
            (Phase::Answering { next, .. }, Event::Sent(Ok(_))) => self.resume(
                next,
                manager,
                metrics,
            ),
            (Phase::Answering { required, next }, Event::Sent(Err(m))) => if required {
                self.end(Err(joined("write failed: ", m.as_str())), manager, metrics)
            } else {
                self.resume(next, manager, metrics)
            },
            (Phase::Checking { device_id, port, tag }, Event::Checked(has_record)) => {
                let action = after_pair_check(device_id, port, tag, has_record);
                let (step, Ghost(l)) = self.act(action, scanner);
                proof {
                    list = l;
                }
                step
            },
            (Phase::Opening { device_id, tag }, Event::Opened(Ok(sport))) => {
                let packet = after_connect(tag, true, metrics);
                self.answer(packet, true, Next::Pass { device_id, sport })
            },
            (Phase::Opening { tag, .. }, Event::Opened(Err(_))) => {
                let packet = after_connect(tag, false, metrics);
                self.answer(packet, true, Next::Read)
            },
            (Phase::Naming { tag }, Event::Buid(buid)) => self.answer(
                buid_response(tag, buid.as_str()),
                true,
                Next::Read,
            ),
            (Phase::Fetching { tag }, Event::RecordRead(data)) => {
                let action = after_read_record(tag, data, metrics);
                let (step, Ghost(l)) = self.act(action, scanner);
                proof {
                    list = l;
                }
                step
            },
            (Phase::Saving { tag }, Event::RecordSaved(stored)) => {
                let action = after_save_record(tag, stored, metrics);
                let (step, Ghost(l)) = self.act(action, scanner);
                proof {
                    list = l;
                }
                step
            },
            (Phase::Deleting { tag }, Event::RecordDeleted(removed)) => {
                let action = after_delete_record(tag, removed, metrics);
                let (step, Ghost(l)) = self.act(action, scanner);
                proof {
                    list = l;
                }
                step
            },
            (Phase::Counting { tag }, Event::Stats(json)) => self.answer(
                make_stats_response(tag, json.as_str()),
                true,
                Next::Read,
            ),
            (Phase::Following, Event::Changed(change)) => {
                self.phase = Phase::Telling;
                Step::Send(event_packet(&change))
            },
            (Phase::Following, Event::Missed) => Step::Follow,
            (Phase::Following, Event::NoMoreChanges) => self.end(Ok(()), manager, metrics),
            (Phase::Telling, Event::Sent(Ok(_))) => {
                self.phase = Phase::Following;
                Step::Follow
            },
            (Phase::Telling, Event::Sent(Err(_))) => self.end(Ok(()), manager, metrics),
            (Phase::Passing { .. }, Event::Passed) => self.end(Ok(()), manager, metrics),
            _ => self.end(Err("internal: unexpected event".to_owned()), manager, metrics),
        };
        assert(outcome(
            old(self).phase,
            event@,
            old(self).order,
            scanner.state().devices,
            config@.require_pair_record,
            world(*old(manager), *old(metrics)),
            list,
        ) == (Outcome {
            phase: self.phase,
            step: step@,
            world: world(*manager, *metrics),
        }));
        step
    }
}

/// The world as the manager and the counters hold it.
pub open spec fn world(manager: DeviceManager, metrics: Metrics) -> World {
    World { metrics, managed: manager.devices@, conns: manager.conn_mgr@ }
}

/// Whether an event is a packet that asks for the list of devices.
pub open spec fn asks_for_list(
    phase: Phase,
    event: EventView,
    order: ByteOrder,
    devices: Map<u32, device_scanner::UsbDeviceView>,
    require_pair_record: bool,
) -> bool {
    match (phase, event) {
        (Phase::Reading, EventView::Packet(Ok(p))) => connection::action(
            p,
            order,
            devices,
            require_pair_record,
        ) is ListDevices,
        _ => false,
    }
}

/// The tag of the packet that is still to be answered.
pub open spec fn pending_tag(phase: Phase) -> Option<u32> {
    match phase {
        Phase::Checking { tag, .. } => Some(tag),
        Phase::Opening { tag, .. } => Some(tag),
        Phase::Naming { tag } => Some(tag),
        Phase::Fetching { tag } => Some(tag),
        Phase::Saving { tag } => Some(tag),
        Phase::Deleting { tag } => Some(tag),
        Phase::Counting { tag } => Some(tag),
        _ => None,
    }
}

/// Every packet is answered before the next one is read, and the answer has
/// its tag: a packet that was read leads to an answer, at once or after work
/// that keeps the tag; and only after an answer is another packet read.
pub proof fn packets_are_answered_in_turn(
    phase: Phase,
    event: EventView,
    order: ByteOrder,
    devices: Map<u32, device_scanner::UsbDeviceView>,
    require_pair_record: bool,
    w: World,
    list: Seq<device_scanner::UsbDeviceView>,
)
    ensures
        ({
            let o = outcome(phase, event, order, devices, require_pair_record, w, list);
            let asked = match (phase, event) {
                (Phase::Reading, EventView::Packet(Ok(p))) => Some(p.tag),
                _ => pending_tag(phase),
            };
            &&& o.step is Read ==> phase is Answering && event is Sent
            &&& asked matches Some(tag) ==> match o.step {
                StepView::Send(q) => q.tag == tag && o.phase is Answering,
                StepView::End(_) => phase !is Reading,
                _ => pending_tag(o.phase) == Some(tag),
            }
        }),
{
    if let (Phase::Reading, EventView::Packet(Ok(p))) = (phase, event) {
        connection::answers_echo_the_tag(p, order, devices, require_pair_record);
    }
}

/// An answer that must reach the client and does not ends the session; one
/// that need not does no harm.
pub proof fn lost_answers_end_the_session(
    required: bool,
    next: Next,
    why: Seq<char>,
    order: ByteOrder,
    devices: Map<u32, device_scanner::UsbDeviceView>,
    require_pair_record: bool,
    w: World,
    list: Seq<device_scanner::UsbDeviceView>,
)
    ensures
        ({
            let phase = Phase::Answering { required, next };
            let lost = outcome(
                phase,
                EventView::Sent(Err(why)),
                order,
                devices,
                require_pair_record,
                w,
                list,
            );
            let sent = outcome(
                phase,
                EventView::Sent(Ok(())),
                order,
                devices,
                require_pair_record,
                w,
                list,
            );
            if required {
                lost.phase is Over && lost.step is End && lost.world == w
            } else {
                lost == sent
            }
        }),
{
}

/// How many subscriptions a session counts as.
pub open spec fn listens_of(phase: Phase) -> int {
    if phase is Following || phase is Telling {
        1
    } else {
        0
    }
}

/// How many connections a session passes on.
pub open spec fn passes_of(phase: Phase) -> int {
    if phase is Passing {
        1
    } else {
        0
    }
}

/// Whether two counts that wrap around are the same number.
pub open spec fn same_count(a: int, b: int) -> bool {
    (a - b) % 0x1_0000_0000_0000_0000 == 0
}

/// A session takes back what it counts: apart from what it counts as itself,
/// no event changes the number of subscriptions, or that of connections
/// passed on.
pub proof fn sessions_take_back_their_counts(
    phase: Phase,
    event: EventView,
    order: ByteOrder,
    devices: Map<u32, device_scanner::UsbDeviceView>,
    require_pair_record: bool,
    w: World,
    list: Seq<device_scanner::UsbDeviceView>,
)
    ensures
        ({
            let o = outcome(phase, event, order, devices, require_pair_record, w, list);
            let m = o.world.metrics;
            &&& same_count(
                m.listens_active - listens_of(o.phase),
                w.metrics.listens_active - listens_of(phase),
            )
            &&& same_count(
                m.proxies_started - m.proxies_ended - passes_of(o.phase),
                w.metrics.proxies_started - w.metrics.proxies_ended - passes_of(phase),
            )
        }),
{
}

/// A session that passed on a connection and ends leaves nothing of it: the
/// connection is gone, and the device's clients are counted as before.
pub proof fn ended_connections_are_gone(
    device_id: u32,
    sport: u16,
    event: EventView,
    order: ByteOrder,
    devices: Map<u32, device_scanner::UsbDeviceView>,
    require_pair_record: bool,
    w: World,
    list: Seq<device_scanner::UsbDeviceView>,
)
    requires
        w.managed.contains_key(device_id) ==> w.managed[device_id].device_id == device_id,
    ensures
        ({
            let phase = Phase::Passing { device_id, sport };
            let o = outcome(phase, event, order, devices, require_pair_record, w, list);
            &&& o.phase is Over
            &&& o.step is End
            &&& o.world.conns.contains_key(device_id)
                ==> !o.world.conns[device_id].connections.contains_key(sport)
            &&& forall|w0: World|
                w == (#[trigger] resumed(Next::Pass { device_id, sport }, w0)).world
                    && w0.managed.contains_key(device_id) && w0.managed[device_id].device_id
                    == device_id ==> o.world.managed == w0.managed
        }),
{
    let phase = Phase::Passing { device_id, sport };
    let o = outcome(phase, event, order, devices, require_pair_record, w, list);
    assert forall|w0: World|
        w == (#[trigger] resumed(Next::Pass { device_id, sport }, w0)).world
            && w0.managed.contains_key(device_id) && w0.managed[device_id].device_id
            == device_id implies o.world.managed == w0.managed by {
        device_manager::refcounts_balance(w0.managed, device_id);
    }
}

/// While pair records are required, the lockdown port is opened only once
/// there is known to be a record.
pub proof fn lockdown_needs_a_record(
    phase: Phase,
    event: EventView,
    order: ByteOrder,
    devices: Map<u32, device_scanner::UsbDeviceView>,
    w: World,
    list: Seq<device_scanner::UsbDeviceView>,
)
    ensures
        outcome(phase, event, order, devices, true, w, list).step matches StepView::Open { port, .. }
            && port == connection::LOCKDOWN_PORT ==> phase is Checking && event
            == EventView::Checked(true),
{
}

/// A session that is over stays over.
pub proof fn over_is_over(
    event: EventView,
    order: ByteOrder,
    devices: Map<u32, device_scanner::UsbDeviceView>,
    require_pair_record: bool,
    w: World,
    list: Seq<device_scanner::UsbDeviceView>,
)
    ensures
        ({
            let o = outcome(Phase::Over, event, order, devices, require_pair_record, w, list);
            o.phase is Over && o.step is End && o.world == w
        }),
{
}

/// Whether a step sends a result with this tag and this number.
pub open spec fn sends_result(step: StepView, tag: u32, number: int) -> bool {
    step matches StepView::Send(q) && q.tag == tag && plists::lookup(q.plist, "MessageType"@)
        == Some(plists::Plist::Text("Result"@)) && plists::lookup(q.plist, "Number"@) == Some(
        plists::Plist::Integer(number),
    )
}

/// A subscribed client is told of every change, whether a device came or went:
/// with a packet that has no tag, and that a client reads as that change.
pub proof fn subscribers_are_told_of_every_change(
    change: device_scanner::DeviceChangeView,
    order: ByteOrder,
    devices: Map<u32, device_scanner::UsbDeviceView>,
    require_pair_record: bool,
    w: World,
    list: Seq<device_scanner::UsbDeviceView>,
)
    ensures
        ({
            let o = outcome(
                Phase::Following,
                EventView::Changed(change),
                order,
                devices,
                require_pair_record,
                w,
                list,
            );
            &&& o.phase is Telling
            &&& o.world == w
            &&& o.step matches StepView::Send(q) && q.tag == 0 && match change {
                device_scanner::DeviceChangeView::Attached(d) => {
                    &&& detect::event_in(q.plist) == Some(
                        detect::ListenEventView::Attached(
                            device::bare_device(detect::displayed(d.udid), d.device_id),
                        ),
                    )
                    &&& plists::lookup(q.plist, "MessageType"@) == Some(
                        plists::Plist::Text("Attached"@),
                    )
                    &&& plists::lookup(q.plist, "DeviceID"@) == Some(
                        plists::Plist::Integer(d.device_id as int),
                    )
                    &&& plists::lookup(q.plist, "Properties"@) matches Some(
                        plists::Plist::Dict(e),
                    ) && plists::lookup(e, "SerialNumber"@) == Some(plists::Plist::Text(d.udid))
                        && plists::lookup(e, "DeviceID"@) == Some(
                        plists::Plist::Integer(d.device_id as int),
                    ) && plists::lookup(e, "ProductID"@) == Some(
                        plists::Plist::Integer(d.product_id as int),
                    )
                },
                device_scanner::DeviceChangeView::Detached { device_id } => {
                    &&& detect::event_in(q.plist) == Some(
                        detect::ListenEventView::Detached(device_id),
                    )
                    &&& plists::lookup(q.plist, "MessageType"@) == Some(
                        plists::Plist::Text("Detached"@),
                    )
                    &&& plists::lookup(q.plist, "DeviceID"@) == Some(
                        plists::Plist::Integer(device_id as int),
                    )
                },
            }
        }),
{
    match change {
        device_scanner::DeviceChangeView::Attached(d) => {
            detect::sent_events_are_read_back(d);
            protocol::events_say_what_happened(d, 0);
            protocol::devices_are_described(d);
        },
        device_scanner::DeviceChangeView::Detached { device_id } => {
            let d = device_scanner::UsbDeviceView { device_id, ..arbitrary() };
            detect::sent_events_are_read_back(d);
            protocol::events_say_what_happened(d, device_id);
        },
    }
}

/// A client that subscribes is answered that it has, and is one subscriber
/// more from then on, until it no longer is; being told of a change leaves it
/// one, and so do changes that were missed.
pub proof fn subscriptions_last(
    p: protocol::PacketView,
    order: ByteOrder,
    devices: Map<u32, device_scanner::UsbDeviceView>,
    require_pair_record: bool,
    w: World,
    list: Seq<device_scanner::UsbDeviceView>,
    m: Seq<char>,
)
    requires
        plists::lookup(p.plist, "MessageType"@) == Some(plists::Plist::Text("Listen"@)),
    ensures
        ({
            let o = outcome(
                Phase::Reading,
                EventView::Packet(Ok(p)),
                order,
                devices,
                require_pair_record,
                w,
                list,
            );
            let o2 = outcome(
                o.phase,
                EventView::Sent(Ok(())),
                order,
                devices,
                require_pair_record,
                o.world,
                list,
            );
            let told = outcome(
                Phase::Telling,
                EventView::Sent(Ok(())),
                order,
                devices,
                require_pair_record,
                w,
                list,
            );
            let missed = outcome(
                Phase::Following,
                EventView::Missed,
                order,
                devices,
                require_pair_record,
                w,
                list,
            );
            let lost = outcome(
                Phase::Telling,
                EventView::Sent(Err(m)),
                order,
                devices,
                require_pair_record,
                w,
                list,
            );
            let over = outcome(
                Phase::Following,
                EventView::NoMoreChanges,
                order,
                devices,
                require_pair_record,
                w,
                list,
            );
            &&& sends_result(o.step, p.tag, 0)
            &&& o2.phase is Following
            &&& o2.step is Follow
            &&& o2.world.metrics.listens_active == w.metrics.listens_active.wrapping_add(1)
            &&& told.phase is Following && told.step is Follow && told.world == w
            &&& missed.phase is Following && missed.step is Follow && missed.world == w
            &&& lost.phase is Over && lost.step == StepView::End(Ok(()))
            &&& over.phase is Over && over.step == StepView::End(Ok(()))
            &&& lost.world.metrics.listens_active == w.metrics.listens_active.wrapping_sub(1)
            &&& over.world.metrics.listens_active == w.metrics.listens_active.wrapping_sub(1)
        }),
{
    connection::commands_are_understood(p, order, devices, require_pair_record);
}

/// A client that asks for the list gets, under its tag, all devices that are
/// there, and can go on.
pub proof fn lists_are_answered(
    p: protocol::PacketView,
    order: ByteOrder,
    devices: Map<u32, device_scanner::UsbDeviceView>,
    require_pair_record: bool,
    w: World,
    list: Seq<device_scanner::UsbDeviceView>,
)
    requires
        plists::lookup(p.plist, "MessageType"@) == Some(plists::Plist::Text("ListDevices"@)),
    ensures
        ({
            let o = outcome(
                Phase::Reading,
                EventView::Packet(Ok(p)),
                order,
                devices,
                require_pair_record,
                w,
                list,
            );
            let o2 = outcome(
                o.phase,
                EventView::Sent(Ok(())),
                order,
                devices,
                require_pair_record,
                o.world,
                list,
            );
            &&& o.step matches StepView::Send(q) && q.tag == p.tag && detect::listed_devices(
                q.plist,
            ) == Ok::<Seq<device::DeviceView>, Seq<char>>(
                list.map_values(|d: device_scanner::UsbDeviceView| detect::as_listed(d)),
            )
            &&& asks_for_list(
                Phase::Reading,
                EventView::Packet(Ok(p)),
                order,
                devices,
                require_pair_record,
            )
            &&& o2.phase is Reading
            &&& o2.step is Read
        }),
{
    connection::commands_are_understood(p, order, devices, require_pair_record);
    detect::listed_devices_are_seen(list);
}

/// A request to connect, once it may be done, opens the port of the device. If
/// that succeeds, the client is told so and then its data are passed on, on
/// the connection that was opened, and the device has one client more; if not,
/// it is told that the connection was refused, which is counted, and it can go
/// on.
pub proof fn connections_are_opened(
    device_id: u32,
    port: u16,
    tag: u32,
    sport: u16,
    m: Seq<char>,
    order: ByteOrder,
    devices: Map<u32, device_scanner::UsbDeviceView>,
    require_pair_record: bool,
    w: World,
    list: Seq<device_scanner::UsbDeviceView>,
)
    ensures
        ({
            let checked = outcome(
                Phase::Checking { device_id, port, tag },
                EventView::Checked(true),
                order,
                devices,
                require_pair_record,
                w,
                list,
            );
            let unchecked = outcome(
                Phase::Checking { device_id, port, tag },
                EventView::Checked(false),
                order,
                devices,
                require_pair_record,
                w,
                list,
            );
            let opened = outcome(
                Phase::Opening { device_id, tag },
                EventView::Opened(Ok(sport)),
                order,
                devices,
                require_pair_record,
                w,
                list,
            );
            let passed = outcome(
                opened.phase,
                EventView::Sent(Ok(())),
                order,
                devices,
                require_pair_record,
                w,
                list,
            );
            let refused = outcome(
                Phase::Opening { device_id, tag },
                EventView::Opened(Err(m)),
                order,
                devices,
                require_pair_record,
                w,
                list,
            );
            let resumed = outcome(
                refused.phase,
                EventView::Sent(Ok(())),
                order,
                devices,
                require_pair_record,
                w,
                list,
            );
            &&& checked.step == (StepView::Open { device_id, port, tag })
            &&& checked.phase == (Phase::Opening { device_id, tag })
            &&& checked.world == w
            &&& sends_result(unchecked.step, tag, 8)
            &&& sends_result(opened.step, tag, 0)
            &&& opened.world == w
            &&& w.managed.contains_key(device_id) ==> {
                &&& passed.phase == (Phase::Passing { device_id, sport })
                &&& passed.step == (StepView::Pass { device_id, sport })
                &&& passed.world.managed[device_id].refcount
                    == w.managed[device_id].refcount.wrapping_add(1)
                &&& passed.world.conns == w.conns
                &&& passed.world.metrics == (Metrics {
                    proxies_started: w.metrics.proxies_started.wrapping_add(1),
                    ..w.metrics
                })
            }
            &&& !w.managed.contains_key(device_id) ==> passed.step == StepView::End(
                Err("device not found for proxy"@),
            )
            &&& sends_result(refused.step, tag, 3)
            &&& refused.world == (World {
                metrics: Metrics {
                    connect_failures: w.metrics.connect_failures.wrapping_add(1),
                    ..w.metrics
                },
                ..w
            })
            &&& resumed.phase is Reading
            &&& resumed.step is Read
        }),
{
    protocol::results_say_their_number(0);
    protocol::results_say_their_number(3);
    protocol::results_say_their_number(8);
}

/// What a client asks for in a packet is begun, for the device, the port and
/// the record that the packet names; the command is counted.
pub proof fn packets_begin_what_they_ask_for(
    p: protocol::PacketView,
    order: ByteOrder,
    devices: Map<u32, device_scanner::UsbDeviceView>,
    require_pair_record: bool,
    w: World,
    list: Seq<device_scanner::UsbDeviceView>,
)
    ensures
        ({
            let o = outcome(
                Phase::Reading,
                EventView::Packet(Ok(p)),
                order,
                devices,
                require_pair_record,
                w,
                list,
            );
            &&& o.world.managed == w.managed
            &&& o.world.conns == w.conns
            &&& o.world.metrics.commands_total == w.metrics.commands_total.wrapping_add(1)
            &&& match connection::action(p, order, devices, require_pair_record) {
                connection::ClientActionView::CheckPairRecord { device_id, port, tag, udid } => {
                    o.step == (StepView::CheckRecord { udid }) && o.phase == (Phase::Checking {
                        device_id,
                        port,
                        tag,
                    })
                },
                connection::ClientActionView::OpenChannel { device_id, port, tag } => {
                    o.step == (StepView::Open { device_id, port, tag }) && o.phase
                        == (Phase::Opening { device_id, tag })
                },
                connection::ClientActionView::ReadBuid { tag } => {
                    o.step is FindBuid && o.phase == (Phase::Naming { tag })
                },
                connection::ClientActionView::ReadPairRecord { tag, id } => {
                    o.step == (StepView::ReadRecord { id }) && o.phase == (Phase::Fetching { tag })
                },
                connection::ClientActionView::SavePairRecord { tag, id, data } => {
                    o.step == (StepView::SaveRecord { id, data }) && o.phase == (Phase::Saving {
                        tag,
                    })
                },
                connection::ClientActionView::DeletePairRecord { tag, id } => {
                    o.step == (StepView::DeleteRecord { id }) && o.phase == (Phase::Deleting {
                        tag,
                    })
                },
                connection::ClientActionView::Stats { tag } => {
                    o.step is WriteStats && o.phase == (Phase::Counting { tag })
                },
                connection::ClientActionView::Respond { packet, required } => {
                    o.step == StepView::Send(packet) && o.phase == (Phase::Answering {
                        required,
                        next: Next::Read,
                    })
                },
                _ => o.step is Send,
            }
        }),
{
}

/// What was looked up for a client is handed to it under its tag: the host's
/// identifier, the pair record, the counters. What was done is confirmed, and
/// counted; and what could not be done is said.
pub proof fn results_are_handed_over(
    tag: u32,
    buid: Seq<char>,
    data: Seq<u8>,
    json: Seq<char>,
    order: ByteOrder,
    devices: Map<u32, device_scanner::UsbDeviceView>,
    require_pair_record: bool,
    w: World,
    list: Seq<device_scanner::UsbDeviceView>,
)
    ensures
        ({
            let after = |phase: Phase, event: EventView|
                outcome(phase, event, order, devices, require_pair_record, w, list);
            let named = after(Phase::Naming { tag }, EventView::Buid(buid));
            let read = after(Phase::Fetching { tag }, EventView::RecordRead(Some(data)));
            let unread = after(Phase::Fetching { tag }, EventView::RecordRead(None));
            let saved = after(Phase::Saving { tag }, EventView::RecordSaved(true));
            let unsaved = after(Phase::Saving { tag }, EventView::RecordSaved(false));
            let deleted = after(Phase::Deleting { tag }, EventView::RecordDeleted(true));
            let undeleted = after(Phase::Deleting { tag }, EventView::RecordDeleted(false));
            let stats = after(Phase::Counting { tag }, EventView::Stats(json));
            &&& named.step matches StepView::Send(q) && q.tag == tag && plists::lookup(
                q.plist,
                "BUID"@,
            ) == Some(plists::Plist::Text(buid))
            &&& named.world == w
            &&& read.step matches StepView::Send(q) && q.tag == tag && plists::lookup(
                q.plist,
                "PairRecordData"@,
            ) == Some(plists::Plist::Data(data))
            &&& read.world.metrics == (Metrics {
                pair_reads: w.metrics.pair_reads.wrapping_add(1),
                ..w.metrics
            })
            &&& sends_result(unread.step, tag, 2)
            &&& unread.world == w
            &&& sends_result(saved.step, tag, 0)
            &&& saved.world.metrics == (Metrics {
                pair_writes: w.metrics.pair_writes.wrapping_add(1),
                ..w.metrics
            })
            &&& sends_result(unsaved.step, tag, 1)
            &&& unsaved.world == w
            &&& sends_result(deleted.step, tag, 0)
            &&& deleted.world.metrics == (Metrics {
                pair_deletes: w.metrics.pair_deletes.wrapping_add(1),
                ..w.metrics
            })
            &&& sends_result(undeleted.step, tag, 1)
            &&& undeleted.world == w
            &&& stats.step matches StepView::Send(q) && q.tag == tag && plists::lookup(
                q.plist,
                "Stats"@,
            ) == Some(plists::Plist::Text(json)) && plists::lookup(q.plist, "Number"@) == Some(
                plists::Plist::Integer(0),
            )
            &&& stats.world == w
        }),
{
    connection::answers_hold_what_was_asked_for(data, buid);
    protocol::counters_are_handed_over(json);
    protocol::results_say_their_number(0);
    protocol::results_say_their_number(1);
    protocol::results_say_their_number(2);
}

/// A client that is gone, or sends what cannot be read, ends its session with
/// that; and so does an answer that had to reach it and did not.
pub proof fn sessions_end_with_their_reason(
    m: Seq<char>,
    next: Next,
    order: ByteOrder,
    devices: Map<u32, device_scanner::UsbDeviceView>,
    require_pair_record: bool,
    w: World,
    list: Seq<device_scanner::UsbDeviceView>,
)
    ensures
        ({
            let after = |phase: Phase, event: EventView|
                outcome(phase, event, order, devices, require_pair_record, w, list);
            let gone = after(
                Phase::Reading,
                EventView::Packet(Err(protocol::PacketErrorView::UnexpectedEof)),
            );
            let bad = after(
                Phase::Reading,
                EventView::Packet(Err(protocol::PacketErrorView::Invalid(m))),
            );
            let lost = after(
                Phase::Answering { required: true, next },
                EventView::Sent(Err(m)),
            );
            &&& gone.step == StepView::End(Err("client disconnected"@))
            &&& bad.step == StepView::End(Err("failed to read packet: "@ + m))
            &&& lost.step == StepView::End(Err("write failed: "@ + m))
            &&& gone.phase is Over && bad.phase is Over && lost.phase is Over
            &&& gone.world == w && bad.world == w && lost.world == w
        }),
{
}

/// When the data of a connection are no longer passed on, the session is over
/// in good order; the connection is forgotten, the device has one client less,
/// and that the passing on has ended is counted.
pub proof fn passing_on_ends_in_order(
    device_id: u32,
    sport: u16,
    order: ByteOrder,
    devices: Map<u32, device_scanner::UsbDeviceView>,
    require_pair_record: bool,
    w: World,
    list: Seq<device_scanner::UsbDeviceView>,
)
    ensures
        ({
            let o = outcome(
                Phase::Passing { device_id, sport },
                EventView::Passed,
                order,
                devices,
                require_pair_record,
                w,
                list,
            );
            &&& o.step == StepView::End(Ok(()))
            &&& o.phase is Over
            &&& o.world.metrics == (Metrics {
                proxies_ended: w.metrics.proxies_ended.wrapping_add(1),
                ..w.metrics
            })
            &&& w.managed.contains_key(device_id) ==> o.world.managed[device_id].refcount
                == w.managed[device_id].refcount.wrapping_sub(1)
            &&& w.conns.contains_key(device_id) ==> o.world.conns[device_id].connections
                == w.conns[device_id].connections.remove(sport)
        }),
{
}

/// What comes of an answer that could not be sent.
pub open spec fn unsent(o: Outcome, m: Seq<char>) -> Outcome {
    outcome(
        o.phase,
        EventView::Sent(Err(m)),
        ByteOrder::Little,
        Map::empty(),
        true,
        o.world,
        seq![],
    )
}

/// A client that cannot be told how its request went is let go, with the
/// reason; only of a pair record that could not be read, stored or removed
/// need it not be told.
pub proof fn clients_must_be_told(
    tag: u32,
    device_id: u32,
    sport: u16,
    buid: Seq<char>,
    data: Seq<u8>,
    json: Seq<char>,
    m: Seq<char>,
    order: ByteOrder,
    devices: Map<u32, device_scanner::UsbDeviceView>,
    require_pair_record: bool,
    w: World,
    list: Seq<device_scanner::UsbDeviceView>,
)
    ensures
        ({
            let after = |phase: Phase, event: EventView|
                outcome(phase, event, order, devices, require_pair_record, w, list);
            let lost = StepView::End(Err("write failed: "@ + m));
            let opening = Phase::Opening { device_id, tag };
            &&& unsent(after(opening, EventView::Opened(Ok(sport))), m).step == lost
            &&& unsent(after(opening, EventView::Opened(Err(m))), m).step == lost
            &&& unsent(after(Phase::Naming { tag }, EventView::Buid(buid)), m).step == lost
            &&& unsent(
                after(Phase::Fetching { tag }, EventView::RecordRead(Some(data))),
                m,
            ).step == lost
            &&& unsent(after(Phase::Saving { tag }, EventView::RecordSaved(true)), m).step == lost
            &&& unsent(
                after(Phase::Deleting { tag }, EventView::RecordDeleted(true)),
                m,
            ).step == lost
            &&& unsent(after(Phase::Counting { tag }, EventView::Stats(json)), m).step == lost
            &&& unsent(after(Phase::Fetching { tag }, EventView::RecordRead(None)), m).step
                == StepView::Read
            &&& unsent(after(Phase::Saving { tag }, EventView::RecordSaved(false)), m).step
                == StepView::Read
            &&& unsent(after(Phase::Deleting { tag }, EventView::RecordDeleted(false)), m).step
                == StepView::Read
        }),
{
}

/// A client that cannot be sent the list, or be told that it is subscribed, is
/// let go.
pub proof fn lists_and_subscriptions_must_arrive(
    p: protocol::PacketView,
    m: Seq<char>,
    order: ByteOrder,
    devices: Map<u32, device_scanner::UsbDeviceView>,
    require_pair_record: bool,
    w: World,
    list: Seq<device_scanner::UsbDeviceView>,
)
    requires
        plists::lookup(p.plist, "MessageType"@) == Some(plists::Plist::Text("ListDevices"@))
            || plists::lookup(p.plist, "MessageType"@) == Some(plists::Plist::Text("Listen"@)),
    ensures
        ({
            let o = outcome(
                Phase::Reading,
                EventView::Packet(Ok(p)),
                order,
                devices,
                require_pair_record,
                w,
                list,
            );
            unsent(o, m).step == StepView::End(Err("write failed: "@ + m))
        }),
{
    connection::commands_are_understood(p, order, devices, require_pair_record);
}

/// Only a packet can ask for the list, and only while packets are read; an
/// event that does not belong to the state of a session ends it.
pub proof fn events_belong_to_their_state(
    p: protocol::PacketView,
    tag: u32,
    b: bool,
    order: ByteOrder,
    devices: Map<u32, device_scanner::UsbDeviceView>,
    require_pair_record: bool,
    w: World,
    list: Seq<device_scanner::UsbDeviceView>,
)
    ensures
        ({
            let after = |phase: Phase, event: EventView|
                outcome(phase, event, order, devices, require_pair_record, w, list);
            let asks = |phase: Phase, event: EventView|
                asks_for_list(phase, event, order, devices, require_pair_record);
            let strange = StepView::End(Err("internal: unexpected event"@));
            &&& !asks(Phase::Reading, EventView::Checked(b))
            &&& !asks(Phase::Naming { tag }, EventView::Packet(Ok(p)))
            &&& !asks(Phase::Saving { tag }, EventView::RecordSaved(b))
            &&& after(Phase::Reading, EventView::Checked(b)).step == strange
            &&& after(Phase::Naming { tag }, EventView::Packet(Ok(p))).step == strange
            &&& after(Phase::Saving { tag }, EventView::RecordDeleted(b)).step == strange
        }),
{
}

} // verus!
