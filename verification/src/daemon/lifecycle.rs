//! How the daemon starts, follows the bus, and limits its clients.
use crate::config;
use crate::config::DaemonConfig;
use crate::daemon::conn_table;
use crate::daemon::device_manager;
use crate::daemon::device_manager::DeviceManager;
use crate::daemon::device_scanner;
use crate::daemon::device_scanner::{DeviceChange, DeviceScanner, UsbDevice};
use crate::daemon::transport;
use crate::daemon::transport::Endpoint;
use crate::metrics::Metrics;
use crate::security::SocketCleanupGuard;
use crate::text;
use vstd::prelude::*;

verus! {

/// What to know before the daemon listens.
#[derive(Debug)]
pub struct Startup {
    /// Where to listen.
    pub endpoint: Endpoint,
    /// Whether more read workers were asked for than the one that is used.
    pub ignores_workers: bool,
}

/// Checks the configuration once more, and says where to listen.
pub fn prepare(config: &DaemonConfig) -> (r: Result<Startup, String>)
    ensures
        match r {
            Ok(s) => {
                &&& config::config_fault(config@) is None
                &&& s.endpoint@ == config::listens_at(config@)
                &&& s.ignores_workers == (config@.read_workers > 1)
            },
            Err(m) => config::config_fault(config@) == Some(m@),
        },
{
    match config.validate() {
        Ok(_) => Ok(
            Startup { endpoint: config.listen_endpoint(), ignores_workers: config.read_workers > 1 },
        ),
        Err(m) => Err(m),
    }
}

/// The file of a unix socket; other endpoints have none.
pub open spec fn socket_file(e: transport::EndpointView) -> Option<Seq<char>> {
    match e {
        transport::EndpointView::Unix(p) => Some(p),
        _ => None,
    }
}

/// The stale socket file to remove before listening, given whether a file is
/// there.
pub fn stale_socket(endpoint: &Endpoint, present: bool) -> (r: Option<String>)
    ensures
        text::opt_view(r) == if present {
            socket_file(endpoint@)
        } else {
            None
        },
{
    match endpoint {
        Endpoint::Unix(path) => if present {
            Some(path.clone())
        } else {
            None
        },
        _ => None,
    }
}

/// The guard that removes the socket file at the end.
pub fn socket_guard(endpoint: &Endpoint) -> (r: Option<SocketCleanupGuard>)
    ensures
        match r {
            Some(g) => socket_file(endpoint@) == Some(g.file()) && g.armed(),
            None => socket_file(endpoint@) is None,
        },
{
    match endpoint {
        Endpoint::Unix(path) => Some(SocketCleanupGuard::new(path.clone(), true)),
        _ => None,
    }
}

/// Counts a client that came when no more clients were let in.
pub fn client_refused(metrics: &mut Metrics)
    ensures
        *final(metrics) == (Metrics {
            clients_rejected: old(metrics).clients_rejected.wrapping_add(1),
            ..*old(metrics)
        }),
{
    metrics.clients_rejected = metrics.clients_rejected.wrapping_add(1);
}

/// What a change on the bus asks for.
#[derive(Debug)]
pub enum ChangeStep {
    /// Open the device and take it up.
    Open(UsbDevice),
    /// Nothing more is to be done.
    Done,
}

/// Follows a change on the bus: a device that left is given up, and one that
/// came is to be opened unless it is in use.
pub fn follow_change(manager: &mut DeviceManager, change: &DeviceChange) -> (step: ChangeStep)
    requires
        old(manager).wf(),
    ensures
        final(manager).wf(),
        match change@ {
            device_scanner::DeviceChangeView::Attached(d) => {
                &&& final(manager).devices@ == old(manager).devices@
                &&& final(manager).conn_mgr@ == old(manager).conn_mgr@
                &&& match step {
                    ChangeStep::Open(dev) => dev@ == d && !old(manager).devices@.contains_key(
                        d.device_id,
                    ),
                    ChangeStep::Done => old(manager).devices@.contains_key(d.device_id),
                }
            },
            device_scanner::DeviceChangeView::Detached { device_id } => {
                &&& final(manager).devices@ == old(manager).devices@.remove(device_id)
                &&& final(manager).conn_mgr@ == old(manager).conn_mgr@.remove(device_id)
                &&& step is Done
            },
        },
{
    match change {
        DeviceChange::Attached(dev) => {
            if manager.is_managed(dev.device_id) {
                ChangeStep::Done
            } else {
                ChangeStep::Open(dev.clone())
            }
        },
        DeviceChange::Detached { device_id } => {
            manager.remove_device(*device_id);
            ChangeStep::Done
        },
    }
}

/// Notes how many devices are attached.
pub fn devices_counted(scanner: &DeviceScanner, metrics: &mut Metrics)
    ensures
        *final(metrics) == (Metrics {
            devices_attached: scanner.state().devices.len() as i64,
            ..*old(metrics)
        }),
{
    metrics.devices_attached = scanner.device_count() as i64;
}

/// Once a device has left the bus, nothing of it remains: it is not in use,
/// and no connection to it can be asked for or found.
pub proof fn detached_device_is_gone(
    conns: Map<u32, conn_table::MuxDeviceView>,
    device_id: u32,
    sport: u16,
)
    ensures
        !conns.remove(device_id).contains_key(device_id),
        device_manager::connect_result(conns.remove(device_id), device_id, sport) is None,
        device_manager::send_fault(conns.remove(device_id), device_id, sport) == Some(
            device_manager::SendFault::DeviceNotFound,
        ),
{
}

/// A unix socket is a file at its path; a pipe and a port are none.
pub proof fn unix_sockets_are_files(p: Seq<char>, a: crate::daemon::address::TcpAddress)
    ensures
        socket_file(transport::EndpointView::Unix(p)) == Some(p),
        socket_file(transport::EndpointView::NamedPipe(p)) is None,
        socket_file(transport::EndpointView::Tcp(a)) is None,
{
}

} // verus!
