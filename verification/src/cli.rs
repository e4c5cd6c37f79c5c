//! What the options of the command line mean.
use crate::config;
use crate::config::{Backend, DaemonArgs, LogFormat};
use crate::daemon::protocol::RawPacket;
use crate::device;
use crate::device::detect;
use crate::device::Device;
use crate::error::RelayError;
use crate::plists;
use crate::plists::{get_text, get_unsigned};
use crate::text;
use crate::text::{clone_opt, joined, same};
use vstd::prelude::*;

verus! {

/// The options that every command takes.
#[derive(Debug)]
pub struct CommonOptions {
    pub endpoint: Option<String>,
    pub socket_path: Option<String>,
    pub backend: Option<Backend>,
    pub upstream: Option<String>,
    pub log_format: Option<String>,
}

/// The endpoint that the options name: an endpoint, or else a socket path,
/// which stands for a unix endpoint.
pub open spec fn named_endpoint(o: CommonOptions) -> Option<Seq<char>> {
    match o.endpoint {
        Some(e) => Some(e@),
        None => match o.socket_path {
            Some(p) => Some("unix:"@ + p@),
            None => None,
        },
    }
}

/// The endpoint that the options name.
pub fn resolve_endpoint(options: &CommonOptions) -> (r: Option<String>)
    ensures
        text::opt_view(r) == named_endpoint(*options),
{
    match &options.endpoint {
        Some(e) => Some(e.clone()),
        None => match &options.socket_path {
            Some(p) => Some(joined("unix:", p.as_str())),
            None => None,
        },
    }
}

/// What the daemon is asked for by the options.
pub open spec fn daemon_args(o: CommonOptions) -> config::DaemonArgsView {
    config::DaemonArgsView {
        config_path: None,
        endpoint: text::opt_view(o.endpoint),
        socket_path: text::opt_view(o.socket_path),
        socket_mode: None,
        socket_group: None,
        pipe_security: None,
        lockdown_dir: None,
        no_require_pair_record: false,
        scan_interval_ms: None,
        usb_timeout_ms: None,
        connect_timeout_ms: None,
        max_clients: None,
        read_workers: None,
        allow_uids: seq![],
        allow_sids: seq![],
        backend: o.backend,
        upstream: text::opt_view(o.upstream),
        log_format: match o.log_format {
            Some(kind) => Some(
                if kind@ == "json"@ {
                    LogFormat::Json
                } else {
                    LogFormat::Text
                },
            ),
            None => None,
        },
    }
}

/// What the daemon is asked for by the options.
pub fn make_daemon_args(options: &CommonOptions) -> (a: DaemonArgs)
    ensures
        a@ == daemon_args(*options),
{
    let a = DaemonArgs {
        config_path: None,
        endpoint: clone_opt(&options.endpoint),
        socket_path: clone_opt(&options.socket_path),
        socket_mode: None,
        socket_group: None,
        pipe_security: None,
        lockdown_dir: None,
        no_require_pair_record: false,
        scan_interval_ms: None,
        usb_timeout_ms: None,
        connect_timeout_ms: None,
        max_clients: None,
        read_workers: None,
        allow_uids: Vec::new(),
        allow_sids: Vec::new(),
        backend: options.backend,
        upstream: clone_opt(&options.upstream),
        log_format: match &options.log_format {
            Some(kind) => Some(
                if same(kind.as_str(), "json") {
                    LogFormat::Json
                } else {
                    LogFormat::Text
                },
            ),
            None => None,
        },
    };
    assert(a@.allow_uids =~= seq![]);
    assert(a@.allow_sids =~= seq![]);
    a
}

/// How log lines are written.
#[derive(Debug, Clone, Copy, PartialEq, Eq, Structural)]
pub enum LogStyle {
    Json,
    Compact,
    Pretty,
}

/// How log lines are written for a name.
pub fn log_style(kind: &str) -> (s: LogStyle)
    ensures
        s == if kind@ == "json"@ {
            LogStyle::Json
        } else if kind@ == "compact"@ {
            LogStyle::Compact
        } else {
            LogStyle::Pretty
        },
{
    if same(kind, "json") {
        LogStyle::Json
    } else if same(kind, "compact") {
        LogStyle::Compact
    } else {
        LogStyle::Pretty
    }
}

/// How the daemon writes its log lines.
pub fn daemon_log_style(format: LogFormat) -> (s: LogStyle)
    ensures
        s == match format {
            LogFormat::Json => LogStyle::Json,
            LogFormat::Text => LogStyle::Pretty,
        },
{
    match format {
        LogFormat::Json => LogStyle::Json,
        LogFormat::Text => LogStyle::Pretty,
    }
}

/// Whether `i` is the place of the first device with an identifier.
pub open spec fn first_with(devices: Seq<device::DeviceView>, udid: Seq<char>, i: int) -> bool {
    &&& 0 <= i < devices.len()
    &&& devices[i].udid == udid
    &&& forall|j: int| 0 <= j < i ==> (#[trigger] devices[j]).udid != udid
}

/// Chooses the device that a command is about: the first with the identifier
/// given, or the first of all.
pub fn select_device(devices: &[Device], udid: &Option<String>) -> (r: Result<usize, RelayError>)
    ensures
        match r {
            Ok(i) => match udid {
                Some(u) => first_with(detect::device_views(devices@), u@, i as int),
                None => i == 0 && devices@.len() > 0,
            },
            Err(RelayError::NoDevices) => devices@.len() == 0,
            Err(RelayError::DeviceNotFound(u)) => {
                &&& devices@.len() > 0
                &&& text::opt_view(*udid) == Some(u@)
                &&& forall|j: int|
                    0 <= j < devices@.len() ==> (#[trigger] devices@[j])@.udid != u@
            },
            Err(RelayError::Connection(_)) => false,
        },
{
    if devices.len() == 0 {
        return Err(RelayError::NoDevices);
    }
    let wanted = match udid {
        Some(u) => u,
        None => return Ok(0),
    };
    let ghost views = detect::device_views(devices@);
    let mut i: usize = 0;
    while i < devices.len()
        invariant
            i <= devices@.len(),
            views == detect::device_views(devices@),
            udid == Some(*wanted),
            forall|j: int| 0 <= j < i ==> (#[trigger] devices@[j])@.udid != wanted@,
        decreases devices@.len() - i,
    {
        if same(devices[i].udid.as_str(), wanted.as_str()) {
            assert forall|j: int| 0 <= j < i implies (#[trigger] views[j]).udid != wanted@ by {
                assert(views[j] == devices@[j]@);
            }
            return Ok(i);
        }
        i = i + 1;
    }
    Err(RelayError::DeviceNotFound(wanted.clone()))
}

/// An identifier in a list for other programs, which may have to be hidden.
pub fn listed_udid(udid: &str, hide: bool) -> (s: String)
    ensures
        s@ == if hide {
            "redacted"@
        } else {
            udid@
        },
{
    if hide {
        "redacted".to_owned()
    } else {
        udid.to_owned()
    }
}

/// An identifier in a table, which may have to be hidden.
pub fn tabled_udid(udid: &str, hide: bool) -> (s: String)
    ensures
        s@ == if hide {
            "***"@
        } else {
            udid@
        },
{
    if hide {
        "***".to_owned()
    } else {
        udid.to_owned()
    }
}

/// What the daemon replied to a request for statistics.
#[derive(Debug)]
pub enum StatsReply {
    Stats(String),
    Failed(u64),
    Unexpected,
}

/// Reads the reply to a request for statistics.
pub fn stats_reply(response: &RawPacket) -> (r: StatsReply)
    ensures
        ({
            let stats = plists::text_of(plists::lookup(response@.plist, "Stats"@));
            let status = plists::unsigned_of(plists::lookup(response@.plist, "Status"@));
            match r {
                StatsReply::Stats(s) => stats == Some(s@),
                StatsReply::Failed(n) => stats is None && status == Some(n as int),
                StatsReply::Unexpected => stats is None && status is None,
            }
        }),
{
    if let Some(s) = get_text(&response.plist, "Stats") {
        return StatsReply::Stats(s);
    }
    match get_unsigned(&response.plist, "Status") {
        Some(n) => StatsReply::Failed(n),
        None => StatsReply::Unexpected,
    }
}

/// The daemon listens where the options say: at the endpoint, or else at the
/// socket path.
pub proof fn options_say_where_to_listen(
    platform: crate::platform::Platform,
    c: config::DaemonConfigView,
    o: CommonOptions,
)
    requires
        o.endpoint matches Some(e) ==> crate::daemon::transport::endpoint_of(platform, e@) is Ok,
        named_endpoint(o) is Some,
    ensures
        config::listens_at(config::with_args(platform, c, daemon_args(o))) == match o.endpoint {
            Some(e) => crate::daemon::transport::endpoint_of(platform, e@)->Ok_0,
            None => crate::daemon::transport::EndpointView::Unix(o.socket_path.unwrap()@),
        },
{
}

/// An endpoint that is named is used as it is; a socket path stands for a unix
/// endpoint; without either there is none.
pub proof fn endpoints_are_named_by_options(o: CommonOptions)
    ensures
        o.endpoint matches Some(e) ==> named_endpoint(o) == Some(e@),
        o.endpoint is None ==> (o.socket_path matches Some(p) ==> named_endpoint(o) == Some(
            "unix:"@ + p@,
        )),
        o.endpoint is None && o.socket_path is None ==> named_endpoint(o) is None,
{
}

/// The daemon is asked for what the options say, and for nothing else.
pub proof fn options_are_handed_on(
    platform: crate::platform::Platform,
    c: config::DaemonConfigView,
    o: CommonOptions,
)
    ensures
        ({
            let r = config::with_args(platform, c, daemon_args(o));
            &&& (o.backend matches Some(b) ==> r.backend == b)
            &&& (o.backend is None ==> r.backend == c.backend)
            &&& (o.log_format matches Some(f) ==> (f@ == "json"@ ==> r.log_format
                == LogFormat::Json))
            &&& (o.log_format matches Some(f) ==> (f@ != "json"@ ==> r.log_format
                == LogFormat::Text))
            &&& (o.log_format is None ==> r.log_format == c.log_format)
            &&& r.socket_mode == c.socket_mode
            &&& r.socket_group == c.socket_group
            &&& r.pipe_security == c.pipe_security
            &&& r.lockdown_dir == c.lockdown_dir
            &&& r.require_pair_record == c.require_pair_record
            &&& r.scan_interval == c.scan_interval
            &&& r.usb_timeout == c.usb_timeout
            &&& r.connect_timeout == c.connect_timeout
            &&& r.max_clients == c.max_clients
            &&& r.read_workers == c.read_workers
            &&& r.allowed_uids == c.allowed_uids
            &&& r.allowed_sids == c.allowed_sids
        }),
        o.upstream matches Some(u) ==> (crate::daemon::transport::endpoint_of(
            platform,
            u@,
        ) matches Ok(e) ==> config::with_args(platform, c, daemon_args(o)).upstream == e),
{
}

/// The device that is asked for is the first that has the identifier, and there
/// is no other such.
pub proof fn first_device_is_chosen(
    devices: Seq<device::DeviceView>,
    udid: Seq<char>,
    i: int,
    j: int,
)
    requires
        first_with(devices, udid, i),
        0 <= j < devices.len(),
        devices[j].udid == udid,
    ensures
        i <= j,
        devices[i].udid == udid,
{
}

} // verus!
