//! The daemon's configuration: defaults, then the file, then the command
//! line; and what makes a configuration acceptable.
use crate::daemon::address::TcpAddress;
use crate::daemon::transport;
use crate::daemon::transport::Endpoint;
use crate::platform::Platform;
use crate::security;
use crate::security::find_group_gid;
use crate::text;
use crate::text::{
    clone_opt, joined, parse_number, push_decimal, push_octal, same, trim, trim_front_char,
    trim_prefixes,
};
use vstd::prelude::*;

verus! {

pub const DEFAULT_SOCKET_PATH: &'static str = "/var/run/usbmuxd";

pub const DEFAULT_LOCKDOWN_DIR: &'static str = "/var/lib/lockdown";

pub const DEFAULT_SCAN_INTERVAL_MS: u64 = 2000;

pub const DEFAULT_USB_TIMEOUT_MS: u64 = 5000;

pub const DEFAULT_CONNECT_TIMEOUT_MS: u64 = 5000;

pub const DEFAULT_MAX_CLIENTS: usize = 256;

pub const DEFAULT_BROADCAST_CAPACITY: usize = 256;

pub const DEFAULT_READ_WORKERS: usize = 3;

pub const DEFAULT_MAX_REASSEMBLY_BYTES: usize = 1048576;

pub const DEFAULT_MAX_PACKET_BYTES: usize = 16777216;

pub const DEFAULT_MAX_CONN_BUFFER: usize = 1048576;

pub const DEFAULT_CLIENT_READ_BUF: usize = 16384;

pub const DEFAULT_MAX_DATA_CHANNEL: usize = 128;

pub const DEFAULT_CONNECT_CHANNEL: usize = 16;

/// Read and write for everyone: 666 in octal.
pub const DEFAULT_SOCKET_MODE: u32 = 438;

/// The highest mode: 777 in octal.
pub const MAX_SOCKET_MODE: u32 = 511;

pub const MAX_CONFIG_FILE_SIZE: usize = 1048576;

/// The service that relay mode goes to by default: port 27015 of 127.0.0.1.
pub const DEFAULT_UPSTREAM_BITS: u32 = 0x7F00_0001;

pub const DEFAULT_UPSTREAM_PORT: u16 = 27015;

/// A span of time in whole milliseconds.
#[derive(Debug, Clone, Copy, PartialEq, Eq, Structural)]
pub struct Millis {
    pub millis: u64,
}

impl Millis {
    pub fn from_millis(millis: u64) -> (m: Self)
        ensures
            m.millis == millis,
    {
        Millis { millis }
    }

    pub fn zero() -> (m: Self)
        ensures
            m.millis == 0,
    {
        Millis { millis: 0 }
    }

    pub fn is_zero(&self) -> (b: bool)
        ensures
            b == (self.millis == 0),
    {
        self.millis == 0
    }
}

#[derive(Debug, Clone, Copy, PartialEq, Eq, Structural)]
pub enum LogFormat {
    Text,
    Json,
}

impl LogFormat {
    /// The format's name.
    pub open spec fn name(self) -> Seq<char> {
        match self {
            LogFormat::Text => "text"@,
            LogFormat::Json => "json"@,
        }
    }

    /// The format's name.
    pub fn to_text(&self) -> (s: &'static str)
        ensures
            s@ == self.name(),
    {
        match self {
            LogFormat::Text => "text",
            LogFormat::Json => "json",
        }
    }
}

/// Where the daemon takes devices from: the bus, or another such service.
#[derive(Debug, Clone, Copy, PartialEq, Eq, Structural)]
pub enum Backend {
    Usb,
    Relay,
}

impl Backend {
    /// The backend's name.
    pub open spec fn name(self) -> Seq<char> {
        match self {
            Backend::Usb => "usb"@,
            Backend::Relay => "relay"@,
        }
    }

    /// The backend's name.
    pub fn to_text(&self) -> (s: &'static str)
        ensures
            s@ == self.name(),
    {
        match self {
            Backend::Usb => "usb",
            Backend::Relay => "relay",
        }
    }
}

/// What the command line asks for.
#[derive(Debug, Clone)]
pub struct DaemonArgs {
    pub config_path: Option<String>,
    pub endpoint: Option<String>,
    pub socket_path: Option<String>,
    pub socket_mode: Option<String>,
    pub socket_group: Option<String>,
    pub pipe_security: Option<String>,
    pub lockdown_dir: Option<String>,
    pub no_require_pair_record: bool,
    pub scan_interval_ms: Option<u64>,
    pub usb_timeout_ms: Option<u64>,
    pub connect_timeout_ms: Option<u64>,
    pub max_clients: Option<usize>,
    pub read_workers: Option<usize>,
    pub allow_uids: Vec<u32>,
    pub allow_sids: Vec<String>,
    pub backend: Option<Backend>,
    pub upstream: Option<String>,
    pub log_format: Option<LogFormat>,
}

/// A `DaemonArgs` with its text as characters.
pub ghost struct DaemonArgsView {
    pub config_path: Option<Seq<char>>,
    pub endpoint: Option<Seq<char>>,
    pub socket_path: Option<Seq<char>>,
    pub socket_mode: Option<Seq<char>>,
    pub socket_group: Option<Seq<char>>,
    pub pipe_security: Option<Seq<char>>,
    pub lockdown_dir: Option<Seq<char>>,
    pub no_require_pair_record: bool,
    pub scan_interval_ms: Option<u64>,
    pub usb_timeout_ms: Option<u64>,
    pub connect_timeout_ms: Option<u64>,
    pub max_clients: Option<usize>,
    pub read_workers: Option<usize>,
    pub allow_uids: Seq<u32>,
    pub allow_sids: Seq<Seq<char>>,
    pub backend: Option<Backend>,
    pub upstream: Option<Seq<char>>,
    pub log_format: Option<LogFormat>,
}

impl View for DaemonArgs {
    type V = DaemonArgsView;

    open spec fn view(&self) -> DaemonArgsView {
        DaemonArgsView {
            config_path: text::opt_view(self.config_path),
            endpoint: text::opt_view(self.endpoint),
            socket_path: text::opt_view(self.socket_path),
            socket_mode: text::opt_view(self.socket_mode),
            socket_group: text::opt_view(self.socket_group),
            pipe_security: text::opt_view(self.pipe_security),
            lockdown_dir: text::opt_view(self.lockdown_dir),
            no_require_pair_record: self.no_require_pair_record,
            scan_interval_ms: self.scan_interval_ms,
            usb_timeout_ms: self.usb_timeout_ms,
            connect_timeout_ms: self.connect_timeout_ms,
            max_clients: self.max_clients,
            read_workers: self.read_workers,
            allow_uids: self.allow_uids@,
            allow_sids: text::text_views(self.allow_sids@),
            backend: self.backend,
            upstream: text::opt_view(self.upstream),
            log_format: self.log_format,
        }
    }
}

/// What a configuration file says.
#[derive(Debug, Clone)]
pub struct ConfigFile {
    pub endpoint: Option<String>,
    pub socket_path: Option<String>,
    pub socket_mode: Option<String>,
    pub socket_group: Option<String>,
    pub pipe_security: Option<String>,
    pub lockdown_dir: Option<String>,
    pub require_pair_record: Option<bool>,
    pub scan_interval_ms: Option<u64>,
    pub usb_timeout_ms: Option<u64>,
    pub connect_timeout_ms: Option<u64>,
    pub max_clients: Option<usize>,
    pub read_workers: Option<usize>,
    pub allowed_uids: Option<Vec<u32>>,
    pub allowed_sids: Option<Vec<String>>,
    pub backend: Option<Backend>,
    pub upstream: Option<String>,
    pub log_format: Option<LogFormat>,
}

/// A `ConfigFile` with its text as characters.
pub ghost struct ConfigFileView {
    pub endpoint: Option<Seq<char>>,
    pub socket_path: Option<Seq<char>>,
    pub socket_mode: Option<Seq<char>>,
    pub socket_group: Option<Seq<char>>,
    pub pipe_security: Option<Seq<char>>,
    pub lockdown_dir: Option<Seq<char>>,
    pub require_pair_record: Option<bool>,
    pub scan_interval_ms: Option<u64>,
    pub usb_timeout_ms: Option<u64>,
    pub connect_timeout_ms: Option<u64>,
    pub max_clients: Option<usize>,
    pub read_workers: Option<usize>,
    pub allowed_uids: Option<Seq<u32>>,
    pub allowed_sids: Option<Seq<Seq<char>>>,
    pub backend: Option<Backend>,
    pub upstream: Option<Seq<char>>,
    pub log_format: Option<LogFormat>,
}

impl View for ConfigFile {
    type V = ConfigFileView;

    open spec fn view(&self) -> ConfigFileView {
        ConfigFileView {
            endpoint: text::opt_view(self.endpoint),
            socket_path: text::opt_view(self.socket_path),
            socket_mode: text::opt_view(self.socket_mode),
            socket_group: text::opt_view(self.socket_group),
            pipe_security: text::opt_view(self.pipe_security),
            lockdown_dir: text::opt_view(self.lockdown_dir),
            require_pair_record: self.require_pair_record,
            scan_interval_ms: self.scan_interval_ms,
            usb_timeout_ms: self.usb_timeout_ms,
            connect_timeout_ms: self.connect_timeout_ms,
            max_clients: self.max_clients,
            read_workers: self.read_workers,
            allowed_uids: match self.allowed_uids {
                Some(v) => Some(v@),
                None => None,
            },
            allowed_sids: match self.allowed_sids {
                Some(v) => Some(text::text_views(v@)),
                None => None,
            },
            backend: self.backend,
            upstream: text::opt_view(self.upstream),
            log_format: self.log_format,
        }
    }
}

/// The effective configuration.
#[derive(Debug, Clone)]
pub struct DaemonConfig {
    pub socket_path: String,
    pub endpoint: Endpoint,
    pub backend: Backend,
    pub upstream: Endpoint,
    pub socket_mode: u32,
    pub socket_group: Option<String>,
    pub pipe_security: String,
    pub lockdown_dir: String,
    pub require_pair_record: bool,
    pub scan_interval: Millis,
    pub usb_timeout: Millis,
    pub connect_timeout: Millis,
    pub max_clients: usize,
    pub broadcast_capacity: usize,
    pub read_workers: usize,
    pub max_reassembly_bytes: usize,
    pub max_packet_bytes: usize,
    pub max_conn_buffer: usize,
    pub client_read_buf: usize,
    pub max_data_channel: usize,
    pub connect_channel: usize,
    pub allowed_uids: Vec<u32>,
    pub allowed_sids: Vec<String>,
    pub log_format: LogFormat,
}

/// A `DaemonConfig` with its text as characters.
pub ghost struct DaemonConfigView {
    pub socket_path: Seq<char>,
    pub endpoint: transport::EndpointView,
    pub backend: Backend,
    pub upstream: transport::EndpointView,
    pub socket_mode: u32,
    pub socket_group: Option<Seq<char>>,
    pub pipe_security: Seq<char>,
    pub lockdown_dir: Seq<char>,
    pub require_pair_record: bool,
    pub scan_interval: Millis,
    pub usb_timeout: Millis,
    pub connect_timeout: Millis,
    pub max_clients: usize,
    pub broadcast_capacity: usize,
    pub read_workers: usize,
    pub max_reassembly_bytes: usize,
    pub max_packet_bytes: usize,
    pub max_conn_buffer: usize,
    pub client_read_buf: usize,
    pub max_data_channel: usize,
    pub connect_channel: usize,
    pub allowed_uids: Seq<u32>,
    pub allowed_sids: Seq<Seq<char>>,
    pub log_format: LogFormat,
}

impl View for DaemonConfig {
    type V = DaemonConfigView;

    open spec fn view(&self) -> DaemonConfigView {
        DaemonConfigView {
            socket_path: self.socket_path@,
            endpoint: self.endpoint@,
            backend: self.backend,
            upstream: self.upstream@,
            socket_mode: self.socket_mode,
            socket_group: text::opt_view(self.socket_group),
            pipe_security: self.pipe_security@,
            lockdown_dir: self.lockdown_dir@,
            require_pair_record: self.require_pair_record,
            scan_interval: self.scan_interval,
            usb_timeout: self.usb_timeout,
            connect_timeout: self.connect_timeout,
            max_clients: self.max_clients,
            broadcast_capacity: self.broadcast_capacity,
            read_workers: self.read_workers,
            max_reassembly_bytes: self.max_reassembly_bytes,
            max_packet_bytes: self.max_packet_bytes,
            max_conn_buffer: self.max_conn_buffer,
            client_read_buf: self.client_read_buf,
            max_data_channel: self.max_data_channel,
            connect_channel: self.connect_channel,
            allowed_uids: self.allowed_uids@,
            allowed_sids: text::text_views(self.allowed_sids@),
            log_format: self.log_format,
        }
    }
}

impl Default for ConfigFile {
    fn default() -> (f: Self)
        ensures
            f.endpoint is None,
            f.socket_path is None,
            f.socket_mode is None,
            f.socket_group is None,
            f.pipe_security is None,
            f.lockdown_dir is None,
            f.require_pair_record is None,
            f.scan_interval_ms is None,
            f.usb_timeout_ms is None,
            f.connect_timeout_ms is None,
            f.max_clients is None,
            f.read_workers is None,
            f.allowed_uids is None,
            f.allowed_sids is None,
            f.backend is None,
            f.upstream is None,
            f.log_format is None,
    {
        ConfigFile {
            endpoint: None,
            socket_path: None,
            socket_mode: None,
            socket_group: None,
            pipe_security: None,
            lockdown_dir: None,
            require_pair_record: None,
            scan_interval_ms: None,
            usb_timeout_ms: None,
            connect_timeout_ms: None,
            max_clients: None,
            read_workers: None,
            allowed_uids: None,
            allowed_sids: None,
            backend: None,
            upstream: None,
            log_format: None,
        }
    }
}

/// The configuration without file or command line, on unix.
pub open spec fn default_config() -> DaemonConfigView {
    DaemonConfigView {
        socket_path: DEFAULT_SOCKET_PATH@,
        endpoint: transport::EndpointView::Unix(DEFAULT_SOCKET_PATH@),
        backend: Backend::Usb,
        upstream: transport::EndpointView::Tcp(
            TcpAddress::V4 { bits: DEFAULT_UPSTREAM_BITS, port: DEFAULT_UPSTREAM_PORT },
        ),
        socket_mode: DEFAULT_SOCKET_MODE,
        socket_group: None,
        pipe_security: seq![],
        lockdown_dir: DEFAULT_LOCKDOWN_DIR@,
        require_pair_record: true,
        scan_interval: Millis { millis: DEFAULT_SCAN_INTERVAL_MS },
        usb_timeout: Millis { millis: DEFAULT_USB_TIMEOUT_MS },
        connect_timeout: Millis { millis: DEFAULT_CONNECT_TIMEOUT_MS },
        max_clients: DEFAULT_MAX_CLIENTS,
        broadcast_capacity: DEFAULT_BROADCAST_CAPACITY,
        read_workers: DEFAULT_READ_WORKERS,
        max_reassembly_bytes: DEFAULT_MAX_REASSEMBLY_BYTES,
        max_packet_bytes: DEFAULT_MAX_PACKET_BYTES,
        max_conn_buffer: DEFAULT_MAX_CONN_BUFFER,
        client_read_buf: DEFAULT_CLIENT_READ_BUF,
        max_data_channel: DEFAULT_MAX_DATA_CHANNEL,
        connect_channel: DEFAULT_CONNECT_CHANNEL,
        allowed_uids: seq![],
        allowed_sids: seq![],
        log_format: LogFormat::Text,
    }
}

impl Default for DaemonConfig {
    fn default() -> (c: Self)
        ensures
            c@ == default_config(),
    {
        let c = DaemonConfig {
            socket_path: DEFAULT_SOCKET_PATH.to_owned(),
            endpoint: Endpoint::Unix(DEFAULT_SOCKET_PATH.to_owned()),
            backend: Backend::Usb,
            upstream: Endpoint::Tcp(
                TcpAddress::V4 { bits: DEFAULT_UPSTREAM_BITS, port: DEFAULT_UPSTREAM_PORT },
            ),
            socket_mode: DEFAULT_SOCKET_MODE,
            socket_group: None,
            pipe_security: String::new(),
            lockdown_dir: DEFAULT_LOCKDOWN_DIR.to_owned(),
            require_pair_record: true,
            scan_interval: Millis::from_millis(DEFAULT_SCAN_INTERVAL_MS),
            usb_timeout: Millis::from_millis(DEFAULT_USB_TIMEOUT_MS),
            connect_timeout: Millis::from_millis(DEFAULT_CONNECT_TIMEOUT_MS),
            max_clients: DEFAULT_MAX_CLIENTS,
            broadcast_capacity: DEFAULT_BROADCAST_CAPACITY,
            read_workers: DEFAULT_READ_WORKERS,
            max_reassembly_bytes: DEFAULT_MAX_REASSEMBLY_BYTES,
            max_packet_bytes: DEFAULT_MAX_PACKET_BYTES,
            max_conn_buffer: DEFAULT_MAX_CONN_BUFFER,
            client_read_buf: DEFAULT_CLIENT_READ_BUF,
            max_data_channel: DEFAULT_MAX_DATA_CHANNEL,
            connect_channel: DEFAULT_CONNECT_CHANNEL,
            allowed_uids: Vec::new(),
            allowed_sids: Vec::new(),
            log_format: LogFormat::Text,
        };
        assert(c@.allowed_sids =~= default_config().allowed_sids);
        assert(c@.pipe_security =~= default_config().pipe_security);
        c
    }
}

/// `o`'s value, or `d` where it has none.
pub open spec fn pick<T>(o: Option<T>, d: T) -> T {
    match o {
        Some(v) => v,
        None => d,
    }
}

/// The digits of an octal number: without white space, the prefix `0o` and
/// leading zeros.
pub open spec fn octal_digits(s: Seq<char>) -> Seq<char> {
    text::without_front(text::without_prefixes(text::trimmed(s), "0o"@), '0')
}

/// The number that a text writes in octal, or the message of what is wrong.
pub open spec fn octal_value(s: Seq<char>) -> Result<u32, Seq<char>> {
    let digits = octal_digits(s);
    match text::number(digits, 8, u32::MAX as int) {
        Ok(n) => Ok(n as u32),
        Err(fault) => Err("invalid octal value '"@ + digits + "': "@ + fault.message()),
    }
}

/// Reads a number written in octal, such as `0660` or `0o660`.
pub fn parse_octal(s: &str) -> (r: Result<u32, String>)
    ensures
        match r {
            Ok(n) => octal_value(s@) == Ok::<u32, Seq<char>>(n),
            Err(m) => octal_value(s@) == Err::<u32, Seq<char>>(m@),
        },
{
    let unprefixed = trim_prefixes(trim(s).as_str(), "0o");
    let digits = trim_front_char(unprefixed.as_str(), '0');
    match parse_number(digits.as_str(), 8, u32::MAX) {
        Ok(n) => Ok(n),
        Err(fault) => {
            let mut m = joined("invalid octal value '", digits.as_str());
            m.append("': ");
            m.append(fault.to_text());
            Err(m)
        },
    }
}

/// The mode after a layer that may give one; a mode that cannot be read
/// leaves it as it was.
pub open spec fn merged_mode(mode: u32, given: Option<Seq<char>>) -> u32 {
    match given {
        Some(s) => match octal_value(s) {
            Ok(n) => n,
            Err(_) => mode,
        },
        None => mode,
    }
}

/// An endpoint after a layer that may give one; one that cannot be read
/// leaves it as it was.
pub open spec fn merged_endpoint(
    platform: Platform,
    e: transport::EndpointView,
    given: Option<Seq<char>>,
) -> transport::EndpointView {
    match given {
        Some(s) => match transport::endpoint_of(platform, s) {
            Ok(n) => n,
            Err(_) => e,
        },
        None => e,
    }
}

/// The endpoint after a layer that may give a socket path, which stands for
/// a unix endpoint, and an endpoint, which counts for more.
pub open spec fn merged_listen(
    platform: Platform,
    e: transport::EndpointView,
    socket_path: Option<Seq<char>>,
    endpoint: Option<Seq<char>>,
) -> transport::EndpointView {
    let base = match socket_path {
        Some(p) => transport::EndpointView::Unix(p),
        None => e,
    };
    merged_endpoint(platform, base, endpoint)
}

/// The socket path after a layer that may give one, or a unix endpoint,
/// which counts for more.
pub open spec fn merged_path(
    platform: Platform,
    path: Seq<char>,
    socket_path: Option<Seq<char>>,
    endpoint: Option<Seq<char>>,
) -> Seq<char> {
    match merged_listen(platform, transport::EndpointView::Unix(path), socket_path, endpoint) {
        transport::EndpointView::Unix(p) => p,
        _ => pick(socket_path, path),
    }
}

/// The span that a layer may give, or `d`.
pub open spec fn pick_millis(o: Option<u64>, d: Millis) -> Millis {
    match o {
        Some(v) => Millis { millis: v },
        None => d,
    }
}

/// The configuration with a file laid over it.
pub open spec fn with_file(
    platform: Platform,
    c: DaemonConfigView,
    f: ConfigFileView,
) -> DaemonConfigView {
    DaemonConfigView {
        socket_path: merged_path(platform, c.socket_path, f.socket_path, f.endpoint),
        endpoint: merged_listen(platform, c.endpoint, f.socket_path, f.endpoint),
        backend: pick(f.backend, c.backend),
        upstream: merged_endpoint(platform, c.upstream, f.upstream),
        socket_mode: merged_mode(c.socket_mode, f.socket_mode),
        socket_group: match f.socket_group {
            Some(g) => Some(g),
            None => c.socket_group,
        },
        pipe_security: pick(f.pipe_security, c.pipe_security),
        lockdown_dir: pick(f.lockdown_dir, c.lockdown_dir),
        require_pair_record: pick(f.require_pair_record, c.require_pair_record),
        scan_interval: pick_millis(f.scan_interval_ms, c.scan_interval),
        usb_timeout: pick_millis(f.usb_timeout_ms, c.usb_timeout),
        connect_timeout: pick_millis(f.connect_timeout_ms, c.connect_timeout),
        max_clients: pick(f.max_clients, c.max_clients),
        read_workers: pick(f.read_workers, c.read_workers),
        allowed_uids: pick(f.allowed_uids, c.allowed_uids),
        allowed_sids: pick(f.allowed_sids, c.allowed_sids),
        log_format: pick(f.log_format, c.log_format),
        ..c
    }
}

/// The configuration with a command line laid over it. What was not given
/// stays as it is; a list of those allowed is given when it names someone.
pub open spec fn with_args(
    platform: Platform,
    c: DaemonConfigView,
    a: DaemonArgsView,
) -> DaemonConfigView {
    DaemonConfigView {
        socket_path: merged_path(platform, c.socket_path, a.socket_path, a.endpoint),
        endpoint: merged_listen(platform, c.endpoint, a.socket_path, a.endpoint),
        backend: pick(a.backend, c.backend),
        upstream: merged_endpoint(platform, c.upstream, a.upstream),
        socket_mode: merged_mode(c.socket_mode, a.socket_mode),
        socket_group: match a.socket_group {
            Some(g) => Some(g),
            None => c.socket_group,
        },
        pipe_security: pick(a.pipe_security, c.pipe_security),
        lockdown_dir: pick(a.lockdown_dir, c.lockdown_dir),
        require_pair_record: c.require_pair_record && !a.no_require_pair_record,
        scan_interval: pick_millis(a.scan_interval_ms, c.scan_interval),
        usb_timeout: pick_millis(a.usb_timeout_ms, c.usb_timeout),
        connect_timeout: pick_millis(a.connect_timeout_ms, c.connect_timeout),
        max_clients: pick(a.max_clients, c.max_clients),
        read_workers: pick(a.read_workers, c.read_workers),
        allowed_uids: if a.allow_uids.len() > 0 {
            a.allow_uids
        } else {
            c.allowed_uids
        },
        allowed_sids: if a.allow_sids.len() > 0 {
            a.allow_sids
        } else {
            c.allowed_sids
        },
        log_format: pick(a.log_format, c.log_format),
        ..c
    }
}

/// A copy of a list of texts.
fn clone_texts(v: &Vec<String>) -> (r: Vec<String>)
    ensures
        text::text_views(r@) == text::text_views(v@),
{
    let mut r: Vec<String> = Vec::new();
    let mut i: usize = 0;
    while i < v.len()
        invariant
            i <= v@.len(),
            text::text_views(r@) =~= text::text_views(v@).take(i as int),
        decreases v@.len() - i,
    {
        let ghost was = text::text_views(r@);
        r.push(v[i].clone());
        assert(text::text_views(r@) =~= was.push(v@[i as int]@));
        i = i + 1;
    }
    assert(text::text_views(v@).take(i as int) =~= text::text_views(v@));
    r
}

/// A copy of a list of numbers.
fn clone_numbers(v: &Vec<u32>) -> (r: Vec<u32>)
    ensures
        r@ == v@,
{
    let mut r: Vec<u32> = Vec::new();
    let mut i: usize = 0;
    while i < v.len()
        invariant
            i <= v@.len(),
            r@ =~= v@.take(i as int),
        decreases v@.len() - i,
    {
        r.push(v[i]);
        i = i + 1;
    }
    assert(v@.take(i as int) =~= v@);
    r
}

/// Lays a mode over another.
fn merge_mode(mode: &mut u32, given: &Option<String>)
    ensures
        *final(mode) == merged_mode(*old(mode), text::opt_view(*given)),
{
    if let Some(s) = given {
        if let Ok(n) = parse_octal(s.as_str()) {
            *mode = n;
        }
    }
}

/// Lays an endpoint over another.
fn merge_endpoint(platform: Platform, e: &mut Endpoint, given: &Option<String>)
    ensures
        final(e)@ == merged_endpoint(platform, old(e)@, text::opt_view(*given)),
{
    if let Some(s) = given {
        if let Ok(n) = Endpoint::parse_for(platform, s.as_str()) {
            *e = n;
        }
    }
}

/// Lays a text over another.
fn merge_text(t: &mut String, given: &Option<String>)
    ensures
        final(t)@ == pick(text::opt_view(*given), old(t)@),
{
    if let Some(s) = given {
        *t = s.clone();
    }
}

/// Lays a span over another.
fn merge_millis(m: &mut Millis, given: Option<u64>)
    ensures
        *final(m) == pick_millis(given, *old(m)),
{
    if let Some(v) = given {
        *m = Millis::from_millis(v);
    }
}

/// Lays a number over another.
fn merge_size(n: &mut usize, given: Option<usize>)
    ensures
        *final(n) == pick(given, *old(n)),
{
    if let Some(v) = given {
        *n = v;
    }
}

/// The message for a file that is too large.
pub open spec fn large_file_text(len: nat) -> Seq<char> {
    "config file too large: "@ + text::decimal(len) + " bytes (max "@ + text::decimal(
        MAX_CONFIG_FILE_SIZE as nat,
    ) + ")"@
}

/// Refuses the text of a configuration file that is too large.
pub fn check_file_size(content: &str) -> (r: Result<(), String>)
    ensures
        match r {
            Ok(_) => text::utf8_len(content@) <= MAX_CONFIG_FILE_SIZE,
            Err(m) => text::utf8_len(content@) > MAX_CONFIG_FILE_SIZE && m@ == large_file_text(
                text::utf8_len(content@),
            ),
        },
{
    let len: usize = text::byte_len(content);
    if len > MAX_CONFIG_FILE_SIZE {
        let mut m = "config file too large: ".to_owned();
        push_decimal(&mut m, len as u64);
        m.append(" bytes (max ");
        push_decimal(&mut m, MAX_CONFIG_FILE_SIZE as u64);
        m.append(")");
        return Err(m);
    }
    Ok(())
}

/// What is wrong with a configuration, the first fault found.
pub open spec fn config_fault(c: DaemonConfigView) -> Option<Seq<char>> {
    if c.max_clients == 0 {
        Some("max_clients must be > 0"@)
    } else if c.read_workers == 0 {
        Some("read_workers must be > 0"@)
    } else if c.scan_interval.millis == 0 {
        Some("scan_interval must be > 0"@)
    } else if c.usb_timeout.millis == 0 {
        Some("usb_timeout must be > 0"@)
    } else if c.connect_timeout.millis == 0 {
        Some("connect_timeout must be > 0"@)
    } else if c.max_packet_bytes < 1024 {
        Some("max_packet_bytes must be >= 1024"@)
    } else if c.max_conn_buffer == 0 {
        Some("max_conn_buffer must be > 0"@)
    } else if c.socket_mode > MAX_SOCKET_MODE {
        Some("invalid socket mode: "@ + text::octal(c.socket_mode as nat))
    } else {
        None
    }
}

impl DaemonConfig {
    /// The defaults, with a file and then a command line laid over them.
    pub fn from_sources(
        platform: Platform,
        file: Option<&ConfigFile>,
        args: &DaemonArgs,
    ) -> (c: Self)
        ensures
            c@ == with_args(
                platform,
                match file {
                    Some(f) => with_file(platform, default_config(), f@),
                    None => default_config(),
                },
                args@,
            ),
    {
        let mut c = DaemonConfig::default();
        if let Some(f) = file {
            c.merge_file(platform, f);
        }
        c.merge_args(platform, args);
        c
    }

    /// Lays a socket path and an endpoint over those of the configuration.
    fn merge_listen(
        &mut self,
        platform: Platform,
        socket_path: &Option<String>,
        endpoint: &Option<String>,
    )
        ensures
            final(self)@ == (DaemonConfigView {
                socket_path: merged_path(
                    platform,
                    old(self)@.socket_path,
                    text::opt_view(*socket_path),
                    text::opt_view(*endpoint),
                ),
                endpoint: merged_listen(
                    platform,
                    old(self)@.endpoint,
                    text::opt_view(*socket_path),
                    text::opt_view(*endpoint),
                ),
                ..old(self)@
            }),
    {
        if let Some(p) = socket_path {
            self.socket_path = p.clone();
            self.endpoint = Endpoint::Unix(p.clone());
        }
        if let Some(s) = endpoint {
            if let Ok(e) = Endpoint::parse_for(platform, s.as_str()) {
                if let Endpoint::Unix(p) = &e {
                    self.socket_path = p.clone();
                }
                self.endpoint = e;
            }
        }
    }

    /// Lays a file over the configuration.
    pub fn merge_file(&mut self, platform: Platform, file: &ConfigFile)
        ensures
            final(self)@ == with_file(platform, old(self)@, file@),
    {
        self.merge_listen(platform, &file.socket_path, &file.endpoint);
        if let Some(b) = file.backend {
            self.backend = b;
        }
        merge_endpoint(platform, &mut self.upstream, &file.upstream);
        merge_mode(&mut self.socket_mode, &file.socket_mode);
        if file.socket_group.is_some() {
            self.socket_group = clone_opt(&file.socket_group);
        }
        merge_text(&mut self.pipe_security, &file.pipe_security);
        merge_text(&mut self.lockdown_dir, &file.lockdown_dir);
        if let Some(v) = file.require_pair_record {
            self.require_pair_record = v;
        }
        merge_millis(&mut self.scan_interval, file.scan_interval_ms);
        merge_millis(&mut self.usb_timeout, file.usb_timeout_ms);
        merge_millis(&mut self.connect_timeout, file.connect_timeout_ms);
        merge_size(&mut self.max_clients, file.max_clients);
        merge_size(&mut self.read_workers, file.read_workers);
        if let Some(uids) = &file.allowed_uids {
            self.allowed_uids = clone_numbers(uids);
        }
        if let Some(sids) = &file.allowed_sids {
            self.allowed_sids = clone_texts(sids);
        }
        if let Some(f) = file.log_format {
            self.log_format = f;
        }
    }

    /// Lays a command line over the configuration.
    pub fn merge_args(&mut self, platform: Platform, args: &DaemonArgs)
        ensures
            final(self)@ == with_args(platform, old(self)@, args@),
    {
        self.merge_listen(platform, &args.socket_path, &args.endpoint);
        if let Some(b) = args.backend {
            self.backend = b;
        }
        merge_endpoint(platform, &mut self.upstream, &args.upstream);
        merge_mode(&mut self.socket_mode, &args.socket_mode);
        if args.socket_group.is_some() {
            self.socket_group = clone_opt(&args.socket_group);
        }
        merge_text(&mut self.pipe_security, &args.pipe_security);
        merge_text(&mut self.lockdown_dir, &args.lockdown_dir);
        if args.no_require_pair_record {
            self.require_pair_record = false;
        }
        merge_millis(&mut self.scan_interval, args.scan_interval_ms);
        merge_millis(&mut self.usb_timeout, args.usb_timeout_ms);
        merge_millis(&mut self.connect_timeout, args.connect_timeout_ms);
        merge_size(&mut self.max_clients, args.max_clients);
        merge_size(&mut self.read_workers, args.read_workers);
        if args.allow_uids.len() > 0 {
            self.allowed_uids = clone_numbers(&args.allow_uids);
        }
        if args.allow_sids.len() > 0 {
            self.allowed_sids = clone_texts(&args.allow_sids);
        }
        if let Some(f) = args.log_format {
            self.log_format = f;
        }
    }

    /// Checks the configuration and reports the first fault.
    pub fn validate(&self) -> (r: Result<(), String>)
        ensures
            match r {
                Ok(_) => config_fault(self@) is None,
                Err(m) => config_fault(self@) == Some(m@),
            },
    {
        if self.max_clients == 0 {
            return Err("max_clients must be > 0".to_owned());
        }
        if self.read_workers == 0 {
            return Err("read_workers must be > 0".to_owned());
        }
        if self.scan_interval.is_zero() {
            return Err("scan_interval must be > 0".to_owned());
        }
        if self.usb_timeout.is_zero() {
            return Err("usb_timeout must be > 0".to_owned());
        }
        if self.connect_timeout.is_zero() {
            return Err("connect_timeout must be > 0".to_owned());
        }
        if self.max_packet_bytes < 1024 {
            return Err("max_packet_bytes must be >= 1024".to_owned());
        }
        if self.max_conn_buffer == 0 {
            return Err("max_conn_buffer must be > 0".to_owned());
        }
        if self.socket_mode > MAX_SOCKET_MODE {
            let mut m = "invalid socket mode: ".to_owned();
            push_octal(&mut m, self.socket_mode);
            return Err(m);
        }
        Ok(())
    }

    /// Whether everyone can write to the socket, which deserves a warning.
    pub fn world_writable(&self) -> (b: bool)
        ensures
            b == (self.socket_mode & 2 != 0),
    {
        self.socket_mode & 2 != 0
    }

    /// Whether everyone can read from the socket, which deserves a warning.
    pub fn world_readable(&self) -> (b: bool)
        ensures
            b == (self.socket_mode & 4 != 0),
    {
        self.socket_mode & 4 != 0
    }

    /// Whether to warn when the directory of pair records is not there: when
    /// they are required and are at the usual place.
    pub fn expects_lockdown_dir(&self) -> (b: bool)
        ensures
            b == (self.require_pair_record && self.lockdown_dir@ == DEFAULT_LOCKDOWN_DIR@),
    {
        self.require_pair_record && same(self.lockdown_dir.as_str(), DEFAULT_LOCKDOWN_DIR)
    }

    /// The number of the group that is to own the socket, looked up in the
    /// text of the group database.
    pub fn resolve_group_gid(&self, groups: Option<&str>) -> (r: Option<u32>)
        ensures
            match (self@.socket_group, groups) {
                (Some(name), Some(content)) => match r {
                    Some(g) => security::group_gid(text::lines_of(content@), name) == Some(
                        g as int,
                    ),
                    None => security::group_gid(text::lines_of(content@), name) is None,
                },
                _ => r is None,
            },
    {
        match (&self.socket_group, groups) {
            (Some(name), Some(content)) => find_group_gid(content, name.as_str()),
            _ => None,
        }
    }

    /// Where the daemon listens: at the endpoint; or, where that was left at
    /// its default, at the socket path.
    pub fn listen_endpoint(&self) -> (e: Endpoint)
        ensures
            e@ == listens_at(self@),
    {
        let is_default: bool = match &self.endpoint {
            Endpoint::Unix(p) => same(p.as_str(), DEFAULT_SOCKET_PATH),
            _ => false,
        };
        if is_default {
            Endpoint::Unix(self.socket_path.clone())
        } else {
            self.endpoint.duplicate()
        }
    }
}

/// Where the daemon listens.
pub open spec fn listens_at(c: DaemonConfigView) -> transport::EndpointView {
    if c.endpoint == transport::EndpointView::Unix(DEFAULT_SOCKET_PATH@) {
        transport::EndpointView::Unix(c.socket_path)
    } else {
        c.endpoint
    }
}

/// The defaults are acceptable.
pub proof fn defaults_are_valid()
    ensures
        config_fault(default_config()) is None,
{
}

/// The command line counts for more than the file, and the file for more
/// than the defaults: whatever the command line gives stands, and what it
/// leaves open is as the file has it.
pub proof fn command_line_overrides_file(
    platform: Platform,
    c: DaemonConfigView,
    f: ConfigFileView,
    a: DaemonArgsView,
)
    ensures
        ({
            let r = with_args(platform, with_file(platform, c, f), a);
            &&& r.max_clients == pick(a.max_clients, pick(f.max_clients, c.max_clients))
            &&& r.read_workers == pick(a.read_workers, pick(f.read_workers, c.read_workers))
            &&& r.lockdown_dir == pick(a.lockdown_dir, pick(f.lockdown_dir, c.lockdown_dir))
            &&& r.pipe_security == pick(a.pipe_security, pick(f.pipe_security, c.pipe_security))
            &&& r.scan_interval == pick_millis(
                a.scan_interval_ms,
                pick_millis(f.scan_interval_ms, c.scan_interval),
            )
            &&& r.usb_timeout == pick_millis(
                a.usb_timeout_ms,
                pick_millis(f.usb_timeout_ms, c.usb_timeout),
            )
            &&& r.connect_timeout == pick_millis(
                a.connect_timeout_ms,
                pick_millis(f.connect_timeout_ms, c.connect_timeout),
            )
            &&& r.require_pair_record == (pick(f.require_pair_record, c.require_pair_record)
                && !a.no_require_pair_record)
            &&& r.backend == pick(a.backend, pick(f.backend, c.backend))
            &&& r.log_format == pick(a.log_format, pick(f.log_format, c.log_format))
            &&& r.upstream == merged_endpoint(
                platform,
                merged_endpoint(platform, c.upstream, f.upstream),
                a.upstream,
            )
            &&& r.socket_mode == merged_mode(
                merged_mode(c.socket_mode, f.socket_mode),
                a.socket_mode,
            )
            &&& r.socket_group == if a.socket_group is Some {
                a.socket_group
            } else if f.socket_group is Some {
                f.socket_group
            } else {
                c.socket_group
            }
            &&& r.allowed_uids == if a.allow_uids.len() > 0 {
                a.allow_uids
            } else {
                pick(f.allowed_uids, c.allowed_uids)
            }
            &&& r.allowed_sids == if a.allow_sids.len() > 0 {
                a.allow_sids
            } else {
                pick(f.allowed_sids, c.allowed_sids)
            }
        }),
{
}

/// An endpoint on the command line is where the daemon listens, whatever the
/// configuration was before.
pub proof fn given_endpoint_is_used(
    platform: Platform,
    c: DaemonConfigView,
    a: DaemonArgsView,
)
    requires
        a.endpoint is Some,
        transport::endpoint_of(platform, a.endpoint.unwrap()) is Ok,
    ensures
        listens_at(with_args(platform, c, a)) == transport::endpoint_of(
            platform,
            a.endpoint.unwrap(),
        )->Ok_0,
{
}

/// A socket path on the command line is where the daemon listens, unless an
/// endpoint is given beside it.
pub proof fn given_socket_path_is_used(
    platform: Platform,
    c: DaemonConfigView,
    a: DaemonArgsView,
)
    requires
        a.socket_path is Some,
        a.endpoint is None,
    ensures
        listens_at(with_args(platform, c, a)) == transport::EndpointView::Unix(
            a.socket_path.unwrap(),
        ),
{
}

/// What the file gives stands, and what it leaves open stays as it was.
pub proof fn file_changes_what_it_gives(
    platform: Platform,
    c: DaemonConfigView,
    f: ConfigFileView,
)
    ensures
        ({
            let r = with_file(platform, c, f);
            &&& (f.backend matches Some(v) ==> r.backend == v)
            &&& (f.backend is None ==> r.backend == c.backend)
            &&& (f.pipe_security matches Some(v) ==> r.pipe_security == v)
            &&& (f.pipe_security is None ==> r.pipe_security == c.pipe_security)
            &&& (f.lockdown_dir matches Some(v) ==> r.lockdown_dir == v)
            &&& (f.lockdown_dir is None ==> r.lockdown_dir == c.lockdown_dir)
            &&& (f.scan_interval_ms matches Some(v) ==> r.scan_interval == (Millis { millis: v }))
            &&& (f.scan_interval_ms is None ==> r.scan_interval == c.scan_interval)
            &&& (f.usb_timeout_ms matches Some(v) ==> r.usb_timeout == (Millis { millis: v }))
            &&& (f.usb_timeout_ms is None ==> r.usb_timeout == c.usb_timeout)
            &&& (f.connect_timeout_ms matches Some(v) ==> r.connect_timeout == (Millis { millis: v }))
            &&& (f.connect_timeout_ms is None ==> r.connect_timeout == c.connect_timeout)
            &&& (f.max_clients matches Some(v) ==> r.max_clients == v)
            &&& (f.max_clients is None ==> r.max_clients == c.max_clients)
            &&& (f.read_workers matches Some(v) ==> r.read_workers == v)
            &&& (f.read_workers is None ==> r.read_workers == c.read_workers)
            &&& (f.log_format matches Some(v) ==> r.log_format == v)
            &&& (f.log_format is None ==> r.log_format == c.log_format)
            &&& (f.socket_group is Some ==> r.socket_group == f.socket_group)
            &&& (f.socket_group is None ==> r.socket_group == c.socket_group)
            &&& (f.socket_mode is None ==> r.socket_mode == c.socket_mode)
            &&& (f.upstream is None ==> r.upstream == c.upstream)
            &&& (f.socket_path is None && f.endpoint is None ==> r.endpoint == c.endpoint
                && r.socket_path == c.socket_path)
            &&& (f.socket_path matches Some(p) ==> (f.endpoint is None ==> r.socket_path == p
                && r.endpoint == transport::EndpointView::Unix(p)))
            &&& r.broadcast_capacity == c.broadcast_capacity
            &&& r.max_reassembly_bytes == c.max_reassembly_bytes
            &&& r.max_packet_bytes == c.max_packet_bytes
            &&& r.max_conn_buffer == c.max_conn_buffer
            &&& r.client_read_buf == c.client_read_buf
            &&& r.max_data_channel == c.max_data_channel
            &&& r.connect_channel == c.connect_channel
            &&& (f.require_pair_record matches Some(v) ==> r.require_pair_record == v)
            &&& (f.require_pair_record is None ==> r.require_pair_record == c.require_pair_record)
            &&& (f.allowed_uids matches Some(v) ==> r.allowed_uids == v)
            &&& (f.allowed_uids is None ==> r.allowed_uids == c.allowed_uids)
            &&& (f.allowed_sids matches Some(v) ==> r.allowed_sids == v)
            &&& (f.allowed_sids is None ==> r.allowed_sids == c.allowed_sids)
        }),
{
}

/// What the command line gives stands, and what it leaves open stays as it
/// was.
pub proof fn command_line_changes_what_it_gives(
    platform: Platform,
    c: DaemonConfigView,
    a: DaemonArgsView,
)
    ensures
        ({
            let r = with_args(platform, c, a);
            &&& (a.backend matches Some(v) ==> r.backend == v)
            &&& (a.backend is None ==> r.backend == c.backend)
            &&& (a.pipe_security matches Some(v) ==> r.pipe_security == v)
            &&& (a.pipe_security is None ==> r.pipe_security == c.pipe_security)
            &&& (a.lockdown_dir matches Some(v) ==> r.lockdown_dir == v)
            &&& (a.lockdown_dir is None ==> r.lockdown_dir == c.lockdown_dir)
            &&& (a.scan_interval_ms matches Some(v) ==> r.scan_interval == (Millis { millis: v }))
            &&& (a.scan_interval_ms is None ==> r.scan_interval == c.scan_interval)
            &&& (a.usb_timeout_ms matches Some(v) ==> r.usb_timeout == (Millis { millis: v }))
            &&& (a.usb_timeout_ms is None ==> r.usb_timeout == c.usb_timeout)
            &&& (a.connect_timeout_ms matches Some(v) ==> r.connect_timeout == (Millis { millis: v }))
            &&& (a.connect_timeout_ms is None ==> r.connect_timeout == c.connect_timeout)
            &&& (a.max_clients matches Some(v) ==> r.max_clients == v)
            &&& (a.max_clients is None ==> r.max_clients == c.max_clients)
            &&& (a.read_workers matches Some(v) ==> r.read_workers == v)
            &&& (a.read_workers is None ==> r.read_workers == c.read_workers)
            &&& (a.log_format matches Some(v) ==> r.log_format == v)
            &&& (a.log_format is None ==> r.log_format == c.log_format)
            &&& (a.socket_group is Some ==> r.socket_group == a.socket_group)
            &&& (a.socket_group is None ==> r.socket_group == c.socket_group)
            &&& (a.socket_mode is None ==> r.socket_mode == c.socket_mode)
            &&& (a.upstream is None ==> r.upstream == c.upstream)
            &&& (a.socket_path is None && a.endpoint is None ==> r.endpoint == c.endpoint
                && r.socket_path == c.socket_path)
            &&& (a.socket_path matches Some(p) ==> (a.endpoint is None ==> r.socket_path == p
                && r.endpoint == transport::EndpointView::Unix(p)))
            &&& r.broadcast_capacity == c.broadcast_capacity
            &&& r.max_reassembly_bytes == c.max_reassembly_bytes
            &&& r.max_packet_bytes == c.max_packet_bytes
            &&& r.max_conn_buffer == c.max_conn_buffer
            &&& r.client_read_buf == c.client_read_buf
            &&& r.max_data_channel == c.max_data_channel
            &&& r.connect_channel == c.connect_channel
            &&& (a.no_require_pair_record ==> !r.require_pair_record)
            &&& (!a.no_require_pair_record ==> r.require_pair_record == c.require_pair_record)
            &&& (a.allow_uids.len() > 0 ==> r.allowed_uids == a.allow_uids)
            &&& (a.allow_uids.len() == 0 ==> r.allowed_uids == c.allowed_uids)
            &&& (a.allow_sids.len() > 0 ==> r.allowed_sids == a.allow_sids)
            &&& (a.allow_sids.len() == 0 ==> r.allowed_sids == c.allowed_sids)
        }),
{
}

proof fn octal_reads_back(n: nat, max: int)
    requires
        n <= max,
    ensures
        text::digits_value(text::octal(n), 8, max) == Ok::<int, text::NumberFault>(n as int),
        text::octal(n).len() > 0,
        forall|i: int| 0 <= i < text::octal(n).len() ==> '0' <= #[trigger] text::octal(n)[i] <= '7',
        n > 0 ==> text::octal(n)[0] != '0',
    decreases n,
{
    let none: Seq<char> = seq![];
    if n < 8 {
        assert(text::octal(n).drop_last() =~= none);
        reveal_with_fuel(text::digits_value, 2);
    } else {
        octal_reads_back(n / 8, max);
        let s = text::octal(n);
        assert(s.drop_last() =~= text::octal(n / 8));
        assert forall|i: int| 0 <= i < s.len() implies '0' <= #[trigger] s[i] <= '7' by {
            if i < s.len() - 1 {
                assert(s[i] == text::octal(n / 8)[i]);
            }
        }
        assert(s[0] == text::octal(n / 8)[0]);
    }
}

/// A mode that is written in octal is read as it was meant: as it is, with
/// zeros or the prefix in front of it, and with white space around it.
pub proof fn octal_modes_read_back(n: u32, a: Seq<char>, b: Seq<char>)
    requires
        n > 0,
        forall|i: int| 0 <= i < a.len() ==> text::is_space(#[trigger] a[i]),
        forall|i: int| 0 <= i < b.len() ==> text::is_space(#[trigger] b[i]),
    ensures
        octal_value(a + text::octal(n as nat) + b) == Ok::<u32, Seq<char>>(n),
        octal_value(a + ("0"@ + text::octal(n as nat)) + b) == Ok::<u32, Seq<char>>(n),
        octal_value(a + ("0o"@ + text::octal(n as nat)) + b) == Ok::<u32, Seq<char>>(n),
{
    reveal_strlit("0");
    reveal_strlit("0o");
    let s = text::octal(n as nat);
    octal_reads_back(n as nat, u32::MAX as int);
    let first = s[0];
    let last = s[s.len() - 1];
    text::words_are_no_white_space(first);
    text::words_are_no_white_space(last);
    text::words_are_no_white_space('0');
    text::surrounded_text_is_trimmed(a, s, b);
    let z = "0"@ + s;
    let o = "0o"@ + s;
    assert(z[0] == '0' && z.last() == last && z[1] == first);
    assert(o[0] == '0' && o.last() == last);
    text::surrounded_text_is_trimmed(a, z, b);
    text::surrounded_text_is_trimmed(a, o, b);
    assert(!text::has_prefix(s, "0o"@)) by {
        if text::has_prefix(s, "0o"@) {
            assert(s.take(2)[0] == '0');
        }
    }
    assert(!text::has_prefix(z, "0o"@)) by {
        if text::has_prefix(z, "0o"@) {
            assert(z.take(2)[1] == 'o');
        }
    }
    text::affixes_are_taken_off(s, "0o"@);
    assert(z.skip(1) =~= s);
    assert(octal_digits(a + s + b) == s);
    assert(octal_digits(a + z + b) == s) by {
        reveal_with_fuel(text::without_front, 2);
    }
    assert(octal_digits(a + o + b) == s);
}

/// A digit that octal does not have makes a mode unreadable, and the message
/// says so.
pub proof fn bad_modes_are_refused(mode: u32)
    ensures
        octal_value("8"@) == Err::<u32, Seq<char>>(
            "invalid octal value '"@ + "8"@ + "': "@ + "invalid digit found in string"@,
        ),
        octal_value("abc"@) is Err,
        octal_value(seq![]) is Err,
        merged_mode(mode, Some("8"@)) == mode,
        merged_mode(mode, Some("abc"@)) == mode,
{
    reveal_strlit("8");
    reveal_strlit("abc");
    reveal_strlit("0o");
    let none: Seq<char> = seq![];
    text::surrounded_text_is_trimmed(none, "8"@, none);
    text::surrounded_text_is_trimmed(none, "abc"@, none);
    assert(none + "8"@ + none =~= "8"@);
    assert(none + "abc"@ + none =~= "abc"@);
    assert("8"@.drop_last() =~= none);
    assert("abc"@.drop_last().drop_last().drop_last() =~= none);
    if text::has_prefix("abc"@, "0o"@) {
        assert("abc"@.take(2)[0] == '0');
    }
    reveal_with_fuel(text::digits_value, 4);
}

/// A mode that is given is used if it can be read.
pub proof fn given_modes_are_used(mode: u32, n: u32)
    requires
        n > 0,
    ensures
        merged_mode(mode, Some(text::octal(n as nat))) == n,
        merged_mode(mode, None) == mode,
{
    let none: Seq<char> = seq![];
    octal_modes_read_back(n, none, none);
    assert(none + text::octal(n as nat) + none =~= text::octal(n as nat));
}

/// A configuration is acceptable if and only if there is room for a client, a
/// worker, time for everything, room for a packet and for what a device
/// sends, and the mode is one.
pub proof fn acceptable_configurations(c: DaemonConfigView)
    ensures
        config_fault(c) is None <==> c.max_clients > 0 && c.read_workers > 0
            && c.scan_interval.millis > 0 && c.usb_timeout.millis > 0 && c.connect_timeout.millis
            > 0 && c.max_packet_bytes >= 1024 && c.max_conn_buffer > 0 && c.socket_mode <= 511,
{
}

/// What is wrong is told, the first of the faults.
pub proof fn faults_are_told(c: DaemonConfigView)
    requires
        config_fault(c) is None,
    ensures
        config_fault(DaemonConfigView { max_clients: 0, ..c }) == Some(
            "max_clients must be > 0"@,
        ),
        config_fault(DaemonConfigView { read_workers: 0, ..c }) == Some(
            "read_workers must be > 0"@,
        ),
        config_fault(DaemonConfigView { scan_interval: Millis { millis: 0 }, ..c }) == Some(
            "scan_interval must be > 0"@,
        ),
        config_fault(DaemonConfigView { usb_timeout: Millis { millis: 0 }, ..c }) == Some(
            "usb_timeout must be > 0"@,
        ),
        config_fault(DaemonConfigView { connect_timeout: Millis { millis: 0 }, ..c }) == Some(
            "connect_timeout must be > 0"@,
        ),
        forall|n: usize|
            n < 1024 ==> #[trigger] config_fault(DaemonConfigView { max_packet_bytes: n, ..c })
                == Some("max_packet_bytes must be >= 1024"@),
        config_fault(DaemonConfigView { max_conn_buffer: 0, ..c }) == Some(
            "max_conn_buffer must be > 0"@,
        ),
        forall|m: u32|
            m > 511 ==> #[trigger] config_fault(DaemonConfigView { socket_mode: m, ..c }) == Some(
                "invalid socket mode: "@ + text::octal(m as nat),
            ),
{
}

/// What the daemon does when nobody says anything.
pub proof fn what_the_defaults_are()
    ensures
        ({
            let c = default_config();
            &&& c.socket_path == "/var/run/usbmuxd"@
            &&& c.endpoint == transport::EndpointView::Unix("/var/run/usbmuxd"@)
            &&& c.backend == Backend::Usb
            &&& c.upstream == transport::EndpointView::Tcp(
                TcpAddress::V4 { bits: 0x7F00_0001, port: 27015 },
            )
            &&& c.socket_mode == 6 * 64 + 6 * 8 + 6
            &&& c.socket_group is None
            &&& c.pipe_security.len() == 0
            &&& c.lockdown_dir == "/var/lib/lockdown"@
            &&& c.require_pair_record
            &&& c.scan_interval.millis == 2000
            &&& c.usb_timeout.millis == 5000
            &&& c.connect_timeout.millis == 5000
            &&& c.max_clients == 256
            &&& c.broadcast_capacity == 256
            &&& c.read_workers == 3
            &&& c.max_reassembly_bytes == 1024 * 1024
            &&& c.max_packet_bytes == 16 * 1024 * 1024
            &&& c.max_conn_buffer == 1024 * 1024
            &&& c.client_read_buf == 16 * 1024
            &&& c.max_data_channel == 128
            &&& c.connect_channel == 16
            &&& c.allowed_uids.len() == 0
            &&& c.allowed_sids.len() == 0
            &&& c.log_format == LogFormat::Text
            &&& listens_at(c) == transport::EndpointView::Unix("/var/run/usbmuxd"@)
        }),
{
}

/// Backends and formats are told by their names, and a file that is too large
/// by its length.
pub proof fn what_names_say(len: nat)
    ensures
        Backend::Usb.name() == "usb"@,
        Backend::Relay.name() == "relay"@,
        LogFormat::Text.name() == "text"@,
        LogFormat::Json.name() == "json"@,
        large_file_text(len) == "config file too large: "@ + text::decimal(len)
            + " bytes (max "@ + text::decimal(1048576) + ")"@,
{
}

} // verus!
