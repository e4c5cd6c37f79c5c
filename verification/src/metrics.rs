//! Counters of what the daemon has done.
use vstd::prelude::*;

verus! {

/// `std::time::Instant`, a reading of the monotonic clock.
#[verifier::external_type_specification]
#[verifier::external_body]
pub struct ExInstant(std::time::Instant);

/// `Instant::now` reads the clock. Nothing is claimed of the reading.
pub assume_specification[ std::time::Instant::now ]() -> (now: std::time::Instant)
;

/// `Instant::elapsed` measures the time since a reading. Nothing is claimed of
/// the measure.
pub assume_specification[ std::time::Instant::elapsed ](
    start: &std::time::Instant,
) -> (span: std::time::Duration)
;

/// `Duration::as_secs` gives the whole seconds of a span. The span itself is
/// opaque, so nothing is claimed of the number.
pub assume_specification[ std::time::Duration::as_secs ](span: &std::time::Duration) -> (secs: u64)
;

/// Whether `secs` can come of measuring the time since `start` and taking its
/// whole seconds.
pub open spec fn secs_since(start: std::time::Instant, secs: u64) -> bool {
    exists|span: std::time::Duration| #[trigger]
        call_ensures(std::time::Instant::elapsed, (&start,), span) && call_ensures(
            std::time::Duration::as_secs,
            (&span,),
            secs,
        )
}

/// The daemon's counters. They wrap around at the end of their range.
#[derive(Debug)]
pub struct Metrics {
    pub start_time: std::time::Instant,
    pub clients_accepted: u64,
    pub clients_rejected: u64,
    pub clients_active: i64,
    pub commands_total: u64,
    pub list_devices_total: u64,
    pub listens_active: i64,
    pub connects_total: u64,
    pub connect_failures: u64,
    pub proxies_started: u64,
    pub proxies_ended: u64,
    pub usb_tx_bytes: u64,
    pub usb_rx_bytes: u64,
    pub client_tx_bytes: u64,
    pub client_rx_bytes: u64,
    pub devices_attached: i64,
    pub parse_errors: u64,
    pub pair_reads: u64,
    pub pair_writes: u64,
    pub pair_deletes: u64,
    pub rsts_received: u64,
    pub overflow_rejections: u64,
}

/// The counters at one moment.
#[derive(Debug, Clone, Copy, PartialEq, Eq, Structural)]
pub struct StatsSnapshot {
    pub uptime_secs: u64,
    pub clients_accepted: u64,
    pub clients_rejected: u64,
    pub clients_active: i64,
    pub commands_total: u64,
    pub list_devices_total: u64,
    pub listens_active: i64,
    pub connects_total: u64,
    pub connect_failures: u64,
    pub proxies_started: u64,
    pub proxies_ended: u64,
    pub usb_tx_bytes: u64,
    pub usb_rx_bytes: u64,
    pub client_tx_bytes: u64,
    pub client_rx_bytes: u64,
    pub devices_attached: i64,
    pub parse_errors: u64,
    pub pair_reads: u64,
    pub pair_writes: u64,
    pub pair_deletes: u64,
    pub rsts_received: u64,
    pub overflow_rejections: u64,
}

impl Metrics {
    /// The counters, as a snapshot taken after `uptime_secs` seconds has them.
    pub open spec fn counts(self, uptime_secs: u64) -> StatsSnapshot {
        StatsSnapshot {
            uptime_secs,
            clients_accepted: self.clients_accepted,
            clients_rejected: self.clients_rejected,
            clients_active: self.clients_active,
            commands_total: self.commands_total,
            list_devices_total: self.list_devices_total,
            listens_active: self.listens_active,
            connects_total: self.connects_total,
            connect_failures: self.connect_failures,
            proxies_started: self.proxies_started,
            proxies_ended: self.proxies_ended,
            usb_tx_bytes: self.usb_tx_bytes,
            usb_rx_bytes: self.usb_rx_bytes,
            client_tx_bytes: self.client_tx_bytes,
            client_rx_bytes: self.client_rx_bytes,
            devices_attached: self.devices_attached,
            parse_errors: self.parse_errors,
            pair_reads: self.pair_reads,
            pair_writes: self.pair_writes,
            pair_deletes: self.pair_deletes,
            rsts_received: self.rsts_received,
            overflow_rejections: self.overflow_rejections,
        }
    }

    /// Fresh counters, all zero, with the clock started.
    pub fn new() -> (m: Self)
        ensures
            m.counts(0) == (StatsSnapshot {
                uptime_secs: 0,
                clients_accepted: 0,
                clients_rejected: 0,
                clients_active: 0,
                commands_total: 0,
                list_devices_total: 0,
                listens_active: 0,
                connects_total: 0,
                connect_failures: 0,
                proxies_started: 0,
                proxies_ended: 0,
                usb_tx_bytes: 0,
                usb_rx_bytes: 0,
                client_tx_bytes: 0,
                client_rx_bytes: 0,
                devices_attached: 0,
                parse_errors: 0,
                pair_reads: 0,
                pair_writes: 0,
                pair_deletes: 0,
                rsts_received: 0,
                overflow_rejections: 0,
            }),
    {
        Metrics {
            start_time: std::time::Instant::now(),
            clients_accepted: 0,
            clients_rejected: 0,
            clients_active: 0,
            commands_total: 0,
            list_devices_total: 0,
            listens_active: 0,
            connects_total: 0,
            connect_failures: 0,
            proxies_started: 0,
            proxies_ended: 0,
            usb_tx_bytes: 0,
            usb_rx_bytes: 0,
            client_tx_bytes: 0,
            client_rx_bytes: 0,
            devices_attached: 0,
            parse_errors: 0,
            pair_reads: 0,
            pair_writes: 0,
            pair_deletes: 0,
            rsts_received: 0,
            overflow_rejections: 0,
        }
    }

    /// Seconds since the counters were made: the whole seconds of the time
    /// that the clock measures from `start_time`. How many there are is the
    /// clock's to say.
    pub fn uptime_secs(&self) -> (secs: u64)
        ensures
            secs_since(self.start_time, secs),
    {
        let span = self.start_time.elapsed();
        span.as_secs()
    }

    /// The counters as they stand, with the given uptime.
    pub fn snapshot_at(&self, uptime_secs: u64) -> (s: StatsSnapshot)
        ensures
            s == self.counts(uptime_secs),
    {
        StatsSnapshot {
            uptime_secs,
            clients_accepted: self.clients_accepted,
            clients_rejected: self.clients_rejected,
            clients_active: self.clients_active,
            commands_total: self.commands_total,
            list_devices_total: self.list_devices_total,
            listens_active: self.listens_active,
            connects_total: self.connects_total,
            connect_failures: self.connect_failures,
            proxies_started: self.proxies_started,
            proxies_ended: self.proxies_ended,
            usb_tx_bytes: self.usb_tx_bytes,
            usb_rx_bytes: self.usb_rx_bytes,
            client_tx_bytes: self.client_tx_bytes,
            client_rx_bytes: self.client_rx_bytes,
            devices_attached: self.devices_attached,
            parse_errors: self.parse_errors,
            pair_reads: self.pair_reads,
            pair_writes: self.pair_writes,
            pair_deletes: self.pair_deletes,
            rsts_received: self.rsts_received,
            overflow_rejections: self.overflow_rejections,
        }
    }

    /// The counters as they stand now.
    pub fn snapshot(&self) -> (s: StatsSnapshot)
        ensures
            s == self.counts(s.uptime_secs),
            secs_since(self.start_time, s.uptime_secs),
    {
        self.snapshot_at(self.uptime_secs())
    }
}

impl Default for Metrics {
    fn default() -> (m: Self)
        ensures
            m.counts(0) == (StatsSnapshot {
                uptime_secs: 0,
                clients_accepted: 0,
                clients_rejected: 0,
                clients_active: 0,
                commands_total: 0,
                list_devices_total: 0,
                listens_active: 0,
                connects_total: 0,
                connect_failures: 0,
                proxies_started: 0,
                proxies_ended: 0,
                usb_tx_bytes: 0,
                usb_rx_bytes: 0,
                client_tx_bytes: 0,
                client_rx_bytes: 0,
                devices_attached: 0,
                parse_errors: 0,
                pair_reads: 0,
                pair_writes: 0,
                pair_deletes: 0,
                rsts_received: 0,
                overflow_rejections: 0,
            }),
    {
        Metrics::new()
    }
}

/// A client that is subscribed to device events. The subscription counts in
/// `listens_active` from `new` until `release`.
#[derive(Debug)]
pub struct ListenGuard {}

impl ListenGuard {
    pub fn new(metrics: &mut Metrics) -> (g: Self)
        ensures
            *final(metrics) == (Metrics {
                listens_active: old(metrics).listens_active.wrapping_add(1),
                ..*old(metrics)
            }),
    {
        metrics.listens_active = metrics.listens_active.wrapping_add(1);
        ListenGuard {  }
    }

    /// Ends the subscription.
    pub fn release(self, metrics: &mut Metrics)
        ensures
            *final(metrics) == (Metrics {
                listens_active: old(metrics).listens_active.wrapping_sub(1),
                ..*old(metrics)
            }),
    {
        metrics.listens_active = metrics.listens_active.wrapping_sub(1);
    }
}

/// Two snapshots of the same counters differ at most in their uptime.
pub proof fn snapshots_differ_in_uptime_only(m: Metrics, first: u64, second: u64)
    ensures
        m.counts(second) == (StatsSnapshot { uptime_secs: second, ..m.counts(first) }),
{
}

/// Ending a subscription takes back exactly what starting it added.
pub proof fn release_undoes_listen(before: Metrics, during: Metrics, after: Metrics)
    requires
        during == (Metrics { listens_active: before.listens_active.wrapping_add(1), ..before }),
        after == (Metrics { listens_active: during.listens_active.wrapping_sub(1), ..during }),
    ensures
        after == before,
{
}

/// A snapshot has every counter as it stands, each under its own name.
pub proof fn snapshots_have_every_counter(m: Metrics, uptime: u64)
    ensures
        ({
            let s = m.counts(uptime);
            &&& s.uptime_secs == uptime
            &&& s.clients_accepted == m.clients_accepted
            &&& s.clients_rejected == m.clients_rejected
            &&& s.clients_active == m.clients_active
            &&& s.commands_total == m.commands_total
            &&& s.list_devices_total == m.list_devices_total
            &&& s.listens_active == m.listens_active
            &&& s.connects_total == m.connects_total
            &&& s.connect_failures == m.connect_failures
            &&& s.proxies_started == m.proxies_started
            &&& s.proxies_ended == m.proxies_ended
            &&& s.usb_tx_bytes == m.usb_tx_bytes
            &&& s.usb_rx_bytes == m.usb_rx_bytes
            &&& s.client_tx_bytes == m.client_tx_bytes
            &&& s.client_rx_bytes == m.client_rx_bytes
            &&& s.devices_attached == m.devices_attached
            &&& s.parse_errors == m.parse_errors
            &&& s.pair_reads == m.pair_reads
            &&& s.pair_writes == m.pair_writes
            &&& s.pair_deletes == m.pair_deletes
            &&& s.rsts_received == m.rsts_received
            &&& s.overflow_rejections == m.overflow_rejections
        }),
{
}

} // verus!
