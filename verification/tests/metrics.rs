//! Counters and subscriptions.
use meridian_relay::metrics::{ListenGuard, Metrics};

#[test]
fn test_metrics_snapshot() {
    let mut m = Metrics::new();
    m.clients_accepted += 10;
    m.clients_active += 3;
    let snap = m.snapshot();
    assert_eq!(snap.clients_accepted, 10);
    assert_eq!(snap.clients_active, 3);
    assert_eq!(snap.uptime_secs, 0);
}

#[test]
fn test_listen_guard() {
    let mut m = Metrics::new();
    assert_eq!(m.listens_active, 0);
    let g = ListenGuard::new(&mut m);
    assert_eq!(m.listens_active, 1);
    g.release(&mut m);
    assert_eq!(m.listens_active, 0);
}

#[test]
fn a_snapshot_has_every_counter() {
    let mut m = Metrics::default();
    m.usb_rx_bytes = 5;
    m.overflow_rejections = 6;
    m.devices_attached = 2;
    let snap = m.snapshot_at(77);
    assert_eq!(snap.uptime_secs, 77);
    assert_eq!(snap.usb_rx_bytes, 5);
    assert_eq!(snap.overflow_rejections, 6);
    assert_eq!(snap.devices_attached, 2);
    assert_eq!(snap.pair_reads, 0);
}
