//! Relay mode: every client is joined to an upstream service of the same
//! kind, and what passes between them is counted.
use crate::daemon::connection::client_left;
use crate::metrics::Metrics;
use vstd::prelude::*;

verus! {

/// Notes whether the upstream service could be reached for a client that was
/// let in. A client without one is let go.
pub fn upstream_tried(reached: bool, metrics: &mut Metrics)
    ensures
        *final(metrics) == if reached {
            Metrics { connects_total: old(metrics).connects_total.wrapping_add(1), ..*old(metrics) }
        } else {
            Metrics {
                clients_active: old(metrics).clients_active.wrapping_sub(1),
                ..*old(metrics)
            }
        },
{
    if reached {
        metrics.connects_total = metrics.connects_total.wrapping_add(1);
    } else {
        client_left(metrics);
    }
}

/// Counts the bytes that passed between a client and the upstream service.
/// Nothing is counted when the exchange broke off.
pub fn splice_ended(passed: Option<(u64, u64)>, metrics: &mut Metrics)
    ensures
        *final(metrics) == match passed {
            Some((from_client, to_client)) => Metrics {
                client_rx_bytes: old(metrics).client_rx_bytes.wrapping_add(from_client),
                client_tx_bytes: old(metrics).client_tx_bytes.wrapping_add(to_client),
                clients_active: old(metrics).clients_active.wrapping_sub(1),
                ..*old(metrics)
            },
            None => Metrics {
                clients_active: old(metrics).clients_active.wrapping_sub(1),
                ..*old(metrics)
            },
        },
{
    if let Some((from_client, to_client)) = passed {
        metrics.client_rx_bytes = metrics.client_rx_bytes.wrapping_add(from_client);
        metrics.client_tx_bytes = metrics.client_tx_bytes.wrapping_add(to_client);
    }
    client_left(metrics);
}

} // verus!
