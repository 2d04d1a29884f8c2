//! Counters of a FIX gateway.

use vstd::prelude::*;

verus! {

/// What a gateway counts over its lifetime.
#[derive(Clone, Copy, Debug, PartialEq, Eq, Structural)]
pub struct GatewayMetrics {
    /// Accepted client connections.
    pub sessions_accepted_total: u64,
    /// Sessions that are active now.
    pub sessions_active: u64,
    /// Frames handed to a session, with those that fail to parse.
    pub messages_received_total: u64,
    /// Messages queued for clients.
    pub messages_sent_total: u64,
    /// Messages that failed to parse.
    pub parse_errors_total: u64,
    /// Requests for gaps that were sent.
    pub resend_requests_sent_total: u64,
    /// Requests for gaps that were received.
    pub resend_requests_received_total: u64,
    /// Messages that the outbound store dropped to make room.
    pub store_evictions_total: u64,
    /// Messages over a session's rate limit.
    pub rate_limit_hits_total: u64,
}

impl GatewayMetrics {
    /// All counters at zero.
    pub open spec fn zeroed() -> GatewayMetrics {
        GatewayMetrics {
            sessions_accepted_total: 0,
            sessions_active: 0,
            messages_received_total: 0,
            messages_sent_total: 0,
            parse_errors_total: 0,
            resend_requests_sent_total: 0,
            resend_requests_received_total: 0,
            store_evictions_total: 0,
            rate_limit_hits_total: 0,
        }
    }

    /// Counters that live as long as the process.
    pub fn leak_default() -> (m: &'static GatewayMetrics)
        ensures
            *m == GatewayMetrics::zeroed(),
    {
        leak(Box::new(GatewayMetrics::default()))
    }
}

impl Default for GatewayMetrics {
    fn default() -> (m: GatewayMetrics)
        ensures
            m == GatewayMetrics::zeroed(),
    {
        GatewayMetrics {
            sessions_accepted_total: 0,
            sessions_active: 0,
            messages_received_total: 0,
            messages_sent_total: 0,
            parse_errors_total: 0,
            resend_requests_sent_total: 0,
            resend_requests_received_total: 0,
            store_evictions_total: 0,
            rate_limit_hits_total: 0,
        }
    }
}

/// `Box::leak` gives up a box and keeps what it holds for good.
#[verifier::external_body]
fn leak(metrics: Box<GatewayMetrics>) -> (m: &'static GatewayMetrics)
    ensures
        *m == *metrics,
{
    Box::leak(metrics)
}

} // verus!
