//! Metric counters.
//!
//! Counters only ever grow until the process exits; the periodic report
//! publishes the growth since the previous report by snapshot-and-subtract.
//! Additions saturate at the counter's ceiling rather than wrap, which keeps
//! every counter monotonic.

use vstd::prelude::*;

verus! {

/// `a + b`, stopping at the `u64` ceiling.
pub open spec fn spec_saturating_add(a: u64, b: u64) -> u64 {
    if a + b <= u64::MAX {
        (a + b) as u64
    } else {
        u64::MAX
    }
}

/// Adds with saturation at the `u64` ceiling.
fn sat_add(a: u64, b: u64) -> (r: u64)
    ensures
        r == spec_saturating_add(a, b),
        r >= a,
{
    if u64::MAX - a >= b {
        a + b
    } else {
        u64::MAX
    }
}

/// The proxy's data-plane counters, with the values already published by the
/// last report.
pub struct ShredMetrics {
    /// Datagrams received on the ingress socket.
    pub received: u64,
    /// Datagrams discarded as duplicates.
    pub duplicate: u64,
    /// Successful per-destination sends.
    pub success_forward: u64,
    /// Failed per-destination sends.
    pub fail_forward: u64,
    /// Datagrams dropped by ingress backpressure.
    pub ingress_dropped: u64,
    /// Refresher ticks that published nothing.
    pub refresh_fail: u64,
    /// `received` as of the last report.
    pub reported_received: u64,
    /// `duplicate` as of the last report.
    pub reported_duplicate: u64,
    /// `success_forward` as of the last report.
    pub reported_success_forward: u64,
    /// `fail_forward` as of the last report.
    pub reported_fail_forward: u64,
    /// `ingress_dropped` as of the last report.
    pub reported_ingress_dropped: u64,
    /// `refresh_fail` as of the last report.
    pub reported_refresh_fail: u64,
}

/// The growth of each counter since the previous report.
#[derive(Clone, Copy, Debug, PartialEq, Eq, Structural)]
pub struct MetricsDelta {
    pub received: u64,
    pub duplicate: u64,
    pub success_forward: u64,
    pub fail_forward: u64,
    pub ingress_dropped: u64,
    pub refresh_fail: u64,
}

impl ShredMetrics {
    /// Nothing published yet exceeds what was counted.
    pub open spec fn wf(self) -> bool {
        &&& self.reported_received <= self.received
        &&& self.reported_duplicate <= self.duplicate
        &&& self.reported_success_forward <= self.success_forward
        &&& self.reported_fail_forward <= self.fail_forward
        &&& self.reported_ingress_dropped <= self.ingress_dropped
        &&& self.reported_refresh_fail <= self.refresh_fail
    }

    /// All counters at zero.
    pub fn new() -> (r: ShredMetrics)
        ensures
            r.wf(),
            r.received == 0 && r.duplicate == 0 && r.success_forward == 0 && r.fail_forward == 0
                && r.ingress_dropped == 0 && r.refresh_fail == 0,
            r.reported_received == 0 && r.reported_duplicate == 0
                && r.reported_success_forward == 0 && r.reported_fail_forward == 0
                && r.reported_ingress_dropped == 0 && r.reported_refresh_fail == 0,
    {
        ShredMetrics {
            received: 0,
            duplicate: 0,
            success_forward: 0,
            fail_forward: 0,
            ingress_dropped: 0,
            refresh_fail: 0,
            reported_received: 0,
            reported_duplicate: 0,
            reported_success_forward: 0,
            reported_fail_forward: 0,
            reported_ingress_dropped: 0,
            reported_refresh_fail: 0,
        }
    }

    /// Counts one batch's outcome: `received` datagrams came in, `duplicate`
    /// of them were discarded, and the forwarded ones produced `success` and
    /// `fail` per-destination sends. Every counter is monotonic.
    pub fn record_forward(&mut self, received: u64, duplicate: u64, success: u64, fail: u64)
        requires
            old(self).wf(),
        ensures
            final(self).wf(),
            final(self).received == spec_saturating_add(old(self).received, received),
            final(self).duplicate == spec_saturating_add(old(self).duplicate, duplicate),
            final(self).success_forward == spec_saturating_add(
                old(self).success_forward,
                success,
            ),
            final(self).fail_forward == spec_saturating_add(old(self).fail_forward, fail),
            final(self).ingress_dropped == old(self).ingress_dropped,
            final(self).refresh_fail == old(self).refresh_fail,
            final(self).received >= old(self).received,
            final(self).duplicate >= old(self).duplicate,
            final(self).success_forward >= old(self).success_forward,
            final(self).fail_forward >= old(self).fail_forward,
    {
        self.received = sat_add(self.received, received);
        self.duplicate = sat_add(self.duplicate, duplicate);
        self.success_forward = sat_add(self.success_forward, success);
        self.fail_forward = sat_add(self.fail_forward, fail);
    }

    /// Counts datagrams dropped by ingress backpressure.
    pub fn record_ingress_dropped(&mut self, dropped: u64)
        requires
            old(self).wf(),
        ensures
            final(self).wf(),
            final(self).ingress_dropped == spec_saturating_add(
                old(self).ingress_dropped,
                dropped,
            ),
            final(self).ingress_dropped >= old(self).ingress_dropped,
            final(self).received == old(self).received,
            final(self).duplicate == old(self).duplicate,
            final(self).success_forward == old(self).success_forward,
            final(self).fail_forward == old(self).fail_forward,
            final(self).refresh_fail == old(self).refresh_fail,
    {
        self.ingress_dropped = sat_add(self.ingress_dropped, dropped);
    }

    /// Counts a refresher tick that published nothing.
    pub fn record_refresh_fail(&mut self)
        requires
            old(self).wf(),
        ensures
            final(self).wf(),
            final(self).refresh_fail == spec_saturating_add(old(self).refresh_fail, 1),
            final(self).refresh_fail >= old(self).refresh_fail,
            final(self).received == old(self).received,
            final(self).duplicate == old(self).duplicate,
            final(self).success_forward == old(self).success_forward,
            final(self).fail_forward == old(self).fail_forward,
            final(self).ingress_dropped == old(self).ingress_dropped,
    {
        self.refresh_fail = sat_add(self.refresh_fail, 1);
    }

    /// Publishes one report: hands back each counter's growth since the
    /// previous report and remembers the published values, so the next delta
    /// starts from here. The cumulative counters do not move.
    pub fn report(&mut self) -> (d: MetricsDelta)
        requires
            old(self).wf(),
        ensures
            final(self).wf(),
            d.received == old(self).received - old(self).reported_received,
            d.duplicate == old(self).duplicate - old(self).reported_duplicate,
            d.success_forward == old(self).success_forward - old(self).reported_success_forward,
            d.fail_forward == old(self).fail_forward - old(self).reported_fail_forward,
            d.ingress_dropped == old(self).ingress_dropped - old(self).reported_ingress_dropped,
            d.refresh_fail == old(self).refresh_fail - old(self).reported_refresh_fail,
            final(self).received == old(self).received,
            final(self).duplicate == old(self).duplicate,
            final(self).success_forward == old(self).success_forward,
            final(self).fail_forward == old(self).fail_forward,
            final(self).ingress_dropped == old(self).ingress_dropped,
            final(self).refresh_fail == old(self).refresh_fail,
            final(self).reported_received == old(self).received,
            final(self).reported_duplicate == old(self).duplicate,
            final(self).reported_success_forward == old(self).success_forward,
            final(self).reported_fail_forward == old(self).fail_forward,
            final(self).reported_ingress_dropped == old(self).ingress_dropped,
            final(self).reported_refresh_fail == old(self).refresh_fail,
    {
        let d = MetricsDelta {
            received: self.received - self.reported_received,
            duplicate: self.duplicate - self.reported_duplicate,
            success_forward: self.success_forward - self.reported_success_forward,
            fail_forward: self.fail_forward - self.reported_fail_forward,
            ingress_dropped: self.ingress_dropped - self.reported_ingress_dropped,
            refresh_fail: self.refresh_fail - self.reported_refresh_fail,
        };
        self.reported_received = self.received;
        self.reported_duplicate = self.duplicate;
        self.reported_success_forward = self.success_forward;
        self.reported_fail_forward = self.fail_forward;
        self.reported_ingress_dropped = self.ingress_dropped;
        self.reported_refresh_fail = self.refresh_fail;
        d
    }

}

} // verus!
