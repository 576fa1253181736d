//! Ingress backpressure planning.
//!
//! An ingress worker reads a batch of datagrams from the socket and hands it
//! to the forwarding stage over a bounded channel. When the channel lacks
//! room the oldest datagrams of the batch are dropped and counted, so the
//! socket is drained at line rate and memory never grows with the backlog.

use vstd::prelude::*;

verus! {

/// How many datagrams of a batch the channel admits: all of them when they
/// fit into the free space, the newest `capacity - queued` otherwise.
pub open spec fn spec_admitted(queued: int, capacity: int, batch_len: int) -> int {
    if batch_len <= capacity - queued {
        batch_len
    } else {
        capacity - queued
    }
}

/// Plans how a batch meets the bounded channel: `(dropped, admitted)`, where
/// the first `dropped` datagrams (the oldest) are discarded and the remaining
/// `admitted` newest are queued. The channel never exceeds its capacity, and
/// nothing is dropped while there is room.
pub fn plan_batch_admit(queued: usize, capacity: usize, batch_len: usize) -> (r: (usize, usize))
    requires
        queued <= capacity,
    ensures
        r.0 + r.1 == batch_len,
        r.1 == spec_admitted(queued as int, capacity as int, batch_len as int),
        queued + r.1 <= capacity,
        batch_len <= capacity - queued ==> r.0 == 0,
{
    let free = capacity - queued;
    if batch_len <= free {
        (0, batch_len)
    } else {
        (batch_len - free, free)
    }
}

/// Channel occupancy after a sequence of batches is offered from a starting
/// occupancy, each admitted by `spec_admitted`.
pub open spec fn occupancy_after(capacity: int, start: int, batches: Seq<int>) -> int
    decreases batches.len(),
{
    if batches.len() == 0 {
        start
    } else {
        let before = occupancy_after(capacity, start, batches.drop_last());
        before + spec_admitted(before, capacity, batches.last())
    }
}

/// Backpressure bound: however many batches arrive and however large they
/// are, the planned occupancy never exceeds the channel capacity — ingress
/// overload ends in counted drops, not in growth.
pub proof fn lemma_backpressure_bounded(capacity: int, start: int, batches: Seq<int>)
    requires
        0 <= start <= capacity,
        forall|i: int| 0 <= i < batches.len() ==> #[trigger] batches[i] >= 0,
    ensures
        0 <= occupancy_after(capacity, start, batches) <= capacity,
    decreases batches.len(),
{
    if batches.len() > 0 {
        assert forall|i: int| 0 <= i < batches.len() - 1 implies #[trigger] batches.drop_last()[i]
            >= 0 by {
            assert(batches.drop_last()[i] == batches[i]);
        }
        lemma_backpressure_bounded(capacity, start, batches.drop_last());
        assert(batches.last() == batches[batches.len() - 1]);
    }
}

} // verus!
