//! The forward worker's per-datagram decision.
//!
//! For each datagram the worker consults the duplicate filter with the
//! datagram's fingerprint window; a duplicate is discarded, anything new is
//! sent once to every destination of the snapshot observed at decision time.
//! The sends themselves are plain UDP writes made by the surrounding process;
//! everything decided here — which datagrams are forwarded, and to exactly
//! which destinations — is stated and proved.

use vstd::prelude::*;

verus! {

use crate::addr::SockAddr;
use crate::dedup::Deduper;

/// Bytes skipped at the front of a shred when fingerprinting: the per-hop
/// variable leading signature.
pub const FINGERPRINT_SKIP: usize = 64;

/// Offset of the trace-id byte used for latency sampling.
pub const TRACE_ID_OFFSET: usize = 70;

/// The fingerprint window of a datagram: everything after the leading
/// signature; a datagram no longer than the signature is fingerprinted
/// whole.
pub open spec fn fingerprint_window(data: Seq<u8>) -> Seq<u8> {
    if data.len() > FINGERPRINT_SKIP {
        data.subrange(FINGERPRINT_SKIP as int, data.len() as int)
    } else {
        data
    }
}

/// The fingerprint window of datagram `t` of a batch.
pub open spec fn fp_at(batch: Seq<Vec<u8>>, t: int) -> Seq<u8> {
    fingerprint_window(batch[t]@)
}

/// Slices the fingerprint window out of a datagram.
pub fn fingerprint_of<'a>(data: &'a [u8]) -> (r: &'a [u8])
    ensures
        r@ == fingerprint_window(data@),
{
    if data.len() > FINGERPRINT_SKIP {
        vstd::slice::slice_subrange(data, FINGERPRINT_SKIP, data.len())
    } else {
        data
    }
}

/// The trace id of a datagram, when the datagram is long enough to carry
/// one.
pub open spec fn trace_id_window(data: Seq<u8>) -> Option<u8> {
    if data.len() > TRACE_ID_OFFSET {
        Some(data[TRACE_ID_OFFSET as int])
    } else {
        None
    }
}

/// Reads the trace id.
pub fn trace_id_of(data: &[u8]) -> (r: Option<u8>)
    ensures
        r == trace_id_window(data@),
{
    if data.len() > TRACE_ID_OFFSET {
        Some(data[TRACE_ID_OFFSET])
    } else {
        None
    }
}

/// What a forward worker decided for one datagram.
pub struct Decision {
    /// The datagram's fingerprint was already held by the filter.
    pub is_duplicate: bool,
    /// Where to send the datagram: the whole observed snapshot for a new
    /// datagram, nowhere for a duplicate.
    pub targets: Vec<SockAddr>,
}

/// Decides one datagram: consults (and updates) the duplicate filter with the
/// fingerprint window, and, for a new datagram, fans out to exactly the
/// snapshot observed at decision time — never to a mixture of snapshots.
pub fn decide_forward(deduper: &mut Deduper, data: &[u8], snapshot: &Vec<SockAddr>) -> (d:
    Decision)
    requires
        old(deduper).wf(),
    ensures
        final(deduper).wf(),
        d.is_duplicate == old(deduper).seen(fingerprint_window(data@)),
        d.is_duplicate ==> d.targets@ == Seq::<SockAddr>::empty(),
        !d.is_duplicate ==> d.targets@ == snapshot@,
        final(deduper).seen(fingerprint_window(data@)),
        final(deduper).num_bits() == old(deduper).num_bits(),
        final(deduper).seeds() == old(deduper).seeds(),
        final(deduper).last_reset() == old(deduper).last_reset(),
        forall|x: Seq<u8>| old(deduper).seen(x) ==> final(deduper).seen(x),
        forall|x: Seq<u8>|
            final(deduper).seen(x) ==> old(deduper).seen(x) || old(deduper).collides(
                x,
                fingerprint_window(data@),
            ),
        forall|x: Seq<u8>, y: Seq<u8>|
            final(deduper).collides(x, y) == old(deduper).collides(x, y),
    {
    let fp = fingerprint_of(data);
    let dup = deduper.observe(fp);
    if dup {
        Decision { is_duplicate: true, targets: Vec::new() }
    } else {
        let targets = snapshot.clone();
        proof {
            assert(targets@ =~= snapshot@);
        }
        Decision { is_duplicate: false, targets }
    }
}

/// The fingerprint at `i` already occurred earlier in the batch.
pub open spec fn repeats_earlier(fps: Seq<Seq<u8>>, i: int) -> bool {
    exists|j: int| 0 <= j < i && fps[j] == fps[i]
}

/// The fingerprint of datagram `i` already occurred earlier in the batch.
pub open spec fn repeats_earlier_at(batch: Seq<Vec<u8>>, i: int) -> bool {
    exists|j: int| 0 <= j < i && fp_at(batch, j) == fp_at(batch, i)
}

/// The batch meets the filter cleanly: none of its fingerprints is already
/// held, and no two distinct fingerprints collide in a bitset. Outside these
/// conditions the filter may report a false positive, which the design
/// accepts and counts.
pub open spec fn batch_clean(d: Deduper, batch: Seq<Vec<u8>>) -> bool {
    &&& (forall|i: int| 0 <= i < batch.len() ==> !d.seen(#[trigger] fp_at(batch, i)))
    &&& (forall|i: int, j: int|
        0 <= i < batch.len() && 0 <= j < batch.len() && fp_at(batch, i) != fp_at(batch, j)
            ==> !d.collides(#[trigger] fp_at(batch, i), #[trigger] fp_at(batch, j)))
}

/// Decides a whole batch in arrival order.
///
/// Unconditionally: a datagram whose fingerprint repeats an earlier one of
/// the batch, or one already held by the filter, is flagged duplicate; every
/// forwarded datagram goes to the whole snapshot. When the batch is clean
/// (`batch_clean`), the flag is exact: a datagram is flagged if and only if
/// its fingerprint repeats an earlier one.
#[verifier::rlimit(100)]
#[verifier::spinoff_prover]
pub fn run_batch(deduper: &mut Deduper, batch: &Vec<Vec<u8>>, snapshot: &Vec<SockAddr>) -> (ds:
    Vec<Decision>)
    requires
        old(deduper).wf(),
    ensures
        final(deduper).wf(),
        final(deduper).num_bits() == old(deduper).num_bits(),
        final(deduper).seeds() == old(deduper).seeds(),
        final(deduper).last_reset() == old(deduper).last_reset(),
        ds@.len() == batch@.len(),
        forall|t: int|
            0 <= t < ds@.len() ==> ((!(#[trigger] ds@[t]).is_duplicate ==> ds@[t].targets@
                == snapshot@) && (ds@[t].is_duplicate ==> ds@[t].targets@
                == Seq::<SockAddr>::empty())),
        forall|t: int|
            0 <= t < ds@.len() && (repeats_earlier_at(batch@, t) || old(deduper).seen(
                fp_at(batch@, t),
            )) ==> (#[trigger] ds@[t]).is_duplicate,
        batch_clean(*old(deduper), batch@) ==> (forall|t: int|
            0 <= t < ds@.len() ==> ((#[trigger] ds@[t]).is_duplicate <==> repeats_earlier_at(
                batch@,
                t,
            ))),
{
    let ghost d0 = *old(deduper);
    let mut ds: Vec<Decision> = Vec::new();
    let mut i: usize = 0;
    while i < batch.len()
        invariant
            0 <= i <= batch@.len(),
            deduper.wf(),
            deduper.num_bits() == d0.num_bits(),
            deduper.seeds() == d0.seeds(),
            deduper.last_reset() == d0.last_reset(),
            forall|t: int, u: int|
                0 <= t < batch@.len() && 0 <= u < batch@.len() ==> deduper.collides(
                    #[trigger] fp_at(batch@, t),
                    #[trigger] fp_at(batch@, u),
                ) == d0.collides(fp_at(batch@, t), fp_at(batch@, u)),
            forall|t: int|
                0 <= t < batch@.len() && d0.seen(#[trigger] fp_at(batch@, t)) ==> deduper.seen(
                    fp_at(batch@, t),
                ),
            forall|t: int|
                0 <= t < batch@.len() && (exists|j: int|
                    0 <= j < i && fp_at(batch@, j) == fp_at(batch@, t)) ==> deduper.seen(
                    #[trigger] fp_at(batch@, t),
                ),
            batch_clean(d0, batch@) ==> (forall|t: int|
                0 <= t < batch@.len() ==> (deduper.seen(#[trigger] fp_at(batch@, t)) <==> (exists|
                    j: int,
                |
                    0 <= j < i && fp_at(batch@, j) == fp_at(batch@, t)))),
            ds@.len() == i,
            forall|t: int|
                0 <= t < i ==> ((!(#[trigger] ds@[t]).is_duplicate ==> ds@[t].targets@
                    == snapshot@) && (ds@[t].is_duplicate ==> ds@[t].targets@
                    == Seq::<SockAddr>::empty())),
            forall|t: int|
                0 <= t < i && (repeats_earlier_at(batch@, t) || d0.seen(fp_at(batch@, t))) ==> (
                #[trigger] ds@[t]).is_duplicate,
            batch_clean(d0, batch@) ==> (forall|t: int|
                0 <= t < i ==> ((#[trigger] ds@[t]).is_duplicate <==> repeats_earlier_at(
                    batch@,
                    t,
                ))),
        decreases batch@.len() - i,
    {
        let ghost pre = *deduper;
        let d = decide_forward(deduper, batch[i].as_slice(), snapshot);
        proof {
            assert(fp_at(batch@, i as int) == fingerprint_window(batch@[i as int]@));
        }
        ds.push(d);
        proof {
            assert forall|t: int, u: int|
                0 <= t < batch@.len() && 0 <= u < batch@.len() implies deduper.collides(
                    #[trigger] fp_at(batch@, t),
                    #[trigger] fp_at(batch@, u),
                ) == d0.collides(fp_at(batch@, t), fp_at(batch@, u)) by {
                assert(deduper.collides(fp_at(batch@, t), fp_at(batch@, u)) == pre.collides(
                    fp_at(batch@, t),
                    fp_at(batch@, u),
                ));
            }
            assert forall|t: int|
                0 <= t < batch@.len() && d0.seen(#[trigger] fp_at(batch@, t)) implies deduper.seen(
                fp_at(batch@, t),
            ) by {
                assert(pre.seen(fp_at(batch@, t)));
            }
            assert forall|t: int|
                0 <= t < batch@.len() && (exists|j: int|
                    0 <= j < i + 1 && fp_at(batch@, j) == fp_at(batch@, t)) implies deduper.seen(
                #[trigger] fp_at(batch@, t),
            ) by {
                let j = choose|j: int| 0 <= j < i + 1 && fp_at(batch@, j) == fp_at(batch@, t);
                if j < i {
                    assert(pre.seen(fp_at(batch@, t)));
                } else {
                    assert(fp_at(batch@, t) == fp_at(batch@, i as int));
                }
            }
            if batch_clean(d0, batch@) {
                assert forall|t: int| 0 <= t < batch@.len() implies (deduper.seen(
                    #[trigger] fp_at(batch@, t),
                ) <==> (exists|j: int|
                    0 <= j < i + 1 && fp_at(batch@, j) == fp_at(batch@, t))) by {
                    if deduper.seen(fp_at(batch@, t)) {
                        if !pre.seen(fp_at(batch@, t)) {
                            assert(pre.collides(fp_at(batch@, t), fp_at(batch@, i as int)));
                            assert(d0.collides(fp_at(batch@, t), fp_at(batch@, i as int)));
                            if fp_at(batch@, t) != fp_at(batch@, i as int) {
                                assert(false);
                            }
                        }
                    }
                    if exists|j: int| 0 <= j < i + 1 && fp_at(batch@, j) == fp_at(batch@, t) {
                        let j = choose|j: int|
                            0 <= j < i + 1 && fp_at(batch@, j) == fp_at(batch@, t);
                        if j < i {
                            assert(pre.seen(fp_at(batch@, t)));
                        } else {
                            assert(fp_at(batch@, t) == fp_at(batch@, i as int));
                        }
                    }
                }
                assert(d.is_duplicate <==> repeats_earlier_at(batch@, i as int)) by {
                    if repeats_earlier_at(batch@, i as int) {
                        assert(pre.seen(fp_at(batch@, i as int)));
                    }
                }
            }
            assert((repeats_earlier_at(batch@, i as int) || d0.seen(fp_at(batch@, i as int)))
                ==> d.is_duplicate) by {
                if repeats_earlier_at(batch@, i as int) {
                    assert(pre.seen(fp_at(batch@, i as int)));
                }
                if d0.seen(fp_at(batch@, i as int)) {
                    assert(pre.seen(fp_at(batch@, i as int)));
                }
            }
        }
        i = i + 1;
    }
    ds
}

/// Count of datagrams a decision sequence forwards.
pub open spec fn forwarded_count(ds: Seq<Decision>) -> int
    decreases ds.len(),
{
    if ds.len() == 0 {
        0
    } else {
        forwarded_count(ds.drop_last()) + if ds.last().is_duplicate {
            0int
        } else {
            1int
        }
    }
}

/// Count of distinct fingerprints in arrival order: the first occurrences.
pub open spec fn distinct_count(fps: Seq<Seq<u8>>) -> int
    decreases fps.len(),
{
    if fps.len() == 0 {
        0
    } else {
        distinct_count(fps.drop_last()) + if repeats_earlier(fps, fps.len() - 1) {
            0int
        } else {
            1int
        }
    }
}

/// Dropping the last fingerprint does not change which earlier entries are
/// repeats.
proof fn lemma_repeats_prefix(fps: Seq<Seq<u8>>, i: int)
    requires
        0 <= i < fps.len() - 1,
    ensures
        repeats_earlier(fps.drop_last(), i) == repeats_earlier(fps, i),
{
    if repeats_earlier(fps, i) {
        let j = choose|j: int| 0 <= j < i && fps[j] == fps[i];
        assert(fps.drop_last()[j] == fps.drop_last()[i]);
    }
    if repeats_earlier(fps.drop_last(), i) {
        let j = choose|j: int| 0 <= j < i && fps.drop_last()[j] == fps.drop_last()[i];
        assert(fps[j] == fps[i]);
    }
}

/// Dedup correctness: when each datagram is flagged duplicate exactly when
/// its fingerprint repeats an earlier one — what `run_batch` guarantees of a
/// clean batch — the number of forwarded datagrams equals the number of
/// distinct fingerprints. Each forwarded datagram goes once to every
/// destination of the snapshot, so the per-destination send count equals the
/// distinct-fingerprint count as well.
pub proof fn lemma_dedup_correct(ds: Seq<Decision>, fps: Seq<Seq<u8>>)
    requires
        ds.len() == fps.len(),
        forall|i: int|
            0 <= i < ds.len() ==> ((#[trigger] ds[i]).is_duplicate <==> repeats_earlier(fps, i)),
    ensures
        forwarded_count(ds) == distinct_count(fps),
    decreases ds.len(),
{
    if ds.len() > 0 {
        assert forall|i: int| 0 <= i < ds.len() - 1 implies ((#[trigger] ds.drop_last()[
        i]).is_duplicate <==> repeats_earlier(fps.drop_last(), i)) by {
            lemma_repeats_prefix(fps, i);
            assert(ds.drop_last()[i] == ds[i]);
        }
        lemma_dedup_correct(ds.drop_last(), fps.drop_last());
        assert(ds.last() == ds[ds.len() - 1]);
    }
}

/// The fingerprint windows of a batch, in arrival order.
pub open spec fn batch_fps(batch: Seq<Vec<u8>>) -> Seq<Seq<u8>> {
    Seq::new(batch.len(), |i: int| fp_at(batch, i))
}

/// Dedup correctness for a batch, end to end: when each datagram is flagged
/// duplicate exactly when its fingerprint repeats an earlier one — what
/// `run_batch` guarantees of a clean batch — the number of forwarded
/// datagrams equals the number of distinct fingerprint windows.
pub proof fn lemma_batch_dedup_counts(ds: Seq<Decision>, batch: Seq<Vec<u8>>)
    requires
        ds.len() == batch.len(),
        forall|i: int|
            0 <= i < ds.len() ==> ((#[trigger] ds[i]).is_duplicate <==> repeats_earlier_at(
                batch,
                i,
            )),
    ensures
        forwarded_count(ds) == distinct_count(batch_fps(batch)),
{
    let fps = batch_fps(batch);
    assert forall|i: int| 0 <= i < ds.len() implies ((#[trigger] ds[i]).is_duplicate
        <==> repeats_earlier(fps, i)) by {
        if repeats_earlier(fps, i) {
            let j = choose|j: int| 0 <= j < i && fps[j] == fps[i];
            assert(fp_at(batch, j) == fp_at(batch, i));
        }
        if repeats_earlier_at(batch, i) {
            let j = choose|j: int| 0 <= j < i && fp_at(batch, j) == fp_at(batch, i);
            assert(fps[j] == fps[i]);
        }
    }
    lemma_dedup_correct(ds, fps);
}

} // verus!
