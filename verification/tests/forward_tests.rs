use shredstream_proxy::addr::{IpAddress, SockAddr};
use shredstream_proxy::dedup::Deduper;
use shredstream_proxy::forward::{
    decide_forward, fingerprint_of, run_batch, trace_id_of, FINGERPRINT_SKIP,
};
use shredstream_proxy::metrics::ShredMetrics;

fn dest(d: u32, port: u16) -> SockAddr {
    SockAddr { ip: IpAddress::V4(d), port }
}

fn payload(i: u64) -> Vec<u8> {
    // a realistic shred-sized datagram whose fingerprint window varies
    let mut p = vec![0u8; 200];
    p[FINGERPRINT_SKIP + 3..FINGERPRINT_SKIP + 11].copy_from_slice(&i.to_be_bytes());
    p
}

#[test]
fn distinct_payloads_all_forwarded() {
    // one destination, 1000 distinct payloads: everything forwarded, no duplicate
    let mut d = Deduper::with_seeds(8192, 3, 4, 0);
    let snapshot = vec![dest(0x7f000001, 30000)];
    let batch: Vec<Vec<u8>> = (0..1000).map(payload).collect();
    let decisions = run_batch(&mut d, &batch, &snapshot);
    assert_eq!(decisions.len(), 1000);
    let dups = decisions.iter().filter(|x| x.is_duplicate).count();
    assert_eq!(dups, 0);
    for dec in &decisions {
        assert_eq!(dec.targets, snapshot);
    }
}

#[test]
fn repeated_payload_forwarded_once() {
    // the same payload 1000 times: one send, 999 duplicates
    let mut d = Deduper::with_seeds(8192, 3, 4, 0);
    let snapshot = vec![dest(0x7f000001, 30000)];
    let batch: Vec<Vec<u8>> = (0..1000).map(|_| payload(42)).collect();
    let decisions = run_batch(&mut d, &batch, &snapshot);
    let dups = decisions.iter().filter(|x| x.is_duplicate).count();
    assert_eq!(dups, 999);
    assert!(!decisions[0].is_duplicate);
    assert_eq!(decisions[0].targets, snapshot);
}

#[test]
fn fan_out_reaches_every_destination() {
    // two destinations, 100 distinct payloads: 200 per-destination sends
    let mut d = Deduper::with_seeds(8192, 3, 4, 0);
    let snapshot = vec![dest(0x7f000001, 30000), dest(0x7f000001, 30001)];
    let batch: Vec<Vec<u8>> = (0..100).map(payload).collect();
    let decisions = run_batch(&mut d, &batch, &snapshot);
    let mut metrics = ShredMetrics::new();
    let mut sends = 0u64;
    let mut dups = 0u64;
    for dec in &decisions {
        if dec.is_duplicate {
            dups += 1;
        } else {
            assert_eq!(dec.targets, snapshot);
            sends += dec.targets.len() as u64;
        }
    }
    metrics.record_forward(decisions.len() as u64, dups, sends, 0);
    assert_eq!(metrics.success_forward, 200);
    assert_eq!(metrics.duplicate, 0);
    assert_eq!(metrics.received, 100);
}

#[test]
fn fingerprint_ignores_the_leading_signature() {
    // two datagrams equal after the signature are duplicates of one another
    let mut a = payload(7);
    let mut b = payload(7);
    a[0] = 0xAA;
    b[0] = 0xBB;
    assert_eq!(fingerprint_of(&a), fingerprint_of(&b));
    let mut d = Deduper::with_seeds(1024, 9, 10, 0);
    let snapshot = vec![dest(1, 1)];
    assert!(!decide_forward(&mut d, &a, &snapshot).is_duplicate);
    assert!(decide_forward(&mut d, &b, &snapshot).is_duplicate);
}

#[test]
fn short_datagrams_are_fingerprinted_whole() {
    let a = [1u8; 32];
    assert_eq!(fingerprint_of(&a), &a[..]);
}

#[test]
fn duplicate_decisions_carry_no_targets() {
    let mut d = Deduper::with_seeds(1024, 9, 10, 0);
    let snapshot = vec![dest(1, 1), dest(2, 2)];
    let p = payload(3);
    let first = decide_forward(&mut d, &p, &snapshot);
    let second = decide_forward(&mut d, &p, &snapshot);
    assert!(!first.is_duplicate);
    assert_eq!(first.targets.len(), 2);
    assert!(second.is_duplicate);
    assert!(second.targets.is_empty());
}

#[test]
fn trace_id_reads_a_fixed_offset() {
    let mut p = payload(0);
    p[70] = 0x5A;
    assert_eq!(trace_id_of(&p), Some(0x5A));
    assert_eq!(trace_id_of(&[0u8; 16]), None);
}
