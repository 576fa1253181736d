use shredstream_proxy::addr::{IpAddress, SockAddr};
use shredstream_proxy::snapshot::{build_snapshot, plan_refresh, RefreshError};

fn v4(a: u8, b: u8, c: u8, d: u8) -> IpAddress {
    IpAddress::V4(((a as u32) << 24) | ((b as u32) << 16) | ((c as u32) << 8) | (d as u32))
}

fn sa(ip: IpAddress, port: u16) -> SockAddr {
    SockAddr { ip, port }
}

#[test]
fn union_is_sorted_and_deduplicated() {
    let stat = vec![
        sa(v4(10, 0, 0, 2), 8001),
        sa(v4(10, 0, 0, 1), 8001),
        sa(v4(10, 0, 0, 2), 8001),
    ];
    let disc = vec![sa(v4(10, 0, 0, 1), 8001), sa(v4(10, 0, 0, 1), 8000)];
    let snap = build_snapshot(&stat, &disc);
    assert_eq!(
        snap,
        vec![
            sa(v4(10, 0, 0, 1), 8000),
            sa(v4(10, 0, 0, 1), 8001),
            sa(v4(10, 0, 0, 2), 8001),
        ]
    );
}

#[test]
fn refresh_is_idempotent() {
    // identical inputs publish identical snapshots
    let stat = vec![sa(v4(10, 0, 0, 9), 8001), sa(v4(10, 0, 0, 3), 8001)];
    let body = "[\"10.0.0.7\", \"10.0.0.5\"]";
    let once = plan_refresh(&stat, true, Some(body), 8002).unwrap();
    let twice = plan_refresh(&stat, true, Some(body), 8002).unwrap();
    assert_eq!(once, twice);
    assert_eq!(
        once,
        vec![
            sa(v4(10, 0, 0, 3), 8001),
            sa(v4(10, 0, 0, 5), 8002),
            sa(v4(10, 0, 0, 7), 8002),
            sa(v4(10, 0, 0, 9), 8001),
        ]
    );
}

#[test]
fn refresh_without_discovery_keeps_the_static_list() {
    let stat = vec![sa(v4(127, 0, 0, 1), 30000), sa(v4(10, 0, 0, 1), 8001)];
    let snap = plan_refresh(&stat, false, None, 0).unwrap();
    assert_eq!(snap, vec![sa(v4(10, 0, 0, 1), 8001), sa(v4(127, 0, 0, 1), 30000)]);
}

#[test]
fn failed_fetch_publishes_nothing() {
    let stat = vec![sa(v4(127, 0, 0, 1), 30000)];
    assert_eq!(plan_refresh(&stat, true, None, 8001), Err(RefreshError::FetchFailed));
}

#[test]
fn malformed_bodies_publish_nothing() {
    let stat = vec![sa(v4(127, 0, 0, 1), 30000)];
    // not JSON at all
    assert_eq!(
        plan_refresh(&stat, true, Some("not json"), 8001),
        Err(RefreshError::MalformedBody)
    );
    // JSON, but not an array of strings
    assert_eq!(
        plan_refresh(&stat, true, Some("{\"ip\": \"10.0.0.1\"}"), 8001),
        Err(RefreshError::MalformedBody)
    );
    // an array of strings, but not IPv4 texts
    assert_eq!(
        plan_refresh(&stat, true, Some("[\"ten.zero.zero.one\"]"), 8001),
        Err(RefreshError::MalformedBody)
    );
    assert_eq!(
        plan_refresh(&stat, true, Some("[\"10.0.0.256\"]"), 8001),
        Err(RefreshError::MalformedBody)
    );
}

#[test]
fn discovery_addition_shows_up_after_a_refresh() {
    // one destination at first; the rewritten discovery response adds a second
    let stat = vec![sa(v4(127, 0, 0, 1), 30000)];
    let before = plan_refresh(&stat, true, Some("[]"), 30001).unwrap();
    assert_eq!(before, vec![sa(v4(127, 0, 0, 1), 30000)]);
    let after = plan_refresh(&stat, true, Some("[\"127.0.0.2\"]"), 30001).unwrap();
    assert_eq!(
        after,
        vec![sa(v4(127, 0, 0, 1), 30000), sa(v4(127, 0, 0, 2), 30001)]
    );
}

#[test]
fn empty_json_array_is_valid() {
    let stat: Vec<SockAddr> = vec![];
    let snap = plan_refresh(&stat, true, Some("[]"), 8001).unwrap();
    assert!(snap.is_empty());
}
