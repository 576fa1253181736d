//! Destination-snapshot construction: the computation of the destination
//! refresher.
//!
//! Each refresher tick unions the static destination list with the addresses
//! discovered over HTTP, removes duplicates, and orders the result, so that
//! the published snapshot is a deterministic function of its inputs. The
//! surrounding process re-resolves hostnames and fetches the discovery
//! document, then hands the plain values here; a failed tick keeps the
//! previous snapshot.

use vstd::prelude::*;

verus! {

use crate::addr::{SockAddr, IpAddress, addr_lt, addr_less, lemma_addr_lt_total_order,
    parse_ipv4_text, parse_ipv4};
use crate::trusted::{json_string_list, parse_json_string_list, bytes_view};

/// Every element is strictly smaller than those after it: sorted, and free
/// of duplicates.
pub open spec fn strictly_sorted(s: Seq<SockAddr>) -> bool {
    forall|i: int, j: int| 0 <= i < j < s.len() ==> addr_lt(s[i], s[j])
}

/// Why a refresher tick published nothing.
#[derive(Clone, Copy, Debug, PartialEq, Eq, Structural)]
pub enum RefreshError {
    /// The discovery endpoint could not be fetched.
    FetchFailed,
    /// The discovery body was not a JSON array of IPv4 texts.
    MalformedBody,
}

/// Every entry reads as an IPv4 text.
pub open spec fn all_ipv4(entries: Seq<Seq<u8>>) -> bool {
    forall|k: int| 0 <= k < entries.len() ==> parse_ipv4_text(#[trigger] entries[k]) is Some
}

/// The socket addresses a discovery response denotes: each entry's address,
/// paired with the configured discovered-endpoints port.
pub open spec fn discovered_addrs(entries: Seq<Seq<u8>>, port: u16) -> Seq<SockAddr> {
    Seq::new(
        entries.len(),
        |k: int|
            SockAddr {
                ip: IpAddress::V4(parse_ipv4_text(entries[k]).unwrap()),
                port,
            },
    )
}

/// What a refresher tick learns from discovery: the discovered addresses,
/// nothing when discovery is off, or the error that leaves the previous
/// snapshot in place.
pub open spec fn discovery_result(enabled: bool, body: Option<Seq<char>>, port: u16) -> Result<
    Seq<SockAddr>,
    RefreshError,
> {
    if !enabled {
        Ok(Seq::empty())
    } else {
        match body {
            None => Err(RefreshError::FetchFailed),
            Some(b) => match json_string_list(b) {
                None => Err(RefreshError::MalformedBody),
                Some(entries) => if all_ipv4(entries) {
                    Ok(discovered_addrs(entries, port))
                } else {
                    Err(RefreshError::MalformedBody)
                },
            },
        }
    }
}

/// Inserts `a` into a strictly sorted vector, keeping it strictly sorted;
/// an address already present is not duplicated.
fn insert_sorted(v: &mut Vec<SockAddr>, a: SockAddr)
    requires
        strictly_sorted(old(v)@),
    ensures
        strictly_sorted(final(v)@),
        forall|x: SockAddr| final(v)@.contains(x) <==> old(v)@.contains(x) || x == a,
{
    let mut idx: usize = 0;
    while idx < v.len() && addr_less(&v[idx], &a)
        invariant
            0 <= idx <= v@.len(),
            v@ == old(v)@,
            forall|j: int| 0 <= j < idx ==> addr_lt(v@[j], a),
        decreases v@.len() - idx,
    {
        idx = idx + 1;
    }
    if idx < v.len() && v[idx] == a {
        proof {
            assert(v@.contains(a));
        }
        return ;
    }
    proof {
        if idx < v@.len() {
            lemma_addr_lt_total_order(a, v@[idx as int], a);
        }
    }
    v.insert(idx, a);
    proof {
        let w = old(v)@;
        let n = v@;
        w.insert_ensures(idx as int, a);
        assert forall|i: int, j: int| 0 <= i < j < n.len() implies addr_lt(n[i], n[j]) by {
            if j < idx {
            } else if j == idx {
                assert(n[i] == w[i]);
            } else if i < idx {
                assert(n[j] == w[j - 1]);
                if i == j - 1 {
                    assert(false);
                }
            } else if i == idx {
                assert(n[j] == w[j - 1]);
                assert(addr_lt(a, w[idx as int]));
                if j - 1 > idx {
                    lemma_addr_lt_total_order(a, w[idx as int], w[j - 1]);
                }
            } else {
                assert(n[i] == w[i - 1]);
                assert(n[j] == w[j - 1]);
            }
        }
        assert forall|x: SockAddr| n.contains(x) <==> w.contains(x) || x == a by {
            if w.contains(x) {
                let k = choose|k: int| 0 <= k < w.len() && w[k] == x;
                if k < idx {
                    assert(n[k] == x);
                } else {
                    assert(n[k + 1] == x);
                }
            }
            if x == a {
                assert(n[idx as int] == x);
            }
            if n.contains(x) {
                let k = choose|k: int| 0 <= k < n.len() && n[k] == x;
                if k < idx {
                    assert(w[k] == x);
                } else if k == idx {
                } else {
                    assert(w[k - 1] == x);
                }
            }
        }
    }
}

/// Builds the published snapshot: the union of the static and the discovered
/// destinations, without duplicates, in address order.
pub fn build_snapshot(stat: &Vec<SockAddr>, discovered: &Vec<SockAddr>) -> (r: Vec<SockAddr>)
    ensures
        strictly_sorted(r@),
        forall|x: SockAddr| r@.contains(x) <==> stat@.contains(x) || discovered@.contains(x),
{
    let mut r: Vec<SockAddr> = Vec::new();
    let mut i: usize = 0;
    while i < stat.len()
        invariant
            0 <= i <= stat@.len(),
            strictly_sorted(r@),
            forall|x: SockAddr|
                r@.contains(x) <==> (exists|k: int| 0 <= k < i && stat@[k] == x),
        decreases stat@.len() - i,
    {
        insert_sorted(&mut r, stat[i]);
        i = i + 1;
    }
    let mut j: usize = 0;
    while j < discovered.len()
        invariant
            0 <= j <= discovered@.len(),
            strictly_sorted(r@),
            forall|x: SockAddr|
                r@.contains(x) <==> stat@.contains(x) || (exists|k: int|
                    0 <= k < j && discovered@[k] == x),
        decreases discovered@.len() - j,
    {
        insert_sorted(&mut r, discovered[j]);
        j = j + 1;
    }
    r
}

/// One refresher tick: turns the re-resolved static destinations and the
/// fetched discovery body (when discovery is enabled) into the snapshot to
/// publish, or reports why nothing can be published.
pub fn plan_refresh(
    static_addrs: &Vec<SockAddr>,
    discovery_enabled: bool,
    body: Option<&str>,
    discovered_port: u16,
) -> (r: Result<Vec<SockAddr>, RefreshError>)
    ensures
        match discovery_result(
            discovery_enabled,
            match body {
                Some(b) => Some(b@),
                None => None,
            },
            discovered_port,
        ) {
            Ok(extra) => match r {
                Ok(v) => strictly_sorted(v@) && (forall|x: SockAddr|
                    v@.contains(x) <==> static_addrs@.contains(x) || extra.contains(x)),
                Err(_) => false,
            },
            Err(e) => r == Err::<Vec<SockAddr>, RefreshError>(e),
        },
{
    let mut discovered: Vec<SockAddr> = Vec::new();
    if discovery_enabled {
        let b = match body {
            Some(b) => b,
            None => {
                return Err(RefreshError::FetchFailed);
            },
        };
        let entries = match parse_json_string_list(b) {
            Some(entries) => entries,
            None => {
                return Err(RefreshError::MalformedBody);
            },
        };
        let ghost spec_entries = bytes_view(entries@);
        let mut k: usize = 0;
        while k < entries.len()
            invariant
                0 <= k <= entries@.len(),
                spec_entries == bytes_view(entries@),
                discovery_enabled,
                body == Some(b),
                json_string_list(b@) == Some(spec_entries),
                forall|t: int| 0 <= t < k ==> parse_ipv4_text(#[trigger] spec_entries[t]) is Some,
                discovered@ =~= discovered_addrs(spec_entries, discovered_port).subrange(
                    0,
                    k as int,
                ),
            decreases entries@.len() - k,
        {
            proof {
                assert(spec_entries[k as int] == entries@[k as int]@);
            }
            let v = match parse_ipv4(entries[k].as_slice()) {
                Some(v) => v,
                None => {
                    proof {
                        assert(!all_ipv4(spec_entries));
                    }
                    return Err(RefreshError::MalformedBody);
                },
            };
            discovered.push(SockAddr { ip: IpAddress::V4(v), port: discovered_port });
            proof {
                assert(discovered@ =~= discovered_addrs(spec_entries, discovered_port).subrange(
                    0,
                    k + 1,
                ));
            }
            k = k + 1;
        }
        proof {
            assert(all_ipv4(spec_entries));
            assert(discovered@ =~= discovered_addrs(spec_entries, discovered_port));
        }
    }
    let snap = build_snapshot(static_addrs, &discovered);
    Ok(snap)
}

/// Publishing is deterministic: any two strictly sorted snapshots with the
/// same members are the same sequence, so a refresher tick re-run on
/// identical inputs publishes an identical snapshot.
pub proof fn lemma_snapshot_deterministic(s1: Seq<SockAddr>, s2: Seq<SockAddr>)
    requires
        strictly_sorted(s1),
        strictly_sorted(s2),
        forall|x: SockAddr| s1.contains(x) <==> s2.contains(x),
    ensures
        s1 == s2,
    decreases s1.len(),
{
    if s1.len() == 0 {
        if s2.len() > 0 {
            assert(s1.contains(s2[0]));
        }
        assert(s1 =~= s2);
    } else {
        assert(s2.contains(s1[0]));
        assert(s1.contains(s2[0]));
        let k = choose|k: int| 0 <= k < s2.len() && s2[k] == s1[0];
        let m = choose|m: int| 0 <= m < s1.len() && s1[m] == s2[0];
        if k > 0 && m > 0 {
            assert(addr_lt(s2[0], s2[k]));
            assert(addr_lt(s1[0], s1[m]));
            lemma_addr_lt_total_order(s1[0], s2[0], s1[0]);
        } else if k > 0 {
            assert(addr_lt(s2[0], s2[k]));
            lemma_addr_lt_total_order(s1[0], s1[0], s1[0]);
        } else if m > 0 {
            assert(addr_lt(s1[0], s1[m]));
            lemma_addr_lt_total_order(s2[0], s2[0], s2[0]);
        }
        assert(s1[0] == s2[0]);
        let t1 = s1.drop_first();
        let t2 = s2.drop_first();
        assert forall|x: SockAddr| t1.contains(x) <==> t2.contains(x) by {
            lemma_tail_contains(s1, x);
            lemma_tail_contains(s2, x);
        }
        assert(strictly_sorted(t1)) by {
            assert forall|i: int, j: int| 0 <= i < j < t1.len() implies addr_lt(t1[i], t1[j]) by {
                assert(t1[i] == s1[i + 1]);
                assert(t1[j] == s1[j + 1]);
            }
        }
        assert(strictly_sorted(t2)) by {
            assert forall|i: int, j: int| 0 <= i < j < t2.len() implies addr_lt(t2[i], t2[j]) by {
                assert(t2[i] == s2[i + 1]);
                assert(t2[j] == s2[j + 1]);
            }
        }
        lemma_snapshot_deterministic(t1, t2);
        assert(s1 =~= s2) by {
            assert forall|i: int| 0 <= i < s1.len() implies s1[i] == s2[i] by {
                if i > 0 {
                    assert(s1[i] == t1[i - 1]);
                    assert(s2[i] == t2[i - 1]);
                }
            }
        }
    }
}

/// In a strictly sorted sequence, the tail holds exactly the members other
/// than the head.
proof fn lemma_tail_contains(s: Seq<SockAddr>, x: SockAddr)
    requires
        strictly_sorted(s),
        s.len() >= 1,
    ensures
        s.drop_first().contains(x) <==> s.contains(x) && x != s[0],
{
    let t = s.drop_first();
    if t.contains(x) {
        let i = choose|i: int| 0 <= i < t.len() && t[i] == x;
        assert(s[i + 1] == x);
        assert(addr_lt(s[0], s[i + 1]));
        lemma_addr_lt_total_order(s[0], s[0], s[0]);
    }
    if s.contains(x) && x != s[0] {
        let j = choose|j: int| 0 <= j < s.len() && s[j] == x;
        assert(j != 0);
        assert(t[j - 1] == x);
    }
}

} // verus!
