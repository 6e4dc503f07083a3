//! The tunnel address allocator: a pure function over a routing-table
//! snapshot that names a free /30 block inside the private 172.16.0.0/12
//! range, together with the plan of the four addresses of that block.
//!
//! The algorithm sorts the constraining destinations ascending and walks
//! them once, pushing the candidate past every block it collides with,
//! rounded up to the next /30 boundary so that the base always names a
//! whole /30 block; the result therefore depends only on which routes
//! the snapshot holds, not on the order the kernel handed them out in.

use vstd::prelude::*;
use vstd::relations::{sorted_by, total_ordering};
use vstd::seq_lib::lemma_sorted_unique;

use crate::addr::{bits_of, Ipv4};
use crate::cache::Cache;
use crate::error::Error;
use crate::route::Route;

verus! {

/// Base of the private range probed for a free tunnel subnet: 172.16.0.0.
pub const RANGE_BASE: u32 = 0xAC100000;

/// The /12 network mask bounding the probe.
pub const RANGE_MASK: u32 = 0xFFF00000;

/// The sort order on encoded route keys: plain unsigned order.
pub open spec fn key_le() -> spec_fn(u64, u64) -> bool {
    |a: u64, b: u64| a <= b
}

/// The constraint one route places on the search, encoded as one
/// orderable value: destination bits times 64 plus prefix length, so
/// that keys sort by destination first. Routes without a destination,
/// with prefix length 0 (the default route never constrains the search),
/// with a non-IPv4 destination, or with a destination outside the probed
/// /12 constrain nothing.
pub open spec fn route_key(r: Route) -> Option<u64> {
    match r.dst {
        Some(d) => if d.data@.len() == 4 && 1 <= d.prefix <= 32 && bits_of(d.data@) & RANGE_MASK
            == RANGE_BASE {
            Some((((bits_of(d.data@) as u64) * 64 + d.prefix) as u64))
        } else {
            None
        },
        None => None,
    }
}

/// The destination bits encoded in a key.
pub open spec fn key_dst(k: u64) -> u32 {
    (k / 64) as u32
}

/// The prefix length encoded in a key.
pub open spec fn key_plen(k: u64) -> u32 {
    (k % 64) as u32
}

/// Every key built by `route_key` satisfies this.
pub open spec fn valid_key(k: u64) -> bool {
    k < 0x4000000000 && 1 <= k % 64 <= 32 && (key_dst(k) & RANGE_MASK) == RANGE_BASE
}

/// The keys of all constraining routes, in snapshot order.
pub open spec fn alloc_keys(routes: Seq<Route>) -> Seq<u64>
    decreases routes.len(),
{
    if routes.len() == 0 {
        Seq::empty()
    } else {
        let rest = alloc_keys(routes.drop_last());
        match route_key(routes.last()) {
            Some(k) => rest.push(k),
            None => rest,
        }
    }
}

/// The network mask with the top `plen` bits set.
pub open spec fn high_mask(plen: u32) -> u32
    recommends
        1 <= plen <= 32,
{
    ((0xFFFFFFFFu64 << ((32 - plen) as u64)) & 0xFFFFFFFF) as u32
}

/// One step of the scan: when the candidate falls inside the route's
/// block (masked with the route's own prefix), it moves to the first
/// /30-aligned address past that block, so a /31 or /32 route cannot
/// leave the candidate in the middle of a /30; the sum is taken modulo
/// 2^32, and a wrapped candidate can only fail the final range check.
pub open spec fn scan_step(cand: u32, k: u64) -> u32 {
    let dst = key_dst(k);
    let plen = key_plen(k);
    if (dst & high_mask(plen)) == (cand & high_mask(plen)) {
        (((((dst as u64) + (1u64 << ((32 - plen) as u64)) + 3) as u64) & 0xFFFFFFFC) as u32)
    } else {
        cand
    }
}

/// The scan keeps the candidate /30-aligned: it starts on a multiple
/// of 4 and every advance lands on one.
proof fn lemma_scan_candidate_aligned(keys: Seq<u64>, cand: u32)
    requires
        cand % 4 == 0,
    ensures
        scan_candidate(keys, cand) % 4 == 0,
    decreases keys.len(),
{
    if keys.len() > 0 {
        let k = keys.first();
        assert(scan_step(cand, k) % 4 == 0) by {
            let dst = key_dst(k);
            let plen = key_plen(k);
            if (dst & high_mask(plen)) == (cand & high_mask(plen)) {
                let sum = ((dst as u64) + (1u64 << ((32 - plen) as u64)) + 3) as u64;
                assert(((sum & 0xFFFFFFFC) as u32) % 4 == 0) by (bit_vector);
            }
        }
        lemma_scan_candidate_aligned(keys.drop_first(), scan_step(cand, k));
    }
}

/// The candidate left after scanning all keys in order.
pub open spec fn scan_candidate(keys: Seq<u64>, cand: u32) -> u32
    decreases keys.len(),
{
    if keys.len() == 0 {
        cand
    } else {
        scan_candidate(keys.drop_first(), scan_step(cand, keys.first()))
    }
}

/// The base address the allocator names for a snapshot: the scan over
/// the snapshot's constraining keys, sorted ascending, started at the
/// bottom of the range.
pub open spec fn tunnel_base(routes: Seq<Route>) -> u32 {
    scan_candidate(alloc_keys(routes).sort_by(key_le()), RANGE_BASE)
}

/// True when the allocator succeeds on this snapshot: the final
/// candidate still lies inside the probed /12.
pub open spec fn tunnel_base_in_range(routes: Seq<Route>) -> bool {
    (tunnel_base(routes) & RANGE_MASK) == RANGE_BASE
}

proof fn lemma_key_le_total()
    ensures
        total_ordering(key_le()),
{
    let leq = key_le();
    assert forall|a: u64, b: u64| #[trigger] leq(a, b) || #[trigger] leq(b, a) by {
        assert(a <= b || b <= a);
    }
}

/// Every key of a snapshot is a valid key.
proof fn lemma_alloc_keys_valid(routes: Seq<Route>)
    ensures
        forall|i: int| 0 <= i < alloc_keys(routes).len() ==> valid_key(#[trigger] alloc_keys(routes)[i]),
    decreases routes.len(),
{
    if routes.len() > 0 {
        lemma_alloc_keys_valid(routes.drop_last());
        let rest = alloc_keys(routes.drop_last());
        match route_key(routes.last()) {
            Some(k) => {
                assert(valid_key(k)) by {
                    let d = routes.last().dst->Some_0;
                    let bits = bits_of(d.data@);
                    assert((bits as u64) * 64 + (d.prefix as u64) < 0x4000000000);
                    assert(((bits as u64) * 64 + (d.prefix as u64)) % 64 == d.prefix) by {
                        assert(d.prefix < 64);
                        assert(((bits as u64) * 64 + (d.prefix as u64)) % 64 == (d.prefix as u64)
                            % 64) by (nonlinear_arith)
                            requires
                                d.prefix < 64,
                        ;
                    }
                    assert(((bits as u64) * 64 + (d.prefix as u64)) / 64 == bits) by {
                        assert(((bits as u64) * 64 + (d.prefix as u64)) / 64 == bits as u64)
                            by (nonlinear_arith)
                            requires
                                d.prefix < 64,
                        ;
                    }
                }
                assert forall|i: int| 0 <= i < alloc_keys(routes).len() implies valid_key(
                    #[trigger] alloc_keys(routes)[i],
                ) by {
                    assert(alloc_keys(routes) == rest.push(k));
                    if i < rest.len() {
                        assert(alloc_keys(routes)[i] == rest[i]);
                        assert(valid_key(rest[i]));
                    } else {
                        assert(alloc_keys(routes)[i] == k);
                    }
                }
            },
            None => {
                assert forall|i: int| 0 <= i < alloc_keys(routes).len() implies valid_key(
                    #[trigger] alloc_keys(routes)[i],
                ) by {
                    assert(alloc_keys(routes) == rest);
                    assert(valid_key(rest[i]));
                }
            },
        }
    }
}

/// Removing one route from a snapshot removes exactly its key (when it
/// has one) from the key multiset.
proof fn lemma_alloc_keys_remove(routes: Seq<Route>, i: int)
    requires
        0 <= i < routes.len(),
    ensures
        alloc_keys(routes).to_multiset() == (match route_key(routes[i]) {
            Some(k) => alloc_keys(routes.remove(i)).to_multiset().insert(k),
            None => alloc_keys(routes.remove(i)).to_multiset(),
        }),
    decreases routes.len(),
{
    broadcast use vstd::seq_lib::group_to_multiset_ensures;

    if i == routes.len() - 1 {
        assert(routes.remove(i) =~= routes.drop_last());
        match route_key(routes.last()) {
            Some(k) => {
                assert(alloc_keys(routes) == alloc_keys(routes.drop_last()).push(k));
                assert(alloc_keys(routes.drop_last()).push(k).to_multiset() =~= alloc_keys(
                    routes.drop_last(),
                ).to_multiset().insert(k));
            },
            None => {},
        }
    } else {
        let shorter = routes.drop_last();
        lemma_alloc_keys_remove(shorter, i);
        assert(routes.remove(i).drop_last() =~= shorter.remove(i));
        assert(routes.remove(i).last() == routes.last());
        match route_key(routes.last()) {
            Some(k) => {
                assert(alloc_keys(routes) == alloc_keys(shorter).push(k));
                assert(alloc_keys(routes.remove(i)) == alloc_keys(shorter.remove(i)).push(k));
                assert(alloc_keys(shorter).push(k).to_multiset() =~= alloc_keys(
                    shorter,
                ).to_multiset().insert(k));
                assert(alloc_keys(shorter.remove(i)).push(k).to_multiset() =~= alloc_keys(
                    shorter.remove(i),
                ).to_multiset().insert(k));
                match route_key(routes[i]) {
                    Some(ki) => {
                        assert(alloc_keys(routes).to_multiset() =~= alloc_keys(
                            routes.remove(i),
                        ).to_multiset().insert(ki));
                    },
                    None => {
                        assert(alloc_keys(routes).to_multiset() =~= alloc_keys(
                            routes.remove(i),
                        ).to_multiset());
                    },
                }
            },
            None => {
                assert(alloc_keys(routes) == alloc_keys(shorter));
                assert(alloc_keys(routes.remove(i)) == alloc_keys(shorter.remove(i)));
            },
        }
    }
}

/// Two snapshots holding the same routes (in any order) have the same
/// key multiset.
proof fn lemma_alloc_keys_permutation(s1: Seq<Route>, s2: Seq<Route>)
    requires
        s1.to_multiset() == s2.to_multiset(),
    ensures
        alloc_keys(s1).to_multiset() == alloc_keys(s2).to_multiset(),
    decreases s1.len(),
{
    broadcast use vstd::seq_lib::group_to_multiset_ensures;
    broadcast use vstd::multiset::group_multiset_axioms;

    if s1.len() == 0 {
        assert(s2.to_multiset().len() == 0);
        assert(s2.len() == 0);
    } else {
        let x = s1.last();
        assert(s1.to_multiset().contains(x)) by {
            assert(s1.contains(x));
        }
        assert(s2.to_multiset().contains(x));
        assert(s2.contains(x));
        let i = choose|i: int| 0 <= i < s2.len() && s2[i] == x;
        let s1r = s1.drop_last();
        let s2r = s2.remove(i);
        assert(s1r.to_multiset() =~= s2r.to_multiset()) by {
            assert(s1r =~= s1.remove(s1.len() - 1));
            assert(s1.remove(s1.len() - 1).to_multiset() == s1.to_multiset().remove(x));
            assert(s2.remove(i).to_multiset() == s2.to_multiset().remove(x));
        }
        lemma_alloc_keys_permutation(s1r, s2r);
        lemma_alloc_keys_remove(s2, i);
        assert(s1.remove(s1.len() - 1) =~= s1r);
        lemma_alloc_keys_remove(s1, s1.len() - 1);
        match route_key(x) {
            Some(k) => {
                assert(alloc_keys(s1).to_multiset() =~= alloc_keys(s2).to_multiset());
            },
            None => {
                assert(alloc_keys(s1).to_multiset() =~= alloc_keys(s2).to_multiset());
            },
        }
    }
}

/// The allocator is deterministic: two snapshots holding the same routes,
/// whatever order they were fetched in, name the same base address, and
/// succeed or fail together.
pub proof fn lemma_allocator_deterministic(s1: Seq<Route>, s2: Seq<Route>)
    requires
        s1.to_multiset() == s2.to_multiset(),
    ensures
        tunnel_base(s1) == tunnel_base(s2),
        tunnel_base_in_range(s1) == tunnel_base_in_range(s2),
{
    lemma_key_le_total();
    lemma_alloc_keys_permutation(s1, s2);
    alloc_keys(s1).lemma_sort_by_ensures(key_le());
    alloc_keys(s2).lemma_sort_by_ensures(key_le());
    lemma_sorted_unique(
        alloc_keys(s1).sort_by(key_le()),
        alloc_keys(s2).sort_by(key_le()),
        key_le(),
    );
}

/// Extracts the constraining keys of a snapshot, in snapshot order.
fn collect_keys(routes: &Cache<Route>) -> (keys: Vec<u64>)
    ensures
        keys@ == alloc_keys(routes@),
{
    let n = routes.len();
    let mut keys: Vec<u64> = Vec::new();
    let mut i: usize = 0;
    while i < n
        invariant
            n == routes@.len(),
            i <= n,
            keys@ == alloc_keys(routes@.take(i as int)),
        decreases n - i,
    {
        let rt = routes.get(i);
        match rt.dst() {
            Some(d) => {
                let plen = d.cidrlen();
                match d.to_ipv4() {
                    Ok(ip) => {
                        if 1 <= plen && plen <= 32 && (ip.bits & RANGE_MASK) == RANGE_BASE {
                            let k: u64 = (ip.bits as u64) * 64 + (plen as u64);
                            keys.push(k);
                            proof {
                                assert(route_key(routes@[i as int]) == Some(k));
                            }
                        } else {
                            proof {
                                assert(route_key(routes@[i as int]) is None);
                            }
                        }
                    },
                    Err(_) => {
                        proof {
                            assert(route_key(routes@[i as int]) is None);
                        }
                    },
                }
            },
            None => {},
        }
        proof {
            assert(routes@.take(i + 1).drop_last() =~= routes@.take(i as int));
            assert(routes@.take(i + 1).last() == routes@[i as int]);
        }
        i = i + 1;
    }
    proof {
        assert(routes@.take(n as int) =~= routes@);
    }
    keys
}

/// Sorts the keys ascending; the result holds exactly the keys it was
/// given.
fn sort_keys(v: &mut Vec<u64>)
    ensures
        sorted_by(final(v)@, key_le()),
        final(v)@.to_multiset() == old(v)@.to_multiset(),
{
    broadcast use vstd::seq_lib::group_to_multiset_ensures;
    broadcast use vstd::multiset::group_multiset_axioms;

    let n = v.len();
    let mut i: usize = 1;
    if n < 2 {
        return ;
    }
    while i < n
        invariant
            1 <= i <= n,
            n == v@.len(),
            v@.to_multiset() == old(v)@.to_multiset(),
            forall|a: int, b: int| 0 <= a < b < i ==> v@[a] <= v@[b],
        decreases n - i,
    {
        let mut j: usize = i;
        while j > 0 && v[j - 1] > v[j]
            invariant
                j <= i < n,
                n == v@.len(),
                v@.to_multiset() == old(v)@.to_multiset(),
                forall|a: int, b: int| 0 <= a < b <= i && b != j ==> v@[a] <= v@[b],
            decreases j,
        {
            let x = v[j - 1];
            let y = v[j];
            let ghost before = v@;
            v[j - 1] = y;
            v[j] = x;
            proof {
                broadcast use vstd::seq_lib::group_to_multiset_ensures;
                broadcast use vstd::multiset::group_multiset_axioms;

                assert(v@ == before.update(j - 1, y).update(j as int, x));
                assert(before.update(j - 1, y)[j as int] == y);
                vstd::seq_lib::to_multiset_update(before, j as int - 1, y);
                vstd::seq_lib::to_multiset_update(before.update(j as int - 1, y), j as int, x);
                assert(before.contains(x) && before.contains(y));
                assert(before.to_multiset().count(x) > 0 && before.to_multiset().count(y) > 0);
                assert(v@.to_multiset() =~= before.to_multiset());
            }
            j = j - 1;
        }
        i = i + 1;
    }
    proof {
        assert(sorted_by(v@, key_le())) by {
            assert forall|a: int, b: int| 0 <= a < b < v@.len() implies #[trigger] key_le()(
                v@[a],
                v@[b],
            ) by {
                assert(v@[a] <= v@[b]);
            }
        }
    }
}

/// Finds an unused /30 block inside 172.16.0.0/12 given the current
/// routing snapshot. Succeeds exactly when the scanned candidate stays
/// inside the range, and the returned base then names a whole /30
/// block (a multiple of 4): base+0 is the network id, +1 the host
/// endpoint, +2 the container endpoint, +3 the broadcast address. A
/// snapshot whose routes saturate the range yields the terminal
/// `NoTunnelRangeAvailable`.
pub fn find_tunnel_ip_range(routes: &Cache<Route>) -> (r: Result<Ipv4, Error>)
    ensures
        tunnel_base_in_range(routes@) ==> r == Ok::<Ipv4, Error>(
            (Ipv4 { bits: tunnel_base(routes@) }),
        ),
        !tunnel_base_in_range(routes@) ==> r == Err::<Ipv4, Error>(Error::NoTunnelRangeAvailable),
        r matches Ok(ip) ==> ip.bits % 4 == 0,
{
    broadcast use vstd::seq_lib::group_to_multiset_ensures;

    let mut keys = collect_keys(routes);
    proof {
        lemma_key_le_total();
        lemma_alloc_keys_valid(routes@);
        alloc_keys(routes@).lemma_sort_by_ensures(key_le());
    }
    sort_keys(&mut keys);
    proof {
        lemma_sorted_unique(keys@, alloc_keys(routes@).sort_by(key_le()), key_le());
        assert(keys@ == alloc_keys(routes@).sort_by(key_le()));
        assert forall|idx: int| 0 <= idx < keys@.len() implies valid_key(#[trigger] keys@[idx]) by {
            assert(keys@.contains(keys@[idx]));
            assert(keys@.to_multiset().contains(keys@[idx]));
            assert(alloc_keys(routes@).to_multiset().contains(keys@[idx]));
            assert(alloc_keys(routes@).contains(keys@[idx]));
            let w = choose|w: int|
                0 <= w < alloc_keys(routes@).len() && alloc_keys(routes@)[w] == keys@[idx];
            assert(valid_key(alloc_keys(routes@)[w]));
        }
    }
    let n = keys.len();
    let mut cand: u32 = RANGE_BASE;
    let mut i: usize = 0;
    proof {
        assert(keys@.skip(0) =~= keys@);
    }
    while i < n
        invariant
            n == keys@.len(),
            i <= n,
            forall|idx: int| 0 <= idx < keys@.len() ==> valid_key(#[trigger] keys@[idx]),
            scan_candidate(keys@, RANGE_BASE) == scan_candidate(keys@.skip(i as int), cand),
        decreases n - i,
    {
        let ghost cand0 = cand;
        let k = keys[i];
        proof {
            assert(valid_key(k));
            assert(k / 64 < 0x100000000);
        }
        let dst: u32 = (k / 64) as u32;
        let plen: u32 = (k % 64) as u32;
        let mask: u32 = ((0xFFFFFFFFu64 << ((32 - plen) as u64)) & 0xFFFFFFFF) as u32;
        proof {
            assert(dst == key_dst(k) && plen == key_plen(k) && mask == high_mask(plen));
        }
        if (dst & mask) == (cand & mask) {
            proof {
                let s = ((32 - plen) as u64);
                assert(1u64 << s <= 0x8000000000000000) by (bit_vector)
                    requires
                        s < 64,
                ;
            }
            let next: u64 = (dst as u64) + (1u64 << ((32 - plen) as u64)) + 3;
            cand = (next & 0xFFFFFFFC) as u32;
        }
        proof {
            assert(cand == scan_step(cand0, k));
            assert(keys@.skip(i as int).first() == k);
            assert(keys@.skip(i as int).drop_first() =~= keys@.skip(i + 1));
            assert(scan_candidate(keys@.skip(i as int), cand0) == scan_candidate(
                keys@.skip(i + 1),
                cand,
            ));
        }
        i = i + 1;
    }
    proof {
        assert(keys@.skip(n as int) =~= Seq::<u64>::empty());
        assert(scan_candidate(keys@, RANGE_BASE) == cand);
        lemma_scan_candidate_aligned(keys@, RANGE_BASE);
    }
    if (cand & RANGE_MASK) == RANGE_BASE {
        Ok(Ipv4 { bits: cand })
    } else {
        Err(Error::NoTunnelRangeAvailable)
    }
}

} // verus!

