//! The resource arbiter: given every component's resource claims, report
//! each resource claimed by two or more components.
//!
//! A port bound on the wildcard interface binds every local interface, so
//! the wildcard claimant also counts as a claimant of the same port and
//! protocol on every specific interface. Different protocols on one port,
//! and different specific interfaces on one port, do not conflict.

use vstd::prelude::*;
use crate::id::ComponentKey;
use crate::resource::{IpAddress, Protocol, Resource, ResourceView, SocketAddress};

verus! {

/// Some pair of the flattened claim list binds key `k` to resource `r`.
pub open spec fn pair_in(s: Seq<(ComponentKey, Resource)>, k: Seq<char>, r: ResourceView) -> bool {
    exists|i: int| 0 <= i < s.len() && s[i].0@ == k && s[i].1@ == r
}

/// Component `k` lists resource `r` among its claims, considering only the
/// pairs that come before component `i`, resource position `j`.
pub open spec fn prefix_claims(
    comps: Seq<(ComponentKey, Vec<Resource>)>,
    i: int,
    j: int,
    k: Seq<char>,
    r: ResourceView,
) -> bool {
    exists|a: int, b: int|
        0 <= a < comps.len() && 0 <= b < comps[a].1@.len() && (a < i || (a == i && b < j))
            && comps[a].0@ == k && comps[a].1@[b]@ == r
}

/// Component `k` lists resource `r` among its claims.
pub open spec fn directly_claims(
    comps: Seq<(ComponentKey, Vec<Resource>)>,
    k: Seq<char>,
    r: ResourceView,
) -> bool {
    prefix_claims(comps, comps.len() as int, 0, k, r)
}

/// Component `k` claims `port`/`proto` on a wildcard interface.
pub open spec fn wildcard_claims(
    comps: Seq<(ComponentKey, Vec<Resource>)>,
    k: Seq<char>,
    port: u16,
    proto: Protocol,
) -> bool {
    directly_claims(
        comps,
        k,
        ResourceView::Port(SocketAddress { ip: IpAddress::V4(0, 0, 0, 0), port }, proto),
    ) || directly_claims(
        comps,
        k,
        ResourceView::Port(SocketAddress { ip: IpAddress::V6(0), port }, proto),
    )
}

/// Component `k` counts as a claimant of `r`: it lists `r` itself, or `r`
/// is a port and `k` holds the same port and protocol on a wildcard
/// interface.
pub open spec fn claims(
    comps: Seq<(ComponentKey, Vec<Resource>)>,
    k: Seq<char>,
    r: ResourceView,
) -> bool {
    directly_claims(comps, k, r) || match r {
        ResourceView::Port(a, p) => wildcard_claims(comps, k, a.port, p),
        _ => false,
    }
}

/// Some pair of the flattened claim list lists resource `r`.
pub open spec fn listed(s: Seq<(ComponentKey, Resource)>, r: ResourceView) -> bool {
    exists|i: int| 0 <= i < s.len() && s[i].1@ == r
}

/// Some component lists resource `r` among its claims.
pub open spec fn has_direct_claimant(
    comps: Seq<(ComponentKey, Vec<Resource>)>,
    r: ResourceView,
) -> bool {
    exists|k: Seq<char>| directly_claims(comps, k, r)
}

/// Key `k` occurs in the claimant list.
pub open spec fn in_keys(s: Seq<ComponentKey>, k: Seq<char>) -> bool {
    exists|i: int| 0 <= i < s.len() && s[i]@ == k
}

/// No key occurs twice in the claimant list.
pub open spec fn distinct_key_views(s: Seq<ComponentKey>) -> bool {
    forall|i: int, j: int| 0 <= i < j < s.len() ==> s[i]@ != s[j]@
}

/// Some wildcard record carries `(k, port, proto)`.
pub open spec fn wild_in(
    s: Seq<(ComponentKey, u16, Protocol)>,
    k: Seq<char>,
    port: u16,
    proto: Protocol,
) -> bool {
    exists|i: int| 0 <= i < s.len() && s[i].0@ == k && s[i].1 == port && s[i].2 == proto
}

#[verifier::loop_isolation(false)]
fn key_in_list(list: &Vec<ComponentKey>, k: &ComponentKey) -> (r: bool)
    ensures
        r == in_keys(list@, k@),
{
    let n = list.len();
    let mut i: usize = 0;
    while i < n
        invariant
            0 <= i <= n,
            n == list@.len(),
            forall|j: int| 0 <= j < i ==> list@[j]@ != k@,
        decreases n - i,
    {
        if list[i] == *k {
            return true;
        }
        i += 1;
    }
    false
}

/// Add `k` to the claimant list unless it is already there.
fn add_claimant(list: &mut Vec<ComponentKey>, k: &ComponentKey)
    requires
        distinct_key_views(old(list)@),
    ensures
        distinct_key_views(final(list)@),
        forall|q: Seq<char>| in_keys(final(list)@, q) <==> in_keys(old(list)@, q) || q == k@,
        final(list)@.len() >= old(list)@.len(),
        forall|i: int| 0 <= i < old(list)@.len() ==> final(list)@[i] == old(list)@[i],
        final(list)@.len() <= old(list)@.len() + 1,
{
    if !key_in_list(list, k) {
        list.push(k.clone());
        proof {
            assert forall|q: Seq<char>| in_keys(list@, q) implies in_keys(old(list)@, q) || q
                == k@ by {
                let i = choose|i: int| 0 <= i < list@.len() && list@[i]@ == q;
                if i < old(list)@.len() {
                    assert(in_keys(old(list)@, q));
                }
            }
            assert forall|q: Seq<char>| in_keys(old(list)@, q) || q == k@ implies in_keys(
                list@,
                q,
            ) by {
                if in_keys(old(list)@, q) {
                    let i = choose|i: int| 0 <= i < old(list)@.len() && old(list)@[i]@ == q;
                    assert(list@[i]@ == q);
                } else {
                    assert(list@[list@.len() - 1]@ == q);
                }
            }
        }
    } else {
        proof {
            assert forall|q: Seq<char>| in_keys(list@, q) || q == k@ implies in_keys(
                list@,
                q,
            ) by {}
        }
    }
}

impl Resource {
    /// From the given components' claims, every resource that has a
    /// conflict: the result holds exactly the resources that some
    /// component lists and that two distinct components claim, each with
    /// the full list of its claimants, in first-appearance order.
    #[verifier::loop_isolation(false)]
    pub fn conflicts(components: &Vec<(ComponentKey, Vec<Resource>)>) -> (result: Vec<
        (Resource, Vec<ComponentKey>),
    >)
        ensures
            forall|m1: int, m2: int|
                0 <= m1 < m2 < result@.len() ==> result@[m1].0@ != result@[m2].0@,
            forall|m: int|
                0 <= m < result@.len() ==> distinct_key_views(result@[m].1@) && result@[m].1@.len()
                    >= 2,
            forall|m: int, k: Seq<char>|
                #![trigger in_keys(result@[m].1@, k)]
                0 <= m < result@.len() ==> (in_keys(result@[m].1@, k) <==> claims(
                    components@,
                    k,
                    result@[m].0@,
                )),
            forall|m: int|
                #![trigger result@[m]]
                0 <= m < result@.len() ==> has_direct_claimant(components@, result@[m].0@),
            forall|r: ResourceView, k1: Seq<char>, k2: Seq<char>|
                #![trigger claims(components@, k1, r), claims(components@, k2, r)]
                has_direct_claimant(components@, r) && k1 != k2 && claims(components@, k1, r)
                    && claims(components@, k2, r) ==> exists|m: int|
                    0 <= m < result@.len() && result@[m].0@ == r,
    {
        let flat = flatten_claims(components);
        let (rvec, mut kvecs, wild) = collect_claims(&flat);
        proof {
            assert forall|m: int| #![trigger rvec@[m]]
                0 <= m < rvec@.len() implies listed(flat@, rvec@[m]@) by {
                assert(in_keys(kvecs@[m]@, kvecs@[m]@[0]@));
                assert(pair_in(flat@, kvecs@[m]@[0]@, rvec@[m]@));
                let i = choose|i: int|
                    0 <= i < flat@.len() && flat@[i].0@ == kvecs@[m]@[0]@ && flat@[i].1@
                        == rvec@[m]@;
                assert(0 <= i < flat@.len() && flat@[i].1@ == rvec@[m]@);
            }
        }
        augment_wildcards(&rvec, &mut kvecs, &wild, Ghost(flat@));
        retain_conflicts(&rvec, &kvecs, Ghost(components@), Ghost(flat@))
    }
}

/// Flatten the per-component claim lists into (component, resource) pairs.
#[verifier::loop_isolation(false)]
fn flatten_claims(components: &Vec<(ComponentKey, Vec<Resource>)>) -> (flat: Vec<
    (ComponentKey, Resource),
>)
    ensures
        forall|k: Seq<char>, r: ResourceView|
            pair_in(flat@, k, r) <==> directly_claims(components@, k, r),
{
    let mut flat: Vec<(ComponentKey, Resource)> = Vec::new();
    let n = components.len();
    let mut i: usize = 0;
    while i < n
        invariant
            0 <= i <= n,
            n == components@.len(),
            forall|k: Seq<char>, r: ResourceView|
                pair_in(flat@, k, r) <==> prefix_claims(components@, i as int, 0, k, r),
        decreases n - i,
    {
        let m = components[i].1.len();
        let mut j: usize = 0;
        while j < m
            invariant
                0 <= i < n,
                0 <= j <= m,
                n == components@.len(),
                m == components@[i as int].1@.len(),
                forall|k: Seq<char>, r: ResourceView|
                    pair_in(flat@, k, r) <==> prefix_claims(components@, i as int, j as int, k, r),
            decreases m - j,
        {
            let key = components[i].0.clone();
            let res = components[i].1[j].clone();
            let ghost flat0 = flat@;
            flat.push((key, res));
            proof {
                let iv = i as int;
                let jv = j as int;
                assert forall|k: Seq<char>, r: ResourceView|
                    pair_in(flat@, k, r) implies prefix_claims(
                    components@,
                    iv,
                    jv + 1,
                    k,
                    r,
                ) by {
                    let p = choose|p: int| 0 <= p < flat@.len() && flat@[p].0@ == k && flat@[p].1@
                        == r;
                    if p < flat@.len() - 1 {
                        assert(pair_in(flat0, k, r)) by {
                            assert(flat0[p].0@ == k && flat0[p].1@ == r);
                        }
                    } else {
                        assert(components@[iv].0@ == k && components@[iv].1@[jv]@ == r);
                    }
                }
                assert forall|k: Seq<char>, r: ResourceView|
                    prefix_claims(components@, iv, jv + 1, k, r) implies pair_in(
                    flat@,
                    k,
                    r,
                ) by {
                    let (a, b): (int, int) = choose|a: int, b: int|
                        0 <= a < components@.len() && 0 <= b < components@[a].1@.len() && (a < iv
                            || (a == iv && b < jv + 1)) && components@[a].0@ == k
                            && components@[a].1@[b]@ == r;
                    if a < iv || b < jv {
                        assert(prefix_claims(components@, iv, jv, k, r));
                        assert(pair_in(flat0, k, r));
                        let p = choose|p: int|
                            0 <= p < flat0.len() && flat0[p].0@ == k && flat0[p].1@ == r;
                        assert(flat@[p].0@ == k && flat@[p].1@ == r);
                    } else {
                        assert(flat@[flat@.len() - 1].0@ == k && flat@[flat@.len() - 1].1@ == r);
                    }
                }
            }
            j += 1;
        }
        i += 1;
        proof {
            assert forall|k: Seq<char>, r: ResourceView|
                prefix_claims(components@, i as int, 0, k, r) implies prefix_claims(
                components@,
                i as int - 1,
                m as int,
                k,
                r,
            ) by {}
        }
    }
    flat
}

/// Some pair of the flattened claim list claims `port`/`proto` for `k` on a
/// wildcard interface.
pub open spec fn unspec_pair(
    s: Seq<(ComponentKey, Resource)>,
    k: Seq<char>,
    port: u16,
    proto: Protocol,
) -> bool {
    pair_in(s, k, ResourceView::Port(SocketAddress { ip: IpAddress::V4(0, 0, 0, 0), port }, proto))
        || pair_in(
        s,
        k,
        ResourceView::Port(SocketAddress { ip: IpAddress::V6(0), port }, proto),
    )
}

/// Like `claims`, over the flattened pair list.
pub open spec fn flat_claims(
    s: Seq<(ComponentKey, Resource)>,
    k: Seq<char>,
    r: ResourceView,
) -> bool {
    pair_in(s, k, r) || match r {
        ResourceView::Port(a, p) => unspec_pair(s, k, a.port, p),
        _ => false,
    }
}

/// Extending the pair list by one pair extends what it claims by exactly
/// that pair.
proof fn lemma_pair_in_push(
    s: Seq<(ComponentKey, Resource)>,
    p: (ComponentKey, Resource),
    k: Seq<char>,
    r: ResourceView,
)
    ensures
        pair_in(s.push(p), k, r) <==> (pair_in(s, k, r) || (p.0@ == k && p.1@ == r)),
{
    if pair_in(s.push(p), k, r) {
        let i = choose|i: int| 0 <= i < s.push(p).len() && s.push(p)[i].0@ == k && s.push(p)[i].1@
            == r;
        if i < s.len() {
            assert(s[i].0@ == k && s[i].1@ == r);
        } else {
            assert(s.push(p)[i] == p);
        }
    }
    if pair_in(s, k, r) {
        let i = choose|i: int| 0 <= i < s.len() && s[i].0@ == k && s[i].1@ == r;
        assert(s.push(p)[i].0@ == k && s.push(p)[i].1@ == r);
    }
    if p.0@ == k && p.1@ == r {
        assert(s.push(p)[s.len() as int].0@ == k && s.push(p)[s.len() as int].1@ == r);
    }
}

/// The same, for the wildcard records.
proof fn lemma_wild_in_push(
    s: Seq<(ComponentKey, u16, Protocol)>,
    p: (ComponentKey, u16, Protocol),
    k: Seq<char>,
    port: u16,
    proto: Protocol,
)
    ensures
        wild_in(s.push(p), k, port, proto) <==> (wild_in(s, k, port, proto) || (p.0@ == k && p.1
            == port && p.2 == proto)),
{
    if wild_in(s.push(p), k, port, proto) {
        let i = choose|i: int|
            0 <= i < s.push(p).len() && s.push(p)[i].0@ == k && s.push(p)[i].1 == port && s.push(
                p,
            )[i].2 == proto;
        if i < s.len() {
            assert(s[i].0@ == k && s[i].1 == port && s[i].2 == proto);
        } else {
            assert(s.push(p)[i] == p);
        }
    }
    if wild_in(s, k, port, proto) {
        let i = choose|i: int| 0 <= i < s.len() && s[i].0@ == k && s[i].1 == port && s[i].2 == proto;
        assert(s.push(p)[i].0@ == k && s.push(p)[i].1 == port && s.push(p)[i].2 == proto);
    }
    if p.0@ == k && p.1 == port && p.2 == proto {
        assert(s.push(p)[s.len() as int].0@ == k);
    }
}

/// A wildcard record among the first `t1` is among the first `t2`.
proof fn lemma_wild_prefix_widen(
    s: Seq<(ComponentKey, u16, Protocol)>,
    t1: int,
    t2: int,
    k: Seq<char>,
    port: u16,
    proto: Protocol,
)
    requires
        t1 <= t2,
        wild_in_prefix(s, t1, k, port, proto),
    ensures
        wild_in_prefix(s, t2, k, port, proto),
{
    let i = choose|i: int| 0 <= i < t1 && s[i].0@ == k && s[i].1 == port && s[i].2 == proto;
    assert(0 <= i < t2 && s[i].0@ == k && s[i].1 == port && s[i].2 == proto);
}

#[verifier::loop_isolation(false)]
fn find_res(rvec: &Vec<Resource>, r: &Resource) -> (out: Option<usize>)
    ensures
        match out {
            Some(m) => m < rvec@.len() && rvec@[m as int]@ == r@,
            None => forall|m: int| 0 <= m < rvec@.len() ==> rvec@[m]@ != r@,
        },
{
    let n = rvec.len();
    let mut i: usize = 0;
    while i < n
        invariant
            0 <= i <= n,
            n == rvec@.len(),
            forall|m: int| 0 <= m < i ==> rvec@[m]@ != r@,
        decreases n - i,
    {
        if rvec[i] == *r {
            return Some(i);
        }
        i += 1;
    }
    None
}

/// Group the flattened pairs: one entry per distinct resource, in
/// first-appearance order, with its direct claimants; also collect one
/// wildcard record per wildcard port pair.
#[verifier::loop_isolation(false)]
fn collect_claims(flat: &Vec<(ComponentKey, Resource)>) -> (out: (
    Vec<Resource>,
    Vec<Vec<ComponentKey>>,
    Vec<(ComponentKey, u16, Protocol)>,
))
    ensures
        out.0@.len() == out.1@.len(),
        forall|m1: int, m2: int| 0 <= m1 < m2 < out.0@.len() ==> out.0@[m1]@ != out.0@[m2]@,
        forall|m: int|
            0 <= m < out.1@.len() ==> distinct_key_views(out.1@[m]@) && out.1@[m]@.len() >= 1,
        forall|m: int, k: Seq<char>|
            #![trigger in_keys(out.1@[m]@, k)]
            0 <= m < out.0@.len() ==> (in_keys(out.1@[m]@, k) <==> pair_in(flat@, k, out.0@[m]@)),
        forall|k: Seq<char>, r: ResourceView|
            pair_in(flat@, k, r) ==> exists|m: int| 0 <= m < out.0@.len() && out.0@[m]@ == r,
        forall|k: Seq<char>, port: u16, proto: Protocol|
            wild_in(out.2@, k, port, proto) <==> unspec_pair(flat@, k, port, proto),
{
    let mut rvec: Vec<Resource> = Vec::new();
    let mut kvecs: Vec<Vec<ComponentKey>> = Vec::new();
    let mut wild: Vec<(ComponentKey, u16, Protocol)> = Vec::new();
    let n = flat.len();
    let mut t: usize = 0;
    proof {
        assert(flat@.subrange(0, 0) =~= Seq::<(ComponentKey, Resource)>::empty());
    }
    while t < n
        invariant
            0 <= t <= n,
            n == flat@.len(),
            rvec@.len() == kvecs@.len(),
            forall|m1: int, m2: int| 0 <= m1 < m2 < rvec@.len() ==> rvec@[m1]@ != rvec@[m2]@,
            forall|m: int|
                0 <= m < kvecs@.len() ==> distinct_key_views(kvecs@[m]@) && kvecs@[m]@.len() >= 1,
            forall|m: int, k: Seq<char>|
                #![trigger in_keys(kvecs@[m]@, k)]
                0 <= m < rvec@.len() ==> (in_keys(kvecs@[m]@, k) <==> pair_in(
                    flat@.subrange(0, t as int),
                    k,
                    rvec@[m]@,
                )),
            forall|k: Seq<char>, r: ResourceView|
                pair_in(flat@.subrange(0, t as int), k, r) ==> exists|m: int|
                    0 <= m < rvec@.len() && rvec@[m]@ == r,
            forall|k: Seq<char>, port: u16, proto: Protocol|
                wild_in(wild@, k, port, proto) <==> unspec_pair(
                    flat@.subrange(0, t as int),
                    k,
                    port,
                    proto,
                ),
        decreases n - t,
    {
        let ghost pre = flat@.subrange(0, t as int);
        let ghost pt = flat@[t as int];
        proof {
            assert(flat@.subrange(0, t as int + 1) =~= pre.push(pt));
        }
        let key = flat[t].0.clone();
        let res = flat[t].1.clone();
        // Record a wildcard claim when the address is unspecified.
        let ghost wild0 = wild@;
        match &flat[t].1 {
            Resource::Port(a, p) => {
                if a.ip.is_unspecified() {
                    wild.push((key.clone(), a.port, *p));
                }
            },
            _ => {},
        }
        proof {
            assert forall|k: Seq<char>, port: u16, proto: Protocol|
                wild_in(wild@, k, port, proto) <==> unspec_pair(pre.push(pt), k, port, proto) by {
                if wild@.len() > wild0.len() {
                    lemma_wild_in_push(wild0, wild@[wild@.len() - 1], k, port, proto);
                    assert(wild@ =~= wild0.push(wild@[wild@.len() - 1]));
                }
                lemma_pair_in_push(
                    pre,
                    pt,
                    k,
                    ResourceView::Port(
                        SocketAddress { ip: IpAddress::V4(0, 0, 0, 0), port },
                        proto,
                    ),
                );
                lemma_pair_in_push(
                    pre,
                    pt,
                    k,
                    ResourceView::Port(SocketAddress { ip: IpAddress::V6(0), port }, proto),
                );
            }
        }
        // Fold the pair into the per-resource claimant lists.
        let ghost rvec0 = rvec@;
        let ghost kvecs0 = kvecs@;
        match find_res(&rvec, &res) {
            Some(m) => {
                add_claimant(&mut kvecs[m], &key);
                proof {
                    let mv = m as int;
                    assert forall|m2: int, k: Seq<char>|
                        0 <= m2 < rvec@.len() implies (in_keys(kvecs@[m2]@, k) <==> pair_in(
                        pre.push(pt),
                        k,
                        rvec@[m2]@,
                    )) by {
                        lemma_pair_in_push(pre, pt, k, rvec@[m2]@);
                        if m2 != mv {
                            assert(kvecs@[m2] == kvecs0[m2]);
                            assert(rvec@[m2]@ != rvec@[mv]@);
                        }
                    }
                    assert forall|k: Seq<char>, r: ResourceView|
                        pair_in(pre.push(pt), k, r) implies exists|m2: int|
                        0 <= m2 < rvec@.len() && rvec@[m2]@ == r by {
                        lemma_pair_in_push(pre, pt, k, r);
                        if !pair_in(pre, k, r) {
                            assert(rvec@[mv]@ == r);
                        }
                    }
                }
            },
            None => {
                rvec.push(res);
                let mut single: Vec<ComponentKey> = Vec::new();
                single.push(key);
                kvecs.push(single);
                proof {
                    let mv = rvec@.len() - 1;
                    assert forall|m2: int, k: Seq<char>|
                        0 <= m2 < rvec@.len() implies (in_keys(kvecs@[m2]@, k) <==> pair_in(
                        pre.push(pt),
                        k,
                        rvec@[m2]@,
                    )) by {
                        lemma_pair_in_push(pre, pt, k, rvec@[m2]@);
                        if m2 < mv {
                            assert(kvecs@[m2] == kvecs0[m2]);
                            assert(rvec@[m2]@ != pt.1@);
                        } else {
                            assert(kvecs@[mv]@.len() == 1);
                            if in_keys(kvecs@[mv]@, k) {
                                assert(kvecs@[mv]@[0]@ == k);
                            }
                            if pair_in(pre, k, rvec@[mv]@) {
                                let m0 = choose|m0: int|
                                    0 <= m0 < rvec0.len() && rvec0[m0]@ == rvec@[mv]@;
                                assert(false);
                            }
                            if pt.0@ == k {
                                assert(kvecs@[mv]@[0]@ == k);
                            }
                        }
                    }
                    assert forall|k: Seq<char>, r: ResourceView|
                        pair_in(pre.push(pt), k, r) implies exists|m2: int|
                        0 <= m2 < rvec@.len() && rvec@[m2]@ == r by {
                        lemma_pair_in_push(pre, pt, k, r);
                        if !pair_in(pre, k, r) {
                            assert(rvec@[mv]@ == r);
                        } else {
                            let m0 = choose|m0: int| 0 <= m0 < rvec0.len() && rvec0[m0]@ == r;
                            assert(rvec@[m0]@ == r);
                        }
                    }
                }
            },
        }
        t += 1;
    }
    proof {
        assert(flat@.subrange(0, n as int) =~= flat@);
    }
    (rvec, kvecs, wild)
}

#[verifier::loop_isolation(false)]
fn clone_keys(list: &Vec<ComponentKey>) -> (r: Vec<ComponentKey>)
    ensures
        r@.len() == list@.len(),
        forall|i: int| 0 <= i < list@.len() ==> r@[i]@ == list@[i]@,
{
    let mut r: Vec<ComponentKey> = Vec::new();
    let n = list.len();
    let mut i: usize = 0;
    while i < n
        invariant
            0 <= i <= n,
            n == list@.len(),
            r@.len() == i,
            forall|j: int| 0 <= j < i ==> r@[j]@ == list@[j]@,
        decreases n - i,
    {
        r.push(list[i].clone());
        i += 1;
    }
    r
}

/// The wildcard records matching `(port, proto)` among the first `t`.
pub open spec fn wild_in_prefix(
    s: Seq<(ComponentKey, u16, Protocol)>,
    t: int,
    k: Seq<char>,
    port: u16,
    proto: Protocol,
) -> bool {
    exists|i: int| 0 <= i < t && s[i].0@ == k && s[i].1 == port && s[i].2 == proto
}

/// The claimant list `kv` holds exactly the direct claimants of `r` plus
/// the keys of the first `t` wildcard records matching `(port, proto)`.
pub open spec fn claim_list_matches(
    kv: Seq<ComponentKey>,
    flat: Seq<(ComponentKey, Resource)>,
    r: ResourceView,
    wild: Seq<(ComponentKey, u16, Protocol)>,
    t: int,
    port: u16,
    proto: Protocol,
) -> bool {
    forall|k: Seq<char>|
        #![trigger in_keys(kv, k)]
        in_keys(kv, k) <==> (pair_in(flat, k, r) || wild_in_prefix(wild, t, k, port, proto))
}

/// Add every wildcard claimant of a port to the claimant lists of the
/// matching port entries.
#[verifier::rlimit(60)]
#[verifier::loop_isolation(false)]
fn augment_wildcards(
    rvec: &Vec<Resource>,
    kvecs: &mut Vec<Vec<ComponentKey>>,
    wild: &Vec<(ComponentKey, u16, Protocol)>,
    Ghost(flat): Ghost<Seq<(ComponentKey, Resource)>>,
)
    requires
        rvec@.len() == old(kvecs)@.len(),
        forall|m1: int, m2: int| 0 <= m1 < m2 < rvec@.len() ==> rvec@[m1]@ != rvec@[m2]@,
        forall|m: int|
            0 <= m < old(kvecs)@.len() ==> distinct_key_views(old(kvecs)@[m]@)
                && old(kvecs)@[m]@.len() >= 1,
        forall|m: int, k: Seq<char>|
            #![trigger in_keys(old(kvecs)@[m]@, k)]
            0 <= m < rvec@.len() ==> (in_keys(old(kvecs)@[m]@, k) <==> pair_in(
                flat,
                k,
                rvec@[m]@,
            )),
        forall|k: Seq<char>, port: u16, proto: Protocol|
            wild_in(wild@, k, port, proto) <==> unspec_pair(flat, k, port, proto),
    ensures
        final(kvecs)@.len() == rvec@.len(),
        forall|m: int|
            0 <= m < rvec@.len() ==> distinct_key_views(final(kvecs)@[m]@)
                && final(kvecs)@[m]@.len() >= 1,
        forall|m: int, k: Seq<char>|
            #![trigger in_keys(final(kvecs)@[m]@, k)]
            0 <= m < rvec@.len() ==> (in_keys(final(kvecs)@[m]@, k) <==> flat_claims(
                flat,
                k,
                rvec@[m]@,
            )),
{
    let n = rvec.len();
    let mut m: usize = 0;
    while m < n
        invariant
            0 <= m <= n,
            n == rvec@.len(),
            kvecs@.len() == n,
            forall|m1: int, m2: int| 0 <= m1 < m2 < rvec@.len() ==> rvec@[m1]@ != rvec@[m2]@,
            forall|m2: int|
                0 <= m2 < n ==> distinct_key_views(kvecs@[m2]@) && kvecs@[m2]@.len() >= 1,
            forall|m2: int, k: Seq<char>|
                #![trigger in_keys(kvecs@[m2]@, k)]
                0 <= m2 < m ==> (in_keys(kvecs@[m2]@, k) <==> flat_claims(flat, k, rvec@[m2]@)),
            forall|m2: int| m <= m2 < n ==> kvecs@[m2] == old(kvecs)@[m2],
            forall|k: Seq<char>, port: u16, proto: Protocol|
                wild_in(wild@, k, port, proto) <==> unspec_pair(flat, k, port, proto),
        decreases n - m,
    {
        let ghost r_m = rvec@[m as int]@;
        match &rvec[m] {
            Resource::Port(a, p) => {
                proof {
                    assert(rvec@[m as int] == Resource::Port(*a, *p));
                    assert(r_m == ResourceView::Port(*a, *p));
                }
                let port = a.port;
                let proto = *p;
                let w = wild.len();
                let mut t: usize = 0;
                proof {
                    assert forall|k: Seq<char>| #![trigger in_keys(kvecs@[m as int]@, k)]
                        in_keys(kvecs@[m as int]@, k) <==> (pair_in(flat, k, r_m)
                            || wild_in_prefix(wild@, 0, k, port, proto)) by {
                        assert(kvecs@[m as int] == old(kvecs)@[m as int]);
                        assert(in_keys(old(kvecs)@[m as int]@, k) <==> pair_in(flat, k, r_m));
                        if wild_in_prefix(wild@, 0, k, port, proto) {
                            let i = choose|i: int|
                                0 <= i < 0 && wild@[i].0@ == k && wild@[i].1 == port && wild@[i].2
                                    == proto;
                            assert(false);
                        }
                    }
                    assert(claim_list_matches(kvecs@[m as int]@, flat, r_m, wild@, 0, port, proto));
                }
                while t < w
                    invariant
                        0 <= t <= w,
                        0 <= m < n,
                        w == wild@.len(),
                        n == rvec@.len(),
                        kvecs@.len() == n,
                        rvec@[m as int]@ == r_m,
                        forall|m2: int|
                            0 <= m2 < n ==> distinct_key_views(kvecs@[m2]@) && kvecs@[m2]@.len()
                                >= 1,
                        forall|m2: int, k: Seq<char>|
                            #![trigger in_keys(kvecs@[m2]@, k)]
                            0 <= m2 < m ==> (in_keys(kvecs@[m2]@, k) <==> flat_claims(
                                flat,
                                k,
                                rvec@[m2]@,
                            )),
                        forall|m2: int| m < m2 < n ==> kvecs@[m2] == old(kvecs)@[m2],
                        claim_list_matches(
                            kvecs@[m as int]@,
                            flat,
                            r_m,
                            wild@,
                            t as int,
                            port,
                            proto,
                        ),
                    decreases w - t,
                {
                    let ghost kv0 = kvecs@;
                    let ghost tv = t as int;
                    if wild[t].1 == port && wild[t].2 == proto {
                        let wk = wild[t].0.clone();
                        add_claimant(&mut kvecs[m], &wk);
                        proof {
                            assert forall|k: Seq<char>| #![trigger in_keys(kvecs@[m as int]@, k)]
                                in_keys(kvecs@[m as int]@, k) <==> (pair_in(flat, k, r_m)
                                    || wild_in_prefix(wild@, tv + 1, k, port, proto)) by {
                                assert(in_keys(kv0[m as int]@, k) <==> (pair_in(flat, k, r_m)
                                    || wild_in_prefix(wild@, tv, k, port, proto)));
                                if in_keys(kvecs@[m as int]@, k) {
                                    if !in_keys(kv0[m as int]@, k) {
                                        assert(wild@[tv].0@ == k);
                                        assert(wild_in_prefix(wild@, tv + 1, k, port, proto));
                                    } else {
                                        if wild_in_prefix(wild@, tv, k, port, proto) {
                                            lemma_wild_prefix_widen(
                                                wild@,
                                                tv,
                                                tv + 1,
                                                k,
                                                port,
                                                proto,
                                            );
                                        }
                                    }
                                }
                                if wild_in_prefix(wild@, tv + 1, k, port, proto) && !pair_in(
                                    flat,
                                    k,
                                    r_m,
                                ) {
                                    let i = choose|i: int|
                                        0 <= i < tv + 1 && wild@[i].0@ == k && wild@[i].1 == port
                                            && wild@[i].2 == proto;
                                    if i < tv {
                                        assert(wild_in_prefix(wild@, tv, k, port, proto));
                                        assert(in_keys(kv0[m as int]@, k));
                                    } else {
                                        assert(k == wild@[tv].0@);
                                    }
                                }
                            }
                            assert(claim_list_matches(
                                kvecs@[m as int]@,
                                flat,
                                r_m,
                                wild@,
                                tv + 1,
                                port,
                                proto,
                            ));
                        }
                    } else {
                        proof {
                            assert forall|k: Seq<char>| #![trigger in_keys(kvecs@[m as int]@, k)]
                                in_keys(kvecs@[m as int]@, k) <==> (pair_in(flat, k, r_m)
                                    || wild_in_prefix(wild@, tv + 1, k, port, proto)) by {
                                assert(in_keys(kvecs@[m as int]@, k) <==> (pair_in(flat, k, r_m)
                                    || wild_in_prefix(wild@, tv, k, port, proto)));
                                if wild_in_prefix(wild@, tv + 1, k, port, proto) && !pair_in(
                                    flat,
                                    k,
                                    r_m,
                                ) {
                                    let i = choose|i: int|
                                        0 <= i < tv + 1 && wild@[i].0@ == k && wild@[i].1 == port
                                            && wild@[i].2 == proto;
                                    assert(i < tv);
                                    assert(wild_in_prefix(wild@, tv, k, port, proto));
                                }
                                if in_keys(kvecs@[m as int]@, k) && !pair_in(flat, k, r_m) {
                                    lemma_wild_prefix_widen(wild@, tv, tv + 1, k, port, proto);
                                }
                            }
                            assert(claim_list_matches(
                                kvecs@[m as int]@,
                                flat,
                                r_m,
                                wild@,
                                tv + 1,
                                port,
                                proto,
                            ));
                        }
                    }
                    t += 1;
                }
                proof {
                    assert(t == w);
                    assert(claim_list_matches(
                        kvecs@[m as int]@,
                        flat,
                        r_m,
                        wild@,
                        w as int,
                        port,
                        proto,
                    ));
                    assert forall|k: Seq<char>| #![trigger in_keys(kvecs@[m as int]@, k)]
                        in_keys(kvecs@[m as int]@, k) <==> flat_claims(flat, k, r_m) by {
                        assert(in_keys(kvecs@[m as int]@, k) <==> (pair_in(flat, k, r_m)
                            || wild_in_prefix(wild@, w as int, k, port, proto)));
                        if wild_in_prefix(wild@, w as int, k, port, proto) {
                            let i = choose|i: int|
                                0 <= i < w && wild@[i].0@ == k && wild@[i].1 == port && wild@[i].2
                                    == proto;
                            assert(wild_in(wild@, k, port, proto));
                        }
                        if wild_in(wild@, k, port, proto) {
                            let i = choose|i: int|
                                0 <= i < wild@.len() && wild@[i].0@ == k && wild@[i].1 == port
                                    && wild@[i].2 == proto;
                            assert(wild_in_prefix(wild@, w as int, k, port, proto));
                        }
                        assert(wild_in(wild@, k, port, proto) <==> unspec_pair(
                            flat,
                            k,
                            port,
                            proto,
                        ));
                    }
                }
            },
            _ => {
                proof {
                    assert forall|k: Seq<char>|
                        in_keys(kvecs@[m as int]@, k) <==> flat_claims(flat, k, r_m) by {
                        assert(kvecs@[m as int] == old(kvecs)@[m as int]);
                        assert(in_keys(old(kvecs)@[m as int]@, k) <==> pair_in(flat, k, r_m));
                    }
                }
            },
        }
        m += 1;
    }
}

/// Keep the entries with at least two claimants, pairing each resource
/// with its claimant list.
#[verifier::rlimit(60)]
#[verifier::loop_isolation(false)]
fn retain_conflicts(
    rvec: &Vec<Resource>,
    kvecs: &Vec<Vec<ComponentKey>>,
    Ghost(comps): Ghost<Seq<(ComponentKey, Vec<Resource>)>>,
    Ghost(flat): Ghost<Seq<(ComponentKey, Resource)>>,
) -> (result: Vec<(Resource, Vec<ComponentKey>)>)
    requires
        forall|k: Seq<char>, r: ResourceView| pair_in(flat, k, r) <==> directly_claims(comps, k, r),
        rvec@.len() == kvecs@.len(),
        forall|m1: int, m2: int| 0 <= m1 < m2 < rvec@.len() ==> rvec@[m1]@ != rvec@[m2]@,
        forall|m: int|
            0 <= m < kvecs@.len() ==> distinct_key_views(kvecs@[m]@) && kvecs@[m]@.len() >= 1,
        forall|m: int, k: Seq<char>|
            #![trigger in_keys(kvecs@[m]@, k)]
            0 <= m < rvec@.len() ==> (in_keys(kvecs@[m]@, k) <==> flat_claims(flat, k, rvec@[m]@)),
        forall|m: int|
            #![trigger rvec@[m]]
            0 <= m < rvec@.len() ==> listed(flat, rvec@[m]@),
        forall|k: Seq<char>, r: ResourceView|
            pair_in(flat, k, r) ==> exists|m: int| 0 <= m < rvec@.len() && rvec@[m]@ == r,
    ensures
        forall|m1: int, m2: int|
            0 <= m1 < m2 < result@.len() ==> result@[m1].0@ != result@[m2].0@,
        forall|m: int|
            0 <= m < result@.len() ==> distinct_key_views(result@[m].1@) && result@[m].1@.len()
                >= 2,
        forall|m: int, k: Seq<char>|
            #![trigger in_keys(result@[m].1@, k)]
            0 <= m < result@.len() ==> (in_keys(result@[m].1@, k) <==> claims(
                comps,
                k,
                result@[m].0@,
            )),
        forall|m: int|
            #![trigger result@[m]]
            0 <= m < result@.len() ==> has_direct_claimant(comps, result@[m].0@),
        forall|r: ResourceView, k1: Seq<char>, k2: Seq<char>|
            #![trigger claims(comps, k1, r), claims(comps, k2, r)]
            has_direct_claimant(comps, r) && k1 != k2 && claims(comps, k1, r) && claims(
                comps,
                k2,
                r,
            ) ==> exists|m: int| 0 <= m < result@.len() && result@[m].0@ == r,
{
    proof {
        assert forall|k: Seq<char>, r: ResourceView|
            flat_claims(flat, k, r) <==> claims(comps, k, r) by {
            assert(pair_in(flat, k, r) <==> directly_claims(comps, k, r));
            match r {
                ResourceView::Port(a, p) => {
                assert(pair_in(
                    flat,
                    k,
                    ResourceView::Port(
                        SocketAddress { ip: IpAddress::V4(0, 0, 0, 0), port: a.port },
                        p,
                    ),
                ) <==> directly_claims(
                    comps,
                    k,
                    ResourceView::Port(
                        SocketAddress { ip: IpAddress::V4(0, 0, 0, 0), port: a.port },
                        p,
                    ),
                ));
                assert(pair_in(
                    flat,
                    k,
                    ResourceView::Port(SocketAddress { ip: IpAddress::V6(0), port: a.port }, p),
                ) <==> directly_claims(
                    comps,
                    k,
                    ResourceView::Port(SocketAddress { ip: IpAddress::V6(0), port: a.port }, p),
                ));
                },
                _ => {},
            }
        }
        assert forall|m2: int, k: Seq<char>| #![trigger in_keys(kvecs@[m2]@, k)]
            0 <= m2 < rvec@.len() implies (in_keys(kvecs@[m2]@, k) <==> claims(
            comps,
            k,
            rvec@[m2]@,
        )) by {
            assert(in_keys(kvecs@[m2]@, k) <==> flat_claims(flat, k, rvec@[m2]@));
            assert(flat_claims(flat, k, rvec@[m2]@) <==> claims(comps, k, rvec@[m2]@));
        }
    }
    let mut result: Vec<(Resource, Vec<ComponentKey>)> = Vec::new();
    let n = rvec.len();
    let mut m: usize = 0;
    while m < n
        invariant
            0 <= m <= n,
            n == rvec@.len(),
            kvecs@.len() == n,
            forall|m1: int, m2: int| 0 <= m1 < m2 < n ==> rvec@[m1]@ != rvec@[m2]@,
            forall|m2: int|
                0 <= m2 < n ==> distinct_key_views(kvecs@[m2]@) && kvecs@[m2]@.len() >= 1,
            forall|m2: int, k: Seq<char>|
                #![trigger in_keys(kvecs@[m2]@, k)]
                0 <= m2 < n ==> (in_keys(kvecs@[m2]@, k) <==> claims(comps, k, rvec@[m2]@)),
            forall|m2: int|
                #![trigger rvec@[m2]]
                0 <= m2 < n ==> listed(flat, rvec@[m2]@),
            forall|j1: int, j2: int|
                0 <= j1 < j2 < result@.len() ==> result@[j1].0@ != result@[j2].0@,
            forall|j: int|
                0 <= j < result@.len() ==> distinct_key_views(result@[j].1@) && result@[j].1@.len()
                    >= 2,
            forall|j: int, k: Seq<char>|
                #![trigger in_keys(result@[j].1@, k)]
                0 <= j < result@.len() ==> (in_keys(result@[j].1@, k) <==> claims(
                    comps,
                    k,
                    result@[j].0@,
                )),
            forall|j: int|
                #![trigger result@[j]]
                0 <= j < result@.len() ==> exists|m2: int|
                    0 <= m2 < m && rvec@[m2]@ == result@[j].0@,
            forall|m2: int|
                #![trigger kvecs@[m2]]
                0 <= m2 < m ==> (kvecs@[m2]@.len() < 2 || exists|j: int|
                    0 <= j < result@.len() && result@[j].0@ == rvec@[m2]@),
        decreases n - m,
    {
        let ghost res0 = result@;
        if kvecs[m].len() >= 2 {
            result.push((rvec[m].clone(), clone_keys(&kvecs[m])));
            proof {
                let jn = result@.len() - 1;
                assert forall|j: int, k: Seq<char>| #![trigger in_keys(result@[j].1@, k)]
                    0 <= j < result@.len() implies (in_keys(result@[j].1@, k) <==> claims(
                    comps,
                    k,
                    result@[j].0@,
                )) by {
                    if j < jn {
                        assert(result@[j] == res0[j]);
                        assert(in_keys(res0[j].1@, k) <==> claims(comps, k, res0[j].0@));
                    } else {
                        assert forall|k2: Seq<char>|
                            in_keys(result@[jn].1@, k2) <==> in_keys(
                                kvecs@[m as int]@,
                                k2,
                            ) by {
                            if in_keys(result@[jn].1@, k2) {
                                let i = choose|i: int|
                                    0 <= i < result@[jn].1@.len() && result@[jn].1@[i]@ == k2;
                                assert(kvecs@[m as int]@[i]@ == k2);
                            }
                            if in_keys(kvecs@[m as int]@, k2) {
                                let i = choose|i: int|
                                    0 <= i < kvecs@[m as int]@.len() && kvecs@[m as int]@[i]@ == k2;
                                assert(result@[jn].1@[i]@ == k2);
                            }
                        }
                        assert(in_keys(kvecs@[m as int]@, k) <==> claims(
                            comps,
                            k,
                            rvec@[m as int]@,
                        ));
                        assert(result@[jn].0@ == rvec@[m as int]@);
                    }
                }
                assert forall|j: int| 0 <= j < jn implies result@[j].0@ != result@[jn].0@ by {
                    assert(result@[j] == res0[j]);
                    let m0 = choose|m0: int| 0 <= m0 < m && rvec@[m0]@ == res0[j].0@;
                    assert(rvec@[m0]@ != rvec@[m as int]@);
                    assert(result@[jn].0@ == rvec@[m as int]@);
                }
                assert forall|j: int|
                    0 <= j < result@.len() implies distinct_key_views(result@[j].1@)
                        && result@[j].1@.len() >= 2 by {
                    if j == jn {
                        assert forall|i1: int, i2: int|
                            0 <= i1 < i2 < result@[jn].1@.len() implies result@[jn].1@[i1]@
                            != result@[jn].1@[i2]@ by {
                            assert(result@[jn].1@[i1]@ == kvecs@[m as int]@[i1]@);
                            assert(result@[jn].1@[i2]@ == kvecs@[m as int]@[i2]@);
                        }
                    } else {
                        assert(result@[j] == res0[j]);
                    }
                }
            }
        }
        proof {
            assert forall|j: int| #![trigger result@[j]]
                0 <= j < result@.len() implies exists|m2: int|
                0 <= m2 < m + 1 && rvec@[m2]@ == result@[j].0@ by {
                if j < res0.len() {
                    assert(result@[j] == res0[j]);
                    let m0 = choose|m0: int| 0 <= m0 < m && rvec@[m0]@ == res0[j].0@;
                    assert(0 <= m0 < m + 1 && rvec@[m0]@ == result@[j].0@);
                } else {
                    assert(result@[j].0@ == rvec@[m as int]@);
                }
            }
            assert forall|m2: int| #![trigger kvecs@[m2]]
                0 <= m2 < m + 1 implies (kvecs@[m2]@.len() < 2 || exists|j: int|
                    0 <= j < result@.len() && result@[j].0@ == rvec@[m2]@) by {
                if m2 < m as int {
                    if kvecs@[m2]@.len() >= 2 {
                        let j0 = choose|j0: int|
                            0 <= j0 < res0.len() && res0[j0].0@ == rvec@[m2]@;
                        assert(result@[j0] == res0[j0]);
                        assert(result@[j0].0@ == rvec@[m2]@);
                    }
                } else {
                    if kvecs@[m2]@.len() >= 2 {
                        assert(result@[result@.len() - 1].0@ == rvec@[m as int]@);
                    }
                }
            }
        }
        m += 1;
    }
    proof {
        assert forall|r: ResourceView, k1: Seq<char>, k2: Seq<char>|
            #![trigger claims(comps, k1, r), claims(comps, k2, r)]
            has_direct_claimant(comps, r) && k1 != k2 && claims(comps, k1, r) && claims(
            comps,
            k2,
            r,
        ) implies exists|j: int| 0 <= j < result@.len() && result@[j].0@ == r by {
            let k0 = choose|k0: Seq<char>| directly_claims(comps, k0, r);
            assert(pair_in(flat, k0, r));
            let m2 = choose|m2: int| 0 <= m2 < rvec@.len() && rvec@[m2]@ == r;
            assert(in_keys(kvecs@[m2]@, k1));
            assert(in_keys(kvecs@[m2]@, k2));
            let i1 = choose|i1: int| 0 <= i1 < kvecs@[m2]@.len() && kvecs@[m2]@[i1]@ == k1;
            let i2 = choose|i2: int| 0 <= i2 < kvecs@[m2]@.len() && kvecs@[m2]@[i2]@ == k2;
            assert(i1 != i2);
            assert(kvecs@[m2]@.len() >= 2);
            assert(kvecs@[m2]@.len() < 2 || exists|j: int|
                0 <= j < result@.len() && result@[j].0@ == rvec@[m2]@);
        }
        assert forall|j: int| #![trigger result@[j]]
            0 <= j < result@.len() implies has_direct_claimant(comps, result@[j].0@) by {
            let m2 = choose|m2: int| 0 <= m2 < rvec@.len() && rvec@[m2]@ == result@[j].0@;
            assert(listed(flat, rvec@[m2]@));
            let i = choose|i: int| 0 <= i < flat.len() && flat[i].1@ == rvec@[m2]@;
            assert(pair_in(flat, flat[i].0@, rvec@[m2]@));
            assert(directly_claims(comps, flat[i].0@, result@[j].0@));
        }
    }
    result
}

} // verus!
