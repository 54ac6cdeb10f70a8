//! The routing table as a mathematical value: a sequence of routes in the
//! order in which their destinations were first entered, with no
//! destination twice. Every operation of the routing information base is
//! defined here as a function on such sequences.

use vstd::prelude::*;
use crate::exclusion::excluded;
use crate::route::{NextHopView, RouteView, Via};

verus! {

/// Whether `t` holds a route to `cidr`.
pub open spec fn knows(t: Seq<RouteView>, cidr: Seq<char>) -> bool {
    exists|i: int| 0 <= i < t.len() && (#[trigger] t[i]).cidr == cidr
}

/// A place of `cidr` in `t`; the only one in a table with distinct
/// destinations.
pub open spec fn index_of(t: Seq<RouteView>, cidr: Seq<char>) -> int {
    choose|i: int| 0 <= i < t.len() && (#[trigger] t[i]).cidr == cidr
}

/// The route to `cidr` in `t`, if there is one.
pub open spec fn lookup(t: Seq<RouteView>, cidr: Seq<char>) -> Option<RouteView> {
    if knows(t, cidr) {
        Some(t[index_of(t, cidr)])
    } else {
        None
    }
}

/// No destination occurs twice in `t`.
pub open spec fn distinct(t: Seq<RouteView>) -> bool {
    forall|i: int, j: int|
        0 <= i < j < t.len() ==> (#[trigger] t[i]).cidr != (#[trigger] t[j]).cidr
}

/// A route has hop count 0 exactly when it is local.
pub open spec fn coherent(r: RouteView) -> bool {
    (r.hops == 0) == (r.via is Local)
}

/// The invariant of a routing table under the exclusion set `excl`: distinct
/// destinations, none of them excluded, and hop count 0 for the local
/// routes only.
pub open spec fn table_wf(t: Seq<RouteView>, excl: Seq<Seq<char>>) -> bool {
    &&& distinct(t)
    &&& forall|i: int|
        0 <= i < t.len() ==> coherent(#[trigger] t[i]) && !excluded(excl, t[i].cidr)
}

/// `t` with `r` in the place of the route to the same destination, or at
/// the end where there was none.
pub open spec fn placed(t: Seq<RouteView>, r: RouteView) -> Seq<RouteView> {
    if knows(t, r.cidr) {
        t.update(index_of(t, r.cidr), r)
    } else {
        t.push(r)
    }
}

/// The route of a directly connected network.
pub open spec fn local_route(cidr: Seq<char>, now: u64) -> RouteView {
    RouteView { cidr, hops: 0, via: Via::Local, last_seen: now }
}

/// `t` after the local network `cidr` was entered at time `now`; excluded
/// networks are not entered.
pub open spec fn seeded_one(
    t: Seq<RouteView>,
    excl: Seq<Seq<char>>,
    cidr: Seq<char>,
    now: u64,
) -> Seq<RouteView> {
    if excluded(excl, cidr) {
        t
    } else {
        placed(t, local_route(cidr, now))
    }
}

/// `t` after the local networks `locals` were entered, first to last.
pub open spec fn seeded(
    t: Seq<RouteView>,
    excl: Seq<Seq<char>>,
    locals: Seq<Seq<char>>,
    now: u64,
) -> Seq<RouteView>
    decreases locals.len(),
{
    if locals.len() == 0 {
        t
    } else {
        seeded_one(seeded(t, excl, locals.drop_last(), now), excl, locals.last(), now)
    }
}

/// The route that a neighbour at `ip` offers by advertising `cidr` at
/// `hops` hops: one hop more, through that neighbour.
pub open spec fn candidate(cidr: Seq<char>, ip: u32, hops: u32, now: u64) -> RouteView {
    RouteView { cidr, hops: (hops + 1) as u32, via: Via::Remote(ip), last_seen: now }
}

/// Whether a path of `hops` hops through `ip` beats the route `cur`: fewer
/// hops, or as many through a neighbour with a lower address.
pub open spec fn beats(hops: int, ip: u32, cur: RouteView) -> bool {
    ||| hops < cur.hops
    ||| (hops == cur.hops && (cur.via matches Via::Remote(v) && ip < v))
}

/// Whether the advertisement of `cidr` at `hops` hops by the neighbour `ip`
/// is installed in `t`. It is not where `cidr` is excluded, where the hop
/// count has no successor, or where `t` holds a route that the new path
/// does not beat.
pub open spec fn installs(
    t: Seq<RouteView>,
    excl: Seq<Seq<char>>,
    cidr: Seq<char>,
    ip: u32,
    hops: u32,
) -> bool {
    &&& hops < u32::MAX
    &&& !excluded(excl, cidr)
    &&& (lookup(t, cidr) matches Some(cur) ==> beats(hops + 1, ip, cur))
}

/// `t` after the advertisement of `cidr` at `hops` hops by the neighbour
/// `ip` was considered at time `now`.
pub open spec fn considered(
    t: Seq<RouteView>,
    excl: Seq<Seq<char>>,
    cidr: Seq<char>,
    ip: u32,
    hops: u32,
    now: u64,
) -> Seq<RouteView> {
    if installs(t, excl, cidr, ip, hops) {
        placed(t, candidate(cidr, ip, hops, now))
    } else {
        t
    }
}

/// `t` after every network of `networks`, advertised by the neighbour
/// `ip`, was considered, first to last.
pub open spec fn learned(
    t: Seq<RouteView>,
    excl: Seq<Seq<char>>,
    ip: u32,
    networks: Seq<(Seq<char>, u32)>,
    now: u64,
) -> Seq<RouteView>
    decreases networks.len(),
{
    if networks.len() == 0 {
        t
    } else {
        considered(
            learned(t, excl, ip, networks.drop_last(), now),
            excl,
            networks.last().0,
            ip,
            networks.last().1,
            now,
        )
    }
}

/// Whether `r` outlives ageing at time `now`: local routes always, the
/// others while they were seen less than `expire` ago.
pub open spec fn survives(r: RouteView, now: u64, expire: u64) -> bool {
    r.via is Local || now - r.last_seen < expire
}

/// The test [`survives`] as a predicate on routes.
pub open spec fn survivor(now: u64, expire: u64) -> spec_fn(RouteView) -> bool {
    |r: RouteView| survives(r, now, expire)
}

/// The opposite test.
pub open spec fn stale(now: u64, expire: u64) -> spec_fn(RouteView) -> bool {
    |r: RouteView| !survives(r, now, expire)
}

/// `t` without the routes that do not outlive ageing at time `now`.
pub open spec fn aged(t: Seq<RouteView>, now: u64, expire: u64) -> Seq<RouteView> {
    t.filter(survivor(now, expire))
}

/// The destinations that ageing at time `now` removes from `t`, in table
/// order.
pub open spec fn expired(t: Seq<RouteView>, now: u64, expire: u64) -> Seq<Seq<char>> {
    t.filter(stale(now, expire)).map_values(|r: RouteView| r.cidr)
}

/// Whether `r` is advertised on the interface with local address `out`:
/// not where it was learned from a neighbour with that very address.
pub open spec fn announced(out: u32) -> spec_fn(RouteView) -> bool {
    |r: RouteView| r.via != Via::Remote(out)
}

/// The networks advertised on the interface with local address `out`, in
/// table order, each with its hop count.
pub open spec fn advertised(t: Seq<RouteView>, out: u32) -> Seq<(Seq<char>, u32)> {
    t.filter(announced(out)).map_values(|r: RouteView| (r.cidr, r.hops))
}

/// The kernel route that carries out the learned route `r`.
pub open spec fn next_hop(r: RouteView) -> NextHopView {
    NextHopView { cidr: r.cidr, via: r.via->Remote_0 }
}

/// Whether `r` is a learned route that `installed` does not hold as it is.
pub open spec fn unapplied(installed: Seq<NextHopView>) -> spec_fn(RouteView) -> bool {
    |r: RouteView| r.via is Remote && !installed.contains(next_hop(r))
}

/// The learned routes of `t` that differ from what was last installed.
pub open spec fn changed(t: Seq<RouteView>, installed: Seq<NextHopView>) -> Seq<NextHopView> {
    t.filter(unapplied(installed)).map_values(|r: RouteView| next_hop(r))
}

/// Whether the destination of `h` has left the table `t`.
pub open spec fn orphan(t: Seq<RouteView>) -> spec_fn(NextHopView) -> bool {
    |h: NextHopView| !knows(t, h.cidr)
}

/// The destinations that were installed and have left the table since.
pub open spec fn vanished(t: Seq<RouteView>, installed: Seq<NextHopView>) -> Seq<Seq<char>> {
    installed.filter(orphan(t)).map_values(|h: NextHopView| h.cidr)
}

/// In a table with distinct destinations, the route at place `i` is the one
/// that its destination is looked up to.
pub proof fn lemma_lookup_at(t: Seq<RouteView>, i: int)
    requires
        distinct(t),
        0 <= i < t.len(),
    ensures
        knows(t, t[i].cidr),
        index_of(t, t[i].cidr) == i,
        lookup(t, t[i].cidr) == Some(t[i]),
{
    assert(knows(t, t[i].cidr));
    let j = index_of(t, t[i].cidr);
    if j < i {
        assert(t[j].cidr != t[i].cidr);
    } else if i < j {
        assert(t[i].cidr != t[j].cidr);
    }
}

/// Placing a route keeps the table's invariant, makes the route the one
/// found for its destination, and changes no other lookup.
pub proof fn lemma_placed(t: Seq<RouteView>, excl: Seq<Seq<char>>, r: RouteView)
    requires
        table_wf(t, excl),
        coherent(r),
        !excluded(excl, r.cidr),
    ensures
        table_wf(placed(t, r), excl),
        lookup(placed(t, r), r.cidr) == Some(r),
        forall|c: Seq<char>| c != r.cidr ==> lookup(placed(t, r), c) == lookup(t, c),
{
    let p = placed(t, r);
    let k = if knows(t, r.cidr) {
        index_of(t, r.cidr)
    } else {
        t.len() as int
    };
    assert(p.len() > k >= 0 && p[k] == r);
    assert forall|i: int| 0 <= i < p.len() && i != k implies i < t.len() && p[i] == t[i]
        && p[i].cidr != r.cidr by {
        if knows(t, r.cidr) {
            lemma_lookup_at(t, i);
        }
    }
    assert(distinct(p)) by {
        assert forall|i: int, j: int| 0 <= i < j < p.len() implies p[i].cidr != p[j].cidr by {
            if i != k && j != k {
                assert(t[i].cidr != t[j].cidr);
            }
        }
    }
    lemma_lookup_at(p, k);
    assert forall|c: Seq<char>| c != r.cidr implies lookup(p, c) == lookup(t, c) by {
        if knows(t, c) {
            let j = index_of(t, c);
            assert(j != k);
            assert(p[j] == t[j]);
            lemma_lookup_at(p, j);
        } else if knows(p, c) {
            let j = index_of(p, c);
            assert(t[j].cidr == c);
        }
    }
}

/// A route added to a table that has none to its destination is found
/// there, and no other lookup changes.
pub proof fn lemma_lookup_push(t: Seq<RouteView>, r: RouteView)
    requires
        distinct(t),
        !knows(t, r.cidr),
    ensures
        distinct(t.push(r)),
        lookup(t.push(r), r.cidr) == Some(r),
        forall|c: Seq<char>| c != r.cidr ==> lookup(t.push(r), c) == lookup(t, c),
{
    let p = t.push(r);
    assert(distinct(p)) by {
        assert forall|i: int, j: int| 0 <= i < j < p.len() implies p[i].cidr != p[j].cidr by {
            if j < t.len() {
                assert(t[i].cidr != t[j].cidr);
            } else {
                assert(t[i].cidr != r.cidr);
            }
        }
    }
    lemma_lookup_at(p, t.len() as int);
    assert forall|c: Seq<char>| c != r.cidr implies lookup(p, c) == lookup(t, c) by {
        if knows(t, c) {
            let j = index_of(t, c);
            assert(p[j] == t[j]);
            lemma_lookup_at(p, j);
        } else if knows(p, c) {
            let j = index_of(p, c);
            assert(t[j].cidr == c);
        }
    }
}

/// What is left of a table with distinct destinations when the routes
/// that fail a test are taken out: the destinations stay distinct, and a
/// destination is found with its old route exactly where that route passes.
pub proof fn lemma_filter_table(t: Seq<RouteView>, pred: spec_fn(RouteView) -> bool)
    requires
        distinct(t),
    ensures
        distinct(t.filter(pred)),
        forall|c: Seq<char>| #[trigger]
            lookup(t.filter(pred), c) == match lookup(t, c) {
                Some(r) => if pred(r) {
                    Some(r)
                } else {
                    None
                },
                None => None,
            },
    decreases t.len(),
{
    reveal(Seq::filter);
    let f = t.filter(pred);
    if t.len() > 0 {
        let t0 = t.drop_last();
        let last = t.last();
        let f0 = t0.filter(pred);
        assert(distinct(t0)) by {
            assert forall|i: int, j: int| 0 <= i < j < t0.len() implies t0[i].cidr != t0[j].cidr by {
                assert(t[i].cidr != t[j].cidr);
            }
        }
        assert(!knows(t0, last.cidr)) by {
            if knows(t0, last.cidr) {
                let j = index_of(t0, last.cidr);
                assert(t[j].cidr != t[t.len() - 1].cidr);
            }
        }
        lemma_filter_table(t0, pred);
        assert(t =~= t0.push(last));
        lemma_lookup_push(t0, last);
        assert(lookup(f0, last.cidr) is None);
        if pred(last) {
            lemma_lookup_push(f0, last);
        }
    }
}

/// One more element under a filter: it is added where it passes the test.
pub proof fn lemma_filter_step<A>(s: Seq<A>, i: int, pred: spec_fn(A) -> bool)
    requires
        0 <= i < s.len(),
    ensures
        s.take(i + 1).filter(pred) == if pred(s[i]) {
            s.take(i).filter(pred).push(s[i])
        } else {
            s.take(i).filter(pred)
        },
{
    assert(s.take(i + 1) =~= s.take(i).push(s[i]));
    s.take(i).lemma_filter_push(s[i], pred);
}

/// Considering an advertisement keeps the table's invariant, leaves every
/// other destination as it was, and leaves the advertised one with the
/// offered route where that is installed and as it was where not.
pub proof fn lemma_considered(
    t: Seq<RouteView>,
    excl: Seq<Seq<char>>,
    cidr: Seq<char>,
    ip: u32,
    hops: u32,
    now: u64,
)
    requires
        table_wf(t, excl),
    ensures
        table_wf(considered(t, excl, cidr, ip, hops, now), excl),
        forall|c: Seq<char>|
            c != cidr ==> lookup(considered(t, excl, cidr, ip, hops, now), c) == lookup(t, c),
        lookup(considered(t, excl, cidr, ip, hops, now), cidr) == if installs(
            t,
            excl,
            cidr,
            ip,
            hops,
        ) {
            Some(candidate(cidr, ip, hops, now))
        } else {
            lookup(t, cidr)
        },
{
    if installs(t, excl, cidr, ip, hops) {
        lemma_placed(t, excl, candidate(cidr, ip, hops, now));
    }
}

/// Considering the networks of one advertisement keeps the table's
/// invariant.
pub proof fn lemma_learned_wf(
    t: Seq<RouteView>,
    excl: Seq<Seq<char>>,
    ip: u32,
    networks: Seq<(Seq<char>, u32)>,
    now: u64,
)
    requires
        table_wf(t, excl),
    ensures
        table_wf(learned(t, excl, ip, networks, now), excl),
    decreases networks.len(),
{
    if networks.len() > 0 {
        lemma_learned_wf(t, excl, ip, networks.drop_last(), now);
        lemma_considered(
            learned(t, excl, ip, networks.drop_last(), now),
            excl,
            networks.last().0,
            ip,
            networks.last().1,
            now,
        );
    }
}

/// Entering local networks keeps the table's invariant.
pub proof fn lemma_seeded_wf(
    t: Seq<RouteView>,
    excl: Seq<Seq<char>>,
    locals: Seq<Seq<char>>,
    now: u64,
)
    requires
        table_wf(t, excl),
    ensures
        table_wf(seeded(t, excl, locals, now), excl),
    decreases locals.len(),
{
    if locals.len() > 0 {
        lemma_seeded_wf(t, excl, locals.drop_last(), now);
        if !excluded(excl, locals.last()) {
            lemma_placed(
                seeded(t, excl, locals.drop_last(), now),
                excl,
                local_route(locals.last(), now),
            );
        }
    }
}

/// Ageing keeps the table's invariant.
pub proof fn lemma_aged_wf(t: Seq<RouteView>, excl: Seq<Seq<char>>, now: u64, expire: u64)
    requires
        table_wf(t, excl),
    ensures
        table_wf(aged(t, now, expire), excl),
{
    lemma_filter_table(t, survivor(now, expire));
    let f = aged(t, now, expire);
    assert forall|k: int| 0 <= k < f.len() implies coherent(#[trigger] f[k]) && !excluded(
        excl,
        f[k].cidr,
    ) by {
        lemma_lookup_at(f, k);
        let j = index_of(t, f[k].cidr);
        assert(t[j] == f[k]);
    }
}

/// Every element under a filter is an element of the sequence that
/// passes the test.
pub proof fn lemma_filter_member<A>(s: Seq<A>, pred: spec_fn(A) -> bool, k: int) -> (i: int)
    requires
        0 <= k < s.filter(pred).len(),
    ensures
        0 <= i < s.len(),
        s[i] == s.filter(pred)[k],
        pred(s[i]),
{
    let f = s.filter(pred);
    s.lemma_filter_pred(pred, k);
    assert(f.contains(f[k]));
    s.lemma_filter_contains_rev(pred, f[k]);
    choose|i: int| 0 <= i < s.len() && s[i] == f[k]
}

} // verus!
