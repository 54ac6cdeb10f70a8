//! What holds of the engine whatever it hears: laws that relate its
//! operations to each other, each proved from the definitions that the
//! contracts of the operations use.

use vstd::prelude::*;
use crate::exclusion::excluded;
use crate::iface::InterfaceView;
use crate::kernel::{
    delete_op, delete_ops, denotes_host, installable, replace_ops, target, RouteOpView,
};
use crate::model::{
    admitted, closed, emitted, engine_wf, networks_of, operations, published, run, started, step,
    wanted, EngineView, Event,
};
use crate::neighbor::{distinct_sources, lemma_noted, name_of};
use crate::message::HelloView;
use crate::route::{RouteView, Via};
use crate::table::{
    advertised, aged, announced, beats, candidate, coherent, considered, expired, index_of, knows,
    learned, lemma_aged_wf, lemma_considered, lemma_filter_member, lemma_filter_table,
    lemma_learned_wf, lemma_lookup_at, lemma_placed, lemma_seeded_wf, local_route, lookup,
    next_hop, seeded, stale, survives, survivor, table_wf,
};

verus! {

/// The engine starts in a state that meets its invariant.
pub proof fn law_started_meets_invariant(
    router_id: Seq<char>,
    interfaces: Seq<InterfaceView>,
    excl: Seq<Seq<char>>,
    expire: u64,
    now: u64,
)
    ensures
        engine_wf(started(router_id, interfaces, excl, expire, now)),
{
    let s = started(router_id, interfaces, excl, expire, now);
    lemma_seeded_wf(Seq::empty(), excl, networks_of(interfaces), now);
    assert forall|k: int| 0 <= k < s.interfaces.len() implies !excluded(
        excl,
        (#[trigger] s.interfaces[k]).network,
    ) by {
        interfaces.lemma_filter_pred(admitted(excl), k);
    }
}

/// Every event keeps the invariant of the engine.
pub proof fn law_step_keeps_invariant(s: EngineView, e: Event)
    requires
        engine_wf(s),
    ensures
        engine_wf(step(s, e)),
{
    match e {
        Event::Heard { source, message, now } => {
            lemma_learned_wf(s.rib.routes, s.rib.exclusions, source, message.networks, now);
            lemma_noted(s.heard, source, message.router_id);
        },
        Event::Closed { now } => {
            lemma_aged_wf(s.rib.routes, s.rib.exclusions, now, s.expire);
        },
    }
}

/// The invariant of the engine holds after every sequence of events. In
/// particular no excluded network ever stands in the table.
pub proof fn law_run_keeps_invariant(s: EngineView, events: Seq<Event>)
    requires
        engine_wf(s),
    ensures
        engine_wf(run(s, events)),
        run(s, events).router_id == s.router_id,
        run(s, events).interfaces == s.interfaces,
        run(s, events).rib.exclusions == s.rib.exclusions,
        run(s, events).expire == s.expire,
    decreases events.len(),
{
    if events.len() > 0 {
        law_run_keeps_invariant(s, events.drop_last());
        law_step_keeps_invariant(run(s, events.drop_last()), events.last());
    }
}

/// A local network that is not excluded is entered as a local route, with
/// hop count 0 and no next hop.
pub proof fn law_seeded_networks_are_local(
    t: Seq<RouteView>,
    excl: Seq<Seq<char>>,
    locals: Seq<Seq<char>>,
    now: u64,
    k: int,
)
    requires
        table_wf(t, excl),
        0 <= k < locals.len(),
        !excluded(excl, locals[k]),
    ensures
        lookup(seeded(t, excl, locals, now), locals[k]) == Some(local_route(locals[k], now)),
    decreases locals.len(),
{
    let before = seeded(t, excl, locals.drop_last(), now);
    lemma_seeded_wf(t, excl, locals.drop_last(), now);
    if !excluded(excl, locals.last()) {
        lemma_placed(before, excl, local_route(locals.last(), now));
    }
    if k < locals.len() - 1 {
        law_seeded_networks_are_local(t, excl, locals.drop_last(), now, k);
    }
}

/// Entering the same local networks a second time at the same time
/// changes nothing.
pub proof fn law_seed_is_idempotent(
    t: Seq<RouteView>,
    excl: Seq<Seq<char>>,
    locals: Seq<Seq<char>>,
    now: u64,
)
    requires
        table_wf(t, excl),
    ensures
        seeded(seeded(t, excl, locals, now), excl, locals, now) == seeded(t, excl, locals, now),
{
    let once = seeded(t, excl, locals, now);
    lemma_seeded_wf(t, excl, locals, now);
    assert forall|k: int| 0 <= k < locals.len() && !excluded(excl, locals[k]) implies lookup(
        once,
        #[trigger] locals[k],
    ) == Some(local_route(locals[k], now)) by {
        law_seeded_networks_are_local(t, excl, locals, now, k);
    }
    lemma_reseed(once, excl, locals, locals.len() as int, now);
    assert(locals.take(locals.len() as int) =~= locals);
}

proof fn lemma_reseed(
    t: Seq<RouteView>,
    excl: Seq<Seq<char>>,
    locals: Seq<Seq<char>>,
    n: int,
    now: u64,
)
    requires
        table_wf(t, excl),
        0 <= n <= locals.len(),
        forall|k: int|
            0 <= k < n && !excluded(excl, locals[k]) ==> lookup(t, #[trigger] locals[k]) == Some(
                local_route(locals[k], now),
            ),
    ensures
        seeded(t, excl, locals.take(n), now) == t,
    decreases n,
{
    if n > 0 {
        lemma_reseed(t, excl, locals, n - 1, now);
        assert(locals.take(n).drop_last() =~= locals.take(n - 1));
        let c = locals[n - 1];
        assert(locals.take(n).last() == c);
        if !excluded(excl, c) {
            assert(knows(t, c));
            assert(t.update(index_of(t, c), local_route(c, now)) =~= t);
        }
    } else {
        assert(locals.take(0).len() == 0);
    }
}

/// When the engine starts, the network of every interface that is not
/// excluded stands in the table as a local route.
pub proof fn law_started_holds_local_networks(
    router_id: Seq<char>,
    interfaces: Seq<InterfaceView>,
    excl: Seq<Seq<char>>,
    expire: u64,
    now: u64,
    k: int,
)
    requires
        0 <= k < interfaces.len(),
        !excluded(excl, interfaces[k].network),
    ensures
        lookup(
            started(router_id, interfaces, excl, expire, now).rib.routes,
            interfaces[k].network,
        ) == Some(local_route(interfaces[k].network, now)),
{
    law_seeded_networks_are_local(Seq::empty(), excl, networks_of(interfaces), now, k);
}

/// No advertisement changes a local route.
pub proof fn law_learning_spares_local_routes(
    t: Seq<RouteView>,
    excl: Seq<Seq<char>>,
    ip: u32,
    networks: Seq<(Seq<char>, u32)>,
    now: u64,
    cidr: Seq<char>,
)
    requires
        table_wf(t, excl),
        lookup(t, cidr) matches Some(r) && r.via is Local,
    ensures
        lookup(learned(t, excl, ip, networks, now), cidr) == lookup(t, cidr),
    decreases networks.len(),
{
    if networks.len() > 0 {
        let before = learned(t, excl, ip, networks.drop_last(), now);
        law_learning_spares_local_routes(t, excl, ip, networks.drop_last(), now, cidr);
        lemma_learned_wf(t, excl, ip, networks.drop_last(), now);
        lemma_considered(before, excl, networks.last().0, ip, networks.last().1, now);
        let i = index_of(t, cidr);
        assert(coherent(t[i]));
    }
}

/// Local routes are immortal: a destination that the table holds as a
/// local route is held as that very route, with hop count 0 and no next
/// hop, after every sequence of events.
pub proof fn law_local_routes_are_immortal(s: EngineView, events: Seq<Event>, cidr: Seq<char>)
    requires
        engine_wf(s),
        lookup(s.rib.routes, cidr) matches Some(r) && r.via is Local,
    ensures
        lookup(run(s, events).rib.routes, cidr) == lookup(s.rib.routes, cidr),
        lookup(run(s, events).rib.routes, cidr)->0.hops == 0,
        lookup(run(s, events).rib.routes, cidr)->0.via == Via::Local,
    decreases events.len(),
{
    assert(lookup(s.rib.routes, cidr)->0.hops == 0) by {
        let i = index_of(s.rib.routes, cidr);
        assert(coherent(s.rib.routes[i]));
    }
    if events.len() > 0 {
        let before = run(s, events.drop_last());
        law_local_routes_are_immortal(s, events.drop_last(), cidr);
        law_run_keeps_invariant(s, events.drop_last());
        match events.last() {
            Event::Heard { source, message, now } => {
                law_learning_spares_local_routes(
                    before.rib.routes,
                    before.rib.exclusions,
                    source,
                    message.networks,
                    now,
                    cidr,
                );
            },
            Event::Closed { now } => {
                lemma_filter_table(before.rib.routes, survivor(now, before.expire));
            },
        }
    }
}

/// Self-suppression: an advertisement that carries the engine's own
/// identifier changes neither the table nor the neighbours heard, nor
/// anything else.
pub proof fn law_own_advertisements_change_nothing(
    s: EngineView,
    source: u32,
    networks: Seq<(Seq<char>, u32)>,
    now: u64,
)
    ensures
        step(
            s,
            Event::Heard {
                source,
                message: HelloView { router_id: s.router_id, networks },
                now,
            },
        ) == s,
{
}

/// Split horizon: the advertisement sent from the local address `out`
/// lists a destination at a hop count exactly where the table holds that
/// destination at that hop count by a route that was not learned from a
/// neighbour with the address `out`. So no route goes back to where it
/// came from, and every local route is listed.
pub proof fn law_split_horizon(
    t: Seq<RouteView>,
    excl: Seq<Seq<char>>,
    out: u32,
    cidr: Seq<char>,
    hops: u32,
)
    requires
        table_wf(t, excl),
    ensures
        advertised(t, out).contains((cidr, hops)) <==> (lookup(t, cidr) matches Some(r) && r.hops
            == hops && r.via != Via::Remote(out)),
{
    let kept = t.filter(announced(out));
    let adv = advertised(t, out);
    lemma_filter_table(t, announced(out));
    if adv.contains((cidr, hops)) {
        let k = choose|k: int| 0 <= k < adv.len() && adv[k] == (cidr, hops);
        lemma_lookup_at(kept, k);
    }
    if lookup(t, cidr) matches Some(r) && r.hops == hops && r.via != Via::Remote(out) {
        assert(lookup(kept, cidr) == lookup(t, cidr));
        let k = index_of(kept, cidr);
        assert(adv[k] == (cidr, hops));
    }
}

/// Every local route is advertised on every interface, at hop count 0.
pub proof fn law_local_routes_are_advertised(
    t: Seq<RouteView>,
    excl: Seq<Seq<char>>,
    out: u32,
    cidr: Seq<char>,
)
    requires
        table_wf(t, excl),
        lookup(t, cidr) matches Some(r) && r.via is Local,
    ensures
        advertised(t, out).contains((cidr, 0u32)),
{
    let i = index_of(t, cidr);
    assert(coherent(t[i]));
    law_split_horizon(t, excl, out, cidr, 0);
}

/// Expiry: when the window closes, a learned route that was last seen
/// `expire` or longer ago leaves the table, and the kernel is asked to
/// delete the route to its destination.
pub proof fn law_expiry(s: EngineView, now: u64, cidr: Seq<char>)
    requires
        engine_wf(s),
        lookup(s.rib.routes, cidr) matches Some(r) && r.via is Remote && now - r.last_seen
            >= s.expire,
    ensures
        lookup(closed(s, now).rib.routes, cidr) is None,
        operations(s, now).contains(delete_op(cidr)),
{
    law_deletions(s, now, cidr);
    lemma_filter_table(s.rib.routes, survivor(now, s.expire));
}

/// The kernel is asked to delete the route to a destination exactly where
/// the table held a route to it that did not outlive the ageing.
pub proof fn law_deletions(s: EngineView, now: u64, cidr: Seq<char>)
    requires
        engine_wf(s),
    ensures
        operations(s, now).contains(delete_op(cidr)) <==> (lookup(s.rib.routes, cidr) matches Some(
            r,
        ) && !survives(r, now, s.expire)),
{
    let t = s.rib.routes;
    let old_routes = t.filter(stale(now, s.expire));
    let gone = expired(t, now, s.expire);
    let asked = replace_ops(wanted(s, now));
    let ops = operations(s, now);
    lemma_filter_table(t, stale(now, s.expire));
    if ops.contains(delete_op(cidr)) {
        let k = choose|k: int| 0 <= k < ops.len() && ops[k] == delete_op(cidr);
        if k < asked.len() {
            assert(ops[k] == asked[k]);
        } else {
            assert(ops[k] == delete_ops(gone)[k - asked.len()]);
            lemma_lookup_at(old_routes, k - asked.len());
        }
    }
    if lookup(t, cidr) matches Some(r) && !survives(r, now, s.expire) {
        assert(lookup(old_routes, cidr) == lookup(t, cidr));
        let k = index_of(old_routes, cidr);
        assert(gone[k] == cidr);
        assert(ops[asked.len() + k] == delete_ops(gone)[k]);
    }
}

/// The kernel is asked to route a destination through a neighbour exactly
/// where the aged table holds that destination by a route through that
/// neighbour, and the destination does not denote a host.
pub proof fn law_replacements(s: EngineView, now: u64, cidr: Seq<char>, via: u32)
    requires
        engine_wf(s),
    ensures
        operations(s, now).contains(RouteOpView::Replace { cidr, via }) <==> (
        lookup(closed(s, now).rib.routes, cidr) matches Some(r) && r.via == Via::Remote(via)
            && !denotes_host(cidr)),
{
    let t = aged(s.rib.routes, now, s.expire);
    let chosen = t.filter(installable());
    let w = wanted(s, now);
    let asked = replace_ops(w);
    let ops = operations(s, now);
    let op = RouteOpView::Replace { cidr, via };
    lemma_aged_wf(s.rib.routes, s.rib.exclusions, now, s.expire);
    lemma_filter_table(t, installable());
    if ops.contains(op) {
        let k = choose|k: int| 0 <= k < ops.len() && ops[k] == op;
        if k < asked.len() {
            assert(ops[k] == asked[k]);
            lemma_lookup_at(chosen, k);
        } else {
            assert(ops[k] == delete_ops(expired(s.rib.routes, now, s.expire))[k - asked.len()]);
        }
    }
    if lookup(t, cidr) matches Some(r) && r.via == Via::Remote(via) && !denotes_host(
        cidr,
    ) {
        assert(lookup(chosen, cidr) == lookup(t, cidr));
        let k = index_of(chosen, cidr);
        assert(w[k] == next_hop(chosen[k]));
        assert(ops[k] == asked[k]);
    }
}

/// No advertisement that the engine sends lists an excluded network, and
/// none is sent on an interface whose network is excluded.
pub proof fn law_advertisements_hold_no_excluded_network(s: EngineView, k: int, j: int)
    requires
        engine_wf(s),
        0 <= k < emitted(s).len(),
        0 <= j < emitted(s)[k].message.networks.len(),
    ensures
        !excluded(s.rib.exclusions, emitted(s)[k].message.networks[j].0),
        !excluded(s.rib.exclusions, s.interfaces[k].network),
{
    let out = s.interfaces[k].ip;
    let i = lemma_filter_member(s.rib.routes, announced(out), j);
}

/// No request to the kernel is about an excluded network.
pub proof fn law_operations_touch_no_excluded_network(s: EngineView, now: u64, k: int)
    requires
        engine_wf(s),
        0 <= k < operations(s, now).len(),
    ensures
        !excluded(s.rib.exclusions, target(operations(s, now)[k])),
{
    let t = s.rib.routes;
    let left = aged(t, now, s.expire);
    let asked = replace_ops(wanted(s, now));
    lemma_aged_wf(t, s.rib.exclusions, now, s.expire);
    if k < asked.len() {
        let i = lemma_filter_member(left, installable(), k);
    } else {
        let i = lemma_filter_member(t, stale(now, s.expire), k - asked.len());
    }
}

/// Whether the table `t` holds a route to `cidr` that a path of `hops`
/// hops through `ip` does not beat.
pub open spec fn settled(t: Seq<RouteView>, cidr: Seq<char>, hops: int, ip: u32) -> bool {
    lookup(t, cidr) matches Some(r) && !beats(hops, ip, r)
}

/// Whether the route `after` is the route `before` or beats it.
pub open spec fn improved(after: Option<RouteView>, before: Option<RouteView>) -> bool {
    before matches Some(r0) ==> (after matches Some(r1) && (r1 == r0 || (r1.via matches Via::Remote(
        v,
    ) && beats(r1.hops as int, v, r0))))
}

/// Whether pair `j` of the event `e` offers a path to `cidr` to an engine
/// with the identifier `own`: the event is an advertisement of another
/// router, and the pair names `cidr` with a hop count that has a
/// successor.
pub open spec fn offers(own: Seq<char>, e: Event, j: int, cidr: Seq<char>) -> bool {
    e matches Event::Heard { source, message, now } && message.router_id != own && 0 <= j
        < message.networks.len() && message.networks[j].0 == cidr && message.networks[j].1
        < u32::MAX
}

/// The route that pair `j` of the advertisement `e` offers.
pub open spec fn offer(e: Event, j: int) -> RouteView {
    candidate(
        e->Heard_message.networks[j].0,
        e->Heard_source,
        e->Heard_message.networks[j].1,
        e->Heard_now,
    )
}

/// Whether `events` are those of one listen window: advertisements only.
pub open spec fn one_window(events: Seq<Event>) -> bool {
    forall|k: int| 0 <= k < events.len() ==> #[trigger] events[k] is Heard
}

proof fn lemma_learned_track(
    t: Seq<RouteView>,
    excl: Seq<Seq<char>>,
    ip: u32,
    nets: Seq<(Seq<char>, u32)>,
    now: u64,
    cidr: Seq<char>,
)
    requires
        table_wf(t, excl),
    ensures
        forall|j: int|
            0 <= j < nets.len() && (#[trigger] nets[j]).0 == cidr && nets[j].1 < u32::MAX
                && !excluded(excl, cidr) ==> settled(
                learned(t, excl, ip, nets, now),
                cidr,
                nets[j].1 + 1,
                ip,
            ),
        lookup(learned(t, excl, ip, nets, now), cidr) == lookup(t, cidr) || exists|j: int|
            0 <= j < nets.len() && (#[trigger] nets[j]).0 == cidr && nets[j].1 < u32::MAX
                && lookup(learned(t, excl, ip, nets, now), cidr) == Some(
                candidate(cidr, ip, nets[j].1, now),
            ),
        improved(lookup(learned(t, excl, ip, nets, now), cidr), lookup(t, cidr)),
    decreases nets.len(),
{
    if nets.len() > 0 {
        let rest = nets.drop_last();
        let before = learned(t, excl, ip, rest, now);
        let after = learned(t, excl, ip, nets, now);
        let last = nets.last();
        lemma_learned_track(t, excl, ip, rest, now, cidr);
        lemma_learned_wf(t, excl, ip, rest, now);
        lemma_considered(before, excl, last.0, ip, last.1, now);
        assert(improved(lookup(after, cidr), lookup(before, cidr)));
        assert forall|j: int|
            0 <= j < nets.len() && (#[trigger] nets[j]).0 == cidr && nets[j].1 < u32::MAX
                && !excluded(excl, cidr) implies settled(after, cidr, nets[j].1 + 1, ip) by {
            if j < rest.len() {
                assert(rest[j] == nets[j]);
                assert(settled(before, cidr, nets[j].1 + 1, ip));
            }
        }
        if lookup(after, cidr) != lookup(t, cidr) {
            if lookup(after, cidr) == lookup(before, cidr) {
                let j = choose|j: int|
                    0 <= j < rest.len() && (#[trigger] rest[j]).0 == cidr && rest[j].1 < u32::MAX
                        && lookup(before, cidr) == Some(candidate(cidr, ip, rest[j].1, now));
                assert(nets[j] == rest[j]);
            } else {
                assert(nets[nets.len() - 1] == last);
            }
        }
    }
}

/// Minimum-hop winner and tie-break: after the advertisements of one
/// listen window, the route to a destination that is not excluded has at
/// most one hop more than any neighbour advertised for it, and where it
/// has exactly one hop more than a neighbour advertised, it goes through
/// a neighbour whose address is not above that neighbour's.
pub proof fn law_minimum_hop_winner(
    s: EngineView,
    events: Seq<Event>,
    k: int,
    j: int,
    cidr: Seq<char>,
)
    requires
        engine_wf(s),
        one_window(events),
        0 <= k < events.len(),
        offers(s.router_id, events[k], j, cidr),
        !excluded(s.rib.exclusions, cidr),
    ensures
        lookup(run(s, events).rib.routes, cidr) matches Some(r) && r.hops
            <= events[k]->Heard_message.networks[j].1 + 1 && (r.hops
            == events[k]->Heard_message.networks[j].1 + 1 ==> (r.via matches Via::Remote(v) && v
            <= events[k]->Heard_source)),
{
    lemma_offer_settled(s, events, k, j, cidr);
    law_run_keeps_invariant(s, events);
    let t = run(s, events).rib.routes;
    let i = index_of(t, cidr);
    assert(coherent(t[i]));
}

proof fn lemma_offer_settled(s: EngineView, events: Seq<Event>, k: int, j: int, cidr: Seq<char>)
    requires
        engine_wf(s),
        one_window(events),
        0 <= k < events.len(),
        offers(s.router_id, events[k], j, cidr),
        !excluded(s.rib.exclusions, cidr),
    ensures
        settled(
            run(s, events).rib.routes,
            cidr,
            events[k]->Heard_message.networks[j].1 + 1,
            events[k]->Heard_source,
        ),
    decreases events.len(),
{
    let rest = events.drop_last();
    let before = run(s, rest);
    law_run_keeps_invariant(s, rest);
    assert(events.last() is Heard);
    let source = events.last()->Heard_source;
    let message = events.last()->Heard_message;
    let now = events.last()->Heard_now;
    lemma_learned_track(before.rib.routes, before.rib.exclusions, source, message.networks, now, cidr);
    if k < events.len() - 1 {
        assert(rest[k] == events[k]);
        assert(one_window(rest)) by {
            assert forall|i: int| 0 <= i < rest.len() implies #[trigger] rest[i] is Heard by {
                assert(events[i] is Heard);
            }
        }
        lemma_offer_settled(s, rest, k, j, cidr);
    }
}

/// The winner was heard: after the advertisements of one listen window
/// the route to a destination is the one that the table held before, or
/// one that a neighbour offered during the window, and where the table
/// held one before, the route is that one or beats it.
pub proof fn law_winner_was_offered(s: EngineView, events: Seq<Event>, cidr: Seq<char>)
    requires
        engine_wf(s),
        one_window(events),
    ensures
        lookup(run(s, events).rib.routes, cidr) == lookup(s.rib.routes, cidr) || exists|
            k: int,
            j: int,
        |
            0 <= k < events.len() && #[trigger] offers(s.router_id, events[k], j, cidr) && lookup(
                run(s, events).rib.routes,
                cidr,
            ) == Some(offer(events[k], j)),
        improved(lookup(run(s, events).rib.routes, cidr), lookup(s.rib.routes, cidr)),
    decreases events.len(),
{
    if events.len() > 0 {
        let rest = events.drop_last();
        let before = run(s, rest);
        let after = run(s, events);
        law_run_keeps_invariant(s, rest);
        assert(one_window(rest)) by {
            assert forall|i: int| 0 <= i < rest.len() implies #[trigger] rest[i] is Heard by {
                assert(events[i] is Heard);
            }
        }
        law_winner_was_offered(s, rest, cidr);
        let last = events.last();
        assert(last is Heard);
        let source = last->Heard_source;
        let message = last->Heard_message;
        let now = last->Heard_now;
        lemma_learned_track(
            before.rib.routes,
            before.rib.exclusions,
            source,
            message.networks,
            now,
            cidr,
        );
        if lookup(after.rib.routes, cidr) != lookup(s.rib.routes, cidr) {
            if lookup(after.rib.routes, cidr) == lookup(before.rib.routes, cidr) {
                let (k, j) = choose|k: int, j: int|
                    0 <= k < rest.len() && #[trigger] offers(s.router_id, rest[k], j, cidr)
                        && lookup(before.rib.routes, cidr) == Some(offer(rest[k], j));
                assert(events[k] == rest[k]);
                assert(offers(s.router_id, events[k], j, cidr));
            } else {
                let j = choose|j: int|
                    0 <= j < message.networks.len() && (#[trigger] message.networks[j]).0 == cidr
                        && message.networks[j].1 < u32::MAX && lookup(after.rib.routes, cidr)
                        == Some(candidate(cidr, source, message.networks[j].1, now));
                assert(offers(s.router_id, events[events.len() - 1], j, cidr));
            }
        }
    }
}

/// The table `t` after two advertisements were considered, `a` before `b`.
/// An advertisement is given as destination, neighbour's address, hop
/// count and time of arrival.
pub open spec fn after_both(
    t: Seq<RouteView>,
    excl: Seq<Seq<char>>,
    a: (Seq<char>, u32, u32, u64),
    b: (Seq<char>, u32, u32, u64),
) -> Seq<RouteView> {
    considered(considered(t, excl, a.0, a.1, a.2, a.3), excl, b.0, b.1, b.2, b.3)
}

/// Whether two lookups agree on the path: both find nothing, or both find
/// a route with the same hop count and the same next hop.
pub open spec fn same_path(a: Option<RouteView>, b: Option<RouteView>) -> bool {
    match (a, b) {
        (Some(x), Some(y)) => x.hops == y.hops && x.via == y.via,
        (None, None) => true,
        _ => false,
    }
}

/// The order of arrival is irrelevant: whichever of two advertisements is
/// considered first, every destination ends with the same hop count and
/// the same next hop.
pub proof fn law_order_is_irrelevant(
    t: Seq<RouteView>,
    excl: Seq<Seq<char>>,
    first: (Seq<char>, u32, u32, u64),
    second: (Seq<char>, u32, u32, u64),
    cidr: Seq<char>,
)
    requires
        table_wf(t, excl),
    ensures
        same_path(
            lookup(after_both(t, excl, first, second), cidr),
            lookup(after_both(t, excl, second, first), cidr),
        ),
{
    let ta = considered(t, excl, first.0, first.1, first.2, first.3);
    let tb = considered(t, excl, second.0, second.1, second.2, second.3);
    lemma_considered(t, excl, first.0, first.1, first.2, first.3);
    lemma_considered(t, excl, second.0, second.1, second.2, second.3);
    lemma_considered(ta, excl, second.0, second.1, second.2, second.3);
    lemma_considered(tb, excl, first.0, first.1, first.2, first.3);
    if lookup(t, cidr) is Some {
        let i = index_of(t, cidr);
        assert(coherent(t[i]));
    }
}

/// A route that is not heard of stays as it is, with its age: where no
/// advertisement names a destination and no ageing finds its route too
/// old, the table holds that route after the events as before.
pub proof fn law_unheard_routes_keep_their_age(s: EngineView, events: Seq<Event>, cidr: Seq<char>)
    requires
        engine_wf(s),
        lookup(s.rib.routes, cidr) is Some,
        forall|k: int, j: int|
            0 <= k < events.len() ==> !#[trigger] offers(s.router_id, events[k], j, cidr),
        forall|k: int|
            0 <= k < events.len() && #[trigger] events[k] is Closed ==> survives(
                lookup(s.rib.routes, cidr)->0,
                events[k]->Closed_now,
                s.expire,
            ),
    ensures
        lookup(run(s, events).rib.routes, cidr) == lookup(s.rib.routes, cidr),
    decreases events.len(),
{
    if events.len() > 0 {
        let rest = events.drop_last();
        let before = run(s, rest);
        law_run_keeps_invariant(s, rest);
        assert forall|k: int, j: int| 0 <= k < rest.len() implies !#[trigger] offers(
            s.router_id,
            rest[k],
            j,
            cidr,
        ) by {
            assert(rest[k] == events[k]);
            assert(!offers(s.router_id, events[k], j, cidr));
        }
        assert forall|k: int| 0 <= k < rest.len() && #[trigger] rest[k] is Closed implies survives(
            lookup(s.rib.routes, cidr)->0,
            rest[k]->Closed_now,
            s.expire,
        ) by {
            assert(rest[k] == events[k]);
        }
        law_unheard_routes_keep_their_age(s, rest, cidr);
        let last = events[events.len() - 1];
        match last {
            Event::Heard { source, message, now } => {
                lemma_learned_track(
                    before.rib.routes,
                    before.rib.exclusions,
                    source,
                    message.networks,
                    now,
                    cidr,
                );
                if message.router_id != s.router_id && lookup(run(s, events).rib.routes, cidr)
                    != lookup(before.rib.routes, cidr) {
                    let j = choose|j: int|
                        0 <= j < message.networks.len() && (#[trigger] message.networks[j]).0
                            == cidr && message.networks[j].1 < u32::MAX;
                    assert(offers(s.router_id, last, j, cidr));
                }
            },
            Event::Closed { now } => {
                assert(events[events.len() - 1] is Closed);
                lemma_filter_table(before.rib.routes, survivor(now, before.expire));
            },
        }
    }
}

/// The identifier carried by the last advertisement of another router
/// that came from `ip` among `events`, if one came.
pub open spec fn last_heard(events: Seq<Event>, own: Seq<char>, ip: u32) -> Option<Seq<char>>
    decreases events.len(),
{
    if events.len() == 0 {
        None
    } else if events.last() is Heard && events.last()->Heard_source == ip
        && events.last()->Heard_message.router_id != own {
        Some(events.last()->Heard_message.router_id)
    } else {
        last_heard(events.drop_last(), own, ip)
    }
}

/// Neighbour view freshness: what is published when a listen window
/// closes holds an address exactly where an advertisement of another
/// router came from that address during the window, once, and with the
/// identifier that the last such advertisement carried.
pub proof fn law_neighbor_view_is_fresh(s: EngineView, events: Seq<Event>, ip: u32)
    requires
        engine_wf(s),
        s.heard.len() == 0,
        one_window(events),
    ensures
        distinct_sources(published(run(s, events))),
        name_of(published(run(s, events)), ip) == last_heard(events, s.router_id, ip),
    decreases events.len(),
{
    law_run_keeps_invariant(s, events);
    if events.len() > 0 {
        let rest = events.drop_last();
        let before = run(s, rest);
        assert(one_window(rest)) by {
            assert forall|i: int| 0 <= i < rest.len() implies #[trigger] rest[i] is Heard by {
                assert(events[i] is Heard);
            }
        }
        law_neighbor_view_is_fresh(s, rest, ip);
        law_run_keeps_invariant(s, rest);
        let last = events.last();
        assert(last is Heard);
        lemma_noted(before.heard, last->Heard_source, last->Heard_message.router_id);
    }
}

/// Every listen window starts with nobody heard: at the engine's start
/// and after each close.
pub proof fn law_windows_start_empty(s: EngineView, now: u64)
    ensures
        closed(s, now).heard.len() == 0,
        published(closed(s, now)).len() == 0,
{
}

/// After ageing every learned route is fresh: it was seen less than
/// `expire` before the ageing.
pub proof fn law_aged_routes_are_fresh(
    t: Seq<RouteView>,
    excl: Seq<Seq<char>>,
    now: u64,
    expire: u64,
    cidr: Seq<char>,
)
    requires
        table_wf(t, excl),
    ensures
        lookup(aged(t, now, expire), cidr) matches Some(r) ==> lookup(t, cidr) == Some(r) && (r.via
            is Local || now - r.last_seen < expire),
        lookup(t, cidr) matches Some(r) ==> (survives(r, now, expire) ==> lookup(
            aged(t, now, expire),
            cidr,
        ) == Some(r)),
{
    lemma_filter_table(t, survivor(now, expire));
    assert(lookup(t.filter(survivor(now, expire)), cidr) == lookup(aged(t, now, expire), cidr));
}

/// Whether every route of `t` is local.
pub open spec fn all_local(t: Seq<RouteView>) -> bool {
    forall|i: int| 0 <= i < t.len() ==> (#[trigger] t[i]).via is Local
}

/// Every learned route was offered: in an engine that started with local
/// routes only, a learned route is, after any sequence of events, the
/// very route that some advertisement among them offered. Its next hop is
/// the source of that advertisement, and it has one hop more than the
/// advertisement gave.
pub proof fn law_learned_routes_were_offered(s: EngineView, events: Seq<Event>, cidr: Seq<char>)
    requires
        engine_wf(s),
        all_local(s.rib.routes),
    ensures
        lookup(run(s, events).rib.routes, cidr) matches Some(r) ==> (r.via is Remote ==> exists|
            k: int,
            j: int,
        |
            0 <= k < events.len() && #[trigger] offers(s.router_id, events[k], j, cidr) && r
                == offer(events[k], j)),
    decreases events.len(),
{
    if events.len() == 0 {
        if lookup(s.rib.routes, cidr) is Some {
            let i = index_of(s.rib.routes, cidr);
            assert(s.rib.routes[i].via is Local);
        }
    } else {
        let rest = events.drop_last();
        let before = run(s, rest);
        let after = run(s, events);
        law_run_keeps_invariant(s, rest);
        law_learned_routes_were_offered(s, rest, cidr);
        let last = events[events.len() - 1];
        match last {
            Event::Heard { source, message, now } => {
                lemma_learned_track(
                    before.rib.routes,
                    before.rib.exclusions,
                    source,
                    message.networks,
                    now,
                    cidr,
                );
            },
            Event::Closed { now } => {
                lemma_filter_table(before.rib.routes, survivor(now, before.expire));
            },
        }
        if lookup(after.rib.routes, cidr) matches Some(r) && r.via is Remote {
            if lookup(after.rib.routes, cidr) == lookup(before.rib.routes, cidr) {
                let (k, j) = choose|k: int, j: int|
                    0 <= k < rest.len() && #[trigger] offers(s.router_id, rest[k], j, cidr)
                        && lookup(before.rib.routes, cidr)->0 == offer(rest[k], j);
                assert(events[k] == rest[k]);
                assert(offers(s.router_id, events[k], j, cidr));
            } else {
                assert(last is Heard);
                let nets = last->Heard_message.networks;
                let j = choose|j: int|
                    0 <= j < nets.len() && (#[trigger] nets[j]).0 == cidr && nets[j].1 < u32::MAX
                        && lookup(after.rib.routes, cidr) == Some(
                        candidate(cidr, last->Heard_source, nets[j].1, last->Heard_now),
                    );
                assert(offers(s.router_id, events[events.len() - 1], j, cidr));
            }
        }
    }
}

/// The engine starts with local routes only.
pub proof fn law_started_routes_are_local(
    router_id: Seq<char>,
    interfaces: Seq<InterfaceView>,
    excl: Seq<Seq<char>>,
    expire: u64,
    now: u64,
)
    ensures
        all_local(started(router_id, interfaces, excl, expire, now).rib.routes),
{
    lemma_seeded_all_local(Seq::empty(), excl, networks_of(interfaces), now);
}

proof fn lemma_seeded_all_local(
    t: Seq<RouteView>,
    excl: Seq<Seq<char>>,
    locals: Seq<Seq<char>>,
    now: u64,
)
    requires
        all_local(t),
    ensures
        all_local(seeded(t, excl, locals, now)),
    decreases locals.len(),
{
    if locals.len() > 0 {
        lemma_seeded_all_local(t, excl, locals.drop_last(), now);
    }
}

} // verus!
