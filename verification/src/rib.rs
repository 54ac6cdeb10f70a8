//! The routing information base: the table of best known paths, seeded
//! with the local networks, fed with the advertisements of neighbours, and
//! aged as time passes. Times are readings of one monotonic clock, in the
//! unit of the expiry handed to [`Rib::age`].

use vstd::prelude::*;
use crate::exclusion::{excluded, Exclusions};
use crate::route::{
    advert_views, next_hop_views, route_views, NextHop, NextHopView, Route, RouteView, Via,
};
use crate::kernel::{installable, is_host_address, replacements};
use crate::table::{
    advertised, aged, announced, changed, considered, expired, index_of, installs,
    knows, lemma_aged_wf, lemma_filter_step, lemma_lookup_at, lemma_placed, lookup,
    next_hop, orphan, placed, seeded, stale, survivor, table_wf, unapplied, vanished,
};
use crate::text::texts;

verus! {

/// The routing information base.
pub struct Rib {
    exclusions: Exclusions,
    routes: Vec<Route>,
    installed: Vec<NextHop>,
}

/// A [`Rib`] as a mathematical value.
pub struct RibView {
    /// The excluded text prefixes.
    pub exclusions: Seq<Seq<char>>,
    /// The routing table.
    pub routes: Seq<RouteView>,
    /// The kernel routes that were last marked as installed.
    pub installed: Seq<NextHopView>,
}

impl View for Rib {
    type V = RibView;

    closed spec fn view(&self) -> RibView {
        RibView {
            exclusions: self.exclusions@,
            routes: route_views(self.routes@),
            installed: next_hop_views(self.installed@),
        }
    }
}

/// What changed between the last installation and the table as it is.
pub struct RouteDiff {
    /// The learned routes that the kernel does not hold as they are.
    pub changed: Vec<NextHop>,
    /// The destinations that the kernel holds and the table has lost.
    pub vanished: Vec<String>,
}

impl Rib {
    /// The invariant: the table's, under the exclusion set of this base.
    pub open spec fn wf(&self) -> bool {
        table_wf(self@.routes, self@.exclusions)
    }

    /// An empty base under the exclusion set `exclusions`.
    pub fn new(exclusions: Exclusions) -> (rib: Rib)
        ensures
            rib.wf(),
            rib@.exclusions == exclusions@,
            rib@.routes == Seq::<RouteView>::empty(),
            rib@.installed == Seq::<NextHopView>::empty(),
    {
        let rib = Rib { exclusions, routes: Vec::new(), installed: Vec::new() };
        assert(rib@.routes =~= Seq::<RouteView>::empty());
        assert(rib@.installed =~= Seq::<NextHopView>::empty());
        rib
    }

    /// The number of routes.
    pub fn len(&self) -> (n: usize)
        ensures
            n == self@.routes.len(),
    {
        self.routes.len()
    }

    fn find(&self, key: &String) -> (r: Option<usize>)
        requires
            self.wf(),
        ensures
            match r {
                Some(i) => i < self.routes@.len() && self@.routes[i as int].cidr == key@
                    && lookup(self@.routes, key@) == Some(self@.routes[i as int])
                    && index_of(self@.routes, key@) == i,
                None => !knows(self@.routes, key@),
            },
    {
        let mut i: usize = 0;
        while i < self.routes.len()
            invariant
                self.wf(),
                i <= self.routes.len(),
                forall|k: int| 0 <= k < i ==> (#[trigger] self@.routes[k]).cidr != key@,
            decreases self.routes.len() - i,
        {
            if self.routes[i].cidr == *key {
                proof {
                    lemma_lookup_at(self@.routes, i as int);
                }
                return Some(i);
            }
            i += 1;
        }
        None
    }

    /// The route to `cidr`, if the table holds one.
    pub fn lookup(&self, cidr: &str) -> (r: Option<Route>)
        requires
            self.wf(),
        ensures
            match r {
                Some(route) => lookup(self@.routes, cidr@) == Some(route@),
                None => lookup(self@.routes, cidr@) is None,
            },
    {
        let key = cidr.to_owned();
        match self.find(&key) {
            Some(i) => Some(self.routes[i].duplicate()),
            None => None,
        }
    }

    /// The routes, in table order.
    pub fn routes(&self) -> (r: Vec<Route>)
        ensures
            route_views(r@) == self@.routes,
    {
        let mut r: Vec<Route> = Vec::new();
        let mut i: usize = 0;
        while i < self.routes.len()
            invariant
                i <= self.routes.len(),
                r@.len() == i,
                forall|k: int| 0 <= k < i ==> (#[trigger] r@[k])@ == self.routes@[k]@,
            decreases self.routes.len() - i,
        {
            r.push(self.routes[i].duplicate());
            i += 1;
        }
        assert(route_views(r@) =~= self@.routes);
        r
    }

    fn place(&mut self, found: Option<usize>, route: Route)
        requires
            old(self).wf(),
            !excluded(old(self)@.exclusions, route@.cidr),
            (route.hops == 0) == (route.via is Local),
            match found {
                Some(i) => i < old(self)@.routes.len() && index_of(
                    old(self)@.routes,
                    route@.cidr,
                ) == i && knows(old(self)@.routes, route@.cidr),
                None => !knows(old(self)@.routes, route@.cidr),
            },
        ensures
            final(self).wf(),
            final(self)@.routes == placed(old(self)@.routes, route@),
            final(self)@.exclusions == old(self)@.exclusions,
            final(self)@.installed == old(self)@.installed,
    {
        proof {
            lemma_placed(self@.routes, self@.exclusions, route@);
        }
        let ghost r = route@;
        match found {
            Some(i) => {
                self.routes.set(i, route);
                assert(self@.routes =~= old(self)@.routes.update(i as int, r));
            },
            None => {
                self.routes.push(route);
                assert(self@.routes =~= old(self)@.routes.push(r));
            },
        }
    }

    /// Enters the local networks at time `now`: each with hop count 0 and
    /// no next hop, in the place of whatever route its destination had.
    /// Excluded networks are passed over. Entering the same networks again
    /// at the same time changes nothing.
    pub fn seed(&mut self, local_networks: &Vec<String>, now: u64)
        requires
            old(self).wf(),
        ensures
            final(self).wf(),
            final(self)@.routes == seeded(
                old(self)@.routes,
                old(self)@.exclusions,
                texts(local_networks@),
                now,
            ),
            final(self)@.exclusions == old(self)@.exclusions,
            final(self)@.installed == old(self)@.installed,
    {
        let ghost locals = texts(local_networks@);
        let mut i: usize = 0;
        while i < local_networks.len()
            invariant
                self.wf(),
                i <= local_networks.len(),
                locals == texts(local_networks@),
                self@.routes == seeded(
                    old(self)@.routes,
                    old(self)@.exclusions,
                    locals.take(i as int),
                    now,
                ),
                self@.exclusions == old(self)@.exclusions,
                self@.installed == old(self)@.installed,
            decreases local_networks.len() - i,
        {
            let key = local_networks[i].clone();
            assert(locals.take(i + 1).drop_last() =~= locals.take(i as int));
            assert(locals.take(i + 1).last() == key@);
            if !self.exclusions.excludes(key.as_str()) {
                let found = self.find(&key);
                self.place(found, Route { cidr: key, hops: 0, via: Via::Local, last_seen: now });
            }
            i += 1;
        }
        assert(locals.take(i as int) =~= locals);
    }

    /// Considers the advertisement of `cidr` at `neighbor_hops` hops by the
    /// neighbour at `neighbor_ip`, heard at time `now`. The path through
    /// the neighbour has one hop more. It is installed where the table has
    /// no route to `cidr`, where it has fewer hops than the route there,
    /// or where it has as many and the neighbour's address is the lower
    /// one. An excluded `cidr` is dropped, and so is a hop count that has
    /// no successor. Says whether the path was installed.
    pub fn consider(&mut self, cidr: &str, neighbor_ip: u32, neighbor_hops: u32, now: u64) -> (installed:
        bool)
        requires
            old(self).wf(),
        ensures
            final(self).wf(),
            installed == installs(
                old(self)@.routes,
                old(self)@.exclusions,
                cidr@,
                neighbor_ip,
                neighbor_hops,
            ),
            final(self)@.routes == considered(
                old(self)@.routes,
                old(self)@.exclusions,
                cidr@,
                neighbor_ip,
                neighbor_hops,
                now,
            ),
            final(self)@.exclusions == old(self)@.exclusions,
            final(self)@.installed == old(self)@.installed,
    {
        if neighbor_hops == u32::MAX || self.exclusions.excludes(cidr) {
            return false;
        }
        let hops: u32 = neighbor_hops + 1;
        let key = cidr.to_owned();
        let found = self.find(&key);
        let better = match found {
            None => true,
            Some(i) => {
                let cur = &self.routes[i];
                hops < cur.hops || (hops == cur.hops && match cur.via {
                    Via::Remote(v) => neighbor_ip < v,
                    Via::Local => false,
                })
            },
        };
        if better {
            self.place(
                found,
                Route { cidr: key, hops, via: Via::Remote(neighbor_ip), last_seen: now },
            );
        }
        better
    }

    /// Removes every learned route that was last seen `expire` or longer
    /// before `now`, and returns the destinations removed, in table order.
    /// Local routes stay, however old.
    pub fn age(&mut self, now: u64, expire: u64) -> (gone: Vec<String>)
        requires
            old(self).wf(),
        ensures
            final(self).wf(),
            final(self)@.routes == aged(old(self)@.routes, now, expire),
            texts(gone@) == expired(old(self)@.routes, now, expire),
            final(self)@.exclusions == old(self)@.exclusions,
            final(self)@.installed == old(self)@.installed,
    {
        let ghost t = self@.routes;
        let mut kept: Vec<Route> = Vec::new();
        let mut gone: Vec<String> = Vec::new();
        let mut i: usize = 0;
        assert(t.take(0).filter(survivor(now, expire)) =~= Seq::<RouteView>::empty()) by {
            reveal(Seq::filter);
        }
        assert(t.take(0).filter(stale(now, expire)) =~= Seq::<RouteView>::empty()) by {
            reveal(Seq::filter);
        }
        while i < self.routes.len()
            invariant
                i <= self.routes.len(),
                t == self@.routes,
                t == route_views(self.routes@),
                route_views(kept@) =~= aged(t.take(i as int), now, expire),
                texts(gone@) =~= expired(t.take(i as int), now, expire),
            decreases self.routes.len() - i,
        {
            let r = &self.routes[i];
            proof {
                lemma_filter_step(t, i as int, survivor(now, expire));
                lemma_filter_step(t, i as int, stale(now, expire));
            }
            if r.via.is_local() || now < r.last_seen || now - r.last_seen < expire {
                kept.push(r.duplicate());
                assert(expired(t.take(i + 1), now, expire) =~= expired(
                    t.take(i as int),
                    now,
                    expire,
                ));
            } else {
                let ghost before = gone@;
                gone.push(r.cidr.clone());
                assert(texts(gone@) =~= texts(before).push(t[i as int].cidr));
                assert(expired(t.take(i + 1), now, expire) =~= expired(
                    t.take(i as int),
                    now,
                    expire,
                ).push(t[i as int].cidr));
            }
            i += 1;
        }
        proof {
            assert(t.take(i as int) =~= t);
            lemma_aged_wf(t, self@.exclusions, now, expire);
        }
        self.routes = kept;
        gone
    }

    /// The networks to advertise on the interface with the local address
    /// `outgoing_local_ip`, in table order, each with its hop count: every
    /// route but those learned from a neighbour with that very address.
    /// Local routes are always among them.
    pub fn advertise_view(&self, outgoing_local_ip: u32) -> (networks: Vec<(String, u32)>)
        ensures
            advert_views(networks@) == advertised(self@.routes, outgoing_local_ip),
    {
        let ghost t = self@.routes;
        let ghost pred = announced(outgoing_local_ip);
        let mut networks: Vec<(String, u32)> = Vec::new();
        let mut i: usize = 0;
        assert(t.take(0).filter(pred) =~= Seq::<RouteView>::empty()) by {
            reveal(Seq::filter);
        }
        while i < self.routes.len()
            invariant
                i <= self.routes.len(),
                t == route_views(self.routes@),
                pred == announced(outgoing_local_ip),
                advert_views(networks@) =~= advertised(t.take(i as int), outgoing_local_ip),
            decreases self.routes.len() - i,
        {
            let r = &self.routes[i];
            proof {
                lemma_filter_step(t, i as int, pred);
            }
            let back = match r.via {
                Via::Remote(v) => v == outgoing_local_ip,
                Via::Local => false,
            };
            if !back {
                let ghost before = networks@;
                networks.push((r.cidr.clone(), r.hops));
                assert(advert_views(networks@) =~= advert_views(before).push(
                    (t[i as int].cidr, t[i as int].hops),
                ));
                assert(advertised(t.take(i + 1), outgoing_local_ip) =~= advertised(
                    t.take(i as int),
                    outgoing_local_ip,
                ).push((t[i as int].cidr, t[i as int].hops)));
            } else {
                assert(advertised(t.take(i + 1), outgoing_local_ip) =~= advertised(
                    t.take(i as int),
                    outgoing_local_ip,
                ));
            }
            i += 1;
        }
        assert(t.take(i as int) =~= t);
        networks
    }

    fn holds(&self, cidr: &String, via: u32) -> (r: bool)
        ensures
            r == self@.installed.contains(NextHopView { cidr: cidr@, via }),
    {
        let ghost wanted = NextHopView { cidr: cidr@, via };
        let mut i: usize = 0;
        while i < self.installed.len()
            invariant
                i <= self.installed.len(),
                wanted == (NextHopView { cidr: cidr@, via }),
                forall|k: int| 0 <= k < i ==> (#[trigger] self@.installed[k]) != wanted,
            decreases self.installed.len() - i,
        {
            if self.installed[i].via == via && self.installed[i].cidr == *cidr {
                assert(self@.installed[i as int] == wanted);
                return true;
            }
            i += 1;
        }
        false
    }

    /// What an installation would have to do now: the learned routes that
    /// were not installed as they are, and the destinations that were
    /// installed and have left the table since. Both in the order in which
    /// they stand in the table and in the last installation.
    pub fn diff_for_install(&self) -> (diff: RouteDiff)
        requires
            self.wf(),
        ensures
            next_hop_views(diff.changed@) == changed(self@.routes, self@.installed),
            texts(diff.vanished@) == vanished(self@.routes, self@.installed),
    {
        let ghost t = self@.routes;
        let ghost inst = self@.installed;
        let ghost pending = unapplied(inst);
        let ghost lost = orphan(t);
        let mut changes: Vec<NextHop> = Vec::new();
        let mut i: usize = 0;
        assert(t.take(0).filter(pending) =~= Seq::<RouteView>::empty()) by {
            reveal(Seq::filter);
        }
        while i < self.routes.len()
            invariant
                i <= self.routes.len(),
                t == route_views(self.routes@),
                inst == self@.installed,
                pending == unapplied(inst),
                next_hop_views(changes@) =~= changed(t.take(i as int), inst),
            decreases self.routes.len() - i,
        {
            let r = &self.routes[i];
            proof {
                lemma_filter_step(t, i as int, pending);
            }
            let news = match r.via {
                Via::Remote(v) => !self.holds(&r.cidr, v),
                Via::Local => false,
            };
            if news {
                let ghost before = changes@;
                changes.push(NextHop { cidr: r.cidr.clone(), via: r.via.address() });
                assert(next_hop_views(changes@) =~= next_hop_views(before).push(
                    next_hop(t[i as int]),
                ));
                assert(changed(t.take(i + 1), inst) =~= changed(t.take(i as int), inst).push(
                    next_hop(t[i as int]),
                ));
            } else {
                assert(changed(t.take(i + 1), inst) =~= changed(t.take(i as int), inst));
            }
            i += 1;
        }
        assert(t.take(i as int) =~= t);
        let mut losses: Vec<String> = Vec::new();
        let mut j: usize = 0;
        assert(inst.take(0).filter(lost) =~= Seq::<NextHopView>::empty()) by {
            reveal(Seq::filter);
        }
        while j < self.installed.len()
            invariant
                self.wf(),
                j <= self.installed.len(),
                t == self@.routes,
                inst == next_hop_views(self.installed@),
                lost == orphan(t),
                texts(losses@) =~= vanished(t, inst.take(j as int)),
            decreases self.installed.len() - j,
        {
            let h = &self.installed[j];
            proof {
                lemma_filter_step(inst, j as int, lost);
            }
            if self.find(&h.cidr).is_none() {
                let ghost before = losses@;
                losses.push(h.cidr.clone());
                assert(texts(losses@) =~= texts(before).push(inst[j as int].cidr));
                assert(vanished(t, inst.take(j + 1)) =~= vanished(t, inst.take(j as int)).push(
                    inst[j as int].cidr,
                ));
            } else {
                assert(vanished(t, inst.take(j + 1)) =~= vanished(t, inst.take(j as int)));
            }
            j += 1;
        }
        assert(inst.take(j as int) =~= inst);
        RouteDiff { changed: changes, vanished: losses }
    }

    /// The kernel routes that the table asks for: one for each learned
    /// route whose destination does not denote a host, in table order.
    pub fn kernel_routes(&self) -> (wanted: Vec<NextHop>)
        ensures
            next_hop_views(wanted@) == replacements(self@.routes),
    {
        let ghost t = self@.routes;
        let ghost pred = installable();
        let mut wanted: Vec<NextHop> = Vec::new();
        let mut i: usize = 0;
        assert(t.take(0).filter(pred) =~= Seq::<RouteView>::empty()) by {
            reveal(Seq::filter);
        }
        while i < self.routes.len()
            invariant
                i <= self.routes.len(),
                t == route_views(self.routes@),
                pred == installable(),
                next_hop_views(wanted@) =~= replacements(t.take(i as int)),
            decreases self.routes.len() - i,
        {
            let r = &self.routes[i];
            proof {
                lemma_filter_step(t, i as int, pred);
            }
            let asked = match r.via {
                Via::Remote(_) => !is_host_address(r.cidr.as_str()),
                Via::Local => false,
            };
            if asked {
                let ghost before = wanted@;
                wanted.push(NextHop { cidr: r.cidr.clone(), via: r.via.address() });
                assert(next_hop_views(wanted@) =~= next_hop_views(before).push(
                    next_hop(t[i as int]),
                ));
                assert(replacements(t.take(i + 1)) =~= replacements(t.take(i as int)).push(
                    next_hop(t[i as int]),
                ));
            } else {
                assert(replacements(t.take(i + 1)) =~= replacements(t.take(i as int)));
            }
            i += 1;
        }
        assert(t.take(i as int) =~= t);
        wanted
    }

    /// Records the kernel routes that were installed last.
    pub fn record_installed(&mut self, installed: Vec<NextHop>)
        ensures
            final(self)@.installed == next_hop_views(installed@),
            final(self)@.routes == old(self)@.routes,
            final(self)@.exclusions == old(self)@.exclusions,
    {
        self.installed = installed;
    }

    /// The kernel routes that were installed last.
    pub fn installed(&self) -> (v: Vec<NextHop>)
        ensures
            next_hop_views(v@) == self@.installed,
    {
        let mut v: Vec<NextHop> = Vec::new();
        let mut i: usize = 0;
        while i < self.installed.len()
            invariant
                i <= self.installed.len(),
                v@.len() == i,
                forall|k: int| 0 <= k < i ==> (#[trigger] v@[k])@ == self.installed@[k]@,
            decreases self.installed.len() - i,
        {
            let h = &self.installed[i];
            v.push(NextHop { cidr: h.cidr.clone(), via: h.via });
            i += 1;
        }
        assert(next_hop_views(v@) =~= self@.installed);
        v
    }

    /// The exclusion set of this base.
    pub fn exclusions(&self) -> (e: &Exclusions)
        ensures
            e@ == self@.exclusions,
    {
        &self.exclusions
    }
}

} // verus!
