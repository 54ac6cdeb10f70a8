//! The protocol engine. It does no input or output: the caller sends
//! what [`Engine::advertisements`] returns, hands each decoded datagram of
//! the listen window to [`Engine::receive`], and when the window closes
//! applies and publishes what [`Engine::close_window`] returns. Times are
//! readings of one monotonic clock of the caller's, in the unit in which
//! the caller gives the expiry.

use vstd::prelude::*;
use crate::exclusion::Exclusions;
use crate::iface::{interface_views, Interface, InterfaceView};
use crate::kernel::{
    delete_op, delete_ops, replace_op, replace_ops, route_op_views, RouteOp,
};
use crate::message::{advertisement_views, Advertisement, HelloMsg};
use crate::model::{
    accepts, admitted, closed, emitted, engine_wf, networks_of, operations, outgoing, published,
    received, started, EngineView,
};
use crate::neighbor::{neighbor_views, noted, Neighbor, Neighbors};
use crate::rib::Rib;
use crate::route::{advert_views, next_hop_views};
use crate::table::{learned, lemma_filter_step};
use crate::text::texts;

verus! {

/// The protocol engine of one router.
pub struct Engine {
    router_id: String,
    interfaces: Vec<Interface>,
    rib: Rib,
    heard: Neighbors,
    expire: u64,
}

impl View for Engine {
    type V = EngineView;

    closed spec fn view(&self) -> EngineView {
        EngineView {
            router_id: self.router_id@,
            interfaces: interface_views(self.interfaces@),
            rib: self.rib@,
            heard: self.heard@,
            expire: self.expire,
        }
    }
}

/// What the engine hands out when a listen window closes.
pub struct CycleReport {
    /// The neighbours heard during the window, to be published.
    pub neighbors: Vec<Neighbor>,
    /// The requests to the kernel's routing table, in order.
    pub operations: Vec<RouteOp>,
}

impl Engine {
    /// The invariant of the engine.
    pub open spec fn wf(&self) -> bool {
        engine_wf(self@)
    }

    /// An engine for the router `router_id` that starts at time `now`. It
    /// sends on those of `interfaces` whose network `exclusions` lets
    /// through, holds their networks as local routes, and lets a learned
    /// route last for `expire`.
    pub fn new(
        router_id: String,
        interfaces: Vec<Interface>,
        exclusions: Exclusions,
        expire: u64,
        now: u64,
    ) -> (engine: Engine)
        ensures
            engine.wf(),
            engine@ == started(
                router_id@,
                interface_views(interfaces@),
                exclusions@,
                expire,
                now,
            ),
    {
        let ghost ifs = interface_views(interfaces@);
        let ghost pred = admitted(exclusions@);
        let mut kept: Vec<Interface> = Vec::new();
        let mut locals: Vec<String> = Vec::new();
        let mut i: usize = 0;
        assert(ifs.take(0).filter(pred) =~= Seq::<InterfaceView>::empty()) by {
            reveal(Seq::filter);
        }
        while i < interfaces.len()
            invariant
                i <= interfaces.len(),
                ifs == interface_views(interfaces@),
                pred == admitted(exclusions@),
                interface_views(kept@) =~= ifs.take(i as int).filter(pred),
                texts(locals@) =~= networks_of(ifs.take(i as int)),
            decreases interfaces.len() - i,
        {
            let f = &interfaces[i];
            proof {
                lemma_filter_step(ifs, i as int, pred);
            }
            if !exclusions.excludes(f.network.as_str()) {
                kept.push(f.duplicate());
            }
            let ghost prior = locals@;
            locals.push(f.network.clone());
            assert(texts(locals@) =~= texts(prior).push(ifs[i as int].network));
            assert(networks_of(ifs.take(i + 1)) =~= networks_of(ifs.take(i as int)).push(
                ifs[i as int].network,
            ));
            i += 1;
        }
        proof {
            assert(ifs.take(i as int) =~= ifs);
            assert forall|k: int| 0 <= k < ifs.filter(pred).len() implies pred(
                #[trigger] ifs.filter(pred)[k],
            ) by {
                ifs.lemma_filter_pred(pred, k);
            }
        }
        let mut rib = Rib::new(exclusions);
        rib.seed(&locals, now);
        Engine { router_id, interfaces: kept, rib, heard: Neighbors::new(), expire }
    }

    /// This router's identifier.
    pub fn router_id(&self) -> (id: &String)
        ensures
            id@ == self@.router_id,
    {
        &self.router_id
    }

    /// The routing information base.
    pub fn rib(&self) -> (rib: &Rib)
        ensures
            rib@ == self@.rib,
            self.wf() ==> rib.wf(),
    {
        &self.rib
    }

    /// The neighbours heard since the listen window opened.
    pub fn heard(&self) -> (v: Vec<Neighbor>)
        ensures
            neighbor_views(v@) == self@.heard,
    {
        self.heard.snapshot()
    }

    /// The interfaces that the engine sends on.
    pub fn interfaces(&self) -> (v: &Vec<Interface>)
        ensures
            interface_views(v@) == self@.interfaces,
    {
        &self.interfaces
    }

    /// The send phase: one advertisement for each interface, in order. The
    /// one sent from the local address `L` lists every route but those
    /// learned from a neighbour with the address `L`.
    pub fn advertisements(&self) -> (out: Vec<Advertisement>)
        ensures
            advertisement_views(out@) == emitted(self@),
    {
        let mut out: Vec<Advertisement> = Vec::new();
        let mut i: usize = 0;
        while i < self.interfaces.len()
            invariant
                i <= self.interfaces.len(),
                out@.len() == i,
                forall|k: int|
                    0 <= k < i ==> (#[trigger] out@[k])@ == outgoing(self@, self@.interfaces[k]),
            decreases self.interfaces.len() - i,
        {
            let f = &self.interfaces[i];
            out.push(
                Advertisement {
                    local_ip: f.ip,
                    broadcast: f.broadcast,
                    message: HelloMsg {
                        router_id: self.router_id.clone(),
                        networks: self.rib.advertise_view(f.ip),
                    },
                },
            );
            i += 1;
        }
        assert(advertisement_views(out@) =~= emitted(self@));
        out
    }

    /// Takes in the advertisement `message` that arrived from `source_ip`
    /// at time `now`. One that carries this router's own identifier is
    /// discarded and changes nothing. Of any other the sender is noted as
    /// a neighbour and each network is considered for the table, first to
    /// last. Says whether the advertisement was taken in.
    pub fn receive(&mut self, source_ip: u32, message: &HelloMsg, now: u64) -> (accepted: bool)
        requires
            old(self).wf(),
        ensures
            final(self).wf(),
            accepted == accepts(old(self)@, message@),
            final(self)@ == received(old(self)@, source_ip, message@, now),
    {
        if message.router_id == self.router_id {
            return false;
        }
        self.heard.note(source_ip, message.router_id.as_str());
        let ghost nets = advert_views(message.networks@);
        let ghost before = old(self)@.rib;
        let mut i: usize = 0;
        while i < message.networks.len()
            invariant
                i <= message.networks.len(),
                nets == advert_views(message.networks@),
                self@.router_id == old(self)@.router_id,
                self@.interfaces == old(self)@.interfaces,
                self@.expire == old(self)@.expire,
                self@.heard == noted(old(self)@.heard, source_ip, message@.router_id),
                self.heard.wf(),
                self.rib.wf(),
                self.rib@.routes == learned(
                    before.routes,
                    before.exclusions,
                    source_ip,
                    nets.take(i as int),
                    now,
                ),
                self.rib@.exclusions == before.exclusions,
                self.rib@.installed == before.installed,
            decreases message.networks.len() - i,
        {
            let pair = &message.networks[i];
            assert(nets.take(i + 1).drop_last() =~= nets.take(i as int));
            assert(nets.take(i + 1).last() == (pair.0@, pair.1));
            self.rib.consider(pair.0.as_str(), source_ip, pair.1, now);
            i += 1;
        }
        assert(nets.take(i as int) =~= nets);
        true
    }

    /// Closes the listen window at time `now`. The neighbours heard during
    /// the window are handed out for publication and forgotten. Every
    /// learned route that was last seen `expire` or longer ago leaves the
    /// table. Then the kernel is asked to replace the route of each
    /// learned destination that is left and does not denote a host, and
    /// to delete the route of each destination that has just left.
    pub fn close_window(&mut self, now: u64) -> (report: CycleReport)
        requires
            old(self).wf(),
        ensures
            final(self).wf(),
            final(self)@ == closed(old(self)@, now),
            neighbor_views(report.neighbors@) == published(old(self)@),
            route_op_views(report.operations@) == operations(old(self)@, now),
    {
        let neighbors = self.heard.snapshot();
        self.heard.clear();
        let gone = self.rib.age(now, self.expire);
        let asked = self.rib.kernel_routes();
        let ghost w = next_hop_views(asked@);
        let ghost g = texts(gone@);
        let mut ops: Vec<RouteOp> = Vec::new();
        let mut i: usize = 0;
        while i < asked.len()
            invariant
                i <= asked.len(),
                w == next_hop_views(asked@),
                route_op_views(ops@) =~= replace_ops(w.take(i as int)),
            decreases asked.len() - i,
        {
            let h = &asked[i];
            let ghost prior = ops@;
            ops.push(RouteOp::Replace { cidr: h.cidr.clone(), via: h.via });
            assert(route_op_views(ops@) =~= route_op_views(prior).push(replace_op(w[i as int])));
            assert(replace_ops(w.take(i + 1)) =~= replace_ops(w.take(i as int)).push(
                replace_op(w[i as int]),
            ));
            i += 1;
        }
        assert(w.take(i as int) =~= w);
        let mut j: usize = 0;
        while j < gone.len()
            invariant
                j <= gone.len(),
                g == texts(gone@),
                route_op_views(ops@) =~= replace_ops(w) + delete_ops(g.take(j as int)),
            decreases gone.len() - j,
        {
            let ghost prior = ops@;
            ops.push(RouteOp::Delete { cidr: gone[j].clone() });
            assert(route_op_views(ops@) =~= route_op_views(prior).push(delete_op(g[j as int])));
            assert(delete_ops(g.take(j + 1)) =~= delete_ops(g.take(j as int)).push(
                delete_op(g[j as int]),
            ));
            j += 1;
        }
        assert(g.take(j as int) =~= g);
        self.rib.record_installed(asked);
        assert(self@.interfaces == old(self)@.interfaces);
        CycleReport { neighbors, operations: ops }
    }
}

} // verus!
