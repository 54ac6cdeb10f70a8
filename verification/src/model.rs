//! The engine as a state machine on mathematical values: its state, the
//! events of a cycle, and what each event makes of the state.

use vstd::prelude::*;
use crate::exclusion::excluded;
use crate::iface::InterfaceView;
use crate::kernel::{reconciled, replacements, RouteOpView};
use crate::message::{AdvertisementView, HelloView};
use crate::neighbor::{distinct_sources, noted, NeighborView};
use crate::rib::RibView;
use crate::route::NextHopView;
use crate::table::{advertised, aged, expired, learned, seeded, table_wf};

verus! {

/// The state of the engine.
pub struct EngineView {
    /// This router's identifier.
    pub router_id: Seq<char>,
    /// The interfaces that advertisements are sent on.
    pub interfaces: Seq<InterfaceView>,
    /// The routing information base.
    pub rib: RibView,
    /// The neighbours heard since the listen window opened.
    pub heard: Seq<NeighborView>,
    /// How long a learned route lasts without being installed anew.
    pub expire: u64,
}

/// What happens to the engine during a cycle.
pub enum Event {
    /// A decoded advertisement arrived from `source` at time `now`.
    Heard { source: u32, message: HelloView, now: u64 },
    /// The listen window closed at time `now`.
    Closed { now: u64 },
}

/// The invariant of the engine: that of its table, distinct addresses
/// among the neighbours heard, and no interface on an excluded network.
pub open spec fn engine_wf(s: EngineView) -> bool {
    &&& table_wf(s.rib.routes, s.rib.exclusions)
    &&& distinct_sources(s.heard)
    &&& forall|i: int|
        0 <= i < s.interfaces.len() ==> !excluded(
            s.rib.exclusions,
            (#[trigger] s.interfaces[i]).network,
        )
}

/// Whether an interface is on a network that `excl` lets through.
pub open spec fn admitted(excl: Seq<Seq<char>>) -> spec_fn(InterfaceView) -> bool {
    |i: InterfaceView| !excluded(excl, i.network)
}

/// The networks of a sequence of interfaces.
pub open spec fn networks_of(interfaces: Seq<InterfaceView>) -> Seq<Seq<char>> {
    interfaces.map_values(|i: InterfaceView| i.network)
}

/// The state in which an engine starts at time `now`: it sends on the
/// interfaces whose network is not excluded, its table holds their
/// networks as local routes, and it has heard of nobody.
pub open spec fn started(
    router_id: Seq<char>,
    interfaces: Seq<InterfaceView>,
    excl: Seq<Seq<char>>,
    expire: u64,
    now: u64,
) -> EngineView {
    EngineView {
        router_id,
        interfaces: interfaces.filter(admitted(excl)),
        rib: RibView {
            exclusions: excl,
            routes: seeded(Seq::empty(), excl, networks_of(interfaces), now),
            installed: Seq::empty(),
        },
        heard: Seq::empty(),
        expire,
    }
}

/// What the engine sends on the interface `i`: its identifier and the
/// routes that were not learned from a neighbour with the address of `i`.
pub open spec fn outgoing(s: EngineView, i: InterfaceView) -> AdvertisementView {
    AdvertisementView {
        local_ip: i.ip,
        broadcast: i.broadcast,
        message: HelloView { router_id: s.router_id, networks: advertised(s.rib.routes, i.ip) },
    }
}

/// What the engine sends in the send phase: one advertisement for each
/// interface, in order.
pub open spec fn emitted(s: EngineView) -> Seq<AdvertisementView> {
    Seq::new(s.interfaces.len(), |k: int| outgoing(s, s.interfaces[k]))
}

/// Whether the engine takes an advertisement in: not where it carries the
/// engine's own identifier.
pub open spec fn accepts(s: EngineView, message: HelloView) -> bool {
    message.router_id != s.router_id
}

/// The state after an advertisement from `source` arrived at time `now`.
/// One that the engine does not take in changes nothing. Of the others the
/// sender is noted and each network considered, first to last.
pub open spec fn received(s: EngineView, source: u32, message: HelloView, now: u64) -> EngineView {
    if accepts(s, message) {
        EngineView {
            rib: RibView {
                routes: learned(s.rib.routes, s.rib.exclusions, source, message.networks, now),
                ..s.rib
            },
            heard: noted(s.heard, source, message.router_id),
            ..s
        }
    } else {
        s
    }
}

/// The kernel routes that the engine asks for when the window closes at
/// time `now`.
pub open spec fn wanted(s: EngineView, now: u64) -> Seq<NextHopView> {
    replacements(aged(s.rib.routes, now, s.expire))
}

/// The state after the listen window closed at time `now`: the table is
/// aged, the kernel routes asked for are recorded, and the neighbours
/// heard are handed out and forgotten.
pub open spec fn closed(s: EngineView, now: u64) -> EngineView {
    EngineView {
        rib: RibView {
            routes: aged(s.rib.routes, now, s.expire),
            installed: wanted(s, now),
            ..s.rib
        },
        heard: Seq::empty(),
        ..s
    }
}

/// The neighbours published when the window closes: those heard during it.
pub open spec fn published(s: EngineView) -> Seq<NeighborView> {
    s.heard
}

/// The requests to the kernel when the window closes at time `now`: a
/// replacement for each learned route that is left and does not denote a
/// host, then a deletion for each destination that was aged out.
pub open spec fn operations(s: EngineView, now: u64) -> Seq<RouteOpView> {
    reconciled(wanted(s, now), expired(s.rib.routes, now, s.expire))
}

/// The state after one event.
pub open spec fn step(s: EngineView, e: Event) -> EngineView {
    match e {
        Event::Heard { source, message, now } => received(s, source, message, now),
        Event::Closed { now } => closed(s, now),
    }
}

/// The state after a sequence of events, first to last.
pub open spec fn run(s: EngineView, events: Seq<Event>) -> EngineView
    decreases events.len(),
{
    if events.len() == 0 {
        s
    } else {
        step(run(s, events.drop_last()), events.last())
    }
}

} // verus!
