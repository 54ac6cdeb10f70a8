//! One entry of the routing information base.

use vstd::prelude::*;

verus! {

/// How a destination network is reached.
#[derive(Clone, Copy, PartialEq, Eq, Structural, Debug)]
pub enum Via {
    /// The network is directly connected to this host.
    Local,
    /// The network is reached through the neighbour with this address.
    Remote(u32),
}

/// The address that stands for `via` where one is asked for: that of the
/// neighbour, and the unspecified address `0.0.0.0` for a local network.
pub open spec fn via_address(via: Via) -> u32 {
    match via {
        Via::Local => 0,
        Via::Remote(ip) => ip,
    }
}

impl Via {
    /// The neighbour's address, or `0.0.0.0` for a local network.
    pub fn address(&self) -> (ip: u32)
        ensures
            ip == via_address(*self),
    {
        match self {
            Via::Local => 0,
            Via::Remote(ip) => *ip,
        }
    }

    /// Whether the network is directly connected.
    pub fn is_local(&self) -> (b: bool)
        ensures
            b == (*self is Local),
    {
        match self {
            Via::Local => true,
            Via::Remote(_) => false,
        }
    }
}

/// The best known path to one destination network.
#[derive(Clone, PartialEq, Eq, Debug)]
pub struct Route {
    /// The destination, in CIDR text.
    pub cidr: String,
    /// The number of routers on the way; 0 for a local network.
    pub hops: u32,
    /// The next hop.
    pub via: Via,
    /// When the path was installed or last refreshed.
    pub last_seen: u64,
}

/// A [`Route`] as a mathematical value.
pub struct RouteView {
    pub cidr: Seq<char>,
    pub hops: u32,
    pub via: Via,
    pub last_seen: u64,
}

impl View for Route {
    type V = RouteView;

    open spec fn view(&self) -> RouteView {
        RouteView { cidr: self.cidr@, hops: self.hops, via: self.via, last_seen: self.last_seen }
    }
}

impl Route {
    /// A copy of this route.
    pub fn duplicate(&self) -> (r: Route)
        ensures
            r@ == self@,
    {
        Route {
            cidr: self.cidr.clone(),
            hops: self.hops,
            via: self.via,
            last_seen: self.last_seen,
        }
    }
}

/// A route as the kernel holds it: a destination and the neighbour that
/// packets for it are handed to.
#[derive(Clone, PartialEq, Eq, Debug)]
pub struct NextHop {
    /// The destination, in CIDR text.
    pub cidr: String,
    /// The neighbour's address.
    pub via: u32,
}

/// A [`NextHop`] as a mathematical value.
pub struct NextHopView {
    pub cidr: Seq<char>,
    pub via: u32,
}

impl View for NextHop {
    type V = NextHopView;

    open spec fn view(&self) -> NextHopView {
        NextHopView { cidr: self.cidr@, via: self.via }
    }
}

/// The views of a sequence of routes.
pub open spec fn route_views(v: Seq<Route>) -> Seq<RouteView> {
    v.map_values(|r: Route| r@)
}

/// The views of a sequence of kernel routes.
pub open spec fn next_hop_views(v: Seq<NextHop>) -> Seq<NextHopView> {
    v.map_values(|h: NextHop| h@)
}

/// The views of a sequence of advertised networks: text and hop count.
pub open spec fn advert_views(v: Seq<(String, u32)>) -> Seq<(Seq<char>, u32)> {
    v.map_values(|p: (String, u32)| (p.0@, p.1))
}

} // verus!
