//! The advertisement that routers exchange.

use vstd::prelude::*;
use crate::route::advert_views;

verus! {

/// One advertisement: who sends it, and the networks that the sender
/// reaches, each with its hop count.
#[derive(Clone, PartialEq, Eq, Debug)]
pub struct HelloMsg {
    /// The sender's identifier.
    pub router_id: String,
    /// The advertised networks: CIDR text and hop count.
    pub networks: Vec<(String, u32)>,
}

/// A [`HelloMsg`] as a mathematical value.
pub struct HelloView {
    pub router_id: Seq<char>,
    pub networks: Seq<(Seq<char>, u32)>,
}

impl View for HelloMsg {
    type V = HelloView;

    open spec fn view(&self) -> HelloView {
        HelloView { router_id: self.router_id@, networks: advert_views(self.networks@) }
    }
}

/// An advertisement on its way out: the local address to send it from and
/// the broadcast address to send it to.
#[derive(Clone, PartialEq, Eq, Debug)]
pub struct Advertisement {
    /// The address of the interface that sends.
    pub local_ip: u32,
    /// The directed broadcast address of that interface's network.
    pub broadcast: u32,
    /// What is sent.
    pub message: HelloMsg,
}

/// An [`Advertisement`] as a mathematical value.
pub struct AdvertisementView {
    pub local_ip: u32,
    pub broadcast: u32,
    pub message: HelloView,
}

impl View for Advertisement {
    type V = AdvertisementView;

    open spec fn view(&self) -> AdvertisementView {
        AdvertisementView {
            local_ip: self.local_ip,
            broadcast: self.broadcast,
            message: self.message@,
        }
    }
}

/// The views of a sequence of outgoing advertisements.
pub open spec fn advertisement_views(v: Seq<Advertisement>) -> Seq<AdvertisementView> {
    v.map_values(|a: Advertisement| a@)
}

} // verus!
