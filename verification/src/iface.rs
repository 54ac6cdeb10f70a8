//! The host's IPv4 interfaces, as the engine sees them: the local address,
//! the prefix length, the network in CIDR text and the directed broadcast
//! address.

use vstd::prelude::*;
use crate::addr::{dotted, push_dotted};
use crate::text::{decimal, push_decimal};

verus! {

/// The host bits of a network with `prefix` leading network bits: the low
/// `32 - prefix` bits set, the rest clear.
pub open spec fn host_mask(prefix: u8) -> u32 {
    (0xffff_ffffu64 >> (prefix as u64)) as u32
}

/// The lowest address of the network that `ip` lies in.
pub open spec fn network_of(ip: u32, prefix: u8) -> u32 {
    ip & !host_mask(prefix)
}

/// The highest address of the network that `ip` lies in.
pub open spec fn broadcast_of(ip: u32, prefix: u8) -> u32 {
    ip | host_mask(prefix)
}

/// The CIDR text of a network, as in `192.168.1.0/24`.
pub open spec fn cidr(network: u32, prefix: u8) -> Seq<char> {
    dotted(network) + seq!['/'] + decimal(prefix as nat)
}

/// Calls `pnet::ipnetwork::Ipv4Network::network` on the network that
/// `Ipv4Network::new` makes of `ip` and `prefix`. Trusted: `new` fails exactly
/// on a prefix above 32, and `network` clears the host bits of the address.
#[verifier::external_body]
fn network_address(ip: u32, prefix: u8) -> (r: Option<u32>)
    ensures
        r == if prefix <= 32 {
            Some(network_of(ip, prefix))
        } else {
            None::<u32>
        },
{
    match pnet::ipnetwork::Ipv4Network::new(ip.into(), prefix) {
        Ok(net) => Some(net.network().into()),
        Err(_) => None,
    }
}

/// Calls `pnet::ipnetwork::Ipv4Network::broadcast` on the network that
/// `Ipv4Network::new` makes of `ip` and `prefix`. Trusted: `new` fails exactly
/// on a prefix above 32, and `broadcast` sets the host bits of the address.
#[verifier::external_body]
fn broadcast_address(ip: u32, prefix: u8) -> (r: Option<u32>)
    ensures
        r == if prefix <= 32 {
            Some(broadcast_of(ip, prefix))
        } else {
            None::<u32>
        },
{
    match pnet::ipnetwork::Ipv4Network::new(ip.into(), prefix) {
        Ok(net) => Some(net.broadcast().into()),
        Err(_) => None,
    }
}

/// The CIDR text of `network` with `prefix`.
pub fn cidr_text(network: u32, prefix: u8) -> (s: String)
    ensures
        s@ == cidr(network, prefix),
{
    proof {
        reveal_strlit("/");
    }
    let mut s = String::new();
    push_dotted(&mut s, network);
    s.append("/");
    push_decimal(&mut s, prefix as u32);
    assert(s@ =~= cidr(network, prefix));
    s
}

/// One IPv4 address of one interface of this host.
pub struct Interface {
    /// The local address.
    pub ip: u32,
    /// The number of leading network bits.
    pub prefix: u8,
    /// The network in CIDR text.
    pub network: String,
    /// The directed broadcast address.
    pub broadcast: u32,
}

/// An [`Interface`] as a mathematical value.
pub struct InterfaceView {
    pub ip: u32,
    pub prefix: u8,
    pub network: Seq<char>,
    pub broadcast: u32,
}

impl View for Interface {
    type V = InterfaceView;

    open spec fn view(&self) -> InterfaceView {
        InterfaceView {
            ip: self.ip,
            prefix: self.prefix,
            network: self.network@,
            broadcast: self.broadcast,
        }
    }
}

/// The views of a sequence of interfaces.
pub open spec fn interface_views(v: Seq<Interface>) -> Seq<InterfaceView> {
    v.map_values(|i: Interface| i@)
}

/// What [`Interface::new`] makes of an address and a prefix of at most 32.
pub open spec fn interface_of(ip: u32, prefix: u8) -> InterfaceView {
    InterfaceView {
        ip,
        prefix,
        network: cidr(network_of(ip, prefix), prefix),
        broadcast: broadcast_of(ip, prefix),
    }
}

impl Interface {
    /// The interface with address `ip` in a network of `prefix` leading bits;
    /// `None` where `prefix` is above 32.
    pub fn new(ip: u32, prefix: u8) -> (r: Option<Interface>)
        ensures
            r is Some <==> prefix <= 32,
            r matches Some(i) ==> i@ == interface_of(ip, prefix),
    {
        match (network_address(ip, prefix), broadcast_address(ip, prefix)) {
            (Some(network), Some(broadcast)) => Some(
                Interface { ip, prefix, network: cidr_text(network, prefix), broadcast },
            ),
            _ => None,
        }
    }

    /// A copy of this interface.
    pub fn duplicate(&self) -> (r: Interface)
        ensures
            r@ == self@,
    {
        Interface {
            ip: self.ip,
            prefix: self.prefix,
            network: self.network.clone(),
            broadcast: self.broadcast,
        }
    }
}

/// An address lies between the network address and the broadcast address
/// of its network, and the network address lies in the same network.
pub proof fn law_address_lies_in_its_network(ip: u32, prefix: u8)
    ensures
        network_of(ip, prefix) <= ip <= broadcast_of(ip, prefix),
        network_of(network_of(ip, prefix), prefix) == network_of(ip, prefix),
        broadcast_of(network_of(ip, prefix), prefix) == broadcast_of(ip, prefix),
{
    let m = host_mask(prefix);
    assert((ip & !m) <= ip && ip <= (ip | m) && ((ip & !m) & !m) == (ip & !m) && ((ip & !m) | m)
        == (ip | m)) by (bit_vector);
}

} // verus!
