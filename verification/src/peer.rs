use vstd::prelude::*;

use crate::bytes::bytes_equal;

verus! {

/// The address a peer is reached at, by family, held in its canonical
/// textual form (dotted quad for IPv4, RFC 5952 form for IPv6).
#[derive(Debug)]
pub enum IpAddress {
    V4(Vec<u8>),
    V6(Vec<u8>),
}

/// The mathematical model of an [`IpAddress`].
pub enum IpAddressView {
    V4(Seq<u8>),
    V6(Seq<u8>),
}

impl IpAddressView {
    pub open spec fn is_ipv4(self) -> bool {
        self is V4
    }

    pub open spec fn text(self) -> Seq<u8> {
        match self {
            IpAddressView::V4(t) => t,
            IpAddressView::V6(t) => t,
        }
    }
}

impl View for IpAddress {
    type V = IpAddressView;

    open spec fn view(&self) -> IpAddressView {
        match self {
            IpAddress::V4(t) => IpAddressView::V4(t@),
            IpAddress::V6(t) => IpAddressView::V6(t@),
        }
    }
}

impl IpAddress {
    pub fn is_ipv4(&self) -> (r: bool)
        ensures
            r == self@.is_ipv4(),
    {
        match self {
            IpAddress::V4(_) => true,
            IpAddress::V6(_) => false,
        }
    }

    /// The textual form of the address.
    pub fn text(&self) -> (t: &Vec<u8>)
        ensures
            t@ == self@.text(),
    {
        match self {
            IpAddress::V4(t) => t,
            IpAddress::V6(t) => t,
        }
    }

    pub fn same(&self, other: &IpAddress) -> (eq: bool)
        ensures
            eq == (self@ == other@),
    {
        match (self, other) {
            (IpAddress::V4(a), IpAddress::V4(b)) => bytes_equal(a.as_slice(), b.as_slice()),
            (IpAddress::V6(a), IpAddress::V6(b)) => bytes_equal(a.as_slice(), b.as_slice()),
            _ => false,
        }
    }
}

impl Clone for IpAddress {
    fn clone(&self) -> (c: Self)
        ensures
            c@ == self@,
    {
        match self {
            IpAddress::V4(t) => IpAddress::V4(t.clone()),
            IpAddress::V6(t) => IpAddress::V6(t.clone()),
        }
    }
}

/// A peer of a swarm: its id, its address and its port.
#[derive(Debug)]
pub struct Peer {
    pub id: Vec<u8>,
    pub ip: IpAddress,
    pub port: u16,
}

/// The mathematical model of a [`Peer`].
pub struct PeerView {
    pub id: Seq<u8>,
    pub ip: IpAddressView,
    pub port: u16,
}

impl View for Peer {
    type V = PeerView;

    open spec fn view(&self) -> PeerView {
        PeerView { id: self.id@, ip: self.ip@, port: self.port }
    }
}

impl Peer {
    /// Whether two peers are the same peer (equal id, address and port).
    pub fn same(&self, other: &Peer) -> (eq: bool)
        ensures
            eq == (self@ == other@),
    {
        self.port == other.port && self.ip.same(&other.ip) && bytes_equal(
            self.id.as_slice(),
            other.id.as_slice(),
        )
    }
}

impl Clone for Peer {
    fn clone(&self) -> (c: Self)
        ensures
            c@ == self@,
    {
        Peer { id: self.id.clone(), ip: self.ip.clone(), port: self.port }
    }
}

/// The models of a sequence of peers.
pub open spec fn peer_views(peers: Seq<Peer>) -> Seq<PeerView> {
    peers.map_values(|p: Peer| p@)
}

} // verus!
