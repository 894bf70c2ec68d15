//! Plain-value network addresses.
//!
//! An address is kept as the octets that go on the wire, so that the codec
//! and the tables can reason about it byte by byte.

use vstd::prelude::*;

verus! {

/// An IPv4 or IPv6 address, as its octets in network order.
#[derive(Clone, Copy, Debug, PartialEq, Eq, Hash)]
pub enum IpAddr {
    V4([u8; 4]),
    V6([u8; 16]),
}

/// The endpoint a datagram came from: an address and a UDP port. The flow
/// label and the scope identifier tell two IPv6 endpoints apart; both are zero
/// for IPv4.
#[derive(Clone, Copy, Debug, PartialEq, Eq, Hash)]
pub struct SocketAddr {
    pub ip: IpAddr,
    pub port: u16,
    pub flowinfo: u32,
    pub scope_id: u32,
}

/// Whether two 4-octet arrays hold the same octets.
pub fn octets4_eq(a: &[u8; 4], b: &[u8; 4]) -> (r: bool)
    ensures
        r == (*a == *b),
{
    let r = a[0] == b[0] && a[1] == b[1] && a[2] == b[2] && a[3] == b[3];
    assert(r == (*a =~= *b));
    r
}

/// Whether two 8-octet arrays hold the same octets.
pub fn octets8_eq(a: &[u8; 8], b: &[u8; 8]) -> (r: bool)
    ensures
        r == (*a == *b),
{
    let mut i: usize = 0;
    while i < 8
        invariant
            i <= 8,
            forall|j: int| 0 <= j < i ==> a[j] == b[j],
        decreases 8 - i,
    {
        if a[i] != b[i] {
            return false;
        }
        i = i + 1;
    }
    assert(*a =~= *b);
    true
}

/// Whether two 16-octet arrays hold the same octets.
pub fn octets16_eq(a: &[u8; 16], b: &[u8; 16]) -> (r: bool)
    ensures
        r == (*a == *b),
{
    let mut i: usize = 0;
    while i < 16
        invariant
            i <= 16,
            forall|j: int| 0 <= j < i ==> a[j] == b[j],
        decreases 16 - i,
    {
        if a[i] != b[i] {
            return false;
        }
        i = i + 1;
    }
    assert(*a =~= *b);
    true
}

impl IpAddr {
    /// The octets of the address, in network order.
    pub open spec fn octets(self) -> Seq<u8> {
        match self {
            IpAddr::V4(a) => a@,
            IpAddr::V6(a) => a@,
        }
    }

    /// Whether `self` and `other` are the same address.
    pub fn same(&self, other: &IpAddr) -> (r: bool)
        ensures
            r == (*self == *other),
    {
        match (self, other) {
            (IpAddr::V4(a), IpAddr::V4(b)) => octets4_eq(a, b),
            (IpAddr::V6(a), IpAddr::V6(b)) => octets16_eq(a, b),
            _ => false,
        }
    }

    /// Whether this is an IPv4 address.
    pub fn is_ipv4(&self) -> (r: bool)
        ensures
            r == (*self is V4),
    {
        match self {
            IpAddr::V4(_) => true,
            IpAddr::V6(_) => false,
        }
    }
}

/// Whether two optional addresses are both absent or the same address.
pub fn opt_ip_same(a: &Option<IpAddr>, b: &Option<IpAddr>) -> (r: bool)
    ensures
        r == (*a == *b),
{
    match (a, b) {
        (Some(x), Some(y)) => x.same(y),
        (None, None) => true,
        _ => false,
    }
}

impl SocketAddr {
    /// An endpoint from an address and a port, with no flow label or scope.
    pub fn new(ip: IpAddr, port: u16) -> (r: SocketAddr)
        ensures
            r == (SocketAddr { ip, port, flowinfo: 0, scope_id: 0 }),
    {
        SocketAddr { ip, port, flowinfo: 0, scope_id: 0 }
    }

    /// The address part of the endpoint.
    pub fn ip(&self) -> (r: IpAddr)
        ensures
            r == self.ip,
    {
        self.ip
    }

    /// The port part of the endpoint.
    pub fn port(&self) -> (r: u16)
        ensures
            r == self.port,
    {
        self.port
    }

    /// Whether `self` and `other` are the same endpoint.
    pub fn same(&self, other: &SocketAddr) -> (r: bool)
        ensures
            r == (*self == *other),
    {
        self.port == other.port && self.flowinfo == other.flowinfo && self.scope_id
            == other.scope_id && self.ip.same(&other.ip)
    }
}

} // verus!
