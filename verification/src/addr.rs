//! Network endpoints as plain values.

use vstd::prelude::*;

verus! {

/// A socket address: an IP address with a port. Two endpoints are the same
/// peer exactly when all their parts agree.
#[derive(Clone, Copy, Debug, PartialEq, Eq, Hash, Structural)]
pub enum PeerAddr {
    /// IPv4: the four octets in network order, most significant first.
    V4 { ip: u32, port: u16 },
    /// IPv6: the sixteen octets in network order, with flow label and scope.
    V6 { ip6: u128, port: u16, flowinfo: u32, scope_id: u32 },
}

/// The 32-bit value of the dotted quad `a.b.c.d`.
pub open spec fn quad(a: u8, b: u8, c: u8, d: u8) -> int {
    a as int * 0x100_0000 + b as int * 0x1_0000 + c as int * 0x100 + d as int
}

impl PeerAddr {
    /// The IPv4 endpoint `a.b.c.d:port`.
    pub fn v4(a: u8, b: u8, c: u8, d: u8, port: u16) -> (r: PeerAddr)
        ensures
            r == (PeerAddr::V4 { ip: quad(a, b, c, d) as u32, port }),
            quad(a, b, c, d) == r->V4_ip,
    {
        let ip: u32 = (a as u32) * 0x100_0000 + (b as u32) * 0x1_0000 + (c as u32) * 0x100 + (
        d as u32);
        PeerAddr::V4 { ip, port }
    }

    /// The port of the endpoint.
    pub fn port(&self) -> (p: u16)
        ensures
            p == self.spec_port(),
    {
        match self {
            PeerAddr::V4 { port, .. } => *port,
            PeerAddr::V6 { port, .. } => *port,
        }
    }

    pub open spec fn spec_port(&self) -> u16 {
        match *self {
            PeerAddr::V4 { port, .. } => port,
            PeerAddr::V6 { port, .. } => port,
        }
    }
}

/// Whether `list` holds `addr`.
pub fn contains_addr(list: &Vec<PeerAddr>, addr: PeerAddr) -> (found: bool)
    ensures
        found == list@.contains(addr),
{
    let mut i: usize = 0;
    while i < list.len()
        invariant
            i <= list.len(),
            forall|j: int| 0 <= j < i ==> list@[j] != addr,
        decreases list.len() - i,
    {
        if list[i] == addr {
            return true;
        }
        i += 1;
    }
    false
}

} // verus!
