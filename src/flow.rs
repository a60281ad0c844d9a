//! Flow identity: the pair (source, original destination) of a datagram.

use vstd::prelude::*;
use crate::address::SockAddr;

verus! {

/// One socket address as a tuple of integers: family (4 or 6), address,
/// port, IPv6 flow label and IPv6 scope id.
pub type AddrKey = (u8, u128, u16, u32, u32);

/// The key of a flow: its source and its original destination.
pub type FlowKey = (AddrKey, AddrKey);

pub open spec fn addr_key(a: SockAddr) -> AddrKey {
    match a {
        SockAddr::V4 { ip, port } => (4u8, ip as u128, port, 0u32, 0u32),
        SockAddr::V6 { ip, port, flowinfo, scope_id } => (6u8, ip, port, flowinfo, scope_id),
    }
}

pub open spec fn flow_key(src: SockAddr, dst: SockAddr) -> FlowKey {
    (addr_key(src), addr_key(dst))
}

fn addr_to_key(a: &SockAddr) -> (r: AddrKey)
    ensures
        r == addr_key(*a),
{
    match a {
        SockAddr::V4 { ip, port } => (4u8, *ip as u128, *port, 0u32, 0u32),
        SockAddr::V6 { ip, port, flowinfo, scope_id } => (6u8, *ip, *port, *flowinfo, *scope_id),
    }
}

/// The key under which the flow from `src` to `dst` is tracked.
pub fn cache_key(src: &SockAddr, dst: &SockAddr) -> (r: FlowKey)
    ensures
        r == flow_key(*src, *dst),
{
    (addr_to_key(src), addr_to_key(dst))
}

/// Two datagrams share a flow key exactly when they share both source and
/// destination.
pub proof fn lemma_flow_key_identity(s1: SockAddr, d1: SockAddr, s2: SockAddr, d2: SockAddr)
    ensures
        (flow_key(s1, d1) == flow_key(s2, d2)) == (s1 == s2 && d1 == d2),
{
    lemma_addr_key_injective(s1, s2);
    lemma_addr_key_injective(d1, d2);
}

proof fn lemma_addr_key_injective(a: SockAddr, b: SockAddr)
    ensures
        (addr_key(a) == addr_key(b)) == (a == b),
{
    match (a, b) {
        (SockAddr::V4 { ip: x, .. }, SockAddr::V4 { ip: y, .. }) => {
            assert(x as u128 == y as u128 ==> x == y);
        },
        _ => {},
    }
}

} // verus!
