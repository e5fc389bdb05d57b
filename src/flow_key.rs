//! The identity of a flow: source and destination address and port.
use vstd::prelude::*;

use crate::headers::{
    be16,
    be32,
    carries_ports,
    parses_to,
    HeaderView,
    OsNetIPv4Header,
    OsNetPacket,
    OsNetTcpUdpHeader,
    ETHER_TYPE_IPV4,
};

verus! {

/// A flow's key. Direction matters: the reverse of a conversation is a
/// different flow.
#[derive(Clone, Copy, Debug, PartialEq, Eq, Structural)]
pub struct FlowKey {
    pub src_addr: u32,
    pub dst_addr: u32,
    pub src_port: u16,
    pub dst_port: u16,
}

impl FlowKey {
    pub open spec fn of(ipv4: OsNetIPv4Header, ports: OsNetTcpUdpHeader) -> FlowKey {
        FlowKey {
            src_addr: ipv4.src_addr,
            dst_addr: ipv4.dst_addr,
            src_port: ports.src_port,
            dst_port: ports.dst_port,
        }
    }

    /// The key of the flow that an IPv4 header and a port pair belong to.
    pub fn from_headers(ipv4: &OsNetIPv4Header, ports: &OsNetTcpUdpHeader) -> (r: FlowKey)
        ensures
            r == FlowKey::of(*ipv4, *ports),
    {
        FlowKey {
            src_addr: ipv4.src_addr,
            dst_addr: ipv4.dst_addr,
            src_port: ports.src_port,
            dst_port: ports.dst_port,
        }
    }
}

/// The key of a fully parsed view; none for any other view.
pub open spec fn view_key(v: HeaderView) -> Option<FlowKey> {
    match v {
        HeaderView::Full { ipv4, ports, .. } => Some(FlowKey::of(ipv4, ports)),
        _ => None,
    }
}

/// The flow key of a packet, read straight from its bytes: present when the
/// packet holds Ethernet, IPv4 of TCP or UDP, and a port pair.
pub open spec fn packet_key(p: OsNetPacket) -> Option<FlowKey> {
    let b = p.data@;
    if p.holds(38) && be16(b, 12) == ETHER_TYPE_IPV4 as int && carries_ports(b[23]) {
        Some(
            FlowKey {
                src_addr: be32(b, 26) as u32,
                dst_addr: be32(b, 30) as u32,
                src_port: be16(b, 34) as u16,
                dst_port: be16(b, 36) as u16,
            },
        )
    } else {
        None
    }
}

/// Parsing a packet yields a view whose key is the packet's key.
pub proof fn lemma_packet_key(p: OsNetPacket, v: HeaderView)
    requires
        parses_to(p, v),
    ensures
        view_key(v) == packet_key(p),
{
}

/// Derives the flow key of a view; only full views have one.
pub fn flow_key(view: &HeaderView) -> (r: Option<FlowKey>)
    ensures
        r == view_key(*view),
{
    match view {
        HeaderView::Full { ipv4, ports, .. } => Some(FlowKey::from_headers(ipv4, ports)),
        _ => None,
    }
}

} // verus!
