//! Where an outgoing packet goes: the decision the TUN pump takes for each
//! frame after the routing lookup, and the hop bound on forwarded packets.

use vstd::prelude::*;

use crate::net::{ProtocolMode, SockAddr};
use crate::routing_table::Item;

verus! {

/// How many times a packet may be forwarded on by intermediate nodes.
pub const MAX_FORWARD_HOPS: u8 = 2;

/// Everything of a peer the egress decision reads.
#[derive(Clone, Copy, Debug, PartialEq, Eq, Structural)]
pub struct PeerPathView {
    /// The peer's WAN endpoint, when learned.
    pub wan_addr: Option<SockAddr>,
    /// The transports the peer enables.
    pub mode: ProtocolMode,
    /// Whether the direct UDP path is currently up.
    pub direct_up: bool,
}

/// Where one frame leaves the node.
#[derive(Clone, Copy, Debug, PartialEq, Eq, Structural)]
pub enum Egress {
    /// Straight to the peer's WAN endpoint over UDP.
    P2pDirect { dest: SockAddr },
    /// To the server over UDP, wrapped for relaying.
    RelayUdp,
    /// Onto the server's TCP session, wrapped for forwarding.
    ForwardTcp,
    /// Back onto the TUN device: the frame is for this node.
    WriteTun,
    /// Back to the kernel: no rule matched, and the node allows that.
    ToKernel,
    Drop,
}

/// The transports both ends allow between this node and the peer: the
/// pairwise override narrows the local mode when one is configured.
pub open spec fn spec_effective_mode(own: ProtocolMode, specify: Option<ProtocolMode>) -> ProtocolMode {
    match specify {
        Some(s) => ProtocolMode {
            p2p_tcp: own.p2p_tcp && s.p2p_tcp,
            p2p_udp: own.p2p_udp && s.p2p_udp,
            relay_tcp: own.relay_tcp && s.relay_tcp,
            relay_udp: own.relay_udp && s.relay_udp,
        },
        None => own,
    }
}

/// The decision for one frame, given the routing lookup's answer and the
/// peer's state. Direct UDP is preferred, then UDP relaying through the
/// server, then TCP relaying; a frame with no usable path is dropped, and a
/// frame with no route goes to the kernel only when the node allows it.
pub open spec fn spec_egress(
    found: Option<Item>,
    self_addr: u32,
    peer: Option<PeerPathView>,
    own_mode: ProtocolMode,
    specify: Option<ProtocolMode>,
    allow_to_kernel: bool,
) -> Egress {
    match found {
        None => if allow_to_kernel {
            Egress::ToKernel
        } else {
            Egress::Drop
        },
        Some(item) => {
            if item.gateway == self_addr {
                Egress::WriteTun
            } else {
                match peer {
                    None => Egress::Drop,
                    Some(p) => {
                        let m = spec_effective_mode(own_mode, specify);
                        if m.p2p_udp && p.mode.p2p_udp && p.direct_up && p.wan_addr is Some {
                            Egress::P2pDirect { dest: p.wan_addr->Some_0 }
                        } else if m.relay_udp && p.mode.relay_udp {
                            Egress::RelayUdp
                        } else if m.relay_tcp && p.mode.relay_tcp {
                            Egress::ForwardTcp
                        } else {
                            Egress::Drop
                        }
                    },
                }
            }
        },
    }
}

pub fn effective_mode(own: &ProtocolMode, specify: &Option<ProtocolMode>) -> (r: ProtocolMode)
    ensures
        r == spec_effective_mode(*own, *specify),
{
    match specify {
        Some(s) => own.intersect(s),
        None => *own,
    }
}

pub fn classify_egress(
    found: &Option<Item>,
    self_addr: u32,
    peer: &Option<PeerPathView>,
    own_mode: &ProtocolMode,
    specify: &Option<ProtocolMode>,
    allow_to_kernel: bool,
) -> (r: Egress)
    ensures
        r == spec_egress(*found, self_addr, *peer, *own_mode, *specify, allow_to_kernel),
{
    match found {
        None => if allow_to_kernel {
            Egress::ToKernel
        } else {
            Egress::Drop
        },
        Some(item) => {
            if item.gateway == self_addr {
                Egress::WriteTun
            } else {
                match peer {
                    None => Egress::Drop,
                    Some(p) => {
                        let m = effective_mode(own_mode, specify);
                        if m.p2p_udp && p.mode.p2p_udp && p.direct_up && p.wan_addr.is_some() {
                            match p.wan_addr {
                                Some(dest) => Egress::P2pDirect { dest },
                                None => Egress::Drop,
                            }
                        } else if m.relay_udp && p.mode.relay_udp {
                            Egress::RelayUdp
                        } else if m.relay_tcp && p.mode.relay_tcp {
                            Egress::ForwardTcp
                        } else {
                            Egress::Drop
                        }
                    },
                }
            }
        },
    }
}

/// Whether a packet that arrived for another node may be sent on: the node
/// must allow forwarding, and the packet must not have exhausted its hop
/// budget.
pub fn may_forward(allow_packet_forward: bool, hops: u8) -> (r: bool)
    ensures
        r == (allow_packet_forward && hops < MAX_FORWARD_HOPS),
{
    allow_packet_forward && hops < MAX_FORWARD_HOPS
}

} // verus!
