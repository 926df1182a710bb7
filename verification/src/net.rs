//! Plain models of the network-layer values the protocol works on: IPv4
//! addresses as 32-bit integers, CIDR blocks, socket addresses and the
//! per-peer protocol mode flags.

use vstd::prelude::*;

verus! {

/// An IPv4 address inside a group's CIDR, held as its 32-bit value
/// (`10.0.0.1` is `0x0A000001`).
pub type VirtualAddr = u32;

/// The reserved address `255.255.255.254`: it identifies the server as a peer
/// and is never assignable to a node.
pub const SERVER_VIRTUAL_ADDR: u32 = 0xFFFF_FFFEu32;

/// An IPv4 CIDR block: a base address and a prefix length.
#[derive(Clone, Copy, Debug, PartialEq, Eq, Structural)]
pub struct Ipv4Cidr {
    pub addr: u32,
    pub prefix: u8,
}

/// The netmask of a prefix length: the `prefix` high bits set.
pub open spec fn spec_mask_of(prefix: u8) -> u32 {
    if prefix == 0 {
        0u32
    } else if prefix >= 32 {
        0xFFFF_FFFFu32
    } else {
        (0xFFFF_FFFFu32 << ((32 - prefix) as u32)) as u32
    }
}

impl Ipv4Cidr {
    /// A prefix length beyond 32 bits names no IPv4 block.
    pub open spec fn wf(self) -> bool {
        self.prefix <= 32
    }

    /// Whether `addr` lies inside this block: it agrees with the base address
    /// on the `prefix` high bits.
    pub open spec fn spec_contains(self, addr: u32) -> bool {
        (self.addr ^ addr) & spec_mask_of(self.prefix) == 0u32
    }

    /// The lowest address of the block.
    pub open spec fn spec_network(self) -> u32 {
        self.addr & spec_mask_of(self.prefix)
    }

    /// The highest address of the block.
    pub open spec fn spec_broadcast(self) -> u32 {
        self.addr | (!spec_mask_of(self.prefix)) as u32
    }

    pub fn new(addr: u32, prefix: u8) -> (r: Option<Ipv4Cidr>)
        ensures
            prefix <= 32 ==> r == Some(Ipv4Cidr { addr, prefix }),
            prefix > 32 ==> r is None,
    {
        if prefix <= 32 {
            Some(Ipv4Cidr { addr, prefix })
        } else {
            None
        }
    }

    pub fn mask(&self) -> (r: u32)
        requires
            self.wf(),
        ensures
            r == spec_mask_of(self.prefix),
    {
        if self.prefix == 0 {
            0u32
        } else if self.prefix >= 32 {
            0xFFFF_FFFFu32
        } else {
            0xFFFF_FFFFu32 << ((32 - self.prefix) as u32)
        }
    }

    pub fn contains(&self, addr: u32) -> (r: bool)
        requires
            self.wf(),
        ensures
            r == self.spec_contains(addr),
    {
        (self.addr ^ addr) & self.mask() == 0
    }

    pub fn network(&self) -> (r: u32)
        requires
            self.wf(),
        ensures
            r == self.spec_network(),
    {
        self.addr & self.mask()
    }

    pub fn broadcast(&self) -> (r: u32)
        requires
            self.wf(),
        ensures
            r == self.spec_broadcast(),
    {
        self.addr | !self.mask()
    }
}

/// An IP address of either family, as reported for a peer's LAN endpoint.
#[derive(Clone, Copy, Debug, PartialEq, Eq, Structural)]
pub enum IpAddress {
    V4(u32),
    V6(u128),
}

impl IpAddress {
    /// `127.0.0.0/8` for IPv4, `::1` for IPv6.
    pub open spec fn spec_is_loopback(self) -> bool {
        match self {
            IpAddress::V4(a) => a >> 24u32 == 127u32,
            IpAddress::V6(a) => a == 1u128,
        }
    }

    /// `0.0.0.0` for IPv4, `::` for IPv6.
    pub open spec fn spec_is_unspecified(self) -> bool {
        match self {
            IpAddress::V4(a) => a == 0u32,
            IpAddress::V6(a) => a == 0u128,
        }
    }

    pub open spec fn spec_is_v6(self) -> bool {
        self is V6
    }

    pub fn is_loopback(&self) -> (r: bool)
        ensures
            r == self.spec_is_loopback(),
    {
        match self {
            IpAddress::V4(a) => *a >> 24u32 == 127,
            IpAddress::V6(a) => *a == 1,
        }
    }

    pub fn is_unspecified(&self) -> (r: bool)
        ensures
            r == self.spec_is_unspecified(),
    {
        match self {
            IpAddress::V4(a) => *a == 0,
            IpAddress::V6(a) => *a == 0,
        }
    }

    pub fn is_v6(&self) -> (r: bool)
        ensures
            r == self.spec_is_v6(),
    {
        match self {
            IpAddress::V4(_) => false,
            IpAddress::V6(_) => true,
        }
    }
}

/// A transport endpoint: an address and a UDP or TCP port.
#[derive(Clone, Copy, Debug, PartialEq, Eq, Structural)]
pub struct SockAddr {
    pub ip: IpAddress,
    pub port: u16,
}

/// Which transports a peer enables, separately for the direct path (`p2p`)
/// and the path through the server (`relay`).
#[derive(Clone, Copy, Debug, PartialEq, Eq, Structural)]
pub struct ProtocolMode {
    pub p2p_tcp: bool,
    pub p2p_udp: bool,
    pub relay_tcp: bool,
    pub relay_udp: bool,
}

impl ProtocolMode {
    /// The default mode: direct paths over UDP only, relaying over both
    /// transports.
    pub open spec fn spec_default() -> ProtocolMode {
        ProtocolMode { p2p_tcp: false, p2p_udp: true, relay_tcp: true, relay_udp: true }
    }

    pub open spec fn spec_is_use_udp(self) -> bool {
        self.p2p_udp || self.relay_udp
    }

    pub fn default_mode() -> (r: ProtocolMode)
        ensures
            r == ProtocolMode::spec_default(),
    {
        ProtocolMode { p2p_tcp: false, p2p_udp: true, relay_tcp: true, relay_udp: true }
    }

    pub fn is_use_udp(&self) -> (r: bool)
        ensures
            r == self.spec_is_use_udp(),
    {
        self.p2p_udp || self.relay_udp
    }

    /// The transports both sides permit: a pairwise `specify_mode` override
    /// narrows the local mode.
    pub fn intersect(&self, other: &ProtocolMode) -> (r: ProtocolMode)
        ensures
            r.p2p_tcp == (self.p2p_tcp && other.p2p_tcp),
            r.p2p_udp == (self.p2p_udp && other.p2p_udp),
            r.relay_tcp == (self.relay_tcp && other.relay_tcp),
            r.relay_udp == (self.relay_udp && other.relay_udp),
    {
        ProtocolMode {
            p2p_tcp: self.p2p_tcp && other.p2p_tcp,
            p2p_udp: self.p2p_udp && other.p2p_udp,
            relay_tcp: self.relay_tcp && other.relay_tcp,
            relay_udp: self.relay_udp && other.relay_udp,
        }
    }
}

} // verus!
