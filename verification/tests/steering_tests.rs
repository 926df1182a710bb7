use fubuki::net::{IpAddress, Ipv4Cidr, ProtocolMode, SockAddr};
use fubuki::routing_table::{Extend, Item, ItemKind};
use fubuki::steering::{classify_egress, may_forward, Egress, PeerPathView, MAX_FORWARD_HOPS};

fn route_to(gateway: u32) -> Option<Item> {
    Some(Item {
        cidr: Ipv4Cidr { addr: 0x0A00_0000, prefix: 24 },
        gateway,
        interface_index: 0,
        extend: Extend { item_kind: Some(ItemKind::VirtualRange) },
    })
}

fn wan() -> SockAddr {
    SockAddr { ip: IpAddress::V4(0x0505_0505), port: 6000 }
}

fn full_mode() -> ProtocolMode {
    ProtocolMode { p2p_tcp: false, p2p_udp: true, relay_tcp: true, relay_udp: true }
}

#[test]
fn no_route_goes_to_kernel_only_when_allowed() {
    let e = classify_egress(&None, 1, &None, &full_mode(), &None, true);
    assert_eq!(e, Egress::ToKernel);
    let e = classify_egress(&None, 1, &None, &full_mode(), &None, false);
    assert_eq!(e, Egress::Drop);
}

#[test]
fn own_address_writes_back_to_tun() {
    let e = classify_egress(&route_to(1), 1, &None, &full_mode(), &None, false);
    assert_eq!(e, Egress::WriteTun);
}

#[test]
fn direct_udp_is_preferred_when_up() {
    let peer = PeerPathView { wan_addr: Some(wan()), mode: full_mode(), direct_up: true };
    let e = classify_egress(&route_to(2), 1, &Some(peer), &full_mode(), &None, false);
    assert_eq!(e, Egress::P2pDirect { dest: wan() });
}

#[test]
fn down_direct_path_falls_back_to_udp_relay() {
    let peer = PeerPathView { wan_addr: Some(wan()), mode: full_mode(), direct_up: false };
    let e = classify_egress(&route_to(2), 1, &Some(peer), &full_mode(), &None, false);
    assert_eq!(e, Egress::RelayUdp);
}

#[test]
fn specify_mode_override_forces_tcp_relay() {
    // with UDP disabled toward this peer by the pairwise override, traffic
    // flows through the server's TCP forwarding
    let peer = PeerPathView { wan_addr: Some(wan()), mode: full_mode(), direct_up: true };
    let tcp_only = ProtocolMode { p2p_tcp: false, p2p_udp: false, relay_tcp: true, relay_udp: false };
    let e = classify_egress(&route_to(2), 1, &Some(peer), &full_mode(), &Some(tcp_only), false);
    assert_eq!(e, Egress::ForwardTcp);
}

#[test]
fn no_permitted_transport_drops() {
    let nothing = ProtocolMode { p2p_tcp: false, p2p_udp: false, relay_tcp: false, relay_udp: false };
    let peer = PeerPathView { wan_addr: Some(wan()), mode: nothing, direct_up: true };
    let e = classify_egress(&route_to(2), 1, &Some(peer), &full_mode(), &None, false);
    assert_eq!(e, Egress::Drop);
}

#[test]
fn unknown_peer_drops() {
    let e = classify_egress(&route_to(2), 1, &None, &full_mode(), &None, true);
    assert_eq!(e, Egress::Drop);
}

#[test]
fn forwarding_respects_the_hop_budget() {
    assert!(may_forward(true, 0));
    assert!(may_forward(true, MAX_FORWARD_HOPS - 1));
    assert!(!may_forward(true, MAX_FORWARD_HOPS));
    assert!(!may_forward(false, 0));
}
