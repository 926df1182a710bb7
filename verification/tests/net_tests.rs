use fubuki::net::{IpAddress, Ipv4Cidr, ProtocolMode, SERVER_VIRTUAL_ADDR};

#[test]
fn reserved_address_is_255_255_255_254() {
    assert_eq!(SERVER_VIRTUAL_ADDR, u32::from_be_bytes([255, 255, 255, 254]));
}

#[test]
fn cidr_mask_network_broadcast() {
    let c = Ipv4Cidr { addr: 0x0A01_0203, prefix: 24 };
    assert_eq!(c.mask(), 0xFFFF_FF00);
    assert_eq!(c.network(), 0x0A01_0200);
    assert_eq!(c.broadcast(), 0x0A01_02FF);
    let all = Ipv4Cidr { addr: 0x0A01_0203, prefix: 0 };
    assert_eq!(all.mask(), 0);
    let host = Ipv4Cidr { addr: 0x0A01_0203, prefix: 32 };
    assert_eq!(host.mask(), 0xFFFF_FFFF);
}

#[test]
fn cidr_containment() {
    let c = Ipv4Cidr { addr: 0x0A00_0000, prefix: 8 };
    assert!(c.contains(0x0A01_0203));
    assert!(!c.contains(0x0B00_0000));
    let everything = Ipv4Cidr { addr: 0, prefix: 0 };
    assert!(everything.contains(0xFFFF_FFFF));
    let single = Ipv4Cidr { addr: 0x0A00_0001, prefix: 32 };
    assert!(single.contains(0x0A00_0001));
    assert!(!single.contains(0x0A00_0002));
}

#[test]
fn prefix_over_32_is_refused() {
    assert!(Ipv4Cidr::new(0, 33).is_none());
    assert_eq!(Ipv4Cidr::new(0x0A00_0000, 24), Some(Ipv4Cidr { addr: 0x0A00_0000, prefix: 24 }));
}

#[test]
fn address_classification() {
    assert!(IpAddress::V4(0x7F00_0001).is_loopback());
    assert!(!IpAddress::V4(0x0A00_0001).is_loopback());
    assert!(IpAddress::V4(0).is_unspecified());
    assert!(IpAddress::V6(1).is_loopback());
    assert!(IpAddress::V6(0).is_unspecified());
    assert!(IpAddress::V6(5).is_v6());
    assert!(!IpAddress::V4(5).is_v6());
}

#[test]
fn default_mode_and_intersection() {
    let d = ProtocolMode::default_mode();
    assert!(!d.p2p_tcp && d.p2p_udp && d.relay_tcp && d.relay_udp);
    assert!(d.is_use_udp());
    let tcp_only = ProtocolMode { p2p_tcp: false, p2p_udp: false, relay_tcp: true, relay_udp: false };
    let m = d.intersect(&tcp_only);
    assert!(!m.p2p_udp && m.relay_tcp && !m.relay_udp);
    assert!(!m.is_use_udp());
}
