use fubuki::net::{IpAddress, Ipv4Cidr, ProtocolMode, SockAddr};
use fubuki::protocol::{IpsEntry, ModeEntry, Msg, NodeUpdate, PeerInfo, RegisterReq};
use fubuki::protocol_io::{decode_msg, encode_msg};

fn round_trip(m: &Msg) {
    let wire = encode_msg(m);
    let back = decode_msg(&wire).expect("decodes");
    assert_eq!(&back, m);
}

fn sample_mode() -> ProtocolMode {
    ProtocolMode { p2p_tcp: false, p2p_udp: true, relay_tcp: true, relay_udp: false }
}

fn sample_v4_endpoint() -> SockAddr {
    SockAddr { ip: IpAddress::V4(0xC0A8_0101), port: 7000 }
}

fn sample_v6_endpoint() -> SockAddr {
    SockAddr { ip: IpAddress::V6(0x2001_0db8_0000_0000_0000_0000_0000_0001), port: 443 }
}

fn sample_register() -> RegisterReq {
    RegisterReq {
        group_name: b"g1".to_vec(),
        virtual_addr: 0x0A00_0002,
        node_name: b"alpha".to_vec(),
        mode: sample_mode(),
        lan_addr: Some(sample_v4_endpoint()),
        allowed_ips: vec![Ipv4Cidr { addr: 0x0A01_0000, prefix: 16 }],
        ips: vec![IpsEntry {
            owner: 0x0A00_0003,
            cidrs: vec![
                Ipv4Cidr { addr: 0xC0A8_0000, prefix: 24 },
                Ipv4Cidr { addr: 0, prefix: 0 },
            ],
        }],
        specify_mode: vec![ModeEntry {
            peer: 0x0A00_0004,
            mode: ProtocolMode { p2p_tcp: false, p2p_udp: false, relay_tcp: true, relay_udp: false },
        }],
        key_fingerprint: 0xDEAD_BEEF_CAFE_F00D,
    }
}

#[test]
fn register_round_trips() {
    round_trip(&Msg::Register(sample_register()));
}

#[test]
fn register_ok_round_trips() {
    round_trip(&Msg::RegisterOk { assigned: 0x0A00_0002, netmask: 0xFFFF_FF00 });
}

#[test]
fn register_reject_round_trips() {
    round_trip(&Msg::RegisterReject { reason: b"address exhausted".to_vec() });
}

#[test]
fn node_map_round_trips() {
    let peer = PeerInfo {
        virtual_addr: 0x0A00_0005,
        node_name: b"beta".to_vec(),
        register_time: 1_700_000_000,
        mode: sample_mode(),
        lan_addr: None,
        wan_addr: Some(sample_v6_endpoint()),
        allowed_ips: vec![],
        ips: vec![IpsEntry { owner: 1, cidrs: vec![] }],
    };
    round_trip(&Msg::NodeMap { peers: vec![peer] });
    round_trip(&Msg::NodeMap { peers: vec![] });
}

#[test]
fn node_map_update_round_trips() {
    round_trip(&Msg::NodeMapUpdate(NodeUpdate {
        virtual_addr: 0x0A00_0002,
        mode: sample_mode(),
        lan_addr: Some(sample_v4_endpoint()),
        allowed_ips: vec![Ipv4Cidr { addr: 0x0A00_0000, prefix: 8 }],
        ips: vec![],
    }));
}

#[test]
fn heartbeats_round_trip() {
    round_trip(&Msg::HeartbeatReq { from: 0x0A00_0002, seq: 42, ts: 123_456_789 });
    round_trip(&Msg::HeartbeatResp { seq: 42 });
}

#[test]
fn data_messages_round_trip() {
    let packet: Vec<u8> = (0u8..64).collect();
    round_trip(&Msg::Forward { from: 1, to: 2, packet: packet.clone() });
    round_trip(&Msg::Relay { to: 2, packet: packet.clone() });
    round_trip(&Msg::P2p { packet });
}

#[test]
fn knock_messages_round_trip() {
    round_trip(&Msg::KnockReq { from: 0x0A00_0002, target: 0x0A00_0003 });
    round_trip(&Msg::KnockResp { target: 0x0A00_0003, wan: sample_v4_endpoint() });
}

#[test]
fn wire_layout_is_big_endian_with_tag() {
    // HeartbeatResp { seq } is tag 7 followed by the sequence, big-endian
    let wire = encode_msg(&Msg::HeartbeatResp { seq: 0x0102_0304 });
    assert_eq!(wire, vec![7u8, 0x01, 0x02, 0x03, 0x04]);
}

#[test]
fn unknown_tag_is_rejected() {
    assert!(decode_msg(&[200u8, 0, 0, 0, 0]).is_none());
}

#[test]
fn truncated_message_is_rejected() {
    let wire = encode_msg(&Msg::HeartbeatResp { seq: 7 });
    assert!(decode_msg(&wire[..wire.len() - 1]).is_none());
}

#[test]
fn trailing_bytes_are_rejected() {
    let mut wire = encode_msg(&Msg::HeartbeatResp { seq: 7 });
    wire.push(0);
    assert!(decode_msg(&wire).is_none());
}

#[test]
fn invalid_prefix_is_rejected() {
    // a CIDR with a prefix over 32 bits cannot appear on the wire
    let wire = vec![
        5u8, // node-map update
        0, 0, 0, 1, // virtual addr
        0, // mode byte
        0, // no lan addr
        0, 1, // one allowed block
        10, 0, 0, 0, 77, // 10.0.0.0/77 is nonsense
        0, 0, // no ips entries
    ];
    assert!(decode_msg(&wire).is_none());
}
