use fubuki::net::{IpAddress, Ipv4Cidr, ProtocolMode, SockAddr, SERVER_VIRTUAL_ADDR};
use fubuki::protocol::{Msg, NodeUpdate, RegisterReq};
use fubuki::server_core::{
    handle_tcp, handle_udp, register, wan_of, FlowBucket, FlowRule, GroupState, RegisterOutcome,
    RejectReason, TcpAction,
};

fn fresh_group(cidr: Ipv4Cidr) -> GroupState {
    GroupState {
        name: b"g1".to_vec(),
        cidr,
        peers: Vec::new(),
        flow_rules: Vec::new(),
        flow_buckets: Vec::new(),
    }
}

fn req(proposed: u32, name: &[u8]) -> RegisterReq {
    RegisterReq {
        group_name: b"g1".to_vec(),
        virtual_addr: proposed,
        node_name: name.to_vec(),
        mode: ProtocolMode::default_mode(),
        lan_addr: None,
        allowed_ips: vec![],
        ips: vec![],
        specify_mode: vec![],
        key_fingerprint: 0,
    }
}

fn endpoint(ip: u32, port: u16) -> SockAddr {
    SockAddr { ip: IpAddress::V4(ip), port }
}

#[test]
fn reserved_address_is_rejected() {
    // 255.255.255.254 identifies the server and can never be registered
    let mut g = fresh_group(Ipv4Cidr { addr: 0xFFFF_FFFC, prefix: 30 });
    let out = register(&mut g, req(SERVER_VIRTUAL_ADDR, b"a"), 1, 0);
    assert_eq!(out, RegisterOutcome::Rejected { reason: RejectReason::ReservedAddress });
    assert_eq!(g.peers.len(), 0);
}

#[test]
fn slash_30_exhausts_at_the_second_host() {
    // a /30 has exactly two host addresses
    let mut g = fresh_group(Ipv4Cidr { addr: 0x0A00_0000, prefix: 30 });
    match register(&mut g, req(0, b"a"), 1, 0) {
        RegisterOutcome::Accepted { assigned, .. } => assert_eq!(assigned, 0x0A00_0001),
        other => panic!("first register failed: {:?}", other),
    }
    match register(&mut g, req(0, b"b"), 2, 0) {
        RegisterOutcome::Accepted { assigned, .. } => assert_eq!(assigned, 0x0A00_0002),
        other => panic!("second register failed: {:?}", other),
    }
    let out = register(&mut g, req(0, b"c"), 3, 0);
    assert_eq!(out, RegisterOutcome::Rejected { reason: RejectReason::AddressExhausted });
    assert_eq!(g.peers.len(), 2);
}

#[test]
fn proposed_address_is_honoured() {
    let mut g = fresh_group(Ipv4Cidr { addr: 0x0A00_0000, prefix: 24 });
    match register(&mut g, req(0x0A00_0017, b"a"), 1, 0) {
        RegisterOutcome::Accepted { assigned, netmask, evicted_session } => {
            assert_eq!(assigned, 0x0A00_0017);
            assert_eq!(netmask, 0xFFFF_FF00);
            assert_eq!(evicted_session, None);
        },
        other => panic!("register failed: {:?}", other),
    }
}

#[test]
fn conflicting_proposal_evicts_the_older_holder() {
    // the second registration of one address replaces the first; the first
    // then re-registers and is handed the next free address
    let mut g = fresh_group(Ipv4Cidr { addr: 0x0A00_0000, prefix: 24 });
    match register(&mut g, req(0x0A00_0002, b"a"), 1, 0) {
        RegisterOutcome::Accepted { assigned, .. } => assert_eq!(assigned, 0x0A00_0002),
        other => panic!("first register failed: {:?}", other),
    }
    match register(&mut g, req(0x0A00_0002, b"b"), 2, 1) {
        RegisterOutcome::Accepted { assigned, evicted_session, .. } => {
            assert_eq!(assigned, 0x0A00_0002);
            assert_eq!(evicted_session, Some(1));
        },
        other => panic!("conflicting register failed: {:?}", other),
    }
    assert_eq!(g.peers.len(), 1);
    assert_eq!(g.peers[0].node_name, b"b".to_vec());
    // the evicted node reconnects without a usable proposal
    match register(&mut g, req(0x0A00_0002, b"a"), 3, 2) {
        RegisterOutcome::Accepted { assigned, evicted_session, .. } => {
            assert_eq!(assigned, 0x0A00_0002);
            assert_eq!(evicted_session, Some(2));
        },
        other => panic!("re-register failed: {:?}", other),
    }
}

#[test]
fn network_and_broadcast_are_never_assigned() {
    let mut g = fresh_group(Ipv4Cidr { addr: 0x0A00_0000, prefix: 30 });
    match register(&mut g, req(0x0A00_0000, b"a"), 1, 0) {
        RegisterOutcome::Accepted { assigned, .. } => assert_eq!(assigned, 0x0A00_0001),
        other => panic!("register failed: {:?}", other),
    }
    match register(&mut g, req(0x0A00_0003, b"b"), 2, 0) {
        RegisterOutcome::Accepted { assigned, .. } => assert_eq!(assigned, 0x0A00_0002),
        other => panic!("register failed: {:?}", other),
    }
}

#[test]
fn udp_heartbeat_teaches_wan_and_is_answered() {
    let mut g = fresh_group(Ipv4Cidr { addr: 0x0A00_0000, prefix: 24 });
    register(&mut g, req(0x0A00_0002, b"a"), 1, 0);
    assert_eq!(wan_of(&g, 0x0A00_0002), None);
    let src = endpoint(0x0101_0101, 4000);
    let out = handle_udp(&mut g, src, Msg::HeartbeatReq { from: 0x0A00_0002, seq: 9, ts: 0 }, 0);
    assert_eq!(out.len(), 1);
    assert_eq!(out[0].dest, src);
    assert_eq!(out[0].msg, Msg::HeartbeatResp { seq: 9 });
    assert_eq!(wan_of(&g, 0x0A00_0002), Some(src));
    // a heartbeat from an unknown address is ignored
    let out = handle_udp(&mut g, src, Msg::HeartbeatReq { from: 0x0A00_0099, seq: 1, ts: 0 }, 0);
    assert!(out.is_empty());
}

#[test]
fn relay_forwards_to_known_wan_and_drops_unknown() {
    let mut g = fresh_group(Ipv4Cidr { addr: 0x0A00_0000, prefix: 24 });
    register(&mut g, req(0x0A00_0002, b"a"), 1, 0);
    register(&mut g, req(0x0A00_0003, b"b"), 2, 0);
    let b_wan = endpoint(0x0202_0202, 5000);
    handle_udp(&mut g, b_wan, Msg::HeartbeatReq { from: 0x0A00_0003, seq: 1, ts: 0 }, 0);
    // relay to b goes out to b's learned endpoint
    let a_wan = endpoint(0x0101_0101, 4000);
    let out = handle_udp(
        &mut g,
        a_wan,
        Msg::Relay { to: 0x0A00_0003, packet: vec![1, 2, 3] },
        0,
    );
    assert_eq!(out.len(), 1);
    assert_eq!(out[0].dest, b_wan);
    assert_eq!(out[0].msg, Msg::Relay { to: 0x0A00_0003, packet: vec![1, 2, 3] });
    // relay to a peer without a learned endpoint is dropped
    let out = handle_udp(
        &mut g,
        b_wan,
        Msg::Relay { to: 0x0A00_0002, packet: vec![4] },
        0,
    );
    assert!(out.is_empty());
}

#[test]
fn flow_budget_drops_relays_when_spent() {
    let mut g = fresh_group(Ipv4Cidr { addr: 0x0A00_0000, prefix: 24 });
    g.flow_rules = vec![FlowRule {
        cidr: Ipv4Cidr { addr: 0x0A00_0000, prefix: 24 },
        bytes_per_sec: 4,
    }];
    g.flow_buckets = vec![FlowBucket { window_start: 0, used: 0 }];
    register(&mut g, req(0x0A00_0003, b"b"), 1, 0);
    let b_wan = endpoint(0x0202_0202, 5000);
    handle_udp(&mut g, b_wan, Msg::HeartbeatReq { from: 0x0A00_0003, seq: 1, ts: 0 }, 5);
    let a_wan = endpoint(0x0101_0101, 4000);
    // 3 bytes fit the 4-byte budget of second 5
    let out = handle_udp(&mut g, a_wan, Msg::Relay { to: 0x0A00_0003, packet: vec![0; 3] }, 5);
    assert_eq!(out.len(), 1);
    // the next 3 bytes in the same second do not
    let out = handle_udp(&mut g, a_wan, Msg::Relay { to: 0x0A00_0003, packet: vec![0; 3] }, 5);
    assert!(out.is_empty());
    // a fresh second refills the budget
    let out = handle_udp(&mut g, a_wan, Msg::Relay { to: 0x0A00_0003, packet: vec![0; 3] }, 6);
    assert_eq!(out.len(), 1);
}

#[test]
fn knock_answers_requester_and_pokes_target() {
    let mut g = fresh_group(Ipv4Cidr { addr: 0x0A00_0000, prefix: 24 });
    register(&mut g, req(0x0A00_0002, b"a"), 1, 0);
    register(&mut g, req(0x0A00_0003, b"b"), 2, 0);
    let b_wan = endpoint(0x0202_0202, 5000);
    handle_udp(&mut g, b_wan, Msg::HeartbeatReq { from: 0x0A00_0003, seq: 1, ts: 0 }, 0);
    let a_wan = endpoint(0x0101_0101, 4000);
    let out = handle_udp(
        &mut g,
        a_wan,
        Msg::KnockReq { from: 0x0A00_0002, target: 0x0A00_0003 },
        0,
    );
    assert_eq!(out.len(), 2);
    assert_eq!(out[0].dest, a_wan);
    assert_eq!(out[0].msg, Msg::KnockResp { target: 0x0A00_0003, wan: b_wan });
    assert_eq!(out[1].dest, b_wan);
    assert_eq!(out[1].msg, Msg::KnockReq { from: 0x0A00_0002, target: 0x0A00_0003 });
    // the knock itself taught the requester's endpoint
    assert_eq!(wan_of(&g, 0x0A00_0002), Some(a_wan));
}

#[test]
fn unexpected_udp_messages_are_dropped() {
    let mut g = fresh_group(Ipv4Cidr { addr: 0x0A00_0000, prefix: 24 });
    let out = handle_udp(
        &mut g,
        endpoint(1, 1),
        Msg::RegisterOk { assigned: 0, netmask: 0 },
        0,
    );
    assert!(out.is_empty());
}

#[test]
fn tcp_heartbeats_are_answered_and_never_touch_wan() {
    let mut g = fresh_group(Ipv4Cidr { addr: 0x0A00_0000, prefix: 24 });
    register(&mut g, req(0x0A00_0002, b"a"), 1, 0);
    // the WAN endpoint is learned over UDP...
    let src = endpoint(0x0101_0101, 4000);
    handle_udp(&mut g, src, Msg::HeartbeatReq { from: 0x0A00_0002, seq: 1, ts: 0 }, 0);
    // ...and TCP traffic leaves it alone
    let act = handle_tcp(&mut g, Msg::HeartbeatReq { from: 0x0A00_0002, seq: 7, ts: 0 });
    assert_eq!(act, TcpAction::ReplyHeartbeat { seq: 7 });
    let act = handle_tcp(
        &mut g,
        Msg::NodeMapUpdate(NodeUpdate {
            virtual_addr: 0x0A00_0002,
            mode: ProtocolMode::default_mode(),
            lan_addr: Some(endpoint(0x0909_0909, 1)),
            allowed_ips: vec![Ipv4Cidr { addr: 0x0B00_0000, prefix: 8 }],
            ips: vec![],
        }),
    );
    assert_eq!(act, TcpAction::NoReply);
    assert_eq!(wan_of(&g, 0x0A00_0002), Some(src));
    assert_eq!(g.peers[0].lan_addr, Some(endpoint(0x0909_0909, 1)));
    assert_eq!(g.peers[0].allowed_ips, vec![Ipv4Cidr { addr: 0x0B00_0000, prefix: 8 }]);
}

#[test]
fn tcp_forward_is_steered_to_the_target_session() {
    let mut g = fresh_group(Ipv4Cidr { addr: 0x0A00_0000, prefix: 24 });
    register(&mut g, req(0x0A00_0002, b"a"), 1, 0);
    register(&mut g, req(0x0A00_0003, b"b"), 2, 0);
    let act = handle_tcp(
        &mut g,
        Msg::Forward { from: 0x0A00_0002, to: 0x0A00_0003, packet: vec![1, 2] },
    );
    assert_eq!(
        act,
        TcpAction::ForwardTo { session: 2, from: 0x0A00_0002, to: 0x0A00_0003, packet: vec![1, 2] }
    );
    // forwarding toward an unknown address is dropped
    let act = handle_tcp(
        &mut g,
        Msg::Forward { from: 0x0A00_0002, to: 0x0A00_0099, packet: vec![1] },
    );
    assert_eq!(act, TcpAction::NoReply);
}
