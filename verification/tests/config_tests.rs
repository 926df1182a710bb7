use fubuki::cipher::Cipher;
use fubuki::config::{
    finalize_node_config, finalize_server_config, GroupEnv, NodeConfig, NodeConfigError,
    ServerConfig, ServerConfigError, ServerGroup, TargetGroup,
};
use fubuki::net::{IpAddress, Ipv4Cidr, ProtocolMode, SockAddr};

fn bare_node_config(groups: Vec<TargetGroup>) -> NodeConfig {
    NodeConfig {
        mtu: None,
        channel_limit: None,
        api_addr: None,
        tcp_heartbeat_interval_secs: None,
        udp_heartbeat_interval_secs: None,
        tcp_heartbeat_continuous_loss: None,
        udp_heartbeat_continuous_loss: None,
        udp_heartbeat_continuous_recv: None,
        reconnect_interval_secs: None,
        udp_socket_recv_buffer_size: None,
        udp_socket_send_buffer_size: None,
        external_routing_table: None,
        groups,
        features: None,
    }
}

fn bare_group() -> TargetGroup {
    TargetGroup {
        node_name: Some(b"alpha".to_vec()),
        server_addr: b"server.example:7000".to_vec(),
        tun_addr: None,
        key: None,
        enable_key_rotation: None,
        mode: None,
        specify_mode: vec![],
        lan_ip_addr: None,
        allowed_ips: vec![],
        ips: vec![],
        allow_packet_forward: None,
        allow_packet_not_in_rules_send_to_kernel: None,
        socket_bind_device: None,
    }
}

fn env_v4() -> GroupEnv {
    GroupEnv {
        resolved_server_addr: Some(SockAddr { ip: IpAddress::V4(0x0101_0101), port: 7000 }),
        detected_lan_addr: Some(IpAddress::V4(0xC0A8_0102)),
    }
}

#[test]
fn defaults_are_filled_in() {
    let cfg = bare_node_config(vec![bare_group()]);
    let f = finalize_node_config(cfg, None, vec![env_v4()]).expect("finalizes");
    assert_eq!(f.mtu, 1446); // UDP in use over IPv4
    assert_eq!(f.channel_limit, 100);
    assert_eq!(f.api_addr, SockAddr { ip: IpAddress::V4(0x7F00_0001), port: 3030 });
    assert_eq!(f.tcp_heartbeat_interval_secs, 5);
    assert_eq!(f.udp_heartbeat_interval_secs, 5);
    assert_eq!(f.tcp_heartbeat_continuous_loss, 5);
    assert_eq!(f.udp_heartbeat_continuous_loss, 5);
    assert_eq!(f.udp_heartbeat_continuous_recv, 3);
    assert_eq!(f.reconnect_interval_secs, 3);
    assert!(!f.external_routing_table);
    assert!(!f.features.disable_api_server);
    let g = &f.groups[0];
    assert_eq!(g.node_name, b"alpha".to_vec());
    assert_eq!(g.cipher, Cipher::NoOp);
    assert!(g.allow_packet_forward);
    assert!(!g.allow_packet_not_in_rules_send_to_kernel);
    assert_eq!(g.mode, ProtocolMode { p2p_tcp: false, p2p_udp: true, relay_tcp: true, relay_udp: true });
    assert_eq!(g.lan_ip_addr, Some(IpAddress::V4(0xC0A8_0102)));
}

#[test]
fn mtu_follows_udp_and_address_family() {
    // no UDP anywhere: the full 1500
    let mut g = bare_group();
    g.mode = Some(ProtocolMode { p2p_tcp: false, p2p_udp: false, relay_tcp: true, relay_udp: false });
    let f = finalize_node_config(bare_node_config(vec![g]), None, vec![env_v4()]).expect("ok");
    assert_eq!(f.mtu, 1500);
    // UDP over an IPv6 LAN address: 1426
    let mut g = bare_group();
    g.lan_ip_addr = Some(IpAddress::V6(0x2001_0db8_0000_0000_0000_0000_0000_0005));
    let f = finalize_node_config(bare_node_config(vec![g]), None, vec![env_v4()]).expect("ok");
    assert_eq!(f.mtu, 1426);
    // a configured MTU wins
    let mut cfg = bare_node_config(vec![bare_group()]);
    cfg.mtu = Some(1300);
    let f = finalize_node_config(cfg, None, vec![env_v4()]).expect("ok");
    assert_eq!(f.mtu, 1300);
}

#[test]
fn keys_become_ciphers() {
    let mut g = bare_group();
    g.key = Some(b"k".to_vec());
    let f = finalize_node_config(bare_node_config(vec![g]), None, vec![env_v4()]).expect("ok");
    assert_eq!(f.groups[0].cipher, Cipher::Xor { key: b"k".to_vec() });
    let mut g = bare_group();
    g.key = Some(b"k".to_vec());
    g.enable_key_rotation = Some(true);
    let f = finalize_node_config(bare_node_config(vec![g]), None, vec![env_v4()]).expect("ok");
    assert_eq!(f.groups[0].cipher, Cipher::Rotation { key: b"k".to_vec() });
}

#[test]
fn p2p_over_tcp_is_refused() {
    let mut g = bare_group();
    g.mode = Some(ProtocolMode { p2p_tcp: true, p2p_udp: true, relay_tcp: true, relay_udp: true });
    let e = finalize_node_config(bare_node_config(vec![g]), None, vec![env_v4()]).unwrap_err();
    assert_eq!(e, NodeConfigError::P2pOverTcp);
}

#[test]
fn unresolved_server_is_refused() {
    let env = GroupEnv { resolved_server_addr: None, detected_lan_addr: None };
    let e = finalize_node_config(bare_node_config(vec![bare_group()]), None, vec![env]).unwrap_err();
    assert_eq!(e, NodeConfigError::ServerAddrUnresolved);
}

#[test]
fn bad_lan_addresses_are_refused() {
    let mut g = bare_group();
    g.lan_ip_addr = Some(IpAddress::V4(0x7F00_0001));
    let e = finalize_node_config(bare_node_config(vec![g]), None, vec![env_v4()]).unwrap_err();
    assert_eq!(e, NodeConfigError::LanAddrLoopback);

    let mut g = bare_group();
    g.lan_ip_addr = Some(IpAddress::V4(0));
    let e = finalize_node_config(bare_node_config(vec![g]), None, vec![env_v4()]).unwrap_err();
    assert_eq!(e, NodeConfigError::LanAddrUnspecified);

    let env = GroupEnv { resolved_server_addr: env_v4().resolved_server_addr, detected_lan_addr: None };
    let e = finalize_node_config(bare_node_config(vec![bare_group()]), None, vec![env]).unwrap_err();
    assert_eq!(e, NodeConfigError::LanAddrUndetected);
}

#[test]
fn missing_hostname_is_refused_and_fallback_works() {
    let mut g = bare_group();
    g.node_name = None;
    let e = finalize_node_config(bare_node_config(vec![g]), None, vec![env_v4()]).unwrap_err();
    assert_eq!(e, NodeConfigError::HostnameUnavailable);

    let mut g = bare_group();
    g.node_name = None;
    let f = finalize_node_config(
        bare_node_config(vec![g]),
        Some(b"machine".to_vec()),
        vec![env_v4()],
    )
    .expect("ok");
    assert_eq!(f.groups[0].node_name, b"machine".to_vec());
}

#[test]
fn loopback_server_is_refused() {
    let env = GroupEnv {
        resolved_server_addr: Some(SockAddr { ip: IpAddress::V4(0x7F00_0001), port: 7000 }),
        detected_lan_addr: env_v4().detected_lan_addr,
    };
    let e = finalize_node_config(bare_node_config(vec![bare_group()]), None, vec![env]).unwrap_err();
    assert_eq!(e, NodeConfigError::ServerAddrLoopback);
}

#[test]
fn server_config_finalizes_with_defaults_and_warnings() {
    let cfg = ServerConfig {
        channel_limit: None,
        api_addr: None,
        tcp_heartbeat_interval_secs: None,
        tcp_heartbeat_continuous_loss: None,
        udp_heartbeat_interval_secs: None,
        udp_heartbeat_continuous_loss: None,
        udp_heartbeat_continuous_recv: None,
        groups: vec![
            ServerGroup {
                name: b"g1".to_vec(),
                listen_addr: SockAddr { ip: IpAddress::V4(0), port: 7000 },
                key: Some(b"k".to_vec()),
                enable_key_rotation: Some(true),
                address_range: Ipv4Cidr { addr: 0x0A00_0000, prefix: 24 },
                flow_control_rules: vec![],
            },
            ServerGroup {
                name: b"wide".to_vec(),
                listen_addr: SockAddr { ip: IpAddress::V4(0), port: 7001 },
                key: None,
                enable_key_rotation: None,
                // a range that swallows the reserved server address
                address_range: Ipv4Cidr { addr: 0, prefix: 0 },
                flow_control_rules: vec![],
            },
        ],
    };
    let (f, warns) = finalize_server_config(cfg).expect("finalizes");
    assert_eq!(f.channel_limit, 100);
    assert_eq!(f.api_addr, SockAddr { ip: IpAddress::V4(0x7F00_0001), port: 3031 });
    assert_eq!(f.groups.len(), 2);
    assert_eq!(f.groups[0].cipher, Cipher::Rotation { key: b"k".to_vec() });
    assert_eq!(f.groups[1].cipher, Cipher::NoOp);
    assert_eq!(warns, vec![1]);
}

#[test]
fn loopback_listen_address_is_refused() {
    let cfg = ServerConfig {
        channel_limit: None,
        api_addr: None,
        tcp_heartbeat_interval_secs: None,
        tcp_heartbeat_continuous_loss: None,
        udp_heartbeat_interval_secs: None,
        udp_heartbeat_continuous_loss: None,
        udp_heartbeat_continuous_recv: None,
        groups: vec![ServerGroup {
            name: b"g1".to_vec(),
            listen_addr: SockAddr { ip: IpAddress::V4(0x7F00_0001), port: 7000 },
            key: None,
            enable_key_rotation: None,
            address_range: Ipv4Cidr { addr: 0x0A00_0000, prefix: 24 },
            flow_control_rules: vec![],
        }],
    };
    let e = finalize_server_config(cfg).unwrap_err();
    assert_eq!(e, ServerConfigError::ListenAddrLoopback);
}
