//! Turning raw configuration into the finalized form the runtime works
//! from: defaults filled in, invalid combinations refused, the MTU derived
//! from how the groups use UDP, and each group's key turned into its cipher.
//!
//! What only the outside world can answer — the resolved server address, the
//! probed LAN address, the machine's hostname — is handed in as plain
//! values, and the decisions here are made on those.

use vstd::prelude::*;

use crate::cipher::Cipher;
use crate::cloning::{clone_bytes, clone_cidrs, clone_flow_rules, clone_ips_entries, clone_mode_entries};
use crate::net::{IpAddress, Ipv4Cidr, ProtocolMode, SockAddr, SERVER_VIRTUAL_ADDR};
use crate::protocol::{IpsEntry, ModeEntry};
use crate::server_core::FlowRule;

verus! {

/// The virtual interface address a node asks for.
#[derive(Clone, Copy, Debug, PartialEq, Eq, Structural)]
pub struct TunAddr {
    pub ip: u32,
    pub netmask: u32,
}

/// One group of a node's configuration, as read from the file.
#[derive(Debug)]
pub struct TargetGroup {
    pub node_name: Option<Vec<u8>>,
    pub server_addr: Vec<u8>,
    pub tun_addr: Option<TunAddr>,
    pub key: Option<Vec<u8>>,
    pub enable_key_rotation: Option<bool>,
    pub mode: Option<ProtocolMode>,
    pub specify_mode: Vec<ModeEntry>,
    pub lan_ip_addr: Option<IpAddress>,
    pub allowed_ips: Vec<Ipv4Cidr>,
    pub ips: Vec<IpsEntry>,
    pub allow_packet_forward: Option<bool>,
    pub allow_packet_not_in_rules_send_to_kernel: Option<bool>,
    pub socket_bind_device: Option<Vec<u8>>,
}

#[derive(Clone, Copy, Debug, PartialEq, Eq, Structural)]
pub struct NodeConfigFeature {
    pub disable_hosts_operation: Option<bool>,
    pub disable_signal_handling: Option<bool>,
    pub disable_route_operation: Option<bool>,
    pub disable_api_server: Option<bool>,
}

/// A node's raw configuration.
#[derive(Debug)]
pub struct NodeConfig {
    pub mtu: Option<usize>,
    pub channel_limit: Option<usize>,
    pub api_addr: Option<SockAddr>,
    pub tcp_heartbeat_interval_secs: Option<u64>,
    pub udp_heartbeat_interval_secs: Option<u64>,
    pub tcp_heartbeat_continuous_loss: Option<u64>,
    pub udp_heartbeat_continuous_loss: Option<u64>,
    pub udp_heartbeat_continuous_recv: Option<u64>,
    pub reconnect_interval_secs: Option<u64>,
    pub udp_socket_recv_buffer_size: Option<usize>,
    pub udp_socket_send_buffer_size: Option<usize>,
    pub external_routing_table: Option<bool>,
    pub groups: Vec<TargetGroup>,
    pub features: Option<NodeConfigFeature>,
}

/// What the environment answered for one group: the server address the
/// resolver produced, and the LAN address found by probing toward it.
#[derive(Clone, Copy, Debug, PartialEq, Eq, Structural)]
pub struct GroupEnv {
    pub resolved_server_addr: Option<SockAddr>,
    pub detected_lan_addr: Option<IpAddress>,
}

/// Why a node configuration is refused; fatal at startup.
#[derive(Clone, Copy, Debug, PartialEq, Eq, Structural)]
pub enum NodeConfigError {
    /// Direct paths work over UDP only.
    P2pOverTcp,
    /// The server address did not resolve.
    ServerAddrUnresolved,
    /// A configured LAN address must not be a loopback address.
    LanAddrLoopback,
    /// A configured LAN address must not be the unspecified address.
    LanAddrUnspecified,
    /// No LAN address was configured and probing found none.
    LanAddrUndetected,
    /// No node name was configured and the hostname is unavailable.
    HostnameUnavailable,
    /// The server address must not be a loopback address.
    ServerAddrLoopback,
}

/// One group, finalized.
#[derive(Debug)]
pub struct TargetGroupFinalize {
    pub node_name: Vec<u8>,
    pub server_addr: Vec<u8>,
    pub resolved_server_addr: SockAddr,
    pub tun_addr: Option<TunAddr>,
    pub cipher: Cipher,
    pub mode: ProtocolMode,
    pub specify_mode: Vec<ModeEntry>,
    pub lan_ip_addr: Option<IpAddress>,
    pub allowed_ips: Vec<Ipv4Cidr>,
    pub ips: Vec<IpsEntry>,
    pub allow_packet_forward: bool,
    pub allow_packet_not_in_rules_send_to_kernel: bool,
    pub socket_bind_device: Option<Vec<u8>>,
}

#[derive(Clone, Copy, Debug, PartialEq, Eq, Structural)]
pub struct NodeConfigFeatureFinalize {
    pub disable_hosts_operation: bool,
    pub disable_signal_handling: bool,
    pub disable_route_operation: bool,
    pub disable_api_server: bool,
}

/// A node's configuration with every default applied.
#[derive(Debug)]
pub struct NodeConfigFinalize {
    pub mtu: usize,
    pub channel_limit: usize,
    pub api_addr: SockAddr,
    pub tcp_heartbeat_interval_secs: u64,
    pub udp_heartbeat_interval_secs: u64,
    pub tcp_heartbeat_continuous_loss: u64,
    pub udp_heartbeat_continuous_loss: u64,
    pub udp_heartbeat_continuous_recv: u64,
    pub reconnect_interval_secs: u64,
    pub udp_socket_recv_buffer_size: Option<usize>,
    pub udp_socket_send_buffer_size: Option<usize>,
    pub external_routing_table: bool,
    pub groups: Vec<TargetGroupFinalize>,
    pub features: NodeConfigFeatureFinalize,
}

/// The loopback API endpoint a role defaults to.
pub open spec fn spec_default_api_addr(port: u16) -> SockAddr {
    SockAddr { ip: IpAddress::V4(0x7F00_0001), port }
}

/// A group's mode, with the default of direct UDP plus relaying over both
/// transports.
pub open spec fn spec_group_mode(g: TargetGroup) -> ProtocolMode {
    match g.mode {
        Some(m) => m,
        None => ProtocolMode::spec_default(),
    }
}

/// The LAN address a UDP-using group ends up with: the configured one, or
/// what probing toward the server found.
pub open spec fn spec_group_lan(g: TargetGroup, env: GroupEnv) -> Option<IpAddress> {
    if spec_group_mode(g).spec_is_use_udp() {
        match g.lan_ip_addr {
            Some(a) => Some(a),
            None => env.detected_lan_addr,
        }
    } else {
        None
    }
}

/// The cipher model a group's key gives: no key hides nothing, a key is
/// XORed in, and rotation turns the key after every frame.
pub open spec fn spec_group_cipher_model(g: TargetGroup) -> crate::cipher::CipherModel {
    crate::cipher::CipherModel {
        key: match g.key {
            None => Seq::<u8>::empty(),
            Some(k) => k@,
        },
        rotating: g.key is Some && g.enable_key_rotation == Some(true),
    }
}

/// The first thing wrong with one group, in the order the checks run.
pub open spec fn spec_group_error(
    g: TargetGroup,
    env: GroupEnv,
    hostname: Option<Vec<u8>>,
) -> Option<NodeConfigError> {
    let mode = spec_group_mode(g);
    if mode.p2p_tcp {
        Some(NodeConfigError::P2pOverTcp)
    } else if env.resolved_server_addr is None {
        Some(NodeConfigError::ServerAddrUnresolved)
    } else if mode.spec_is_use_udp() && g.lan_ip_addr is Some
        && g.lan_ip_addr->0.spec_is_loopback() {
        Some(NodeConfigError::LanAddrLoopback)
    } else if mode.spec_is_use_udp() && g.lan_ip_addr is Some
        && g.lan_ip_addr->0.spec_is_unspecified() {
        Some(NodeConfigError::LanAddrUnspecified)
    } else if mode.spec_is_use_udp() && g.lan_ip_addr is None
        && env.detected_lan_addr is None {
        Some(NodeConfigError::LanAddrUndetected)
    } else if g.node_name is None && hostname is None {
        Some(NodeConfigError::HostnameUnavailable)
    } else if env.resolved_server_addr->0.ip.spec_is_loopback() {
        Some(NodeConfigError::ServerAddrLoopback)
    } else {
        None
    }
}

/// How a finalized group relates to its raw form: every field carried over
/// or defaulted, the name falling back to the hostname, and the key turned
/// into its cipher.
pub open spec fn matches_group_finalize(
    f: TargetGroupFinalize,
    g: TargetGroup,
    env: GroupEnv,
    hostname: Option<Vec<u8>>,
) -> bool {
    &&& f.node_name@ == (match g.node_name {
        Some(n) => n@,
        None => hostname->0@,
    })
    &&& f.server_addr@ == g.server_addr@
    &&& f.resolved_server_addr == env.resolved_server_addr->0
    &&& f.tun_addr == g.tun_addr
    &&& f.cipher@ == spec_group_cipher_model(g)
    &&& (f.cipher is NoOp <==> g.key is None)
    &&& f.mode == spec_group_mode(g)
    &&& f.specify_mode@ == g.specify_mode@
    &&& f.lan_ip_addr == spec_group_lan(g, env)
    &&& f.allowed_ips@ == g.allowed_ips@
    &&& f.ips@.map_values(|e: IpsEntry| e@) == g.ips@.map_values(|e: IpsEntry| e@)
    &&& f.allow_packet_forward == (g.allow_packet_forward != Some(false))
    &&& f.allow_packet_not_in_rules_send_to_kernel == (g.allow_packet_not_in_rules_send_to_kernel
        == Some(true))
    &&& (match (f.socket_bind_device, g.socket_bind_device) {
        (Option::None, Option::None) => true,
        (Option::Some(a), Option::Some(b)) => a@ == b@,
        _ => false,
    })
}

/// The first error over all groups, in file order.
pub open spec fn spec_first_group_error(
    groups: Seq<TargetGroup>,
    envs: Seq<GroupEnv>,
    hostname: Option<Vec<u8>>,
    i: int,
) -> Option<NodeConfigError>
    decreases groups.len() - i,
{
    if i < 0 || i >= groups.len() {
        None
    } else {
        match spec_group_error(groups[i], envs[i], hostname) {
            Some(e) => Some(e),
            None => spec_first_group_error(groups, envs, hostname, i + 1),
        }
    }
}

/// Whether any group uses UDP at all.
pub open spec fn spec_any_udp(groups: Seq<TargetGroup>) -> bool {
    exists|i: int|
        0 <= i < groups.len() && spec_group_mode(#[trigger] groups[i]).spec_is_use_udp()
}

/// Whether any UDP-using group sits on an IPv6 LAN address.
pub open spec fn spec_any_udp_v6(groups: Seq<TargetGroup>, envs: Seq<GroupEnv>) -> bool {
    exists|i: int|
        0 <= i < groups.len() && (match spec_group_lan(#[trigger] groups[i], envs[i]) {
            Some(a) => a.spec_is_v6(),
            None => false,
        })
}

/// The automatic MTU: 1500 with no UDP anywhere; with UDP, the usual 1500
/// less the layer-2, PPPoE, IP, UDP and relaying overheads — 1446 over
/// IPv4, 1426 over IPv6.
pub open spec fn spec_auto_mtu(groups: Seq<TargetGroup>, envs: Seq<GroupEnv>) -> usize {
    if spec_any_udp(groups) {
        if spec_any_udp_v6(groups, envs) {
            1426usize
        } else {
            1446usize
        }
    } else {
        1500usize
    }
}

/// Finalize a node configuration against what the environment answered:
/// `hostname` for the default node name, and for each group the resolved
/// server address and the probed LAN address.
#[verifier::rlimit(100)]
#[verifier::spinoff_prover]
pub fn finalize_node_config(
    cfg: NodeConfig,
    hostname: Option<Vec<u8>>,
    envs: Vec<GroupEnv>,
) -> (r: Result<NodeConfigFinalize, NodeConfigError>)
    requires
        envs@.len() == cfg.groups@.len(),
    ensures
        match r {
            Err(e) => spec_first_group_error(cfg.groups@, envs@, hostname, 0) == Some(e),
            Ok(f) => {
                &&& spec_first_group_error(cfg.groups@, envs@, hostname, 0) is None
                &&& f.mtu == (match cfg.mtu {
                    Some(m) => m,
                    None => spec_auto_mtu(cfg.groups@, envs@),
                })
                &&& f.channel_limit == (match cfg.channel_limit {
                    Some(v) => v,
                    None => 100usize,
                })
                &&& f.api_addr == (match cfg.api_addr {
                    Some(a) => a,
                    None => spec_default_api_addr(3030),
                })
                &&& f.tcp_heartbeat_interval_secs == (match cfg.tcp_heartbeat_interval_secs {
                    Some(v) => v,
                    None => 5u64,
                })
                &&& f.udp_heartbeat_interval_secs == (match cfg.udp_heartbeat_interval_secs {
                    Some(v) => v,
                    None => 5u64,
                })
                &&& f.tcp_heartbeat_continuous_loss == (match cfg.tcp_heartbeat_continuous_loss {
                    Some(v) => v,
                    None => 5u64,
                })
                &&& f.udp_heartbeat_continuous_loss == (match cfg.udp_heartbeat_continuous_loss {
                    Some(v) => v,
                    None => 5u64,
                })
                &&& f.udp_heartbeat_continuous_recv == (match cfg.udp_heartbeat_continuous_recv {
                    Some(v) => v,
                    None => 3u64,
                })
                &&& f.reconnect_interval_secs == (match cfg.reconnect_interval_secs {
                    Some(v) => v,
                    None => 3u64,
                })
                &&& f.udp_socket_recv_buffer_size == cfg.udp_socket_recv_buffer_size
                &&& f.udp_socket_send_buffer_size == cfg.udp_socket_send_buffer_size
                &&& f.external_routing_table == (cfg.external_routing_table == Some(true))
                &&& f.features == (match cfg.features {
                    Some(ft) => NodeConfigFeatureFinalize {
                        disable_hosts_operation: ft.disable_hosts_operation == Some(true),
                        disable_signal_handling: ft.disable_signal_handling == Some(true),
                        disable_route_operation: ft.disable_route_operation == Some(true),
                        disable_api_server: ft.disable_api_server == Some(true),
                    },
                    None => NodeConfigFeatureFinalize {
                        disable_hosts_operation: false,
                        disable_signal_handling: false,
                        disable_route_operation: false,
                        disable_api_server: false,
                    },
                })
                &&& f.groups@.len() == cfg.groups@.len()
                &&& forall|i: int|
                    0 <= i < cfg.groups@.len() ==> matches_group_finalize(
                        #[trigger] f.groups@[i],
                        cfg.groups@[i],
                        envs@[i],
                        hostname,
                    )
            },
        },
{
    let ghost orig_groups = cfg.groups@;
    let ghost orig_envs = envs@;
    let mut done: Vec<TargetGroupFinalize> = Vec::new();
    let mut use_udp = false;
    let mut use_v6 = false;
    let ghost hn = hostname;
    let n = cfg.groups.len();
    let mut i: usize = 0;
    while i < n
        invariant
            n == orig_groups.len(),
            i <= n,
            orig_envs.len() == orig_groups.len(),
            orig_groups == cfg.groups@,
            orig_envs == envs@,
            done@.len() == i,
            hn == hostname,
            forall|j: int|
                0 <= j < i ==> spec_group_error(orig_groups[j], orig_envs[j], hn) is None,
            forall|j: int|
                0 <= j < i ==> matches_group_finalize(
                    #[trigger] done@[j],
                    orig_groups[j],
                    orig_envs[j],
                    hn,
                ),
            use_udp == exists|j: int|
                0 <= j < i && spec_group_mode(#[trigger] orig_groups[j]).spec_is_use_udp(),
            use_v6 == exists|j: int|
                0 <= j < i && (match spec_group_lan(#[trigger] orig_groups[j], orig_envs[j]) {
                    Some(a) => a.spec_is_v6(),
                    None => false,
                }),
        decreases n - i,
    {
        let g = &cfg.groups[i];
        let env = envs[i];
        let mode = match g.mode {
            Some(m) => m,
            None => ProtocolMode::default_mode(),
        };
        if mode.p2p_tcp {
            proof {
                lemma_first_error_here(orig_groups, orig_envs, hn, i as int);
            }
            return Err(NodeConfigError::P2pOverTcp);
        }
        let resolved = match env.resolved_server_addr {
            Some(a) => a,
            None => {
                proof {
                    lemma_first_error_here(orig_groups, orig_envs, hn, i as int);
                }
                return Err(NodeConfigError::ServerAddrUnresolved);
            },
        };
        let lan: Option<IpAddress> = if mode.is_use_udp() {
            match g.lan_ip_addr {
                Some(a) => {
                    if a.is_loopback() {
                        proof {
                            lemma_first_error_here(orig_groups, orig_envs, hn, i as int);
                        }
                        return Err(NodeConfigError::LanAddrLoopback);
                    }
                    if a.is_unspecified() {
                        proof {
                            lemma_first_error_here(orig_groups, orig_envs, hn, i as int);
                        }
                        return Err(NodeConfigError::LanAddrUnspecified);
                    }
                    Some(a)
                },
                None => match env.detected_lan_addr {
                    Some(a) => Some(a),
                    None => {
                        proof {
                            lemma_first_error_here(orig_groups, orig_envs, hn, i as int);
                        }
                        return Err(NodeConfigError::LanAddrUndetected);
                    },
                },
            }
        } else {
            None
        };
        let node_name = match &g.node_name {
            Some(nm) => clone_bytes(nm),
            None => match &hostname {
                Some(h) => clone_bytes(h),
                None => {
                    proof {
                        lemma_first_error_here(orig_groups, orig_envs, hn, i as int);
                    }
                    return Err(NodeConfigError::HostnameUnavailable);
                },
            },
        };
        if resolved.ip.is_loopback() {
            proof {
                lemma_first_error_here(orig_groups, orig_envs, hn, i as int);
            }
            return Err(NodeConfigError::ServerAddrLoopback);
        }
        let cipher = match &g.key {
            None => Cipher::NoOp,
            Some(k) => {
                let kc = clone_bytes(k);
                if g.enable_key_rotation == Some(true) {
                    Cipher::Rotation { key: kc }
                } else {
                    Cipher::Xor { key: kc }
                }
            },
        };
        if mode.is_use_udp() {
            use_udp = true;
        }
        let lan_v6 = match &lan {
            Some(a) => a.is_v6(),
            None => false,
        };
        if lan_v6 {
            use_v6 = true;
        }
        let fin = TargetGroupFinalize {
            node_name,
            server_addr: clone_bytes(&g.server_addr),
            resolved_server_addr: resolved,
            tun_addr: g.tun_addr,
            cipher,
            mode,
            specify_mode: clone_mode_entries(&g.specify_mode),
            lan_ip_addr: lan,
            allowed_ips: clone_cidrs(&g.allowed_ips),
            ips: clone_ips_entries(&g.ips),
            allow_packet_forward: g.allow_packet_forward != Some(false),
            allow_packet_not_in_rules_send_to_kernel: g.allow_packet_not_in_rules_send_to_kernel
                == Some(true),
            socket_bind_device: match &g.socket_bind_device {
                Some(d) => Some(clone_bytes(d)),
                None => None,
            },
        };
        proof {
            assert(spec_group_error(orig_groups[i as int], orig_envs[i as int], hn) is None);
            assert(matches_group_finalize(fin, orig_groups[i as int], orig_envs[i as int], hn));
        }
        done.push(fin);
        i += 1;
    }
    proof {
        assert(i == n);
        lemma_no_first_error(orig_groups, orig_envs, hn, 0);
        assert(use_udp == spec_any_udp(orig_groups));
        assert(use_v6 == spec_any_udp_v6(orig_groups, orig_envs));
    }
    let mtu = match cfg.mtu {
        Some(m) => m,
        None => {
            if use_udp {
                if use_v6 {
                    1426
                } else {
                    1446
                }
            } else {
                1500
            }
        },
    };
    let features = match cfg.features {
        Some(ft) => NodeConfigFeatureFinalize {
            disable_hosts_operation: ft.disable_hosts_operation == Some(true),
            disable_signal_handling: ft.disable_signal_handling == Some(true),
            disable_route_operation: ft.disable_route_operation == Some(true),
            disable_api_server: ft.disable_api_server == Some(true),
        },
        None => NodeConfigFeatureFinalize {
            disable_hosts_operation: false,
            disable_signal_handling: false,
            disable_route_operation: false,
            disable_api_server: false,
        },
    };
    Ok(
        NodeConfigFinalize {
            mtu,
            channel_limit: match cfg.channel_limit {
                Some(v) => v,
                None => 100,
            },
            api_addr: match cfg.api_addr {
                Some(a) => a,
                None => SockAddr { ip: IpAddress::V4(0x7F00_0001), port: 3030 },
            },
            tcp_heartbeat_interval_secs: match cfg.tcp_heartbeat_interval_secs {
                Some(v) => v,
                None => 5,
            },
            udp_heartbeat_interval_secs: match cfg.udp_heartbeat_interval_secs {
                Some(v) => v,
                None => 5,
            },
            tcp_heartbeat_continuous_loss: match cfg.tcp_heartbeat_continuous_loss {
                Some(v) => v,
                None => 5,
            },
            udp_heartbeat_continuous_loss: match cfg.udp_heartbeat_continuous_loss {
                Some(v) => v,
                None => 5,
            },
            udp_heartbeat_continuous_recv: match cfg.udp_heartbeat_continuous_recv {
                Some(v) => v,
                None => 3,
            },
            reconnect_interval_secs: match cfg.reconnect_interval_secs {
                Some(v) => v,
                None => 3,
            },
            udp_socket_recv_buffer_size: cfg.udp_socket_recv_buffer_size,
            udp_socket_send_buffer_size: cfg.udp_socket_send_buffer_size,
            external_routing_table: cfg.external_routing_table == Some(true),
            groups: done,
            features,
        },
    )
}






/// When the first `i` groups are clean and group `i` fails, its error is
/// the first overall.
proof fn lemma_first_error_here(
    groups: Seq<TargetGroup>,
    envs: Seq<GroupEnv>,
    hostname: Option<Vec<u8>>,
    i: int,
)
    requires
        0 <= i < groups.len(),
        forall|j: int| 0 <= j < i ==> spec_group_error(groups[j], envs[j], hostname) is None,
        spec_group_error(groups[i], envs[i], hostname) is Some,
    ensures
        spec_first_group_error(groups, envs, hostname, 0) == spec_group_error(
            groups[i],
            envs[i],
            hostname,
        ),
    decreases i,
{
    if i == 0 {
    } else {
        lemma_first_error_from(groups, envs, hostname, 0, i);
    }
}

/// Scanning from a clean prefix lands on the first failing group.
proof fn lemma_first_error_from(
    groups: Seq<TargetGroup>,
    envs: Seq<GroupEnv>,
    hostname: Option<Vec<u8>>,
    k: int,
    i: int,
)
    requires
        0 <= k <= i < groups.len(),
        forall|j: int| 0 <= j < i ==> spec_group_error(groups[j], envs[j], hostname) is None,
        spec_group_error(groups[i], envs[i], hostname) is Some,
    ensures
        spec_first_group_error(groups, envs, hostname, k) == spec_group_error(
            groups[i],
            envs[i],
            hostname,
        ),
    decreases i - k,
{
    if k < i {
        lemma_first_error_from(groups, envs, hostname, k + 1, i);
    }
}

/// With every group clean, the scan finds nothing.
proof fn lemma_no_first_error(
    groups: Seq<TargetGroup>,
    envs: Seq<GroupEnv>,
    hostname: Option<Vec<u8>>,
    k: int,
)
    requires
        0 <= k,
        forall|j: int|
            0 <= j < groups.len() ==> spec_group_error(groups[j], envs[j], hostname) is None,
    ensures
        spec_first_group_error(groups, envs, hostname, k) is None,
    decreases groups.len() - k,
{
    if k < groups.len() {
        lemma_no_first_error(groups, envs, hostname, k + 1);
    }
}

// ---------------------------------------------------------------------------
// the server's configuration
// ---------------------------------------------------------------------------

/// One group of a server's configuration, as read from the file; the byte
/// budgets of the flow rules are already plain numbers.
#[derive(Debug)]
pub struct ServerGroup {
    pub name: Vec<u8>,
    pub listen_addr: SockAddr,
    pub key: Option<Vec<u8>>,
    pub enable_key_rotation: Option<bool>,
    pub address_range: Ipv4Cidr,
    pub flow_control_rules: Vec<FlowRule>,
}

/// A server's raw configuration.
#[derive(Debug)]
pub struct ServerConfig {
    pub channel_limit: Option<usize>,
    pub api_addr: Option<SockAddr>,
    pub tcp_heartbeat_interval_secs: Option<u64>,
    pub tcp_heartbeat_continuous_loss: Option<u64>,
    pub udp_heartbeat_interval_secs: Option<u64>,
    pub udp_heartbeat_continuous_loss: Option<u64>,
    pub udp_heartbeat_continuous_recv: Option<u64>,
    pub groups: Vec<ServerGroup>,
}

/// Why a server configuration is refused; fatal at startup.
#[derive(Clone, Copy, Debug, PartialEq, Eq, Structural)]
pub enum ServerConfigError {
    /// A group must not listen on a loopback address.
    ListenAddrLoopback,
}

/// One server group, finalized.
#[derive(Debug)]
pub struct ServerGroupFinalize {
    pub name: Vec<u8>,
    pub listen_addr: SockAddr,
    pub cipher: Cipher,
    pub address_range: Ipv4Cidr,
    pub flow_control_rules: Vec<FlowRule>,
}

/// A server's configuration with every default applied.
#[derive(Debug)]
pub struct ServerConfigFinalize {
    pub channel_limit: usize,
    pub api_addr: SockAddr,
    pub tcp_heartbeat_interval_secs: u64,
    pub tcp_heartbeat_continuous_loss: u64,
    pub udp_heartbeat_interval_secs: u64,
    pub udp_heartbeat_continuous_loss: u64,
    pub udp_heartbeat_continuous_recv: u64,
    pub groups: Vec<ServerGroupFinalize>,
}

/// The cipher model a server group's key gives.
pub open spec fn spec_server_cipher_model(g: ServerGroup) -> crate::cipher::CipherModel {
    crate::cipher::CipherModel {
        key: match g.key {
            None => Seq::<u8>::empty(),
            Some(k) => k@,
        },
        rotating: g.key is Some && g.enable_key_rotation == Some(true),
    }
}

/// How a finalized server group relates to its raw form.
pub open spec fn matches_server_group(f: ServerGroupFinalize, g: ServerGroup) -> bool {
    &&& f.name@ == g.name@
    &&& f.listen_addr == g.listen_addr
    &&& f.cipher@ == spec_server_cipher_model(g)
    &&& (f.cipher is NoOp <==> g.key is None)
    &&& f.address_range == g.address_range
    &&& f.flow_control_rules@ == g.flow_control_rules@
}

/// Whether the reserved server address falls inside a group's range: worth a
/// warning, since that address is never assignable.
pub open spec fn spec_range_holds_reserved(g: ServerGroup) -> bool {
    g.address_range.spec_contains(SERVER_VIRTUAL_ADDR)
}

/// Finalize a server configuration. Besides the finalized form, the caller
/// gets the indices of the groups whose address range contains the reserved
/// server address, to warn about.
#[verifier::rlimit(100)]
#[verifier::spinoff_prover]
pub fn finalize_server_config(cfg: ServerConfig) -> (r: Result<
    (ServerConfigFinalize, Vec<usize>),
    ServerConfigError,
>)
    requires
        forall|i: int| 0 <= i < cfg.groups@.len() ==> (#[trigger] cfg.groups@[i]).address_range.wf(),
    ensures
        match r {
            Err(e) => e == ServerConfigError::ListenAddrLoopback && exists|i: int|
                0 <= i < cfg.groups@.len() && (#[trigger] cfg.groups@[i]).listen_addr.ip.spec_is_loopback(),
            Ok((f, warns)) => {
                &&& forall|i: int|
                    0 <= i < cfg.groups@.len() ==> !(#[trigger] cfg.groups@[i]).listen_addr.ip.spec_is_loopback()
                &&& f.channel_limit == (match cfg.channel_limit {
                    Some(v) => v,
                    None => 100usize,
                })
                &&& f.api_addr == (match cfg.api_addr {
                    Some(a) => a,
                    None => spec_default_api_addr(3031),
                })
                &&& f.tcp_heartbeat_interval_secs == (match cfg.tcp_heartbeat_interval_secs {
                    Some(v) => v,
                    None => 5u64,
                })
                &&& f.tcp_heartbeat_continuous_loss == (match cfg.tcp_heartbeat_continuous_loss {
                    Some(v) => v,
                    None => 5u64,
                })
                &&& f.udp_heartbeat_interval_secs == (match cfg.udp_heartbeat_interval_secs {
                    Some(v) => v,
                    None => 5u64,
                })
                &&& f.udp_heartbeat_continuous_loss == (match cfg.udp_heartbeat_continuous_loss {
                    Some(v) => v,
                    None => 5u64,
                })
                &&& f.udp_heartbeat_continuous_recv == (match cfg.udp_heartbeat_continuous_recv {
                    Some(v) => v,
                    None => 3u64,
                })
                &&& f.groups@.len() == cfg.groups@.len()
                &&& forall|i: int|
                    0 <= i < cfg.groups@.len() ==> matches_server_group(
                        #[trigger] f.groups@[i],
                        cfg.groups@[i],
                    )
                &&& forall|i: int|
                    0 <= i < warns@.len() ==> 0 <= #[trigger] warns@[i] < cfg.groups@.len()
                        && spec_range_holds_reserved(cfg.groups@[warns@[i] as int])
                &&& forall|i: int|
                    0 <= i < cfg.groups@.len() && spec_range_holds_reserved(
                        #[trigger] cfg.groups@[i],
                    ) ==> warns@.contains(i as usize)
            },
        },
{
    let ghost orig = cfg.groups@;
    let mut done: Vec<ServerGroupFinalize> = Vec::new();
    let mut warns: Vec<usize> = Vec::new();
    let n = cfg.groups.len();
    let mut i: usize = 0;
    while i < n
        invariant
            n == orig.len(),
            i <= n,
            orig == cfg.groups@,
            forall|j: int| 0 <= j < orig.len() ==> (#[trigger] orig[j]).address_range.wf(),
            done@.len() == i,
            forall|j: int| 0 <= j < i ==> !(#[trigger] orig[j]).listen_addr.ip.spec_is_loopback(),
            forall|j: int|
                0 <= j < i ==> matches_server_group(#[trigger] done@[j], orig[j]),
            forall|j: int|
                0 <= j < warns@.len() ==> 0 <= #[trigger] warns@[j] < i
                    && spec_range_holds_reserved(orig[warns@[j] as int]),
            forall|j: int|
                0 <= j < i && spec_range_holds_reserved(#[trigger] orig[j]) ==> warns@.contains(
                    j as usize,
                ),
        decreases n - i,
    {
        let g = &cfg.groups[i];
        if g.listen_addr.ip.is_loopback() {
            return Err(ServerConfigError::ListenAddrLoopback);
        }
        let ghost warns_pre = warns@;
        if g.address_range.contains(SERVER_VIRTUAL_ADDR) {
            warns.push(i);
        }
        proof {
            assert forall|j: int|
                0 <= j < i + 1 && spec_range_holds_reserved(#[trigger] orig[j]) implies warns@
                .contains(j as usize) by {
                if j < i {
                    let idx = choose|idx: int|
                        0 <= idx < warns_pre.len() && warns_pre[idx] == j as usize;
                    assert(warns@[idx] == j as usize);
                } else {
                    assert(warns@[warns@.len() - 1] == i);
                }
            }
        }
        let cipher = match &g.key {
            None => Cipher::NoOp,
            Some(k) => {
                let kc = clone_bytes(k);
                if g.enable_key_rotation == Some(true) {
                    Cipher::Rotation { key: kc }
                } else {
                    Cipher::Xor { key: kc }
                }
            },
        };
        let fin = ServerGroupFinalize {
            name: clone_bytes(&g.name),
            listen_addr: g.listen_addr,
            cipher,
            address_range: g.address_range,
            flow_control_rules: clone_flow_rules(&g.flow_control_rules),
        };
        proof {
            assert(matches_server_group(fin, orig[i as int]));
        }
        done.push(fin);
        i += 1;
    }
    Ok(
        (
            ServerConfigFinalize {
                channel_limit: match cfg.channel_limit {
                    Some(v) => v,
                    None => 100,
                },
                api_addr: match cfg.api_addr {
                    Some(a) => a,
                    None => SockAddr { ip: IpAddress::V4(0x7F00_0001), port: 3031 },
                },
                tcp_heartbeat_interval_secs: match cfg.tcp_heartbeat_interval_secs {
                    Some(v) => v,
                    None => 5,
                },
                tcp_heartbeat_continuous_loss: match cfg.tcp_heartbeat_continuous_loss {
                    Some(v) => v,
                    None => 5,
                },
                udp_heartbeat_interval_secs: match cfg.udp_heartbeat_interval_secs {
                    Some(v) => v,
                    None => 5,
                },
                udp_heartbeat_continuous_loss: match cfg.udp_heartbeat_continuous_loss {
                    Some(v) => v,
                    None => 5,
                },
                udp_heartbeat_continuous_recv: match cfg.udp_heartbeat_continuous_recv {
                    Some(v) => v,
                    None => 3,
                },
                groups: done,
            },
            warns,
        ),
    )
}


} // verus!
