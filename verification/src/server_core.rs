//! The authoritative server-side book-keeping: per-group peer maps, virtual
//! address assignment with eviction, WAN endpoint learning, UDP relaying
//! with flow control, and the NAT knock exchange.

use vstd::prelude::*;

use crate::net::{spec_mask_of, Ipv4Cidr, ProtocolMode, SockAddr, SERVER_VIRTUAL_ADDR};
use crate::protocol::{IpsEntry, ModeEntry, Msg, NodeUpdate, RegisterReq};

verus! {

/// One registered node, keyed by its virtual address.
#[derive(Debug, PartialEq, Eq)]
pub struct Peer {
    pub virtual_addr: u32,
    pub node_name: Vec<u8>,
    pub register_time: u64,
    pub mode: ProtocolMode,
    pub lan_addr: Option<SockAddr>,
    pub wan_addr: Option<SockAddr>,
    pub allowed_ips: Vec<Ipv4Cidr>,
    pub ips: Vec<IpsEntry>,
    pub specify_mode: Vec<ModeEntry>,
    /// The TCP session that owns this entry; the entry lives and dies with it.
    pub session_id: u64,
}

/// A flow-control rule: a byte budget per second for one destination block.
#[derive(Clone, Copy, Debug, PartialEq, Eq, Structural)]
pub struct FlowRule {
    pub cidr: Ipv4Cidr,
    pub bytes_per_sec: u64,
}

/// The live state of one rule's token bucket: how much of the budget the
/// current one-second window has used.
#[derive(Clone, Copy, Debug, PartialEq, Eq, Structural)]
pub struct FlowBucket {
    pub window_start: u64,
    pub used: u64,
}

/// What the server sends back out of one incoming UDP datagram.
#[derive(Debug, PartialEq, Eq)]
pub struct UdpSend {
    pub dest: SockAddr,
    pub msg: Msg,
}

/// One group's authoritative state.
#[derive(Debug)]
pub struct GroupState {
    pub name: Vec<u8>,
    pub cidr: Ipv4Cidr,
    pub peers: Vec<Peer>,
    pub flow_rules: Vec<FlowRule>,
    pub flow_buckets: Vec<FlowBucket>,
}

/// The virtual addresses of a peer list, in order.
pub open spec fn addrs_of(peers: Seq<Peer>) -> Seq<u32> {
    peers.map_values(|p: Peer| p.virtual_addr)
}

pub open spec fn addr_taken(peers: Seq<Peer>, a: u32) -> bool {
    exists|i: int| 0 <= i < peers.len() && (#[trigger] peers[i]).virtual_addr == a
}

/// Whether `a` may be handed to a node in this block: inside the block's
/// host range, and never the reserved server address. For prefixes up to 30
/// the network and broadcast addresses are excluded; a 31- or 32-bit block
/// has no such addresses.
pub open spec fn spec_is_assignable(cidr: Ipv4Cidr, a: u32) -> bool {
    &&& a != SERVER_VIRTUAL_ADDR
    &&& if cidr.prefix <= 30 {
        cidr.spec_network() < a < cidr.spec_broadcast()
    } else if cidr.prefix == 31 {
        cidr.spec_network() <= a <= cidr.spec_broadcast()
    } else {
        a == cidr.addr
    }
}

pub fn is_assignable(cidr: &Ipv4Cidr, a: u32) -> (r: bool)
    requires
        cidr.wf(),
    ensures
        r == spec_is_assignable(*cidr, a),
{
    if a == SERVER_VIRTUAL_ADDR {
        false
    } else if cidr.prefix <= 30 {
        cidr.network() < a && a < cidr.broadcast()
    } else if cidr.prefix == 31 {
        cidr.network() <= a && a <= cidr.broadcast()
    } else {
        a == cidr.addr
    }
}

proof fn lemma_mask_range(addr: u32, a: u32, s: u32)
    by (bit_vector)
    requires
        s < 32,
    ensures
        ((addr & (0xFFFF_FFFFu32 << s)) <= a && a <= (addr | !(0xFFFF_FFFFu32 << s))) <==> (addr
            ^ a) & (0xFFFF_FFFFu32 << s) == 0,
{
}

/// Every assignable address lies inside the group's CIDR.
pub proof fn lemma_assignable_in_cidr(cidr: Ipv4Cidr, a: u32)
    requires
        cidr.wf(),
        spec_is_assignable(cidr, a),
    ensures
        cidr.spec_contains(a),
{
    if cidr.prefix == 0 {
        assert((cidr.addr ^ a) & 0u32 == 0) by (bit_vector);
    } else if cidr.prefix >= 32 {
        assert((cidr.addr ^ cidr.addr) & 0xFFFF_FFFFu32 == 0) by (bit_vector);
    } else {
        let s = (32 - cidr.prefix) as u32;
        lemma_mask_range(cidr.addr, a, s);
    }
}

impl GroupState {
    /// The standing invariants: a real block, one entry per virtual address,
    /// every address actually assignable, and one bucket per flow rule with
    /// the rules ordered longest prefix first.
    pub open spec fn wf(self) -> bool {
        &&& self.cidr.wf()
        &&& addrs_of(self.peers@).no_duplicates()
        &&& forall|i: int|
            0 <= i < self.peers@.len() ==> spec_is_assignable(
                self.cidr,
                (#[trigger] self.peers@[i]).virtual_addr,
            )
        &&& self.flow_rules@.len() == self.flow_buckets@.len()
        &&& forall|i: int, j: int|
            0 <= i < j < self.flow_rules@.len() ==> (#[trigger] self.flow_rules@[i]).cidr.prefix
                >= (#[trigger] self.flow_rules@[j]).cidr.prefix
        &&& forall|i: int| 0 <= i < self.flow_rules@.len() ==> (#[trigger] self.flow_rules@[i]).cidr.wf()
    }
}

/// Virtual-address uniqueness: a well-formed group has exactly as many
/// distinct virtual addresses as peer entries.
pub proof fn lemma_virtual_addrs_unique(g: GroupState)
    requires
        g.wf(),
    ensures
        addrs_of(g.peers@).to_set().len() == g.peers@.len(),
{
    addrs_of(g.peers@).unique_seq_to_set();
}

/// Why a registration was refused.
#[derive(Clone, Copy, Debug, PartialEq, Eq, Structural)]
pub enum RejectReason {
    /// The proposed address is the reserved server address.
    ReservedAddress,
    /// Every assignable address of the block is in use.
    AddressExhausted,
}

/// What a registration produced.
#[derive(Clone, Copy, Debug, PartialEq, Eq, Structural)]
pub enum RegisterOutcome {
    Accepted { assigned: u32, netmask: u32, evicted_session: Option<u64> },
    Rejected { reason: RejectReason },
}

/// The entry a registration creates.
pub open spec fn spec_peer_of(req: RegisterReq, assigned: u32, session_id: u64, now: u64) -> Peer {
    Peer {
        virtual_addr: assigned,
        node_name: req.node_name,
        register_time: now,
        mode: req.mode,
        lan_addr: req.lan_addr,
        wan_addr: None,
        allowed_ips: req.allowed_ips,
        ips: req.ips,
        specify_mode: req.specify_mode,
        session_id,
    }
}

fn find_peer_index(peers: &Vec<Peer>, a: u32) -> (r: Option<usize>)
    ensures
        match r {
            None => !addr_taken(peers@, a),
            Some(i) => i < peers@.len() && peers@[i as int].virtual_addr == a && (forall|j: int|
                0 <= j < i ==> (#[trigger] peers@[j]).virtual_addr != a),
        },
{
    let n = peers.len();
    let mut i: usize = 0;
    while i < n
        invariant
            n == peers@.len(),
            i <= n,
            forall|j: int| 0 <= j < i ==> (#[trigger] peers@[j]).virtual_addr != a,
        decreases n - i,
    {
        if peers[i].virtual_addr == a {
            return Some(i);
        }
        i += 1;
    }
    None
}

/// Handle one registration. The reserved address is always refused; a
/// proposed assignable address is taken, evicting any prior holder; any
/// other proposal falls back to the lowest free assignable address; and a
/// full block refuses the registration and changes nothing.
#[verifier::rlimit(100)]
#[verifier::spinoff_prover]
pub fn register(g: &mut GroupState, req: RegisterReq, session_id: u64, now: u64) -> (r:
    RegisterOutcome)
    requires
        old(g).wf(),
        old(g).peers@.len() < usize::MAX,
    ensures
        final(g).wf(),
        final(g).name == old(g).name && final(g).cidr == old(g).cidr && final(g).flow_rules == old(
            g,
        ).flow_rules && final(g).flow_buckets == old(g).flow_buckets,
        req.virtual_addr == SERVER_VIRTUAL_ADDR ==> r == (RegisterOutcome::Rejected {
            reason: RejectReason::ReservedAddress,
        }) && final(g).peers@ == old(g).peers@,
        req.virtual_addr != SERVER_VIRTUAL_ADDR && spec_is_assignable(old(g).cidr, req.virtual_addr)
            ==> ({
            &&& r matches RegisterOutcome::Accepted { assigned, netmask, evicted_session }
            &&& r->Accepted_assigned == req.virtual_addr
            &&& r->Accepted_netmask == spec_mask_of(old(g).cidr.prefix)
            &&& if addr_taken(old(g).peers@, req.virtual_addr) {
                exists|k: int|
                    0 <= k < old(g).peers@.len() && (#[trigger] old(g).peers@[k]).virtual_addr
                        == req.virtual_addr && r->Accepted_evicted_session == Some(
                        old(g).peers@[k].session_id,
                    ) && final(g).peers@ == old(g).peers@.remove(k).push(
                        spec_peer_of(req, req.virtual_addr, session_id, now),
                    )
            } else {
                r->Accepted_evicted_session is None && final(g).peers@ == old(g).peers@.push(
                    spec_peer_of(req, req.virtual_addr, session_id, now),
                )
            }
        }),
        req.virtual_addr != SERVER_VIRTUAL_ADDR && !spec_is_assignable(
            old(g).cidr,
            req.virtual_addr,
        ) ==> ({
            if exists|a: int|
                0 <= a <= u32::MAX && #[trigger] spec_is_assignable(old(g).cidr, a as u32)
                    && !addr_taken(old(g).peers@, a as u32) {
                &&& r matches RegisterOutcome::Accepted { assigned, netmask, evicted_session }
                &&& spec_is_assignable(old(g).cidr, r->Accepted_assigned)
                &&& !addr_taken(old(g).peers@, r->Accepted_assigned)
                &&& forall|a: int|
                    0 <= a < r->Accepted_assigned && #[trigger] spec_is_assignable(
                        old(g).cidr,
                        a as u32,
                    ) ==> addr_taken(old(g).peers@, a as u32)
                &&& r->Accepted_netmask == spec_mask_of(old(g).cidr.prefix)
                &&& r->Accepted_evicted_session is None
                &&& final(g).peers@ == old(g).peers@.push(
                    spec_peer_of(req, r->Accepted_assigned, session_id, now),
                )
            } else {
                r == (RegisterOutcome::Rejected { reason: RejectReason::AddressExhausted })
                    && final(g).peers@ == old(g).peers@
            }
        }),
{
    let proposed = req.virtual_addr;
    if proposed == SERVER_VIRTUAL_ADDR {
        return RegisterOutcome::Rejected { reason: RejectReason::ReservedAddress };
    }
    let netmask = g.cidr.mask();
    if is_assignable(&g.cidr, proposed) {
        let ghost pre = g.peers@;
        let evicted_session = match find_peer_index(&g.peers, proposed) {
            Some(k) => {
                let victim = g.peers.remove(k);
                Some(victim.session_id)
            },
            None => None,
        };
        let ghost mid = g.peers@;
        g.peers.push(
            Peer {
                virtual_addr: proposed,
                node_name: req.node_name,
                register_time: now,
                mode: req.mode,
                lan_addr: req.lan_addr,
                wan_addr: None,
                allowed_ips: req.allowed_ips,
                ips: req.ips,
                specify_mode: req.specify_mode,
                session_id,
            },
        );
        proof {
            lemma_register_insert_wf(old(g).cidr, pre, mid, g.peers@, proposed);
        }
        return RegisterOutcome::Accepted { assigned: proposed, netmask, evicted_session };
    }
    // the proposal is unusable: hand out the lowest free assignable address
    let (start, end) = host_range(&g.cidr);
    let mut a: u64 = start as u64;
    let ghost pre = g.peers@;
    while a <= end as u64
        invariant
            g.peers@ == pre,
            old(g).wf(),
            g.cidr == old(g).cidr,
            g.name == old(g).name,
            g.flow_rules == old(g).flow_rules,
            g.flow_buckets == old(g).flow_buckets,
            pre == old(g).peers@,
            pre.len() < usize::MAX,
            req.virtual_addr != SERVER_VIRTUAL_ADDR,
            !spec_is_assignable(old(g).cidr, req.virtual_addr),
            netmask == spec_mask_of(old(g).cidr.prefix),
            start as int <= a <= end as int + 1,
            forall|x: int|
                0 <= x <= u32::MAX && x < a && #[trigger] spec_is_assignable(old(g).cidr, x as u32)
                    ==> addr_taken(pre, x as u32),
            forall|x: int|
                0 <= x <= u32::MAX && #[trigger] spec_is_assignable(old(g).cidr, x as u32)
                    ==> start as int <= x <= end as int,
            forall|x: int|
                start as int <= x <= end as int && x != SERVER_VIRTUAL_ADDR
                    ==> #[trigger] spec_is_assignable(old(g).cidr, x as u32),
        decreases end as int + 1 - a,
    {
        let cand = a as u32;
        if cand != SERVER_VIRTUAL_ADDR {
            match find_peer_index(&g.peers, cand) {
                Some(_) => {
                },
                None => {
                    proof {
                        assert(spec_is_assignable(old(g).cidr, (a as int) as u32));
                        assert(cand == (a as int) as u32);
                    }
                    let ghost mid = g.peers@;
                    g.peers.push(
                        Peer {
                            virtual_addr: cand,
                            node_name: req.node_name,
                            register_time: now,
                            mode: req.mode,
                            lan_addr: req.lan_addr,
                            wan_addr: None,
                            allowed_ips: req.allowed_ips,
                            ips: req.ips,
                            specify_mode: req.specify_mode,
                            session_id,
                        },
                    );
                    proof {
                        lemma_register_insert_wf(old(g).cidr, pre, mid, g.peers@, cand);
                    }
                    return RegisterOutcome::Accepted {
                        assigned: cand,
                        netmask,
                        evicted_session: None,
                    };
                },
            }
        }
        a += 1;
    }
    RegisterOutcome::Rejected { reason: RejectReason::AddressExhausted }
}

/// The closed interval of candidate host addresses of a block; the reserved
/// address is excluded separately. Every assignable address lies inside it.
fn host_range(cidr: &Ipv4Cidr) -> (r: (u32, u32))
    requires
        cidr.wf(),
    ensures
        r.0 as int <= r.1 as int + 1,
        forall|x: int|
            0 <= x <= u32::MAX && #[trigger] spec_is_assignable(*cidr, x as u32) ==> r.0 as int
                <= x <= r.1 as int,
        forall|x: int|
            r.0 as int <= x <= r.1 as int && x != SERVER_VIRTUAL_ADDR
                ==> #[trigger] spec_is_assignable(*cidr, x as u32),
{
    if cidr.prefix <= 30 {
        let network = cidr.network();
        let broadcast = cidr.broadcast();
        proof {
            lemma_network_le_broadcast(cidr.addr, spec_mask_of(cidr.prefix));
        }
        if network < broadcast {
            ((network + 1) as u32, (broadcast - 1) as u32)
        } else {
            // a degenerate block without hosts; the empty range
            (1u32, 0u32)
        }
    } else if cidr.prefix == 31 {
        proof {
            lemma_network_le_broadcast(cidr.addr, spec_mask_of(cidr.prefix));
        }
        (cidr.network(), cidr.broadcast())
    } else {
        (cidr.addr, cidr.addr)
    }
}

proof fn lemma_network_le_broadcast(addr: u32, mask: u32)
    by (bit_vector)
    ensures
        (addr & mask) <= (addr | !mask),
{
}

/// The peer list stays well-formed when an address's old holder is gone and
/// a fresh entry with that address is pushed.
proof fn lemma_register_insert_wf(
    cidr: Ipv4Cidr,
    pre: Seq<Peer>,
    mid: Seq<Peer>,
    post: Seq<Peer>,
    a: u32,
)
    requires
        cidr.wf(),
        addrs_of(pre).no_duplicates(),
        forall|i: int| 0 <= i < pre.len() ==> spec_is_assignable(cidr, (#[trigger] pre[i]).virtual_addr),
        spec_is_assignable(cidr, a),
        post.len() == mid.len() + 1,
        post[post.len() - 1].virtual_addr == a,
        forall|i: int| 0 <= i < mid.len() ==> #[trigger] post[i] == mid[i],
        // mid is pre without a's holder: either nobody held a, or the one
        // holder was removed
        (mid == pre && !addr_taken(pre, a)) || exists|k: int|
            0 <= k < pre.len() && mid == #[trigger] pre.remove(k) && pre[k].virtual_addr == a,
    ensures
        addrs_of(post).no_duplicates(),
        forall|i: int| 0 <= i < post.len() ==> spec_is_assignable(cidr, (#[trigger] post[i]).virtual_addr),
{
    assert forall|i: int| 0 <= i < mid.len() implies spec_is_assignable(
        cidr,
        (#[trigger] mid[i]).virtual_addr,
    ) && addr_taken(pre, mid[i].virtual_addr) by {
        if mid == pre {
        } else {
            let k = choose|k: int|
                0 <= k < pre.len() && mid == #[trigger] pre.remove(k) && pre[k].virtual_addr == a;
            if i < k {
                assert(mid[i] == pre[i]);
            } else {
                assert(mid[i] == pre[i + 1]);
            }
        }
    }
    assert(!addr_taken(mid, a)) by {
        if mid == pre {
        } else {
            let k = choose|k: int|
                0 <= k < pre.len() && mid == #[trigger] pre.remove(k) && pre[k].virtual_addr == a;
            assert forall|i: int| 0 <= i < mid.len() implies (#[trigger] mid[i]).virtual_addr != a
                by {
                let i0: int = if i < k {
                    i
                } else {
                    i + 1
                };
                assert(mid[i] == pre[i0]);
                assert(addrs_of(pre)[i0] == pre[i0].virtual_addr);
                assert(addrs_of(pre)[k] == pre[k].virtual_addr);
            }
        }
    }
    assert forall|i: int, j: int| 0 <= i < j < mid.len() implies (#[trigger] mid[i]).virtual_addr
        != (#[trigger] mid[j]).virtual_addr by {
        if mid == pre {
            assert(addrs_of(pre)[i] == pre[i].virtual_addr);
            assert(addrs_of(pre)[j] == pre[j].virtual_addr);
        } else {
            let k = choose|k: int|
                0 <= k < pre.len() && mid == #[trigger] pre.remove(k) && pre[k].virtual_addr == a;
            let i0: int = if i < k {
                i
            } else {
                i + 1
            };
            let j0: int = if j < k {
                j
            } else {
                j + 1
            };
            assert(mid[i] == pre[i0] && mid[j] == pre[j0]);
            assert(addrs_of(pre)[i0] == pre[i0].virtual_addr);
            assert(addrs_of(pre)[j0] == pre[j0].virtual_addr);
        }
    }
    assert forall|i: int, j: int| 0 <= i < j < post.len() implies addrs_of(post)[i] != addrs_of(
        post,
    )[j] by {
        assert(addrs_of(post)[i] == post[i].virtual_addr);
        assert(addrs_of(post)[j] == post[j].virtual_addr);
        if j == post.len() - 1 {
            assert(post[j].virtual_addr == a);
            assert(!addr_taken(mid, a));
            assert(post[i] == mid[i]);
        } else {
            assert(post[i] == mid[i] && post[j] == mid[j]);
        }
    }
}

// ---------------------------------------------------------------------------
// WAN endpoint learning and lookup
// ---------------------------------------------------------------------------

/// `post` is `pre` with `from`'s WAN endpoint set to `src` and nothing else
/// touched.
pub open spec fn peers_with_wan(pre: Seq<Peer>, from: u32, src: SockAddr, post: Seq<Peer>) -> bool {
    &&& post.len() == pre.len()
    &&& forall|i: int|
        0 <= i < pre.len() ==> #[trigger] post[i] == if pre[i].virtual_addr == from {
            Peer { wan_addr: Some(src), ..pre[i] }
        } else {
            pre[i]
        }
}

/// Learn `from`'s WAN endpoint from the source address of a UDP datagram.
/// The endpoint changes only when the observed source differs from what is
/// stored; TCP traffic never reaches this function.
pub fn touch_wan(g: &mut GroupState, from: u32, src: SockAddr) -> (changed: bool)
    requires
        old(g).wf(),
    ensures
        final(g).wf(),
        final(g).name == old(g).name && final(g).cidr == old(g).cidr && final(g).flow_rules == old(
            g,
        ).flow_rules && final(g).flow_buckets == old(g).flow_buckets,
        addr_taken(old(g).peers@, from) ==> peers_with_wan(old(g).peers@, from, src, final(g).peers@)
            && (exists|k: int|
            0 <= k < old(g).peers@.len() && (#[trigger] old(g).peers@[k]).virtual_addr == from
                && changed == (old(g).peers@[k].wan_addr != Some(src))),
        !addr_taken(old(g).peers@, from) ==> final(g).peers@ == old(g).peers@ && !changed,
{
    let i = match find_peer_index(&g.peers, from) {
        Some(i) => i,
        None => {
            return false;
        },
    };
    let ghost pre = g.peers@;
    let p = g.peers.remove(i);
    let was = p.wan_addr;
    let p2 = Peer { wan_addr: Some(src), ..p };
    g.peers.insert(i, p2);
    proof {
        let k = i as int;
        assert(g.peers@ =~= pre.update(k, p2));
        assert forall|j: int| 0 <= j < pre.len() implies #[trigger] g.peers@[j] == (if pre[j].virtual_addr
            == from {
            Peer { wan_addr: Some(src), ..pre[j] }
        } else {
            pre[j]
        }) by {
            if j != k {
                assert(g.peers@[j] == pre[j]);
                assert(addrs_of(pre)[j] == pre[j].virtual_addr);
                assert(addrs_of(pre)[k] == pre[k].virtual_addr);
            }
        }
        assert(addrs_of(g.peers@) =~= addrs_of(pre));
    }
    was != Some(src)
}

/// The stored WAN endpoint of a peer, when the peer is known at all.
pub fn wan_of(g: &GroupState, to: u32) -> (r: Option<SockAddr>)
    requires
        g.wf(),
    ensures
        addr_taken(g.peers@, to) ==> exists|k: int|
            0 <= k < g.peers@.len() && (#[trigger] g.peers@[k]).virtual_addr == to && r
                == g.peers@[k].wan_addr,
        !addr_taken(g.peers@, to) ==> r is None,
{
    match find_peer_index(&g.peers, to) {
        Some(i) => g.peers[i].wan_addr,
        None => None,
    }
}

// ---------------------------------------------------------------------------
// flow control: per-rule one-second byte budgets
// ---------------------------------------------------------------------------

/// `k` is the rule that governs `dst`: the first one whose block contains
/// it, which by the ordering invariant is a longest-prefix match.
pub open spec fn first_covering_rule(rules: Seq<FlowRule>, dst: u32, k: int) -> bool {
    &&& 0 <= k < rules.len()
    &&& rules[k].cidr.spec_contains(dst)
    &&& forall|j: int| 0 <= j < k ==> !(#[trigger] rules[j]).cidr.spec_contains(dst)
}

/// The bucket after its window is brought up to `now_sec`.
pub open spec fn refreshed_bucket(b: FlowBucket, now_sec: u64) -> FlowBucket {
    if now_sec > b.window_start {
        FlowBucket { window_start: now_sec, used: 0 }
    } else {
        b
    }
}

/// Charge `size` bytes against the rule covering `dst`, if any. A packet
/// whose rule's budget is spent is refused — dropped, never queued; with no
/// covering rule it passes freely.
pub fn flow_allow(g: &mut GroupState, dst: u32, size: u64, now_sec: u64) -> (allowed: bool)
    requires
        old(g).wf(),
    ensures
        final(g).wf(),
        final(g).name == old(g).name && final(g).cidr == old(g).cidr && final(g).flow_rules == old(
            g,
        ).flow_rules && final(g).peers@ == old(g).peers@,
        (forall|i: int|
            0 <= i < old(g).flow_rules@.len() ==> !(#[trigger] old(
                g,
            ).flow_rules@[i]).cidr.spec_contains(dst)) ==> allowed && final(g).flow_buckets == old(
            g,
        ).flow_buckets,
        (exists|i: int|
            0 <= i < old(g).flow_rules@.len() && (#[trigger] old(
                g,
            ).flow_rules@[i]).cidr.spec_contains(dst)) ==> exists|k: int|
            {
                &&& #[trigger] first_covering_rule(old(g).flow_rules@, dst, k)
                &&& ({
                    let fresh = refreshed_bucket(old(g).flow_buckets@[k], now_sec);
                    let ok = fresh.used + size <= old(g).flow_rules@[k].bytes_per_sec;
                    &&& allowed == ok
                    &&& final(g).flow_buckets@ == old(g).flow_buckets@.update(
                        k,
                        if ok {
                            FlowBucket {
                                window_start: fresh.window_start,
                                used: (fresh.used + size) as u64,
                            }
                        } else {
                            fresh
                        },
                    )
                })
            },
{
    let n = g.flow_rules.len();
    let mut i: usize = 0;
    while i < n
        invariant
            old(g).wf(),
            g == old(g),
            n == g.flow_rules@.len(),
            i <= n,
            forall|j: int| 0 <= j < i ==> !(#[trigger] g.flow_rules@[j]).cidr.spec_contains(dst),
        decreases n - i,
    {
        let rule = g.flow_rules[i];
        if rule.cidr.contains(dst) {
            let b = g.flow_buckets[i];
            let fresh = if now_sec > b.window_start {
                FlowBucket { window_start: now_sec, used: 0 }
            } else {
                b
            };
            let rate = rule.bytes_per_sec;
            let ok = size <= rate && fresh.used <= rate - size;
            let updated = if ok {
                FlowBucket { window_start: fresh.window_start, used: fresh.used + size }
            } else {
                fresh
            };
            g.flow_buckets.set(i, updated);
            proof {
                assert(first_covering_rule(old(g).flow_rules@, dst, i as int));
            }
            return ok;
        }
        i += 1;
    }
    true
}

// ---------------------------------------------------------------------------
// the server's UDP loop, one datagram at a time
// ---------------------------------------------------------------------------

/// With unique addresses, the stored endpoint of `to` is the one of any
/// entry carrying `to`.
proof fn lemma_wan_of_unique(peers: Seq<Peer>, to: u32, k: int)
    requires
        addrs_of(peers).no_duplicates(),
        0 <= k < peers.len(),
        peers[k].virtual_addr == to,
    ensures
        spec_wan_of(peers, to) == peers[k].wan_addr,
{
    let k2 = choose|k2: int| 0 <= k2 < peers.len() && (#[trigger] peers[k2]).virtual_addr == to;
    assert(addrs_of(peers)[k] == peers[k].virtual_addr);
    assert(addrs_of(peers)[k2] == peers[k2].virtual_addr);
}

/// Take in one deciphered UDP message and say what to send back out.
///
/// A heartbeat from a registered peer teaches its WAN endpoint and is
/// answered; a relay request is forwarded to the target's WAN endpoint when
/// it is known and the flow budget allows, and silently dropped otherwise;
/// a knock request teaches the requester's endpoint, answers with the
/// target's, and pokes the target so it opens its own pinhole. Anything
/// else has no business arriving over UDP and is dropped.
#[verifier::rlimit(100)]
#[verifier::spinoff_prover]
pub fn handle_udp(g: &mut GroupState, src: SockAddr, msg: Msg, now_sec: u64) -> (out: Vec<UdpSend>)
    requires
        old(g).wf(),
    ensures
        final(g).wf(),
        final(g).name == old(g).name && final(g).cidr == old(g).cidr && final(g).flow_rules == old(
            g,
        ).flow_rules,
        match msg {
            Msg::HeartbeatReq { from, seq, ts } => {
                &&& final(g).flow_buckets == old(g).flow_buckets
                &&& if addr_taken(old(g).peers@, from) {
                    &&& peers_with_wan(old(g).peers@, from, src, final(g).peers@)
                    &&& out@.len() == 1
                    &&& out@[0].dest == src
                    &&& out@[0].msg == (Msg::HeartbeatResp { seq })
                } else {
                    final(g).peers@ == old(g).peers@ && out@.len() == 0
                }
            },
            Msg::Relay { to, packet } => {
                &&& final(g).peers@ == old(g).peers@
                &&& ({
                    let wan = spec_wan_of(old(g).peers@, to);
                    if wan is Some {
                        exists|allowed: bool|
                            {
                                &&& #[trigger] flow_outcome(
                                    old(g).flow_rules@,
                                    old(g).flow_buckets@,
                                    to,
                                    packet@.len() as u64,
                                    now_sec,
                                    final(g).flow_buckets@,
                                    allowed,
                                )
                                &&& if allowed {
                                    out@.len() == 1 && out@[0].dest == wan->Some_0 && out@[0].msg
                                        == (Msg::Relay { to, packet })
                                } else {
                                    out@.len() == 0
                                }
                            }
                    } else {
                        final(g).flow_buckets == old(g).flow_buckets && out@.len() == 0
                    }
                })
            },
            Msg::KnockReq { from, target } => {
                &&& final(g).flow_buckets == old(g).flow_buckets
                &&& if addr_taken(old(g).peers@, from) {
                    peers_with_wan(old(g).peers@, from, src, final(g).peers@)
                } else {
                    final(g).peers@ == old(g).peers@
                }
                &&& ({
                    let wan = spec_wan_of(old(g).peers@, target);
                    if wan is Some && target != from {
                        &&& out@.len() == 2
                        &&& out@[0].dest == src
                        &&& out@[0].msg == (Msg::KnockResp { target, wan: wan->Some_0 })
                        &&& out@[1].dest == wan->Some_0
                        &&& out@[1].msg == (Msg::KnockReq { from, target })
                    } else {
                        out@.len() == 0
                    }
                })
            },
            _ => final(g).peers@ == old(g).peers@ && final(g).flow_buckets == old(g).flow_buckets
                && out@.len() == 0,
        },
{
    let mut out: Vec<UdpSend> = Vec::new();
    match msg {
        Msg::HeartbeatReq { from, seq, ts: _ } => {
            match find_peer_index(&g.peers, from) {
                Some(_) => {
                    touch_wan(g, from, src);
                    out.push(UdpSend { dest: src, msg: Msg::HeartbeatResp { seq } });
                },
                None => {
                },
            }
        },
        Msg::Relay { to, packet } => {
            let wan = wan_of(g, to);
            proof {
                if addr_taken(g.peers@, to) {
                    let k = choose|k: int|
                        0 <= k < g.peers@.len() && (#[trigger] g.peers@[k]).virtual_addr == to
                            && wan == g.peers@[k].wan_addr;
                    lemma_wan_of_unique(g.peers@, to, k);
                }
                assert(spec_wan_of(g.peers@, to) == wan);
            }
            match wan {
                Some(dest) => {
                    let size = #[verifier::truncate] (packet.len() as u64);
                    let allowed = flow_allow(g, to, size, now_sec);
                    if allowed {
                        out.push(UdpSend { dest, msg: Msg::Relay { to, packet } });
                    }
                    proof {
                        assert(flow_outcome(
                            old(g).flow_rules@,
                            old(g).flow_buckets@,
                            to,
                            size,
                            now_sec,
                            g.flow_buckets@,
                            allowed,
                        ));
                    }
                },
                None => {
                },
            }
        },
        Msg::KnockReq { from, target } => {
            let wan = wan_of(g, target);
            proof {
                if addr_taken(g.peers@, target) {
                    let k = choose|k: int|
                        0 <= k < g.peers@.len() && (#[trigger] g.peers@[k]).virtual_addr == target
                            && wan == g.peers@[k].wan_addr;
                    lemma_wan_of_unique(g.peers@, target, k);
                }
                assert(spec_wan_of(g.peers@, target) == wan);
            }
            match find_peer_index(&g.peers, from) {
                Some(_) => {
                    touch_wan(g, from, src);
                },
                None => {
                },
            }
            match wan {
                Some(dest) => {
                    if target != from {
                        out.push(UdpSend { dest: src, msg: Msg::KnockResp { target, wan: dest } });
                        out.push(UdpSend { dest, msg: Msg::KnockReq { from, target } });
                    }
                },
                None => {
                },
            }
        },
        _ => {
        },
    }
    out
}

/// The WAN endpoint stored for `to`, `None` when `to` is unknown or has no
/// endpoint yet.
pub open spec fn spec_wan_of(peers: Seq<Peer>, to: u32) -> Option<SockAddr> {
    if exists|k: int| 0 <= k < peers.len() && (#[trigger] peers[k]).virtual_addr == to {
        peers[choose|k: int| 0 <= k < peers.len() && (#[trigger] peers[k]).virtual_addr == to].wan_addr
    } else {
        None
    }
}

/// The bucket list and verdict `flow_allow` leaves behind for one charge.
pub open spec fn flow_outcome(
    rules: Seq<FlowRule>,
    pre: Seq<FlowBucket>,
    dst: u32,
    size: u64,
    now_sec: u64,
    post: Seq<FlowBucket>,
    allowed: bool,
) -> bool {
    if forall|i: int| 0 <= i < rules.len() ==> !(#[trigger] rules[i]).cidr.spec_contains(dst) {
        allowed && post == pre
    } else {
        exists|k: int|
            {
                &&& #[trigger] first_covering_rule(rules, dst, k)
                &&& ({
                    let fresh = refreshed_bucket(pre[k], now_sec);
                    let ok = fresh.used + size <= rules[k].bytes_per_sec;
                    &&& allowed == ok
                    &&& post == pre.update(
                        k,
                        if ok {
                            FlowBucket {
                                window_start: fresh.window_start,
                                used: (fresh.used + size) as u64,
                            }
                        } else {
                            fresh
                        },
                    )
                })
            }
    }
}

// ---------------------------------------------------------------------------
// the server's TCP loop, one message of a session at a time
// ---------------------------------------------------------------------------

/// What one TCP message of a registered session asks the runtime to do.
#[derive(Debug, PartialEq, Eq)]
pub enum TcpAction {
    /// Answer the heartbeat on the same session.
    ReplyHeartbeat { seq: u32 },
    /// Enqueue the forwarded packet on the target's session.
    ForwardTo { session: u64, from: u32, to: u32, packet: Vec<u8> },
    /// Nothing to send: the message updated state or was dropped.
    NoReply,
}

/// `post` is `pre` with `u`'s entry refreshed: the mode, LAN endpoint and
/// CIDR lists replaced, everything else — the WAN endpoint in particular —
/// untouched.
pub open spec fn peers_with_update(pre: Seq<Peer>, u: NodeUpdate, post: Seq<Peer>) -> bool {
    &&& post.len() == pre.len()
    &&& forall|i: int|
        0 <= i < pre.len() ==> #[trigger] post[i] == if pre[i].virtual_addr == u.virtual_addr {
            Peer {
                mode: u.mode,
                lan_addr: u.lan_addr,
                allowed_ips: u.allowed_ips,
                ips: u.ips,
                ..pre[i]
            }
        } else {
            pre[i]
        }
}

/// Take in one deciphered message of a registered TCP session.
///
/// Heartbeats are answered; a forward request is steered to the target's
/// session when the target is registered, and dropped otherwise; a node-map
/// update patches the sender's own entry. A TCP message never touches any
/// peer's WAN endpoint: that is learned from UDP sources alone.
#[verifier::rlimit(100)]
#[verifier::spinoff_prover]
pub fn handle_tcp(g: &mut GroupState, msg: Msg) -> (r: TcpAction)
    requires
        old(g).wf(),
    ensures
        final(g).wf(),
        final(g).name == old(g).name && final(g).cidr == old(g).cidr && final(g).flow_rules == old(
            g,
        ).flow_rules && final(g).flow_buckets == old(g).flow_buckets,
        // TCP never sets a WAN endpoint
        final(g).peers@.len() == old(g).peers@.len() && forall|i: int|
            0 <= i < old(g).peers@.len() ==> (#[trigger] final(g).peers@[i]).wan_addr == old(
                g,
            ).peers@[i].wan_addr,
        match msg {
            Msg::HeartbeatReq { from, seq, ts } => final(g).peers@ == old(g).peers@ && r == (
            TcpAction::ReplyHeartbeat { seq }),
            Msg::Forward { from, to, packet } => final(g).peers@ == old(g).peers@ && (if addr_taken(
                old(g).peers@,
                to,
            ) {
                exists|k: int|
                    0 <= k < old(g).peers@.len() && (#[trigger] old(g).peers@[k]).virtual_addr
                        == to && r == (TcpAction::ForwardTo {
                        session: old(g).peers@[k].session_id,
                        from,
                        to,
                        packet,
                    })
            } else {
                r == TcpAction::NoReply
            }),
            Msg::NodeMapUpdate(u) => r == TcpAction::NoReply && (if addr_taken(
                old(g).peers@,
                u.virtual_addr,
            ) {
                peers_with_update(old(g).peers@, u, final(g).peers@)
            } else {
                final(g).peers@ == old(g).peers@
            }),
            _ => final(g).peers@ == old(g).peers@ && r == TcpAction::NoReply,
        },
{
    match msg {
        Msg::HeartbeatReq { from: _, seq, ts: _ } => TcpAction::ReplyHeartbeat { seq },
        Msg::Forward { from, to, packet } => {
            match find_peer_index(&g.peers, to) {
                Some(k) => {
                    let session = g.peers[k].session_id;
                    TcpAction::ForwardTo { session, from, to, packet }
                },
                None => TcpAction::NoReply,
            }
        },
        Msg::NodeMapUpdate(u) => {
            match find_peer_index(&g.peers, u.virtual_addr) {
                Some(k) => {
                    let ghost pre = g.peers@;
                    let ghost uu = u;
                    let NodeUpdate { virtual_addr: _, mode, lan_addr, allowed_ips, ips } = u;
                    let p = g.peers.remove(k);
                    let p2 = Peer { mode, lan_addr, allowed_ips, ips, ..p };
                    g.peers.insert(k, p2);
                    proof {
                        let ki = k as int;
                        assert(g.peers@ =~= pre.update(ki, p2));
                        assert forall|j: int| 0 <= j < pre.len() implies #[trigger] g.peers@[j]
                            == (if pre[j].virtual_addr == uu.virtual_addr {
                            Peer {
                                mode: uu.mode,
                                lan_addr: uu.lan_addr,
                                allowed_ips: uu.allowed_ips,
                                ips: uu.ips,
                                ..pre[j]
                            }
                        } else {
                            pre[j]
                        }) by {
                            if j != ki {
                                assert(g.peers@[j] == pre[j]);
                                assert(addrs_of(pre)[j] == pre[j].virtual_addr);
                                assert(addrs_of(pre)[ki] == pre[ki].virtual_addr);
                            }
                        }
                        assert(addrs_of(g.peers@) =~= addrs_of(pre));
                    }
                    TcpAction::NoReply
                },
                None => TcpAction::NoReply,
            }
        },
        _ => TcpAction::NoReply,
    }
}

/// How a snapshot entry reflects one peer: every field the map carries, as
/// the node-map message holds it.
pub open spec fn snapshot_matches(pi: crate::protocol::PeerInfoModel, p: Peer) -> bool {
    &&& pi.virtual_addr == p.virtual_addr
    &&& pi.node_name == p.node_name@
    &&& pi.register_time == p.register_time
    &&& pi.mode == p.mode
    &&& pi.lan_addr == p.lan_addr
    &&& pi.wan_addr == p.wan_addr
    &&& pi.allowed_ips == p.allowed_ips@
    &&& pi.ips == p.ips@.map_values(|e: IpsEntry| e@)
}

/// The full map snapshot the periodic node-map broadcast carries.
pub fn snapshot_peers(g: &GroupState) -> (r: Vec<crate::protocol::PeerInfo>)
    ensures
        r@.len() == g.peers@.len(),
        forall|i: int|
            0 <= i < g.peers@.len() ==> snapshot_matches(
                (#[trigger] r@[i])@,
                g.peers@[i],
            ),
{
    let mut out: Vec<crate::protocol::PeerInfo> = Vec::new();
    let n = g.peers.len();
    let mut i: usize = 0;
    while i < n
        invariant
            n == g.peers@.len(),
            i <= n,
            out@.len() == i,
            forall|j: int|
                0 <= j < i ==> snapshot_matches((#[trigger] out@[j])@, g.peers@[j]),
        decreases n - i,
    {
        let p = &g.peers[i];
        let entry = crate::protocol::PeerInfo {
            virtual_addr: p.virtual_addr,
            node_name: crate::cloning::clone_bytes(&p.node_name),
            register_time: p.register_time,
            mode: p.mode,
            lan_addr: p.lan_addr,
            wan_addr: p.wan_addr,
            allowed_ips: crate::cloning::clone_cidrs(&p.allowed_ips),
            ips: crate::cloning::clone_ips_entries(&p.ips),
        };
        out.push(entry);
        i += 1;
    }
    out
}

} // verus!
