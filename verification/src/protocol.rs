//! The wire schema of the control protocol: registration, node-map sync,
//! heartbeats, relayed and direct user traffic, and the NAT knock exchange.
//!
//! Every message kind has a mathematical model (sequences in place of
//! vectors), an encoder to bytes, and a decoder; `lemma_dec_enc_msg` states
//! that decoding an encoding gives the message back, for every kind.

use vstd::prelude::*;
use vstd::assert_seqs_equal;

use crate::codec::{
    bytes_fit, dec_bytes, dec_list, dec_u32, dec_u64, dec_u8, elem_codec_ok, enc_bytes, enc_list,
    enc_u32, enc_u64, enc_u8, lemma_add_assoc, lemma_dec_enc_bytes, lemma_dec_enc_list,
    lemma_dec_enc_u32, lemma_dec_enc_u64, lemma_dec_enc_u8, lemma_skip_of_add, lemma_skip_of_skip,
    list_fits,
};
use crate::net::{Ipv4Cidr, ProtocolMode, SockAddr};
use crate::wire::{
    dec_cidr, dec_mode, dec_opt_sockaddr, dec_sockaddr, enc_cidr, enc_mode, enc_opt_sockaddr,
    enc_sockaddr, lemma_dec_enc_cidr, lemma_dec_enc_mode, lemma_dec_enc_opt_sockaddr,
    lemma_dec_enc_sockaddr,
};

verus! {

// ---------------------------------------------------------------------------
// message payload types and their models
// ---------------------------------------------------------------------------

/// Extra CIDRs owned by the node at a given virtual address.
#[derive(Clone, Debug, PartialEq, Eq)]
pub struct IpsEntry {
    pub owner: u32,
    pub cidrs: Vec<Ipv4Cidr>,
}

pub ghost struct IpsEntryModel {
    pub owner: u32,
    pub cidrs: Seq<Ipv4Cidr>,
}

impl View for IpsEntry {
    type V = IpsEntryModel;

    open spec fn view(&self) -> IpsEntryModel {
        IpsEntryModel { owner: self.owner, cidrs: self.cidrs@ }
    }
}

impl IpsEntryModel {
    pub open spec fn wf(self) -> bool {
        list_fits(self.cidrs) && forall|i: int|
            0 <= i < self.cidrs.len() ==> (#[trigger] self.cidrs[i]).wf()
    }
}

/// A per-remote-peer protocol override.
#[derive(Clone, Copy, Debug, PartialEq, Eq, Structural)]
pub struct ModeEntry {
    pub peer: u32,
    pub mode: ProtocolMode,
}

/// One peer's entry in a node-map snapshot.
#[derive(Clone, Debug, PartialEq, Eq)]
pub struct PeerInfo {
    pub virtual_addr: u32,
    pub node_name: Vec<u8>,
    pub register_time: u64,
    pub mode: ProtocolMode,
    pub lan_addr: Option<SockAddr>,
    pub wan_addr: Option<SockAddr>,
    pub allowed_ips: Vec<Ipv4Cidr>,
    pub ips: Vec<IpsEntry>,
}

pub ghost struct PeerInfoModel {
    pub virtual_addr: u32,
    pub node_name: Seq<u8>,
    pub register_time: u64,
    pub mode: ProtocolMode,
    pub lan_addr: Option<SockAddr>,
    pub wan_addr: Option<SockAddr>,
    pub allowed_ips: Seq<Ipv4Cidr>,
    pub ips: Seq<IpsEntryModel>,
}

impl View for PeerInfo {
    type V = PeerInfoModel;

    open spec fn view(&self) -> PeerInfoModel {
        PeerInfoModel {
            virtual_addr: self.virtual_addr,
            node_name: self.node_name@,
            register_time: self.register_time,
            mode: self.mode,
            lan_addr: self.lan_addr,
            wan_addr: self.wan_addr,
            allowed_ips: self.allowed_ips@,
            ips: self.ips@.map_values(|e: IpsEntry| e@),
        }
    }
}

impl PeerInfoModel {
    pub open spec fn wf(self) -> bool {
        &&& bytes_fit(self.node_name)
        &&& list_fits(self.allowed_ips)
        &&& forall|i: int| 0 <= i < self.allowed_ips.len() ==> (#[trigger] self.allowed_ips[i]).wf()
        &&& list_fits(self.ips)
        &&& forall|i: int| 0 <= i < self.ips.len() ==> (#[trigger] self.ips[i]).wf()
    }
}

/// What a node announces about itself when registering.
#[derive(Clone, Debug, PartialEq, Eq)]
pub struct RegisterReq {
    pub group_name: Vec<u8>,
    pub virtual_addr: u32,
    pub node_name: Vec<u8>,
    pub mode: ProtocolMode,
    pub lan_addr: Option<SockAddr>,
    pub allowed_ips: Vec<Ipv4Cidr>,
    pub ips: Vec<IpsEntry>,
    pub specify_mode: Vec<ModeEntry>,
    pub key_fingerprint: u64,
}

pub ghost struct RegisterModel {
    pub group_name: Seq<u8>,
    pub virtual_addr: u32,
    pub node_name: Seq<u8>,
    pub mode: ProtocolMode,
    pub lan_addr: Option<SockAddr>,
    pub allowed_ips: Seq<Ipv4Cidr>,
    pub ips: Seq<IpsEntryModel>,
    pub specify_mode: Seq<ModeEntry>,
    pub key_fingerprint: u64,
}

impl View for RegisterReq {
    type V = RegisterModel;

    open spec fn view(&self) -> RegisterModel {
        RegisterModel {
            group_name: self.group_name@,
            virtual_addr: self.virtual_addr,
            node_name: self.node_name@,
            mode: self.mode,
            lan_addr: self.lan_addr,
            allowed_ips: self.allowed_ips@,
            ips: self.ips@.map_values(|e: IpsEntry| e@),
            specify_mode: self.specify_mode@,
            key_fingerprint: self.key_fingerprint,
        }
    }
}

impl RegisterModel {
    pub open spec fn wf(self) -> bool {
        &&& bytes_fit(self.group_name)
        &&& bytes_fit(self.node_name)
        &&& list_fits(self.allowed_ips)
        &&& forall|i: int| 0 <= i < self.allowed_ips.len() ==> (#[trigger] self.allowed_ips[i]).wf()
        &&& list_fits(self.ips)
        &&& forall|i: int| 0 <= i < self.ips.len() ==> (#[trigger] self.ips[i]).wf()
        &&& list_fits(self.specify_mode)
    }
}

/// A partial refresh of the sender's own node-map entry.
#[derive(Clone, Debug, PartialEq, Eq)]
pub struct NodeUpdate {
    pub virtual_addr: u32,
    pub mode: ProtocolMode,
    pub lan_addr: Option<SockAddr>,
    pub allowed_ips: Vec<Ipv4Cidr>,
    pub ips: Vec<IpsEntry>,
}

pub ghost struct NodeUpdateModel {
    pub virtual_addr: u32,
    pub mode: ProtocolMode,
    pub lan_addr: Option<SockAddr>,
    pub allowed_ips: Seq<Ipv4Cidr>,
    pub ips: Seq<IpsEntryModel>,
}

impl View for NodeUpdate {
    type V = NodeUpdateModel;

    open spec fn view(&self) -> NodeUpdateModel {
        NodeUpdateModel {
            virtual_addr: self.virtual_addr,
            mode: self.mode,
            lan_addr: self.lan_addr,
            allowed_ips: self.allowed_ips@,
            ips: self.ips@.map_values(|e: IpsEntry| e@),
        }
    }
}

impl NodeUpdateModel {
    pub open spec fn wf(self) -> bool {
        &&& list_fits(self.allowed_ips)
        &&& forall|i: int| 0 <= i < self.allowed_ips.len() ==> (#[trigger] self.allowed_ips[i]).wf()
        &&& list_fits(self.ips)
        &&& forall|i: int| 0 <= i < self.ips.len() ==> (#[trigger] self.ips[i]).wf()
    }
}

/// A control or data message, as it crosses either transport.
#[derive(Clone, Debug, PartialEq, Eq)]
pub enum Msg {
    Register(RegisterReq),
    RegisterOk { assigned: u32, netmask: u32 },
    RegisterReject { reason: Vec<u8> },
    NodeMap { peers: Vec<PeerInfo> },
    NodeMapUpdate(NodeUpdate),
    HeartbeatReq { from: u32, seq: u32, ts: u64 },
    HeartbeatResp { seq: u32 },
    Forward { from: u32, to: u32, packet: Vec<u8> },
    Relay { to: u32, packet: Vec<u8> },
    P2p { packet: Vec<u8> },
    KnockReq { from: u32, target: u32 },
    KnockResp { target: u32, wan: SockAddr },
}

pub ghost enum MsgModel {
    Register(RegisterModel),
    RegisterOk { assigned: u32, netmask: u32 },
    RegisterReject { reason: Seq<u8> },
    NodeMap { peers: Seq<PeerInfoModel> },
    NodeMapUpdate(NodeUpdateModel),
    HeartbeatReq { from: u32, seq: u32, ts: u64 },
    HeartbeatResp { seq: u32 },
    Forward { from: u32, to: u32, packet: Seq<u8> },
    Relay { to: u32, packet: Seq<u8> },
    P2p { packet: Seq<u8> },
    KnockReq { from: u32, target: u32 },
    KnockResp { target: u32, wan: SockAddr },
}

impl View for Msg {
    type V = MsgModel;

    open spec fn view(&self) -> MsgModel {
        match self {
            Msg::Register(r) => MsgModel::Register(r@),
            Msg::RegisterOk { assigned, netmask } => MsgModel::RegisterOk {
                assigned: *assigned,
                netmask: *netmask,
            },
            Msg::RegisterReject { reason } => MsgModel::RegisterReject { reason: reason@ },
            Msg::NodeMap { peers } => MsgModel::NodeMap {
                peers: peers@.map_values(|p: PeerInfo| p@),
            },
            Msg::NodeMapUpdate(u) => MsgModel::NodeMapUpdate(u@),
            Msg::HeartbeatReq { from, seq, ts } => MsgModel::HeartbeatReq {
                from: *from,
                seq: *seq,
                ts: *ts,
            },
            Msg::HeartbeatResp { seq } => MsgModel::HeartbeatResp { seq: *seq },
            Msg::Forward { from, to, packet } => MsgModel::Forward {
                from: *from,
                to: *to,
                packet: packet@,
            },
            Msg::Relay { to, packet } => MsgModel::Relay { to: *to, packet: packet@ },
            Msg::P2p { packet } => MsgModel::P2p { packet: packet@ },
            Msg::KnockReq { from, target } => MsgModel::KnockReq { from: *from, target: *target },
            Msg::KnockResp { target, wan } => MsgModel::KnockResp { target: *target, wan: *wan },
        }
    }
}

impl MsgModel {
    pub open spec fn wf(self) -> bool {
        match self {
            MsgModel::Register(r) => r.wf(),
            MsgModel::RegisterOk { .. } => true,
            MsgModel::RegisterReject { reason } => bytes_fit(reason),
            MsgModel::NodeMap { peers } => list_fits(peers) && forall|i: int|
                0 <= i < peers.len() ==> (#[trigger] peers[i]).wf(),
            MsgModel::NodeMapUpdate(u) => u.wf(),
            MsgModel::HeartbeatReq { .. } => true,
            MsgModel::HeartbeatResp { .. } => true,
            MsgModel::Forward { packet, .. } => bytes_fit(packet),
            MsgModel::Relay { packet, .. } => bytes_fit(packet),
            MsgModel::P2p { packet } => bytes_fit(packet),
            MsgModel::KnockReq { .. } => true,
            MsgModel::KnockResp { .. } => true,
        }
    }
}

// ---------------------------------------------------------------------------
// element codecs as closures, for the counted lists
// ---------------------------------------------------------------------------

pub open spec fn cidr_enc() -> spec_fn(Ipv4Cidr) -> Seq<u8> {
    |c: Ipv4Cidr| enc_cidr(c)
}

pub open spec fn cidr_dec() -> spec_fn(Seq<u8>) -> Option<(Ipv4Cidr, int)> {
    |s: Seq<u8>| dec_cidr(s)
}

pub open spec fn cidr_wf() -> spec_fn(Ipv4Cidr) -> bool {
    |c: Ipv4Cidr| c.wf()
}

pub proof fn lemma_cidr_codec_ok()
    ensures
        elem_codec_ok(cidr_enc(), cidr_dec(), cidr_wf()),
{
    assert forall|t: Ipv4Cidr, rest: Seq<u8>| cidr_wf()(t) implies #[trigger] cidr_dec()(
        cidr_enc()(t) + rest,
    ) == Some((t, cidr_enc()(t).len() as int)) by {
        lemma_dec_enc_cidr(t, rest);
    }
}

pub open spec fn enc_mode_entry(e: ModeEntry) -> Seq<u8> {
    enc_u32(e.peer) + enc_mode(e.mode)
}

pub open spec fn dec_mode_entry(s: Seq<u8>) -> Option<(ModeEntry, int)> {
    match dec_u32(s) {
        None => None,
        Some((peer, c1)) => match dec_mode(s.skip(c1)) {
            None => None,
            Some((mode, c2)) => Some((ModeEntry { peer, mode }, c1 + c2)),
        },
    }
}

pub proof fn lemma_dec_enc_mode_entry(e: ModeEntry, rest: Seq<u8>)
    ensures
        dec_mode_entry(enc_mode_entry(e) + rest) == Some((e, 5int)),
{
    let s = enc_mode_entry(e) + rest;
    assert_seqs_equal!(s == enc_u32(e.peer) + (enc_mode(e.mode) + rest));
    lemma_dec_enc_u32(e.peer, enc_mode(e.mode) + rest);
    assert_seqs_equal!(s.skip(4) == enc_mode(e.mode) + rest);
    lemma_dec_enc_mode(e.mode, rest);
}

pub open spec fn mode_entry_enc() -> spec_fn(ModeEntry) -> Seq<u8> {
    |e: ModeEntry| enc_mode_entry(e)
}

pub open spec fn mode_entry_dec() -> spec_fn(Seq<u8>) -> Option<(ModeEntry, int)> {
    |s: Seq<u8>| dec_mode_entry(s)
}

pub open spec fn mode_entry_wf() -> spec_fn(ModeEntry) -> bool {
    |e: ModeEntry| true
}

pub proof fn lemma_mode_entry_codec_ok()
    ensures
        elem_codec_ok(mode_entry_enc(), mode_entry_dec(), mode_entry_wf()),
{
    assert forall|t: ModeEntry, rest: Seq<u8>| mode_entry_wf()(t) implies #[trigger] mode_entry_dec()(
        mode_entry_enc()(t) + rest,
    ) == Some((t, mode_entry_enc()(t).len() as int)) by {
        lemma_dec_enc_mode_entry(t, rest);
    }
}

pub open spec fn enc_ips_entry(e: IpsEntryModel) -> Seq<u8> {
    enc_u32(e.owner) + enc_list(e.cidrs, cidr_enc())
}

pub open spec fn dec_ips_entry(s: Seq<u8>) -> Option<(IpsEntryModel, int)> {
    match dec_u32(s) {
        None => None,
        Some((owner, c1)) => match dec_list(s.skip(c1), cidr_dec()) {
            None => None,
            Some((cidrs, c2)) => Some((IpsEntryModel { owner, cidrs }, c1 + c2)),
        },
    }
}

pub proof fn lemma_dec_enc_ips_entry(e: IpsEntryModel, rest: Seq<u8>)
    requires
        e.wf(),
    ensures
        dec_ips_entry(enc_ips_entry(e) + rest) == Some((e, enc_ips_entry(e).len() as int)),
{
    let s = enc_ips_entry(e) + rest;
    let tail = enc_list(e.cidrs, cidr_enc());
    assert_seqs_equal!(s == enc_u32(e.owner) + (tail + rest));
    lemma_dec_enc_u32(e.owner, tail + rest);
    assert_seqs_equal!(s.skip(4) == tail + rest);
    lemma_cidr_codec_ok();
    assert forall|i: int| 0 <= i < e.cidrs.len() implies cidr_wf()(#[trigger] e.cidrs[i]) by {}
    lemma_dec_enc_list(e.cidrs, cidr_enc(), cidr_dec(), cidr_wf(), rest);
}

pub open spec fn ips_entry_enc() -> spec_fn(IpsEntryModel) -> Seq<u8> {
    |e: IpsEntryModel| enc_ips_entry(e)
}

pub open spec fn ips_entry_dec() -> spec_fn(Seq<u8>) -> Option<(IpsEntryModel, int)> {
    |s: Seq<u8>| dec_ips_entry(s)
}

pub open spec fn ips_entry_wf() -> spec_fn(IpsEntryModel) -> bool {
    |e: IpsEntryModel| e.wf()
}

pub proof fn lemma_ips_entry_codec_ok()
    ensures
        elem_codec_ok(ips_entry_enc(), ips_entry_dec(), ips_entry_wf()),
{
    assert forall|t: IpsEntryModel, rest: Seq<u8>| ips_entry_wf()(t) implies #[trigger] ips_entry_dec()(
        ips_entry_enc()(t) + rest,
    ) == Some((t, ips_entry_enc()(t).len() as int)) by {
        lemma_dec_enc_ips_entry(t, rest);
    }
}

// ---------------------------------------------------------------------------
// peer entries
// ---------------------------------------------------------------------------

pub open spec fn enc_peer_tail(p: PeerInfoModel) -> Seq<u8> {
    enc_opt_sockaddr(p.lan_addr) + (enc_opt_sockaddr(p.wan_addr) + (enc_list(
        p.allowed_ips,
        cidr_enc(),
    ) + enc_list(p.ips, ips_entry_enc())))
}

pub open spec fn enc_peer(p: PeerInfoModel) -> Seq<u8> {
    enc_u32(p.virtual_addr) + (enc_bytes(p.node_name) + (enc_u64(p.register_time) + (enc_mode(
        p.mode,
    ) + enc_peer_tail(p))))
}

/// The trailing fields of a peer entry: endpoints and owned CIDR lists.
#[verifier::opaque]
pub open spec fn dec_peer_tail(s: Seq<u8>) -> Option<
    ((Option<SockAddr>, Option<SockAddr>, Seq<Ipv4Cidr>, Seq<IpsEntryModel>), int),
> {
    match dec_opt_sockaddr(s) {
        None => None,
        Some((lan_addr, c1)) => match dec_opt_sockaddr(s.skip(c1)) {
            None => None,
            Some((wan_addr, c2)) => match dec_list(s.skip(c1 + c2), cidr_dec()) {
                None => None,
                Some((allowed_ips, c3)) => match dec_list(s.skip(c1 + c2 + c3), ips_entry_dec()) {
                    None => None,
                    Some((ips, c4)) => Some(
                        ((lan_addr, wan_addr, allowed_ips, ips), c1 + c2 + c3 + c4),
                    ),
                },
            },
        },
    }
}

#[verifier::opaque]
pub open spec fn dec_peer(s: Seq<u8>) -> Option<(PeerInfoModel, int)> {
    match dec_u32(s) {
        None => None,
        Some((virtual_addr, c1)) => match dec_bytes(s.skip(c1)) {
            None => None,
            Some((node_name, c2)) => match dec_u64(s.skip(c1 + c2)) {
                None => None,
                Some((register_time, c3)) => match dec_mode(s.skip(c1 + c2 + c3)) {
                    None => None,
                    Some((mode, c4)) => match dec_peer_tail(s.skip(c1 + c2 + c3 + c4)) {
                        None => None,
                        Some(((lan_addr, wan_addr, allowed_ips, ips), c5)) => Some(
                            (
                                PeerInfoModel {
                                    virtual_addr,
                                    node_name,
                                    register_time,
                                    mode,
                                    lan_addr,
                                    wan_addr,
                                    allowed_ips,
                                    ips,
                                },
                                c1 + c2 + c3 + c4 + c5,
                            ),
                        ),
                    },
                },
            },
        },
    }
}

#[verifier::rlimit(100)]
#[verifier::spinoff_prover]
pub proof fn lemma_dec_enc_peer_tail_pub(p: PeerInfoModel, rest: Seq<u8>)
    requires
        p.wf(),
    ensures
        dec_peer_tail(enc_peer_tail(p) + rest) == Some(
            ((p.lan_addr, p.wan_addr, p.allowed_ips, p.ips), enc_peer_tail(p).len() as int),
        ),
{
    reveal(dec_peer_tail);
    let e1 = enc_opt_sockaddr(p.lan_addr);
    let e2 = enc_opt_sockaddr(p.wan_addr);
    let e3 = enc_list(p.allowed_ips, cidr_enc());
    let e4 = enc_list(p.ips, ips_entry_enc());
    let s = enc_peer_tail(p) + rest;
    let t4 = e4;
    let t3 = e3 + t4;
    let t2 = e2 + t3;
    let r4 = t4 + rest;
    let r3 = t3 + rest;
    let r2 = t2 + rest;
    let n1 = e1.len() as int;
    let n2 = e2.len() as int;
    let n3 = e3.len() as int;
    let n4 = e4.len() as int;
    lemma_add_assoc(e1, t2, rest);
    lemma_add_assoc(e2, t3, rest);
    lemma_add_assoc(e3, t4, rest);
    assert(s == e1 + r2);
    assert(r2 == e2 + r3 && r3 == e3 + r4);
    lemma_skip_of_add(e1, r2);
    lemma_skip_of_skip(s, n1, n2);
    lemma_skip_of_add(e2, r3);
    lemma_skip_of_skip(s, n1 + n2, n3);
    lemma_skip_of_add(e3, r4);
    assert(s.skip(n1) == r2);
    assert(s.skip(n1 + n2) == r3);
    assert(s.skip(n1 + n2 + n3) == r4);
    assert(dec_opt_sockaddr(s) == Some((p.lan_addr, n1))) by {
        lemma_dec_enc_opt_sockaddr(p.lan_addr, r2);
    }
    assert(dec_opt_sockaddr(s.skip(n1)) == Some((p.wan_addr, n2))) by {
        lemma_dec_enc_opt_sockaddr(p.wan_addr, r3);
    }
    assert(dec_list(s.skip(n1 + n2), cidr_dec()) == Some((p.allowed_ips, n3))) by {
        lemma_cidr_codec_ok();
        lemma_dec_enc_list(p.allowed_ips, cidr_enc(), cidr_dec(), cidr_wf(), r4);
    }
    assert(dec_list(s.skip(n1 + n2 + n3), ips_entry_dec()) == Some((p.ips, n4))) by {
        lemma_ips_entry_codec_ok();
        lemma_dec_enc_list(p.ips, ips_entry_enc(), ips_entry_dec(), ips_entry_wf(), rest);
    }
}

#[verifier::rlimit(100)]
#[verifier::spinoff_prover]
pub proof fn lemma_dec_enc_peer(p: PeerInfoModel, rest: Seq<u8>)
    requires
        p.wf(),
    ensures
        dec_peer(enc_peer(p) + rest) == Some((p, enc_peer(p).len() as int)),
{
    reveal(dec_peer);
    let e1 = enc_u32(p.virtual_addr);
    let e2 = enc_bytes(p.node_name);
    let e3 = enc_u64(p.register_time);
    let e4 = enc_mode(p.mode);
    let e5 = enc_peer_tail(p);
    let s = enc_peer(p) + rest;
    let t5 = e5;
    let t4 = e4 + t5;
    let t3 = e3 + t4;
    let t2 = e2 + t3;
    let r5 = t5 + rest;
    let r4 = t4 + rest;
    let r3 = t3 + rest;
    let r2 = t2 + rest;
    let n1 = e1.len() as int;
    let n2 = e2.len() as int;
    let n3 = e3.len() as int;
    let n4 = e4.len() as int;
    let n5 = e5.len() as int;
    lemma_add_assoc(e1, t2, rest);
    lemma_add_assoc(e2, t3, rest);
    lemma_add_assoc(e3, t4, rest);
    lemma_add_assoc(e4, t5, rest);
    assert(s == e1 + r2);
    assert(r2 == e2 + r3 && r3 == e3 + r4 && r4 == e4 + r5);
    lemma_skip_of_add(e1, r2);
    lemma_skip_of_skip(s, n1, n2);
    lemma_skip_of_add(e2, r3);
    lemma_skip_of_skip(s, n1 + n2, n3);
    lemma_skip_of_add(e3, r4);
    lemma_skip_of_skip(s, n1 + n2 + n3, n4);
    lemma_skip_of_add(e4, r5);
    assert(s.skip(n1) == r2);
    assert(s.skip(n1 + n2) == r3);
    assert(s.skip(n1 + n2 + n3) == r4);
    assert(s.skip(n1 + n2 + n3 + n4) == r5);
    assert(dec_u32(s) == Some((p.virtual_addr, n1))) by {
        lemma_dec_enc_u32(p.virtual_addr, r2);
    }
    assert(dec_bytes(s.skip(n1)) == Some((p.node_name, n2))) by {
        lemma_dec_enc_bytes(p.node_name, r3);
    }
    assert(dec_u64(s.skip(n1 + n2)) == Some((p.register_time, n3))) by {
        lemma_dec_enc_u64(p.register_time, r4);
    }
    assert(dec_mode(s.skip(n1 + n2 + n3)) == Some((p.mode, n4))) by {
        lemma_dec_enc_mode(p.mode, r5);
    }
    assert(dec_peer_tail(s.skip(n1 + n2 + n3 + n4)) == Some(
        ((p.lan_addr, p.wan_addr, p.allowed_ips, p.ips), n5),
    )) by {
        lemma_dec_enc_peer_tail_pub(p, rest);
    }
}

pub open spec fn peer_enc() -> spec_fn(PeerInfoModel) -> Seq<u8> {
    |p: PeerInfoModel| enc_peer(p)
}

pub open spec fn peer_dec() -> spec_fn(Seq<u8>) -> Option<(PeerInfoModel, int)> {
    |s: Seq<u8>| dec_peer(s)
}

pub open spec fn peer_wf() -> spec_fn(PeerInfoModel) -> bool {
    |p: PeerInfoModel| p.wf()
}

pub proof fn lemma_peer_codec_ok()
    ensures
        elem_codec_ok(peer_enc(), peer_dec(), peer_wf()),
{
    assert forall|t: PeerInfoModel, rest: Seq<u8>| peer_wf()(t) implies #[trigger] peer_dec()(
        peer_enc()(t) + rest,
    ) == Some((t, peer_enc()(t).len() as int)) by {
        lemma_dec_enc_peer(t, rest);
    }
}

// ---------------------------------------------------------------------------
// registration and self-update payloads
// ---------------------------------------------------------------------------

pub open spec fn enc_register_tail(r: RegisterModel) -> Seq<u8> {
    enc_list(r.allowed_ips, cidr_enc()) + (enc_list(r.ips, ips_entry_enc()) + (enc_list(
        r.specify_mode,
        mode_entry_enc(),
    ) + enc_u64(r.key_fingerprint)))
}

pub open spec fn enc_register_mid(r: RegisterModel) -> Seq<u8> {
    enc_u32(r.virtual_addr) + (enc_bytes(r.node_name) + (enc_mode(r.mode) + (enc_opt_sockaddr(
        r.lan_addr,
    ) + enc_register_tail(r))))
}

pub open spec fn enc_register(r: RegisterModel) -> Seq<u8> {
    enc_bytes(r.group_name) + enc_register_mid(r)
}

/// The trailing fields of a registration: CIDR lists, overrides and the key
/// fingerprint.
#[verifier::opaque]
pub open spec fn dec_register_tail(s: Seq<u8>) -> Option<
    ((Seq<Ipv4Cidr>, Seq<IpsEntryModel>, Seq<ModeEntry>, u64), int),
> {
    match dec_list(s, cidr_dec()) {
        None => None,
        Some((allowed_ips, c1)) => match dec_list(s.skip(c1), ips_entry_dec()) {
            None => None,
            Some((ips, c2)) => match dec_list(s.skip(c1 + c2), mode_entry_dec()) {
                None => None,
                Some((specify_mode, c3)) => match dec_u64(s.skip(c1 + c2 + c3)) {
                    None => None,
                    Some((key_fingerprint, c4)) => Some(
                        ((allowed_ips, ips, specify_mode, key_fingerprint), c1 + c2 + c3 + c4),
                    ),
                },
            },
        },
    }
}

/// Everything of a registration after the group name.
#[verifier::opaque]
pub open spec fn dec_register_mid(s: Seq<u8>) -> Option<(RegisterModel, int)> {
    match dec_u32(s) {
        None => None,
        Some((virtual_addr, c1)) => match dec_bytes(s.skip(c1)) {
            None => None,
            Some((node_name, c2)) => match dec_mode(s.skip(c1 + c2)) {
                None => None,
                Some((mode, c3)) => match dec_opt_sockaddr(s.skip(c1 + c2 + c3)) {
                    None => None,
                    Some((lan_addr, c4)) => match dec_register_tail(s.skip(c1 + c2 + c3 + c4)) {
                        None => None,
                        Some(((allowed_ips, ips, specify_mode, key_fingerprint), c5)) => Some(
                            (
                                RegisterModel {
                                    group_name: Seq::<u8>::empty(),
                                    virtual_addr,
                                    node_name,
                                    mode,
                                    lan_addr,
                                    allowed_ips,
                                    ips,
                                    specify_mode,
                                    key_fingerprint,
                                },
                                c1 + c2 + c3 + c4 + c5,
                            ),
                        ),
                    },
                },
            },
        },
    }
}

#[verifier::opaque]
pub open spec fn dec_register(s: Seq<u8>) -> Option<(RegisterModel, int)> {
    match dec_bytes(s) {
        None => None,
        Some((group_name, c1)) => match dec_register_mid(s.skip(c1)) {
            None => None,
            Some((m, c2)) => Some((RegisterModel { group_name, ..m }, c1 + c2)),
        },
    }
}

#[verifier::rlimit(100)]
#[verifier::spinoff_prover]
pub proof fn lemma_dec_enc_register_tail_pub(r: RegisterModel, rest: Seq<u8>)
    requires
        r.wf(),
    ensures
        dec_register_tail(enc_register_tail(r) + rest) == Some(
            (
                (r.allowed_ips, r.ips, r.specify_mode, r.key_fingerprint),
                enc_register_tail(r).len() as int,
            ),
        ),
{
    reveal(dec_register_tail);
    let e1 = enc_list(r.allowed_ips, cidr_enc());
    let e2 = enc_list(r.ips, ips_entry_enc());
    let e3 = enc_list(r.specify_mode, mode_entry_enc());
    let e4 = enc_u64(r.key_fingerprint);
    let s = enc_register_tail(r) + rest;
    let t4 = e4;
    let t3 = e3 + t4;
    let t2 = e2 + t3;
    let r4 = t4 + rest;
    let r3 = t3 + rest;
    let r2 = t2 + rest;
    let n1 = e1.len() as int;
    let n2 = e2.len() as int;
    let n3 = e3.len() as int;
    let n4 = e4.len() as int;
    lemma_add_assoc(e1, t2, rest);
    lemma_add_assoc(e2, t3, rest);
    lemma_add_assoc(e3, t4, rest);
    assert(s == e1 + r2);
    assert(r2 == e2 + r3 && r3 == e3 + r4);
    lemma_skip_of_add(e1, r2);
    lemma_skip_of_skip(s, n1, n2);
    lemma_skip_of_add(e2, r3);
    lemma_skip_of_skip(s, n1 + n2, n3);
    lemma_skip_of_add(e3, r4);
    assert(s.skip(n1) == r2);
    assert(s.skip(n1 + n2) == r3);
    assert(s.skip(n1 + n2 + n3) == r4);
    assert(dec_list(s, cidr_dec()) == Some((r.allowed_ips, n1))) by {
        lemma_cidr_codec_ok();
        lemma_dec_enc_list(r.allowed_ips, cidr_enc(), cidr_dec(), cidr_wf(), r2);
    }
    assert(dec_list(s.skip(n1), ips_entry_dec()) == Some((r.ips, n2))) by {
        lemma_ips_entry_codec_ok();
        lemma_dec_enc_list(r.ips, ips_entry_enc(), ips_entry_dec(), ips_entry_wf(), r3);
    }
    assert(dec_list(s.skip(n1 + n2), mode_entry_dec()) == Some((r.specify_mode, n3))) by {
        lemma_mode_entry_codec_ok();
        lemma_dec_enc_list(r.specify_mode, mode_entry_enc(), mode_entry_dec(), mode_entry_wf(), r4);
    }
    assert(dec_u64(s.skip(n1 + n2 + n3)) == Some((r.key_fingerprint, n4))) by {
        lemma_dec_enc_u64(r.key_fingerprint, rest);
    }
}

#[verifier::rlimit(100)]
#[verifier::spinoff_prover]
#[verifier::rlimit(100)]
#[verifier::spinoff_prover]
proof fn lemma_dec_enc_register_mid(r: RegisterModel, rest: Seq<u8>)
    requires
        r.wf(),
    ensures
        dec_register_mid(enc_register_mid(r) + rest) == Some(
            (
                RegisterModel { group_name: Seq::<u8>::empty(), ..r },
                enc_register_mid(r).len() as int,
            ),
        ),
{
    reveal(dec_register_mid);
    let e1 = enc_u32(r.virtual_addr);
    let e2 = enc_bytes(r.node_name);
    let e3 = enc_mode(r.mode);
    let e4 = enc_opt_sockaddr(r.lan_addr);
    let e5 = enc_register_tail(r);
    let s = enc_register_mid(r) + rest;
    let t5 = e5;
    let t4 = e4 + t5;
    let t3 = e3 + t4;
    let t2 = e2 + t3;
    let r5 = t5 + rest;
    let r4 = t4 + rest;
    let r3 = t3 + rest;
    let r2 = t2 + rest;
    let n1 = e1.len() as int;
    let n2 = e2.len() as int;
    let n3 = e3.len() as int;
    let n4 = e4.len() as int;
    let n5 = e5.len() as int;
    lemma_add_assoc(e1, t2, rest);
    lemma_add_assoc(e2, t3, rest);
    lemma_add_assoc(e3, t4, rest);
    lemma_add_assoc(e4, t5, rest);
    assert(s == e1 + r2);
    assert(r2 == e2 + r3 && r3 == e3 + r4 && r4 == e4 + r5);
    lemma_skip_of_add(e1, r2);
    lemma_skip_of_skip(s, n1, n2);
    lemma_skip_of_add(e2, r3);
    lemma_skip_of_skip(s, n1 + n2, n3);
    lemma_skip_of_add(e3, r4);
    lemma_skip_of_skip(s, n1 + n2 + n3, n4);
    lemma_skip_of_add(e4, r5);
    assert(s.skip(n1) == r2);
    assert(s.skip(n1 + n2) == r3);
    assert(s.skip(n1 + n2 + n3) == r4);
    assert(s.skip(n1 + n2 + n3 + n4) == r5);
    assert(dec_u32(s) == Some((r.virtual_addr, n1))) by {
        lemma_dec_enc_u32(r.virtual_addr, r2);
    }
    assert(dec_bytes(s.skip(n1)) == Some((r.node_name, n2))) by {
        lemma_dec_enc_bytes(r.node_name, r3);
    }
    assert(dec_mode(s.skip(n1 + n2)) == Some((r.mode, n3))) by {
        lemma_dec_enc_mode(r.mode, r4);
    }
    assert(dec_opt_sockaddr(s.skip(n1 + n2 + n3)) == Some((r.lan_addr, n4))) by {
        lemma_dec_enc_opt_sockaddr(r.lan_addr, r5);
    }
    assert(dec_register_tail(s.skip(n1 + n2 + n3 + n4)) == Some(
        ((r.allowed_ips, r.ips, r.specify_mode, r.key_fingerprint), n5),
    )) by {
        lemma_dec_enc_register_tail_pub(r, rest);
    }
}

#[verifier::rlimit(100)]
#[verifier::spinoff_prover]
pub proof fn lemma_dec_enc_register(r: RegisterModel, rest: Seq<u8>)
    requires
        r.wf(),
    ensures
        dec_register(enc_register(r) + rest) == Some((r, enc_register(r).len() as int)),
{
    reveal(dec_register);
    let e1 = enc_bytes(r.group_name);
    let e2 = enc_register_mid(r);
    let s = enc_register(r) + rest;
    let r2 = e2 + rest;
    let n1 = e1.len() as int;
    let n2 = e2.len() as int;
    lemma_add_assoc(e1, e2, rest);
    assert(s == e1 + r2);
    lemma_skip_of_add(e1, r2);
    assert(s.skip(n1) == r2);
    assert(dec_bytes(s) == Some((r.group_name, n1))) by {
        lemma_dec_enc_bytes(r.group_name, r2);
    }
    assert(dec_register_mid(s.skip(n1)) == Some(
        (RegisterModel { group_name: Seq::<u8>::empty(), ..r }, n2),
    )) by {
        lemma_dec_enc_register_mid(r, rest);
    }
    assert(RegisterModel { group_name: r.group_name, ..RegisterModel {
        group_name: Seq::<u8>::empty(),
        ..r
    } } == r);
}

pub open spec fn enc_update(u: NodeUpdateModel) -> Seq<u8> {
    enc_u32(u.virtual_addr) + (enc_mode(u.mode) + (enc_opt_sockaddr(u.lan_addr) + (enc_list(
        u.allowed_ips,
        cidr_enc(),
    ) + enc_list(u.ips, ips_entry_enc()))))
}

#[verifier::opaque]
pub open spec fn dec_update(s: Seq<u8>) -> Option<(NodeUpdateModel, int)> {
    match dec_u32(s) {
        None => None,
        Some((virtual_addr, c1)) => match dec_mode(s.skip(c1)) {
            None => None,
            Some((mode, c2)) => match dec_opt_sockaddr(s.skip(c1 + c2)) {
                None => None,
                Some((lan_addr, c3)) => match dec_list(s.skip(c1 + c2 + c3), cidr_dec()) {
                    None => None,
                    Some((allowed_ips, c4)) => match dec_list(
                        s.skip(c1 + c2 + c3 + c4),
                        ips_entry_dec(),
                    ) {
                        None => None,
                        Some((ips, c5)) => Some(
                            (
                                NodeUpdateModel { virtual_addr, mode, lan_addr, allowed_ips, ips },
                                c1 + c2 + c3 + c4 + c5,
                            ),
                        ),
                    },
                },
            },
        },
    }
}

#[verifier::rlimit(100)]
#[verifier::spinoff_prover]
pub proof fn lemma_dec_enc_update(u: NodeUpdateModel, rest: Seq<u8>)
    requires
        u.wf(),
    ensures
        dec_update(enc_update(u) + rest) == Some((u, enc_update(u).len() as int)),
{
    reveal(dec_update);
    let e1 = enc_u32(u.virtual_addr);
    let e2 = enc_mode(u.mode);
    let e3 = enc_opt_sockaddr(u.lan_addr);
    let e4 = enc_list(u.allowed_ips, cidr_enc());
    let e5 = enc_list(u.ips, ips_entry_enc());
    let s = enc_update(u) + rest;
    let t5 = e5;
    let t4 = e4 + t5;
    let t3 = e3 + t4;
    let t2 = e2 + t3;
    let r5 = t5 + rest;
    let r4 = t4 + rest;
    let r3 = t3 + rest;
    let r2 = t2 + rest;
    let n1 = e1.len() as int;
    let n2 = e2.len() as int;
    let n3 = e3.len() as int;
    let n4 = e4.len() as int;
    lemma_add_assoc(e1, t2, rest);
    lemma_add_assoc(e2, t3, rest);
    lemma_add_assoc(e3, t4, rest);
    lemma_add_assoc(e4, t5, rest);
    assert(s == e1 + r2);
    assert(r2 == e2 + r3 && r3 == e3 + r4 && r4 == e4 + r5);
    lemma_skip_of_add(e1, r2);
    lemma_skip_of_skip(s, n1, n2);
    lemma_skip_of_add(e2, r3);
    lemma_skip_of_skip(s, n1 + n2, n3);
    lemma_skip_of_add(e3, r4);
    lemma_skip_of_skip(s, n1 + n2 + n3, n4);
    lemma_skip_of_add(e4, r5);
    lemma_dec_enc_u32(u.virtual_addr, r2);
    assert(dec_u32(s) == Some((u.virtual_addr, n1)));
    assert(s.skip(n1) == r2);
    lemma_dec_enc_mode(u.mode, r3);
    assert(dec_mode(s.skip(n1)) == Some((u.mode, n2)));
    assert(s.skip(n1 + n2) == r3);
    lemma_dec_enc_opt_sockaddr(u.lan_addr, r4);
    assert(dec_opt_sockaddr(s.skip(n1 + n2)) == Some((u.lan_addr, n3)));
    assert(s.skip(n1 + n2 + n3) == r4);
    lemma_cidr_codec_ok();
    lemma_dec_enc_list(u.allowed_ips, cidr_enc(), cidr_dec(), cidr_wf(), r5);
    assert(dec_list(s.skip(n1 + n2 + n3), cidr_dec()) == Some((u.allowed_ips, n4)));
    assert(s.skip(n1 + n2 + n3 + n4) == r5);
    lemma_ips_entry_codec_ok();
    lemma_dec_enc_list(u.ips, ips_entry_enc(), ips_entry_dec(), ips_entry_wf(), rest);
    assert(dec_list(s.skip(n1 + n2 + n3 + n4), ips_entry_dec()) == Some((u.ips, e5.len() as int)));
}

// ---------------------------------------------------------------------------
// whole messages: a tag byte, then the payload
// ---------------------------------------------------------------------------

pub open spec fn tag_of(m: MsgModel) -> u8 {
    match m {
        MsgModel::Register(..) => 1,
        MsgModel::RegisterOk { .. } => 2,
        MsgModel::RegisterReject { .. } => 3,
        MsgModel::NodeMap { .. } => 4,
        MsgModel::NodeMapUpdate(..) => 5,
        MsgModel::HeartbeatReq { .. } => 6,
        MsgModel::HeartbeatResp { .. } => 7,
        MsgModel::Forward { .. } => 8,
        MsgModel::Relay { .. } => 9,
        MsgModel::P2p { .. } => 10,
        MsgModel::KnockReq { .. } => 11,
        MsgModel::KnockResp { .. } => 12,
    }
}

pub open spec fn enc_payload(m: MsgModel) -> Seq<u8> {
    match m {
        MsgModel::Register(r) => enc_register(r),
        MsgModel::RegisterOk { assigned, netmask } => enc_u32(assigned) + enc_u32(netmask),
        MsgModel::RegisterReject { reason } => enc_bytes(reason),
        MsgModel::NodeMap { peers } => enc_list(peers, peer_enc()),
        MsgModel::NodeMapUpdate(u) => enc_update(u),
        MsgModel::HeartbeatReq { from, seq, ts } => enc_u32(from) + enc_u32(seq) + enc_u64(ts),
        MsgModel::HeartbeatResp { seq } => enc_u32(seq),
        MsgModel::Forward { from, to, packet } => enc_u32(from) + enc_u32(to) + enc_bytes(packet),
        MsgModel::Relay { to, packet } => enc_u32(to) + enc_bytes(packet),
        MsgModel::P2p { packet } => enc_bytes(packet),
        MsgModel::KnockReq { from, target } => enc_u32(from) + enc_u32(target),
        MsgModel::KnockResp { target, wan } => enc_u32(target) + enc_sockaddr(wan),
    }
}

/// A message on the wire: its tag byte, then its payload.
pub open spec fn enc_msg(m: MsgModel) -> Seq<u8> {
    enc_u8(tag_of(m)) + enc_payload(m)
}

#[verifier::opaque]
pub open spec fn dec_payload(tag: u8, s: Seq<u8>) -> Option<(MsgModel, int)> {
    if tag == 1 {
        match dec_register(s) {
            None => None,
            Some((r, c)) => Some((MsgModel::Register(r), c)),
        }
    } else if tag == 2 {
        match dec_u32(s) {
            None => None,
            Some((assigned, c1)) => match dec_u32(s.skip(c1)) {
                None => None,
                Some((netmask, c2)) => Some((MsgModel::RegisterOk { assigned, netmask }, c1 + c2)),
            },
        }
    } else if tag == 3 {
        match dec_bytes(s) {
            None => None,
            Some((reason, c)) => Some((MsgModel::RegisterReject { reason }, c)),
        }
    } else if tag == 4 {
        match dec_list(s, peer_dec()) {
            None => None,
            Some((peers, c)) => Some((MsgModel::NodeMap { peers }, c)),
        }
    } else if tag == 5 {
        match dec_update(s) {
            None => None,
            Some((u, c)) => Some((MsgModel::NodeMapUpdate(u), c)),
        }
    } else if tag == 6 {
        match dec_u32(s) {
            None => None,
            Some((from, c1)) => match dec_u32(s.skip(c1)) {
                None => None,
                Some((seq, c2)) => match dec_u64(s.skip(c1 + c2)) {
                    None => None,
                    Some((ts, c3)) => Some(
                        (MsgModel::HeartbeatReq { from, seq, ts }, c1 + c2 + c3),
                    ),
                },
            },
        }
    } else if tag == 7 {
        match dec_u32(s) {
            None => None,
            Some((seq, c)) => Some((MsgModel::HeartbeatResp { seq }, c)),
        }
    } else if tag == 8 {
        match dec_u32(s) {
            None => None,
            Some((from, c1)) => match dec_u32(s.skip(c1)) {
                None => None,
                Some((to, c2)) => match dec_bytes(s.skip(c1 + c2)) {
                    None => None,
                    Some((packet, c3)) => Some((MsgModel::Forward { from, to, packet }, c1 + c2 + c3)),
                },
            },
        }
    } else if tag == 9 {
        match dec_u32(s) {
            None => None,
            Some((to, c1)) => match dec_bytes(s.skip(c1)) {
                None => None,
                Some((packet, c2)) => Some((MsgModel::Relay { to, packet }, c1 + c2)),
            },
        }
    } else if tag == 10 {
        match dec_bytes(s) {
            None => None,
            Some((packet, c)) => Some((MsgModel::P2p { packet }, c)),
        }
    } else if tag == 11 {
        match dec_u32(s) {
            None => None,
            Some((from, c1)) => match dec_u32(s.skip(c1)) {
                None => None,
                Some((target, c2)) => Some((MsgModel::KnockReq { from, target }, c1 + c2)),
            },
        }
    } else if tag == 12 {
        match dec_u32(s) {
            None => None,
            Some((target, c1)) => match dec_sockaddr(s.skip(c1)) {
                None => None,
                Some((wan, c2)) => Some((MsgModel::KnockResp { target, wan }, c1 + c2)),
            },
        }
    } else {
        None
    }
}

#[verifier::opaque]
pub open spec fn dec_msg(s: Seq<u8>) -> Option<(MsgModel, int)> {
    match dec_u8(s) {
        None => None,
        Some((tag, c0)) => match dec_payload(tag, s.skip(c0)) {
            None => None,
            Some((m, c1)) => Some((m, c0 + c1)),
        },
    }
}

#[verifier::rlimit(100)]
#[verifier::spinoff_prover]
proof fn lemma_payload_register(m: MsgModel, rest: Seq<u8>)
    requires
        m.wf(),
        m matches MsgModel::Register(..),
    ensures
        dec_payload(tag_of(m), enc_payload(m) + rest) == Some(
            (m, enc_payload(m).len() as int),
        ),
{
    reveal(dec_payload);
    let p = enc_payload(m) + rest;
    if let MsgModel::Register(r) = m {
        lemma_dec_enc_register(r, rest);
    }
}

#[verifier::rlimit(100)]
#[verifier::spinoff_prover]
proof fn lemma_payload_register_ok(m: MsgModel, rest: Seq<u8>)
    requires
        m.wf(),
        m matches MsgModel::RegisterOk { .. },
    ensures
        dec_payload(tag_of(m), enc_payload(m) + rest) == Some(
            (m, enc_payload(m).len() as int),
        ),
{
    reveal(dec_payload);
    let p = enc_payload(m) + rest;
    if let MsgModel::RegisterOk { assigned, netmask } = m {
        lemma_add_assoc(enc_u32(assigned), enc_u32(netmask), rest);
        lemma_skip_of_add(enc_u32(assigned), enc_u32(netmask) + rest);
        assert(dec_u32(p) == Some((assigned, 4int))) by {
            lemma_dec_enc_u32(assigned, enc_u32(netmask) + rest);
        }
        assert(dec_u32(p.skip(4)) == Some((netmask, 4int))) by {
            lemma_dec_enc_u32(netmask, rest);
        }
    }
}

#[verifier::rlimit(100)]
#[verifier::spinoff_prover]
proof fn lemma_payload_register_reject(m: MsgModel, rest: Seq<u8>)
    requires
        m.wf(),
        m matches MsgModel::RegisterReject { .. },
    ensures
        dec_payload(tag_of(m), enc_payload(m) + rest) == Some(
            (m, enc_payload(m).len() as int),
        ),
{
    reveal(dec_payload);
    if let MsgModel::RegisterReject { reason } = m {
        lemma_dec_enc_bytes(reason, rest);
    }
}

#[verifier::rlimit(100)]
#[verifier::spinoff_prover]
proof fn lemma_payload_node_map(m: MsgModel, rest: Seq<u8>)
    requires
        m.wf(),
        m matches MsgModel::NodeMap { .. },
    ensures
        dec_payload(tag_of(m), enc_payload(m) + rest) == Some(
            (m, enc_payload(m).len() as int),
        ),
{
    reveal(dec_payload);
    if let MsgModel::NodeMap { peers } = m {
        lemma_peer_codec_ok();
        lemma_dec_enc_list(peers, peer_enc(), peer_dec(), peer_wf(), rest);
    }
}

#[verifier::rlimit(100)]
#[verifier::spinoff_prover]
proof fn lemma_payload_node_map_update(m: MsgModel, rest: Seq<u8>)
    requires
        m.wf(),
        m matches MsgModel::NodeMapUpdate(..),
    ensures
        dec_payload(tag_of(m), enc_payload(m) + rest) == Some(
            (m, enc_payload(m).len() as int),
        ),
{
    reveal(dec_payload);
    if let MsgModel::NodeMapUpdate(u) = m {
        lemma_dec_enc_update(u, rest);
    }
}

#[verifier::rlimit(100)]
#[verifier::spinoff_prover]
proof fn lemma_payload_heartbeat_req(m: MsgModel, rest: Seq<u8>)
    requires
        m.wf(),
        m matches MsgModel::HeartbeatReq { .. },
    ensures
        dec_payload(tag_of(m), enc_payload(m) + rest) == Some(
            (m, enc_payload(m).len() as int),
        ),
{
    reveal(dec_payload);
    let p = enc_payload(m) + rest;
    if let MsgModel::HeartbeatReq { from, seq, ts } = m {
        let mid = enc_u32(seq) + enc_u64(ts);
        lemma_add_assoc(enc_u32(from), mid, rest);
        lemma_add_assoc(enc_u32(seq), enc_u64(ts), rest);
        assert(p == enc_u32(from) + (mid + rest));
        assert(mid + rest == enc_u32(seq) + (enc_u64(ts) + rest));
        lemma_skip_of_add(enc_u32(from), mid + rest);
        lemma_skip_of_skip(p, 4, 4);
        lemma_skip_of_add(enc_u32(seq), enc_u64(ts) + rest);
        assert(dec_u32(p) == Some((from, 4int))) by {
            lemma_dec_enc_u32(from, mid + rest);
        }
        assert(dec_u32(p.skip(4)) == Some((seq, 4int))) by {
            lemma_dec_enc_u32(seq, enc_u64(ts) + rest);
        }
        assert(dec_u64(p.skip(8)) == Some((ts, 8int))) by {
            lemma_dec_enc_u64(ts, rest);
        }
    }
}

#[verifier::rlimit(100)]
#[verifier::spinoff_prover]
proof fn lemma_payload_heartbeat_resp(m: MsgModel, rest: Seq<u8>)
    requires
        m.wf(),
        m matches MsgModel::HeartbeatResp { .. },
    ensures
        dec_payload(tag_of(m), enc_payload(m) + rest) == Some(
            (m, enc_payload(m).len() as int),
        ),
{
    reveal(dec_payload);
    if let MsgModel::HeartbeatResp { seq } = m {
        lemma_dec_enc_u32(seq, rest);
    }
}

#[verifier::rlimit(100)]
#[verifier::spinoff_prover]
proof fn lemma_payload_forward(m: MsgModel, rest: Seq<u8>)
    requires
        m.wf(),
        m matches MsgModel::Forward { .. },
    ensures
        dec_payload(tag_of(m), enc_payload(m) + rest) == Some(
            (m, enc_payload(m).len() as int),
        ),
{
    reveal(dec_payload);
    let p = enc_payload(m) + rest;
    if let MsgModel::Forward { from, to, packet } = m {
        let mid = enc_u32(to) + enc_bytes(packet);
        lemma_add_assoc(enc_u32(from), mid, rest);
        lemma_add_assoc(enc_u32(to), enc_bytes(packet), rest);
        assert(p == enc_u32(from) + (mid + rest));
        assert(mid + rest == enc_u32(to) + (enc_bytes(packet) + rest));
        lemma_skip_of_add(enc_u32(from), mid + rest);
        lemma_skip_of_skip(p, 4, 4);
        lemma_skip_of_add(enc_u32(to), enc_bytes(packet) + rest);
        assert(dec_u32(p) == Some((from, 4int))) by {
            lemma_dec_enc_u32(from, mid + rest);
        }
        assert(dec_u32(p.skip(4)) == Some((to, 4int))) by {
            lemma_dec_enc_u32(to, enc_bytes(packet) + rest);
        }
        assert(dec_bytes(p.skip(8)) == Some((packet, 2 + packet.len() as int))) by {
            lemma_dec_enc_bytes(packet, rest);
        }
    }
}

#[verifier::rlimit(100)]
#[verifier::spinoff_prover]
proof fn lemma_payload_relay(m: MsgModel, rest: Seq<u8>)
    requires
        m.wf(),
        m matches MsgModel::Relay { .. },
    ensures
        dec_payload(tag_of(m), enc_payload(m) + rest) == Some(
            (m, enc_payload(m).len() as int),
        ),
{
    reveal(dec_payload);
    let p = enc_payload(m) + rest;
    if let MsgModel::Relay { to, packet } = m {
        lemma_add_assoc(enc_u32(to), enc_bytes(packet), rest);
        lemma_skip_of_add(enc_u32(to), enc_bytes(packet) + rest);
        assert(dec_u32(p) == Some((to, 4int))) by {
            lemma_dec_enc_u32(to, enc_bytes(packet) + rest);
        }
        assert(dec_bytes(p.skip(4)) == Some((packet, 2 + packet.len() as int))) by {
            lemma_dec_enc_bytes(packet, rest);
        }
    }
}

#[verifier::rlimit(100)]
#[verifier::spinoff_prover]
proof fn lemma_payload_p2p(m: MsgModel, rest: Seq<u8>)
    requires
        m.wf(),
        m matches MsgModel::P2p { .. },
    ensures
        dec_payload(tag_of(m), enc_payload(m) + rest) == Some(
            (m, enc_payload(m).len() as int),
        ),
{
    reveal(dec_payload);
    if let MsgModel::P2p { packet } = m {
        lemma_dec_enc_bytes(packet, rest);
    }
}

#[verifier::rlimit(100)]
#[verifier::spinoff_prover]
proof fn lemma_payload_knock_req(m: MsgModel, rest: Seq<u8>)
    requires
        m.wf(),
        m matches MsgModel::KnockReq { .. },
    ensures
        dec_payload(tag_of(m), enc_payload(m) + rest) == Some(
            (m, enc_payload(m).len() as int),
        ),
{
    reveal(dec_payload);
    let p = enc_payload(m) + rest;
    if let MsgModel::KnockReq { from, target } = m {
        lemma_add_assoc(enc_u32(from), enc_u32(target), rest);
        lemma_skip_of_add(enc_u32(from), enc_u32(target) + rest);
        assert(dec_u32(p) == Some((from, 4int))) by {
            lemma_dec_enc_u32(from, enc_u32(target) + rest);
        }
        assert(dec_u32(p.skip(4)) == Some((target, 4int))) by {
            lemma_dec_enc_u32(target, rest);
        }
    }
}

#[verifier::rlimit(100)]
#[verifier::spinoff_prover]
proof fn lemma_payload_knock_resp(m: MsgModel, rest: Seq<u8>)
    requires
        m.wf(),
        m matches MsgModel::KnockResp { .. },
    ensures
        dec_payload(tag_of(m), enc_payload(m) + rest) == Some(
            (m, enc_payload(m).len() as int),
        ),
{
    reveal(dec_payload);
    let p = enc_payload(m) + rest;
    if let MsgModel::KnockResp { target, wan } = m {
        lemma_add_assoc(enc_u32(target), enc_sockaddr(wan), rest);
        lemma_skip_of_add(enc_u32(target), enc_sockaddr(wan) + rest);
        assert(dec_u32(p) == Some((target, 4int))) by {
            lemma_dec_enc_u32(target, enc_sockaddr(wan) + rest);
        }
        assert(dec_sockaddr(p.skip(4)) == Some((wan, enc_sockaddr(wan).len() as int))) by {
            lemma_dec_enc_sockaddr(wan, rest);
        }
    }
}

proof fn lemma_dec_enc_payload(m: MsgModel, rest: Seq<u8>)
    requires
        m.wf(),
    ensures
        dec_payload(tag_of(m), enc_payload(m) + rest) == Some(
            (m, enc_payload(m).len() as int),
        ),
{
    match m {
        MsgModel::Register(..) => lemma_payload_register(m, rest),
        MsgModel::RegisterOk { .. } => lemma_payload_register_ok(m, rest),
        MsgModel::RegisterReject { .. } => lemma_payload_register_reject(m, rest),
        MsgModel::NodeMap { .. } => lemma_payload_node_map(m, rest),
        MsgModel::NodeMapUpdate(..) => lemma_payload_node_map_update(m, rest),
        MsgModel::HeartbeatReq { .. } => lemma_payload_heartbeat_req(m, rest),
        MsgModel::HeartbeatResp { .. } => lemma_payload_heartbeat_resp(m, rest),
        MsgModel::Forward { .. } => lemma_payload_forward(m, rest),
        MsgModel::Relay { .. } => lemma_payload_relay(m, rest),
        MsgModel::P2p { .. } => lemma_payload_p2p(m, rest),
        MsgModel::KnockReq { .. } => lemma_payload_knock_req(m, rest),
        MsgModel::KnockResp { .. } => lemma_payload_knock_resp(m, rest),
    }
}

/// The framing round-trip law: decoding an encoded message gives the message
/// back and consumes exactly its bytes, for every message kind.
#[verifier::rlimit(50)]
#[verifier::spinoff_prover]
pub proof fn lemma_dec_enc_msg(m: MsgModel, rest: Seq<u8>)
    requires
        m.wf(),
    ensures
        dec_msg(enc_msg(m) + rest) == Some((m, enc_msg(m).len() as int)),
{
    reveal(dec_msg);
    let tag = tag_of(m);
    let body = enc_payload(m);
    let p = body + rest;
    let s = enc_msg(m) + rest;
    lemma_add_assoc(enc_u8(tag), body, rest);
    assert(s == enc_u8(tag) + p);
    lemma_dec_enc_u8(tag, p);
    lemma_skip_of_add(enc_u8(tag), p);
    assert(s.skip(1) == p);
    assert(dec_payload(tag, p) == Some((m, body.len() as int))) by {
        lemma_dec_enc_payload(m, rest);
    }
}

} // verus!
