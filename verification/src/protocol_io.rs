//! Executable writers and readers for the wire messages, proved against the
//! encoders and decoders of `protocol`.

use vstd::prelude::*;

use crate::codec::{
    dec_list, dec_list_body, dec_u16, dec_u32, emit_bytes, emit_u16, emit_u32, emit_u64, emit_u8,
    enc_list, enc_list_body, enc_u16, enc_u32, lemma_add_assoc, lemma_enc_list_body_snoc,
    lemma_skip_of_skip, lift_list, list_fits, read_bytes, read_u16, read_u32, read_u64, read_u8,
};
use crate::net::{Ipv4Cidr, SockAddr};
use crate::protocol::{
    cidr_dec, cidr_enc, dec_ips_entry, dec_mode_entry, dec_msg, dec_payload, dec_peer,
    dec_peer_tail, dec_register, dec_register_mid, dec_register_tail, dec_update, enc_ips_entry,
    enc_mode_entry, enc_msg, enc_peer, enc_register, enc_update, ips_entry_dec, ips_entry_enc,
    mode_entry_dec, mode_entry_enc, peer_dec, peer_enc, IpsEntry, IpsEntryModel, ModeEntry, Msg,
    NodeUpdate, PeerInfo, PeerInfoModel, RegisterReq,
};
use crate::wire::{
    dec_cidr, dec_opt_sockaddr, emit_cidr, emit_mode, emit_opt_sockaddr, emit_sockaddr, enc_cidr,
    enc_mode, read_cidr, read_mode, read_opt_sockaddr, read_sockaddr,
};

verus! {

// ---------------------------------------------------------------------------
// writers
// ---------------------------------------------------------------------------

pub fn emit_cidr_list(out: &mut Vec<u8>, v: &Vec<Ipv4Cidr>)
    requires
        list_fits(v@),
    ensures
        final(out)@ == old(out)@ + enc_list(v@, cidr_enc()),
{
    emit_u16(out, v.len() as u16);
    let ghost mid = out@;
    proof {
        assert(out@ =~= mid + enc_list_body(v@.take(0), cidr_enc()));
    }
    let n = v.len();
    let mut i: usize = 0;
    while i < n
        invariant
            n == v@.len(),
            i <= n,
            out@ == mid + enc_list_body(v@.take(i as int), cidr_enc()),
        decreases n - i,
    {
        let ghost pre = out@;
        emit_cidr(out, &v[i]);
        proof {
            lemma_enc_list_body_snoc(v@, cidr_enc(), i as int);
            lemma_add_assoc(
                mid,
                enc_list_body(v@.take(i as int), cidr_enc()),
                enc_cidr(v@[i as int]),
            );
        }
        i += 1;
    }
    proof {
        assert(v@.take(n as int) =~= v@);
        lemma_add_assoc(old(out)@, enc_u16(n as u16), enc_list_body(v@, cidr_enc()));
    }
}

pub fn emit_mode_entry(out: &mut Vec<u8>, e: &ModeEntry)
    ensures
        final(out)@ == old(out)@ + enc_mode_entry(*e),
{
    emit_u32(out, e.peer);
    emit_mode(out, &e.mode);
    proof {
        lemma_add_assoc(old(out)@, enc_u32(e.peer), enc_mode(e.mode));
    }
}

pub fn emit_mode_entries(out: &mut Vec<u8>, v: &Vec<ModeEntry>)
    requires
        list_fits(v@),
    ensures
        final(out)@ == old(out)@ + enc_list(v@, mode_entry_enc()),
{
    emit_u16(out, v.len() as u16);
    let ghost mid = out@;
    proof {
        assert(out@ =~= mid + enc_list_body(v@.take(0), mode_entry_enc()));
    }
    let n = v.len();
    let mut i: usize = 0;
    while i < n
        invariant
            n == v@.len(),
            i <= n,
            out@ == mid + enc_list_body(v@.take(i as int), mode_entry_enc()),
        decreases n - i,
    {
        emit_mode_entry(out, &v[i]);
        proof {
            lemma_enc_list_body_snoc(v@, mode_entry_enc(), i as int);
            lemma_add_assoc(
                mid,
                enc_list_body(v@.take(i as int), mode_entry_enc()),
                enc_mode_entry(v@[i as int]),
            );
        }
        i += 1;
    }
    proof {
        assert(v@.take(n as int) =~= v@);
        lemma_add_assoc(old(out)@, enc_u16(n as u16), enc_list_body(v@, mode_entry_enc()));
    }
}

pub fn emit_ips_entry(out: &mut Vec<u8>, e: &IpsEntry)
    requires
        list_fits(e.cidrs@),
    ensures
        final(out)@ == old(out)@ + enc_ips_entry(e@),
{
    emit_u32(out, e.owner);
    emit_cidr_list(out, &e.cidrs);
    proof {
        lemma_add_assoc(old(out)@, enc_u32(e.owner), enc_list(e.cidrs@, cidr_enc()));
    }
}

pub fn emit_ips_list(out: &mut Vec<u8>, v: &Vec<IpsEntry>)
    requires
        list_fits(v@),
        forall|i: int| 0 <= i < v@.len() ==> list_fits((#[trigger] v@[i]).cidrs@),
    ensures
        final(out)@ == old(out)@ + enc_list(
            v@.map_values(|e: IpsEntry| e@),
            ips_entry_enc(),
        ),
{
    let ghost elems = v@.map_values(|e: IpsEntry| e@);
    emit_u16(out, v.len() as u16);
    let ghost mid = out@;
    proof {
        assert(out@ =~= mid + enc_list_body(elems.take(0), ips_entry_enc()));
    }
    let n = v.len();
    let mut i: usize = 0;
    while i < n
        invariant
            n == v@.len(),
            elems == v@.map_values(|e: IpsEntry| e@),
            i <= n,
            out@ == mid + enc_list_body(elems.take(i as int), ips_entry_enc()),
            forall|j: int| 0 <= j < v@.len() ==> list_fits((#[trigger] v@[j]).cidrs@),
        decreases n - i,
    {
        emit_ips_entry(out, &v[i]);
        proof {
            assert(elems[i as int] == v@[i as int]@);
            lemma_enc_list_body_snoc(elems, ips_entry_enc(), i as int);
            lemma_add_assoc(
                mid,
                enc_list_body(elems.take(i as int), ips_entry_enc()),
                enc_ips_entry(elems[i as int]),
            );
        }
        i += 1;
    }
    proof {
        assert(elems.take(n as int) =~= elems);
        lemma_add_assoc(old(out)@, enc_u16(n as u16), enc_list_body(elems, ips_entry_enc()));
    }
}

#[verifier::rlimit(100)]
#[verifier::spinoff_prover]
pub fn emit_peer(out: &mut Vec<u8>, p: &PeerInfo)
    requires
        p@.wf(),
    ensures
        final(out)@ == old(out)@ + enc_peer(p@),
{
    let ghost o = old(out)@;
    emit_u32(out, p.virtual_addr);
    emit_bytes(out, &p.node_name);
    emit_u64(out, p.register_time);
    emit_mode(out, &p.mode);
    emit_opt_sockaddr(out, &p.lan_addr);
    emit_opt_sockaddr(out, &p.wan_addr);
    emit_cidr_list(out, &p.allowed_ips);
    proof {
        assert(p@.ips.len() == p.ips@.len());
        assert forall|i: int| 0 <= i < p.ips@.len() implies list_fits(
            (#[trigger] p.ips@[i]).cidrs@,
        ) by {
            assert(p@.ips[i] == p.ips@[i]@);
            assert(p@.ips[i].wf());
        }
    }
    emit_ips_list(out, &p.ips);
    proof {
        assert(out@ =~= o + enc_peer(p@));
    }
}

pub fn emit_peer_list(out: &mut Vec<u8>, v: &Vec<PeerInfo>)
    requires
        list_fits(v@),
        forall|i: int| 0 <= i < v@.len() ==> (#[trigger] v@[i]@).wf(),
    ensures
        final(out)@ == old(out)@ + enc_list(v@.map_values(|p: PeerInfo| p@), peer_enc()),
{
    let ghost elems = v@.map_values(|p: PeerInfo| p@);
    emit_u16(out, v.len() as u16);
    let ghost mid = out@;
    proof {
        assert(out@ =~= mid + enc_list_body(elems.take(0), peer_enc()));
    }
    let n = v.len();
    let mut i: usize = 0;
    while i < n
        invariant
            n == v@.len(),
            elems == v@.map_values(|p: PeerInfo| p@),
            i <= n,
            out@ == mid + enc_list_body(elems.take(i as int), peer_enc()),
            forall|j: int| 0 <= j < v@.len() ==> (#[trigger] v@[j]@).wf(),
        decreases n - i,
    {
        emit_peer(out, &v[i]);
        proof {
            assert(elems[i as int] == v@[i as int]@);
            lemma_enc_list_body_snoc(elems, peer_enc(), i as int);
            lemma_add_assoc(
                mid,
                enc_list_body(elems.take(i as int), peer_enc()),
                enc_peer(elems[i as int]),
            );
        }
        i += 1;
    }
    proof {
        assert(elems.take(n as int) =~= elems);
        lemma_add_assoc(old(out)@, enc_u16(n as u16), enc_list_body(elems, peer_enc()));
    }
}

#[verifier::rlimit(100)]
#[verifier::spinoff_prover]
pub fn emit_register(out: &mut Vec<u8>, r: &RegisterReq)
    requires
        r@.wf(),
    ensures
        final(out)@ == old(out)@ + enc_register(r@),
{
    let ghost o = old(out)@;
    emit_bytes(out, &r.group_name);
    emit_u32(out, r.virtual_addr);
    emit_bytes(out, &r.node_name);
    emit_mode(out, &r.mode);
    emit_opt_sockaddr(out, &r.lan_addr);
    emit_cidr_list(out, &r.allowed_ips);
    proof {
        assert(r@.ips.len() == r.ips@.len());
        assert forall|i: int| 0 <= i < r.ips@.len() implies list_fits(
            (#[trigger] r.ips@[i]).cidrs@,
        ) by {
            assert(r@.ips[i] == r.ips@[i]@);
            assert(r@.ips[i].wf());
        }
    }
    emit_ips_list(out, &r.ips);
    emit_mode_entries(out, &r.specify_mode);
    emit_u64(out, r.key_fingerprint);
    proof {
        assert(out@ =~= o + enc_register(r@));
    }
}

pub fn emit_update(out: &mut Vec<u8>, u: &NodeUpdate)
    requires
        u@.wf(),
    ensures
        final(out)@ == old(out)@ + enc_update(u@),
{
    let ghost o = old(out)@;
    emit_u32(out, u.virtual_addr);
    emit_mode(out, &u.mode);
    emit_opt_sockaddr(out, &u.lan_addr);
    emit_cidr_list(out, &u.allowed_ips);
    proof {
        assert(u@.ips.len() == u.ips@.len());
        assert forall|i: int| 0 <= i < u.ips@.len() implies list_fits(
            (#[trigger] u.ips@[i]).cidrs@,
        ) by {
            assert(u@.ips[i] == u.ips@[i]@);
            assert(u@.ips[i].wf());
        }
    }
    emit_ips_list(out, &u.ips);
    proof {
        assert(out@ =~= o + enc_update(u@));
    }
}

/// Serialise one message: its tag byte, then its payload.
pub fn encode_msg(m: &Msg) -> (r: Vec<u8>)
    requires
        m@.wf(),
    ensures
        r@ == enc_msg(m@),
{
    let mut out: Vec<u8> = Vec::new();
    match m {
        Msg::Register(req) => {
            emit_u8(&mut out, 1);
            emit_register(&mut out, req);
        },
        Msg::RegisterOk { assigned, netmask } => {
            emit_u8(&mut out, 2);
            emit_u32(&mut out, *assigned);
            emit_u32(&mut out, *netmask);
        },
        Msg::RegisterReject { reason } => {
            emit_u8(&mut out, 3);
            emit_bytes(&mut out, reason);
        },
        Msg::NodeMap { peers } => {
            emit_u8(&mut out, 4);
            proof {
                assert forall|i: int| 0 <= i < peers@.len() implies (
                #[trigger] peers@[i]@).wf() by {
                    let pm = peers@.map_values(|p: PeerInfo| p@);
                    assert(pm[i] == peers@[i]@);
                    assert(pm[i].wf());
                }
            }
            emit_peer_list(&mut out, peers);
        },
        Msg::NodeMapUpdate(u) => {
            emit_u8(&mut out, 5);
            emit_update(&mut out, u);
        },
        Msg::HeartbeatReq { from, seq, ts } => {
            emit_u8(&mut out, 6);
            emit_u32(&mut out, *from);
            emit_u32(&mut out, *seq);
            emit_u64(&mut out, *ts);
        },
        Msg::HeartbeatResp { seq } => {
            emit_u8(&mut out, 7);
            emit_u32(&mut out, *seq);
        },
        Msg::Forward { from, to, packet } => {
            emit_u8(&mut out, 8);
            emit_u32(&mut out, *from);
            emit_u32(&mut out, *to);
            emit_bytes(&mut out, packet);
        },
        Msg::Relay { to, packet } => {
            emit_u8(&mut out, 9);
            emit_u32(&mut out, *to);
            emit_bytes(&mut out, packet);
        },
        Msg::P2p { packet } => {
            emit_u8(&mut out, 10);
            emit_bytes(&mut out, packet);
        },
        Msg::KnockReq { from, target } => {
            emit_u8(&mut out, 11);
            emit_u32(&mut out, *from);
            emit_u32(&mut out, *target);
        },
        Msg::KnockResp { target, wan } => {
            emit_u8(&mut out, 12);
            emit_u32(&mut out, *target);
            emit_sockaddr(&mut out, wan);
        },
    }
    proof {
        assert(out@ =~= enc_msg(m@));
    }
    out
}

// ---------------------------------------------------------------------------
// readers
// ---------------------------------------------------------------------------

#[verifier::rlimit(100)]
#[verifier::spinoff_prover]
pub fn read_cidr_list(buf: &[u8], pos: &mut usize) -> (r: Option<Vec<Ipv4Cidr>>)
    requires
        *old(pos) <= buf@.len(),
    ensures
        match dec_list(buf@.skip(*old(pos) as int), cidr_dec()) {
            None => r is None,
            Some((vs, c)) => r is Some && r->Some_0@ == vs && *final(pos) == *old(pos) + c,
        },
        *old(pos) <= *final(pos) <= buf@.len(),
{
    proof {
        reveal(dec_list);
    }
    let ghost p0 = *pos as int;
    let ghost s0 = buf@.skip(p0);
    let n = match read_u16(buf, pos) {
        Some(v) => v,
        None => {
            return None;
        },
    };
    let ghost p1 = *pos as int;
    let ghost s1 = buf@.skip(p1);
    proof {
        lemma_skip_of_skip(buf@, p0, 2);
        assert(s1 == s0.skip(2));
    }
    let mut acc: Vec<Ipv4Cidr> = Vec::new();
    let mut i: u16 = 0;
    while i < n
        invariant
            *pos <= buf@.len(),
            p1 <= *pos,
            0 <= p0 <= p1,
            i <= n,
            p0 == *old(pos) as int,
            p1 == p0 + 2,
            s0 == buf@.skip(p0),
            s1 == buf@.skip(p1),
            dec_u16(s0) == Some((n, 2int)),
            dec_list_body(s1, n as nat, cidr_dec()) == lift_list(
                acc@,
                *pos - p1,
                dec_list_body(buf@.skip(*pos as int), (n - i) as nat, cidr_dec()),
            ),
        decreases n - i,
    {
        let ghost cur = buf@.skip(*pos as int);
        let ghost pprev = *pos as int;
        let ghost acc_old = acc@;
        let c = match read_cidr(buf, pos) {
            Some(c) => c,
            None => {
                proof {
                    reveal(dec_list);
                    lemma_skip_of_skip(buf@, p0, 2);
                    assert(s0.skip(2) == s1);
                    assert(dec_list_body(cur, (n - i) as nat, cidr_dec()) is None);
                    assert(dec_list_body(s1, n as nat, cidr_dec()) is None);
                }
                return None;
            },
        };
        proof {
            let k = dec_cidr(cur)->Some_0.1;
            lemma_skip_of_skip(buf@, pprev, k);
            assert(buf@.skip(*pos as int) == cur.skip(k));
        }
        acc.push(c);
        i += 1;
        proof {
            let k = dec_cidr(cur)->Some_0.1;
            let body_new = dec_list_body(buf@.skip(*pos as int), (n - i) as nat, cidr_dec());
            assert(acc@ =~= acc_old + seq![c]);
            if body_new is Some {
                let vs = body_new->Some_0.0;
                lemma_add_assoc(acc_old, seq![c], vs);
            }
        }
    }
    proof {
        reveal(dec_list);
        assert(acc@ + Seq::<Ipv4Cidr>::empty() =~= acc@);
    }
    Some(acc)
}

pub fn read_mode_entry(buf: &[u8], pos: &mut usize) -> (r: Option<ModeEntry>)
    requires
        *old(pos) <= buf@.len(),
    ensures
        match dec_mode_entry(buf@.skip(*old(pos) as int)) {
            None => r is None,
            Some((v, c)) => r == Some(v) && *final(pos) == *old(pos) + c,
        },
        *old(pos) <= *final(pos) <= buf@.len(),
{
    let ghost p0 = *pos as int;
    let ghost s0 = buf@.skip(p0);
    let peer = match read_u32(buf, pos) {
        Some(v) => v,
        None => {
            return None;
        },
    };
    proof {
        let c1 = dec_u32(s0)->Some_0.1;
        lemma_skip_of_skip(buf@, p0, c1);
    }
    let mode = match read_mode(buf, pos) {
        Some(v) => v,
        None => {
            return None;
        },
    };
    Some(ModeEntry { peer, mode })
}

#[verifier::rlimit(100)]
#[verifier::spinoff_prover]
pub fn read_mode_entries(buf: &[u8], pos: &mut usize) -> (r: Option<Vec<ModeEntry>>)
    requires
        *old(pos) <= buf@.len(),
    ensures
        match dec_list(buf@.skip(*old(pos) as int), mode_entry_dec()) {
            None => r is None,
            Some((vs, c)) => r is Some && r->Some_0@ == vs && *final(pos) == *old(pos) + c,
        },
        *old(pos) <= *final(pos) <= buf@.len(),
{
    proof {
        reveal(dec_list);
    }
    let ghost p0 = *pos as int;
    let ghost s0 = buf@.skip(p0);
    let n = match read_u16(buf, pos) {
        Some(v) => v,
        None => {
            return None;
        },
    };
    let ghost p1 = *pos as int;
    let ghost s1 = buf@.skip(p1);
    proof {
        lemma_skip_of_skip(buf@, p0, 2);
        assert(s1 == s0.skip(2));
    }
    let mut acc: Vec<ModeEntry> = Vec::new();
    let mut i: u16 = 0;
    while i < n
        invariant
            *pos <= buf@.len(),
            p1 <= *pos,
            0 <= p0 <= p1,
            i <= n,
            p0 == *old(pos) as int,
            p1 == p0 + 2,
            s0 == buf@.skip(p0),
            s1 == buf@.skip(p1),
            dec_u16(s0) == Some((n, 2int)),
            dec_list_body(s1, n as nat, mode_entry_dec()) == lift_list(
                acc@,
                *pos - p1,
                dec_list_body(buf@.skip(*pos as int), (n - i) as nat, mode_entry_dec()),
            ),
        decreases n - i,
    {
        let ghost cur = buf@.skip(*pos as int);
        let ghost pprev = *pos as int;
        let ghost acc_old = acc@;
        let e = match read_mode_entry(buf, pos) {
            Some(e) => e,
            None => {
                proof {
                    reveal(dec_list);
                    lemma_skip_of_skip(buf@, p0, 2);
                    assert(s0.skip(2) == s1);
                    assert(dec_list_body(cur, (n - i) as nat, mode_entry_dec()) is None);
                    assert(dec_list_body(s1, n as nat, mode_entry_dec()) is None);
                }
                return None;
            },
        };
        proof {
            let k = dec_mode_entry(cur)->Some_0.1;
            lemma_skip_of_skip(buf@, pprev, k);
            assert(buf@.skip(*pos as int) == cur.skip(k));
        }
        acc.push(e);
        i += 1;
        proof {
            let body_new = dec_list_body(buf@.skip(*pos as int), (n - i) as nat, mode_entry_dec());
            assert(acc@ =~= acc_old + seq![e]);
            if body_new is Some {
                let vs = body_new->Some_0.0;
                lemma_add_assoc(acc_old, seq![e], vs);
            }
        }
    }
    proof {
        reveal(dec_list);
        assert(acc@ + Seq::<ModeEntry>::empty() =~= acc@);
    }
    Some(acc)
}

pub fn read_ips_entry(buf: &[u8], pos: &mut usize) -> (r: Option<IpsEntry>)
    requires
        *old(pos) <= buf@.len(),
    ensures
        match dec_ips_entry(buf@.skip(*old(pos) as int)) {
            None => r is None,
            Some((v, c)) => r is Some && r->Some_0@ == v && *final(pos) == *old(pos) + c,
        },
        *old(pos) <= *final(pos) <= buf@.len(),
{
    let ghost p0 = *pos as int;
    let ghost s0 = buf@.skip(p0);
    let owner = match read_u32(buf, pos) {
        Some(v) => v,
        None => {
            return None;
        },
    };
    proof {
        let c1 = dec_u32(s0)->Some_0.1;
        lemma_skip_of_skip(buf@, p0, c1);
    }
    let cidrs = match read_cidr_list(buf, pos) {
        Some(v) => v,
        None => {
            return None;
        },
    };
    Some(IpsEntry { owner, cidrs })
}

#[verifier::rlimit(100)]
#[verifier::spinoff_prover]
pub fn read_ips_list(buf: &[u8], pos: &mut usize) -> (r: Option<Vec<IpsEntry>>)
    requires
        *old(pos) <= buf@.len(),
    ensures
        match dec_list(buf@.skip(*old(pos) as int), ips_entry_dec()) {
            None => r is None,
            Some((vs, c)) => r is Some && r->Some_0@.map_values(|e: IpsEntry| e@) == vs
                && *final(pos) == *old(pos) + c,
        },
        *old(pos) <= *final(pos) <= buf@.len(),
{
    proof {
        reveal(dec_list);
    }
    let ghost p0 = *pos as int;
    let ghost s0 = buf@.skip(p0);
    let n = match read_u16(buf, pos) {
        Some(v) => v,
        None => {
            return None;
        },
    };
    let ghost p1 = *pos as int;
    let ghost s1 = buf@.skip(p1);
    proof {
        lemma_skip_of_skip(buf@, p0, 2);
        assert(s1 == s0.skip(2));
    }
    let mut acc: Vec<IpsEntry> = Vec::new();
    let mut i: u16 = 0;
    while i < n
        invariant
            *pos <= buf@.len(),
            p1 <= *pos,
            0 <= p0 <= p1,
            i <= n,
            p0 == *old(pos) as int,
            p1 == p0 + 2,
            s0 == buf@.skip(p0),
            s1 == buf@.skip(p1),
            dec_u16(s0) == Some((n, 2int)),
            dec_list_body(s1, n as nat, ips_entry_dec()) == lift_list(
                acc@.map_values(|e: IpsEntry| e@),
                *pos - p1,
                dec_list_body(buf@.skip(*pos as int), (n - i) as nat, ips_entry_dec()),
            ),
        decreases n - i,
    {
        let ghost cur = buf@.skip(*pos as int);
        let ghost pprev = *pos as int;
        let ghost acc_old = acc@.map_values(|e: IpsEntry| e@);
        let e = match read_ips_entry(buf, pos) {
            Some(e) => e,
            None => {
                proof {
                    reveal(dec_list);
                    lemma_skip_of_skip(buf@, p0, 2);
                    assert(s0.skip(2) == s1);
                    assert(dec_list_body(cur, (n - i) as nat, ips_entry_dec()) is None);
                    assert(dec_list_body(s1, n as nat, ips_entry_dec()) is None);
                }
                return None;
            },
        };
        proof {
            let k = dec_ips_entry(cur)->Some_0.1;
            lemma_skip_of_skip(buf@, pprev, k);
            assert(buf@.skip(*pos as int) == cur.skip(k));
        }
        acc.push(e);
        i += 1;
        proof {
            let body_new = dec_list_body(buf@.skip(*pos as int), (n - i) as nat, ips_entry_dec());
            assert(acc@.map_values(|x: IpsEntry| x@) =~= acc_old + seq![e@]);
            if body_new is Some {
                let vs = body_new->Some_0.0;
                lemma_add_assoc(acc_old, seq![e@], vs);
            }
        }
    }
    proof {
        reveal(dec_list);
        assert(acc@.map_values(|e: IpsEntry| e@) + Seq::<IpsEntryModel>::empty() =~= acc@
            .map_values(|e: IpsEntry| e@));
    }
    Some(acc)
}

#[verifier::rlimit(100)]
#[verifier::spinoff_prover]
pub fn read_peer_tail(buf: &[u8], pos: &mut usize) -> (r: Option<
    (Option<SockAddr>, Option<SockAddr>, Vec<Ipv4Cidr>, Vec<IpsEntry>),
>)
    requires
        *old(pos) <= buf@.len(),
    ensures
        match dec_peer_tail(buf@.skip(*old(pos) as int)) {
            None => r is None,
            Some((t, c)) => r is Some && r->Some_0.0 == t.0 && r->Some_0.1 == t.1
                && r->Some_0.2@ == t.2 && r->Some_0.3@.map_values(|e: IpsEntry| e@) == t.3
                && *final(pos) == *old(pos) + c,
        },
        *old(pos) <= *final(pos) <= buf@.len(),
{
    proof {
        reveal(dec_peer_tail);
    }
    let ghost p0 = *pos as int;
    let ghost s0 = buf@.skip(p0);
    let lan_addr = match read_opt_sockaddr(buf, pos) {
        Some(v) => v,
        None => {
            return None;
        },
    };
    proof {
        let c1 = dec_opt_sockaddr(s0)->Some_0.1;
        lemma_skip_of_skip(buf@, p0, c1);
    }
    let wan_addr = match read_opt_sockaddr(buf, pos) {
        Some(v) => v,
        None => {
            return None;
        },
    };
    proof {
        lemma_skip_of_skip(buf@, p0, *pos - p0);
    }
    let allowed_ips = match read_cidr_list(buf, pos) {
        Some(v) => v,
        None => {
            return None;
        },
    };
    proof {
        lemma_skip_of_skip(buf@, p0, *pos - p0);
    }
    let ips = match read_ips_list(buf, pos) {
        Some(v) => v,
        None => {
            return None;
        },
    };
    Some((lan_addr, wan_addr, allowed_ips, ips))
}

#[verifier::rlimit(100)]
#[verifier::spinoff_prover]
pub fn read_peer(buf: &[u8], pos: &mut usize) -> (r: Option<PeerInfo>)
    requires
        *old(pos) <= buf@.len(),
    ensures
        match dec_peer(buf@.skip(*old(pos) as int)) {
            None => r is None,
            Some((v, c)) => r is Some && r->Some_0@ == v && *final(pos) == *old(pos) + c,
        },
        *old(pos) <= *final(pos) <= buf@.len(),
{
    proof {
        reveal(dec_peer);
    }
    let ghost p0 = *pos as int;
    let ghost s0 = buf@.skip(p0);
    let virtual_addr = match read_u32(buf, pos) {
        Some(v) => v,
        None => {
            return None;
        },
    };
    proof {
        lemma_skip_of_skip(buf@, p0, *pos - p0);
    }
    let node_name = match read_bytes(buf, pos) {
        Some(v) => v,
        None => {
            return None;
        },
    };
    proof {
        lemma_skip_of_skip(buf@, p0, *pos - p0);
    }
    let register_time = match read_u64(buf, pos) {
        Some(v) => v,
        None => {
            return None;
        },
    };
    proof {
        lemma_skip_of_skip(buf@, p0, *pos - p0);
    }
    let mode = match read_mode(buf, pos) {
        Some(v) => v,
        None => {
            return None;
        },
    };
    proof {
        lemma_skip_of_skip(buf@, p0, *pos - p0);
    }
    let tail = match read_peer_tail(buf, pos) {
        Some(v) => v,
        None => {
            return None;
        },
    };
    let (lan_addr, wan_addr, allowed_ips, ips) = tail;
    Some(
        PeerInfo {
            virtual_addr,
            node_name,
            register_time,
            mode,
            lan_addr,
            wan_addr,
            allowed_ips,
            ips,
        },
    )
}

#[verifier::rlimit(100)]
#[verifier::spinoff_prover]
pub fn read_peer_list(buf: &[u8], pos: &mut usize) -> (r: Option<Vec<PeerInfo>>)
    requires
        *old(pos) <= buf@.len(),
    ensures
        match dec_list(buf@.skip(*old(pos) as int), peer_dec()) {
            None => r is None,
            Some((vs, c)) => r is Some && r->Some_0@.map_values(|p: PeerInfo| p@) == vs
                && *final(pos) == *old(pos) + c,
        },
        *old(pos) <= *final(pos) <= buf@.len(),
{
    proof {
        reveal(dec_list);
    }
    let ghost p0 = *pos as int;
    let ghost s0 = buf@.skip(p0);
    let n = match read_u16(buf, pos) {
        Some(v) => v,
        None => {
            return None;
        },
    };
    let ghost p1 = *pos as int;
    let ghost s1 = buf@.skip(p1);
    proof {
        lemma_skip_of_skip(buf@, p0, 2);
        assert(s1 == s0.skip(2));
    }
    let mut acc: Vec<PeerInfo> = Vec::new();
    let mut i: u16 = 0;
    while i < n
        invariant
            *pos <= buf@.len(),
            p1 <= *pos,
            0 <= p0 <= p1,
            i <= n,
            p0 == *old(pos) as int,
            p1 == p0 + 2,
            s0 == buf@.skip(p0),
            s1 == buf@.skip(p1),
            dec_u16(s0) == Some((n, 2int)),
            dec_list_body(s1, n as nat, peer_dec()) == lift_list(
                acc@.map_values(|p: PeerInfo| p@),
                *pos - p1,
                dec_list_body(buf@.skip(*pos as int), (n - i) as nat, peer_dec()),
            ),
        decreases n - i,
    {
        let ghost cur = buf@.skip(*pos as int);
        let ghost pprev = *pos as int;
        let ghost acc_old = acc@.map_values(|p: PeerInfo| p@);
        let e = match read_peer(buf, pos) {
            Some(e) => e,
            None => {
                proof {
                    reveal(dec_list);
                    lemma_skip_of_skip(buf@, p0, 2);
                    assert(s0.skip(2) == s1);
                    assert(dec_list_body(cur, (n - i) as nat, peer_dec()) is None);
                    assert(dec_list_body(s1, n as nat, peer_dec()) is None);
                }
                return None;
            },
        };
        proof {
            let k = dec_peer(cur)->Some_0.1;
            lemma_skip_of_skip(buf@, pprev, k);
            assert(buf@.skip(*pos as int) == cur.skip(k));
        }
        acc.push(e);
        i += 1;
        proof {
            let body_new = dec_list_body(buf@.skip(*pos as int), (n - i) as nat, peer_dec());
            assert(acc@.map_values(|x: PeerInfo| x@) =~= acc_old + seq![e@]);
            if body_new is Some {
                let vs = body_new->Some_0.0;
                lemma_add_assoc(acc_old, seq![e@], vs);
            }
        }
    }
    proof {
        reveal(dec_list);
        assert(acc@.map_values(|p: PeerInfo| p@) + Seq::<PeerInfoModel>::empty() =~= acc@
            .map_values(|p: PeerInfo| p@));
    }
    Some(acc)
}

#[verifier::rlimit(100)]
#[verifier::spinoff_prover]
pub fn read_register_tail(buf: &[u8], pos: &mut usize) -> (r: Option<
    (Vec<Ipv4Cidr>, Vec<IpsEntry>, Vec<ModeEntry>, u64),
>)
    requires
        *old(pos) <= buf@.len(),
    ensures
        match dec_register_tail(buf@.skip(*old(pos) as int)) {
            None => r is None,
            Some((t, c)) => r is Some && r->Some_0.0@ == t.0
                && r->Some_0.1@.map_values(|e: IpsEntry| e@) == t.1 && r->Some_0.2@ == t.2
                && r->Some_0.3 == t.3 && *final(pos) == *old(pos) + c,
        },
        *old(pos) <= *final(pos) <= buf@.len(),
{
    proof {
        reveal(dec_register_tail);
    }
    let ghost p0 = *pos as int;
    let ghost s0 = buf@.skip(p0);
    let allowed_ips = match read_cidr_list(buf, pos) {
        Some(v) => v,
        None => {
            return None;
        },
    };
    proof {
        lemma_skip_of_skip(buf@, p0, *pos - p0);
    }
    let ips = match read_ips_list(buf, pos) {
        Some(v) => v,
        None => {
            return None;
        },
    };
    proof {
        lemma_skip_of_skip(buf@, p0, *pos - p0);
    }
    let specify_mode = match read_mode_entries(buf, pos) {
        Some(v) => v,
        None => {
            return None;
        },
    };
    proof {
        lemma_skip_of_skip(buf@, p0, *pos - p0);
    }
    let key_fingerprint = match read_u64(buf, pos) {
        Some(v) => v,
        None => {
            return None;
        },
    };
    Some((allowed_ips, ips, specify_mode, key_fingerprint))
}

#[verifier::rlimit(100)]
#[verifier::spinoff_prover]
pub fn read_register(buf: &[u8], pos: &mut usize) -> (r: Option<RegisterReq>)
    requires
        *old(pos) <= buf@.len(),
    ensures
        match dec_register(buf@.skip(*old(pos) as int)) {
            None => r is None,
            Some((v, c)) => r is Some && r->Some_0@ == v && *final(pos) == *old(pos) + c,
        },
        *old(pos) <= *final(pos) <= buf@.len(),
{
    proof {
        reveal(dec_register);
        reveal(dec_register_mid);
    }
    let ghost p0 = *pos as int;
    let ghost s0 = buf@.skip(p0);
    let group_name = match read_bytes(buf, pos) {
        Some(v) => v,
        None => {
            return None;
        },
    };
    proof {
        lemma_skip_of_skip(buf@, p0, *pos - p0);
    }
    let ghost pm = *pos as int;
    let ghost sm = buf@.skip(pm);
    let virtual_addr = match read_u32(buf, pos) {
        Some(v) => v,
        None => {
            return None;
        },
    };
    proof {
        lemma_skip_of_skip(buf@, pm, *pos - pm);
    }
    let node_name = match read_bytes(buf, pos) {
        Some(v) => v,
        None => {
            return None;
        },
    };
    proof {
        lemma_skip_of_skip(buf@, pm, *pos - pm);
    }
    let mode = match read_mode(buf, pos) {
        Some(v) => v,
        None => {
            return None;
        },
    };
    proof {
        lemma_skip_of_skip(buf@, pm, *pos - pm);
    }
    let lan_addr = match read_opt_sockaddr(buf, pos) {
        Some(v) => v,
        None => {
            return None;
        },
    };
    proof {
        lemma_skip_of_skip(buf@, pm, *pos - pm);
    }
    let tail = match read_register_tail(buf, pos) {
        Some(v) => v,
        None => {
            return None;
        },
    };
    let (allowed_ips, ips, specify_mode, key_fingerprint) = tail;
    Some(
        RegisterReq {
            group_name,
            virtual_addr,
            node_name,
            mode,
            lan_addr,
            allowed_ips,
            ips,
            specify_mode,
            key_fingerprint,
        },
    )
}

#[verifier::rlimit(100)]
#[verifier::spinoff_prover]
pub fn read_update(buf: &[u8], pos: &mut usize) -> (r: Option<NodeUpdate>)
    requires
        *old(pos) <= buf@.len(),
    ensures
        match dec_update(buf@.skip(*old(pos) as int)) {
            None => r is None,
            Some((v, c)) => r is Some && r->Some_0@ == v && *final(pos) == *old(pos) + c,
        },
        *old(pos) <= *final(pos) <= buf@.len(),
{
    proof {
        reveal(dec_update);
    }
    let ghost p0 = *pos as int;
    let ghost s0 = buf@.skip(p0);
    let virtual_addr = match read_u32(buf, pos) {
        Some(v) => v,
        None => {
            return None;
        },
    };
    proof {
        lemma_skip_of_skip(buf@, p0, *pos - p0);
    }
    let mode = match read_mode(buf, pos) {
        Some(v) => v,
        None => {
            return None;
        },
    };
    proof {
        lemma_skip_of_skip(buf@, p0, *pos - p0);
    }
    let lan_addr = match read_opt_sockaddr(buf, pos) {
        Some(v) => v,
        None => {
            return None;
        },
    };
    proof {
        lemma_skip_of_skip(buf@, p0, *pos - p0);
    }
    let allowed_ips = match read_cidr_list(buf, pos) {
        Some(v) => v,
        None => {
            return None;
        },
    };
    proof {
        lemma_skip_of_skip(buf@, p0, *pos - p0);
    }
    let ips = match read_ips_list(buf, pos) {
        Some(v) => v,
        None => {
            return None;
        },
    };
    Some(NodeUpdate { virtual_addr, mode, lan_addr, allowed_ips, ips })
}

#[verifier::rlimit(100)]
#[verifier::spinoff_prover]
fn read_payload(tag: u8, buf: &[u8], pos: &mut usize) -> (r: Option<Msg>)
    requires
        *old(pos) <= buf@.len(),
    ensures
        match dec_payload(tag, buf@.skip(*old(pos) as int)) {
            None => r is None,
            Some((m, c)) => r is Some && r->Some_0@ == m && *final(pos) == *old(pos) + c,
        },
        *old(pos) <= *final(pos) <= buf@.len(),
{
    proof {
        reveal(dec_payload);
    }
    let ghost p0 = *pos as int;
    let ghost s0 = buf@.skip(p0);
    if tag == 1 {
        match read_register(buf, pos) {
            Some(req) => Some(Msg::Register(req)),
            None => None,
        }
    } else if tag == 2 {
        let assigned = match read_u32(buf, pos) {
            Some(v) => v,
            None => {
                return None;
            },
        };
        proof {
            lemma_skip_of_skip(buf@, p0, *pos - p0);
        }
        let netmask = match read_u32(buf, pos) {
            Some(v) => v,
            None => {
                return None;
            },
        };
        Some(Msg::RegisterOk { assigned, netmask })
    } else if tag == 3 {
        match read_bytes(buf, pos) {
            Some(reason) => Some(Msg::RegisterReject { reason }),
            None => None,
        }
    } else if tag == 4 {
        match read_peer_list(buf, pos) {
            Some(peers) => Some(Msg::NodeMap { peers }),
            None => None,
        }
    } else if tag == 5 {
        match read_update(buf, pos) {
            Some(u) => Some(Msg::NodeMapUpdate(u)),
            None => None,
        }
    } else if tag == 6 {
        let from = match read_u32(buf, pos) {
            Some(v) => v,
            None => {
                return None;
            },
        };
        proof {
            lemma_skip_of_skip(buf@, p0, *pos - p0);
        }
        let seq = match read_u32(buf, pos) {
            Some(v) => v,
            None => {
                return None;
            },
        };
        proof {
            lemma_skip_of_skip(buf@, p0, *pos - p0);
        }
        let ts = match read_u64(buf, pos) {
            Some(v) => v,
            None => {
                return None;
            },
        };
        Some(Msg::HeartbeatReq { from, seq, ts })
    } else if tag == 7 {
        match read_u32(buf, pos) {
            Some(seq) => Some(Msg::HeartbeatResp { seq }),
            None => None,
        }
    } else if tag == 8 {
        let from = match read_u32(buf, pos) {
            Some(v) => v,
            None => {
                return None;
            },
        };
        proof {
            lemma_skip_of_skip(buf@, p0, *pos - p0);
        }
        let to = match read_u32(buf, pos) {
            Some(v) => v,
            None => {
                return None;
            },
        };
        proof {
            lemma_skip_of_skip(buf@, p0, *pos - p0);
        }
        let packet = match read_bytes(buf, pos) {
            Some(v) => v,
            None => {
                return None;
            },
        };
        Some(Msg::Forward { from, to, packet })
    } else if tag == 9 {
        let to = match read_u32(buf, pos) {
            Some(v) => v,
            None => {
                return None;
            },
        };
        proof {
            lemma_skip_of_skip(buf@, p0, *pos - p0);
        }
        let packet = match read_bytes(buf, pos) {
            Some(v) => v,
            None => {
                return None;
            },
        };
        Some(Msg::Relay { to, packet })
    } else if tag == 10 {
        match read_bytes(buf, pos) {
            Some(packet) => Some(Msg::P2p { packet }),
            None => None,
        }
    } else if tag == 11 {
        let from = match read_u32(buf, pos) {
            Some(v) => v,
            None => {
                return None;
            },
        };
        proof {
            lemma_skip_of_skip(buf@, p0, *pos - p0);
        }
        let target = match read_u32(buf, pos) {
            Some(v) => v,
            None => {
                return None;
            },
        };
        Some(Msg::KnockReq { from, target })
    } else if tag == 12 {
        let target = match read_u32(buf, pos) {
            Some(v) => v,
            None => {
                return None;
            },
        };
        proof {
            lemma_skip_of_skip(buf@, p0, *pos - p0);
        }
        let wan = match read_sockaddr(buf, pos) {
            Some(v) => v,
            None => {
                return None;
            },
        };
        Some(Msg::KnockResp { target, wan })
    } else {
        None
    }
}

#[verifier::rlimit(100)]
#[verifier::spinoff_prover]
pub fn read_msg(buf: &[u8], pos: &mut usize) -> (r: Option<Msg>)
    requires
        *old(pos) <= buf@.len(),
    ensures
        match dec_msg(buf@.skip(*old(pos) as int)) {
            None => r is None,
            Some((m, c)) => r is Some && r->Some_0@ == m && *final(pos) == *old(pos) + c,
        },
        *old(pos) <= *final(pos) <= buf@.len(),
{
    proof {
        reveal(dec_msg);
    }
    let ghost p0 = *pos as int;
    let ghost s0 = buf@.skip(p0);
    let tag = match read_u8(buf, pos) {
        Some(v) => v,
        None => {
            return None;
        },
    };
    proof {
        lemma_skip_of_skip(buf@, p0, 1);
    }
    read_payload(tag, buf, pos)
}

/// Parse one whole datagram or frame: the message must fill the buffer
/// exactly, else the frame is malformed and rejected.
pub fn decode_msg(buf: &[u8]) -> (r: Option<Msg>)
    ensures
        match dec_msg(buf@) {
            None => r is None,
            Some((m, c)) => if c == buf@.len() {
                r is Some && r->Some_0@ == m
            } else {
                r is None
            },
        },
{
    let mut pos: usize = 0;
    proof {
        assert(buf@.skip(0) =~= buf@);
    }
    let m = match read_msg(buf, &mut pos) {
        Some(m) => m,
        None => {
            return None;
        },
    };
    if pos == buf.len() {
        Some(m)
    } else {
        None
    }
}

} // verus!
