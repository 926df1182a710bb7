//! Field-level wire codecs: the protocol-mode byte, CIDR blocks, IP and
//! socket addresses, and their optional forms. Built on the primitives of
//! `codec`, with the same shape: spec encoder, spec decoder returning the
//! consumed length, a round-trip lemma, and executable reader and writer.

use vstd::prelude::*;
use vstd::assert_seqs_equal;

use crate::codec::{
    dec_u16, dec_u32, dec_u64, dec_u8, emit_u16, emit_u32, emit_u64, emit_u8, enc_u16, enc_u32,
    enc_u64, enc_u8, lemma_dec_enc_u16, lemma_dec_enc_u32, lemma_dec_enc_u64, lemma_dec_enc_u8,
    read_u16, read_u32, read_u64, read_u8,
};
use crate::net::{IpAddress, Ipv4Cidr, ProtocolMode, SockAddr};

verus! {

// ---------------------------------------------------------------------------
// protocol mode: one byte of four flags
// ---------------------------------------------------------------------------

pub open spec fn mode_byte(m: ProtocolMode) -> u8 {
    ((if m.p2p_tcp {
        1int
    } else {
        0int
    }) + (if m.p2p_udp {
        2int
    } else {
        0int
    }) + (if m.relay_tcp {
        4int
    } else {
        0int
    }) + (if m.relay_udp {
        8int
    } else {
        0int
    })) as u8
}

pub open spec fn mode_of_byte(b: u8) -> ProtocolMode {
    ProtocolMode {
        p2p_tcp: b % 2 == 1,
        p2p_udp: (b / 2) % 2 == 1,
        relay_tcp: (b / 4) % 2 == 1,
        relay_udp: (b / 8) % 2 == 1,
    }
}

pub open spec fn enc_mode(m: ProtocolMode) -> Seq<u8> {
    enc_u8(mode_byte(m))
}

pub open spec fn dec_mode(s: Seq<u8>) -> Option<(ProtocolMode, int)> {
    match dec_u8(s) {
        None => None,
        Some((b, c)) => Some((mode_of_byte(b), c)),
    }
}

pub proof fn lemma_mode_byte_round_trip(m: ProtocolMode)
    ensures
        mode_of_byte(mode_byte(m)) == m,
{
}

pub proof fn lemma_dec_enc_mode(m: ProtocolMode, rest: Seq<u8>)
    ensures
        dec_mode(enc_mode(m) + rest) == Some((m, 1int)),
{
    lemma_dec_enc_u8(mode_byte(m), rest);
    lemma_mode_byte_round_trip(m);
}

pub fn emit_mode(out: &mut Vec<u8>, m: &ProtocolMode)
    ensures
        final(out)@ == old(out)@ + enc_mode(*m),
{
    let mut b: u8 = 0;
    if m.p2p_tcp {
        b = b + 1;
    }
    if m.p2p_udp {
        b = b + 2;
    }
    if m.relay_tcp {
        b = b + 4;
    }
    if m.relay_udp {
        b = b + 8;
    }
    emit_u8(out, b);
}

pub fn read_mode(buf: &[u8], pos: &mut usize) -> (r: Option<ProtocolMode>)
    requires
        *old(pos) <= buf@.len(),
    ensures
        match dec_mode(buf@.skip(*old(pos) as int)) {
            None => r is None,
            Some((v, c)) => r == Some(v) && *final(pos) == *old(pos) + c,
        },
        *old(pos) <= *final(pos) <= buf@.len(),
{
    let b = match read_u8(buf, pos) {
        Some(b) => b,
        None => {
            return None;
        },
    };
    Some(
        ProtocolMode {
            p2p_tcp: b % 2 == 1,
            p2p_udp: (b / 2) % 2 == 1,
            relay_tcp: (b / 4) % 2 == 1,
            relay_udp: (b / 8) % 2 == 1,
        },
    )
}

// ---------------------------------------------------------------------------
// CIDR blocks: address then prefix length
// ---------------------------------------------------------------------------

pub open spec fn enc_cidr(c: Ipv4Cidr) -> Seq<u8> {
    enc_u32(c.addr) + enc_u8(c.prefix)
}

#[verifier::opaque]
pub open spec fn dec_cidr(s: Seq<u8>) -> Option<(Ipv4Cidr, int)> {
    match dec_u32(s) {
        None => None,
        Some((addr, c1)) => match dec_u8(s.skip(c1)) {
            None => None,
            Some((prefix, c2)) => {
                if prefix <= 32 {
                    Some((Ipv4Cidr { addr, prefix }, c1 + c2))
                } else {
                    None
                }
            },
        },
    }
}

pub proof fn lemma_dec_enc_cidr(c: Ipv4Cidr, rest: Seq<u8>)
    requires
        c.wf(),
    ensures
        dec_cidr(enc_cidr(c) + rest) == Some((c, 5int)),
{
    reveal(dec_cidr);
    let s = enc_cidr(c) + rest;
    assert_seqs_equal!(s == enc_u32(c.addr) + (enc_u8(c.prefix) + rest));
    lemma_dec_enc_u32(c.addr, enc_u8(c.prefix) + rest);
    assert_seqs_equal!(s.skip(4) == enc_u8(c.prefix) + rest);
    lemma_dec_enc_u8(c.prefix, rest);
}

pub fn emit_cidr(out: &mut Vec<u8>, c: &Ipv4Cidr)
    ensures
        final(out)@ == old(out)@ + enc_cidr(*c),
{
    emit_u32(out, c.addr);
    emit_u8(out, c.prefix);
    proof {
        assert_seqs_equal!(out@ == old(out)@ + enc_cidr(*c));
    }
}

pub fn read_cidr(buf: &[u8], pos: &mut usize) -> (r: Option<Ipv4Cidr>)
    requires
        *old(pos) <= buf@.len(),
    ensures
        match dec_cidr(buf@.skip(*old(pos) as int)) {
            None => r is None,
            Some((v, c)) => r == Some(v) && *final(pos) == *old(pos) + c,
        },
        *old(pos) <= *final(pos) <= buf@.len(),
{
    proof {
        reveal(dec_cidr);
    }
    let ghost s = buf@.skip(*pos as int);
    let addr = match read_u32(buf, pos) {
        Some(v) => v,
        None => {
            return None;
        },
    };
    proof {
        let c1 = dec_u32(s)->Some_0.1;
        assert_seqs_equal!(buf@.skip(*pos as int) == s.skip(c1));
    }
    let prefix = match read_u8(buf, pos) {
        Some(v) => v,
        None => {
            return None;
        },
    };
    if prefix <= 32 {
        Some(Ipv4Cidr { addr, prefix })
    } else {
        None
    }
}

// ---------------------------------------------------------------------------
// IP addresses: a family tag, then 4 or 16 bytes
// ---------------------------------------------------------------------------

pub open spec fn enc_ip(ip: IpAddress) -> Seq<u8> {
    match ip {
        IpAddress::V4(a) => enc_u8(4) + enc_u32(a),
        IpAddress::V6(a) => enc_u8(6) + enc_u64((a >> 64u128) as u64) + enc_u64(a as u64),
    }
}

#[verifier::opaque]
pub open spec fn dec_ip(s: Seq<u8>) -> Option<(IpAddress, int)> {
    match dec_u8(s) {
        None => None,
        Some((tag, c0)) => {
            if tag == 4 {
                match dec_u32(s.skip(c0)) {
                    None => None,
                    Some((a, c1)) => Some((IpAddress::V4(a), c0 + c1)),
                }
            } else if tag == 6 {
                match dec_u64(s.skip(c0)) {
                    None => None,
                    Some((hi, c1)) => match dec_u64(s.skip(c0 + c1)) {
                        None => None,
                        Some((lo, c2)) => Some(
                            (
                                IpAddress::V6((((hi as u128) << 64u128) | (lo as u128)) as u128),
                                c0 + c1 + c2,
                            ),
                        ),
                    },
                }
            } else {
                None
            }
        },
    }
}

proof fn lemma_u128_split_join(a: u128)
    by (bit_vector)
    ensures
        ((((a >> 64u128) as u64 as u128) << 64u128) | (a as u64 as u128)) as u128 == a,
{
}

#[verifier::rlimit(50)]
pub proof fn lemma_dec_enc_ip(ip: IpAddress, rest: Seq<u8>)
    ensures
        dec_ip(enc_ip(ip) + rest) == Some((ip, enc_ip(ip).len() as int)),
{
    reveal(dec_ip);
    let s = enc_ip(ip) + rest;
    match ip {
        IpAddress::V4(a) => {
            assert_seqs_equal!(s == enc_u8(4) + (enc_u32(a) + rest));
            lemma_dec_enc_u8(4, enc_u32(a) + rest);
            assert_seqs_equal!(s.skip(1) == enc_u32(a) + rest);
            lemma_dec_enc_u32(a, rest);
        },
        IpAddress::V6(a) => {
            let hi = (a >> 64u128) as u64;
            let lo = a as u64;
            assert_seqs_equal!(s == enc_u8(6) + ((enc_u64(hi) + enc_u64(lo)) + rest));
            lemma_dec_enc_u8(6, (enc_u64(hi) + enc_u64(lo)) + rest);
            assert_seqs_equal!(s.skip(1) == enc_u64(hi) + (enc_u64(lo) + rest));
            lemma_dec_enc_u64(hi, enc_u64(lo) + rest);
            assert_seqs_equal!(s.skip(9) == enc_u64(lo) + rest);
            lemma_dec_enc_u64(lo, rest);
            lemma_u128_split_join(a);
        },
    }
}

pub fn emit_ip(out: &mut Vec<u8>, ip: &IpAddress)
    ensures
        final(out)@ == old(out)@ + enc_ip(*ip),
{
    match ip {
        IpAddress::V4(a) => {
            emit_u8(out, 4);
            emit_u32(out, *a);
        },
        IpAddress::V6(a) => {
            emit_u8(out, 6);
            emit_u64(out, (*a >> 64u128) as u64);
            emit_u64(out, #[verifier::truncate] (*a as u64));
        },
    }
    proof {
        assert_seqs_equal!(out@ == old(out)@ + enc_ip(*ip));
    }
}

pub fn read_ip(buf: &[u8], pos: &mut usize) -> (r: Option<IpAddress>)
    requires
        *old(pos) <= buf@.len(),
    ensures
        match dec_ip(buf@.skip(*old(pos) as int)) {
            None => r is None,
            Some((v, c)) => r == Some(v) && *final(pos) == *old(pos) + c,
        },
        *old(pos) <= *final(pos) <= buf@.len(),
{
    proof {
        reveal(dec_ip);
    }
    let ghost s = buf@.skip(*pos as int);
    let tag = match read_u8(buf, pos) {
        Some(v) => v,
        None => {
            return None;
        },
    };
    proof {
        assert_seqs_equal!(buf@.skip(*pos as int) == s.skip(1));
    }
    if tag == 4 {
        let a = match read_u32(buf, pos) {
            Some(v) => v,
            None => {
                return None;
            },
        };
        Some(IpAddress::V4(a))
    } else if tag == 6 {
        let ghost s1 = s.skip(1);
        let hi = match read_u64(buf, pos) {
            Some(v) => v,
            None => {
                return None;
            },
        };
        proof {
            let c1 = dec_u64(s1)->Some_0.1;
            assert_seqs_equal!(buf@.skip(*pos as int) == s.skip(1 + c1));
        }
        let lo = match read_u64(buf, pos) {
            Some(v) => v,
            None => {
                return None;
            },
        };
        Some(IpAddress::V6(((hi as u128) << 64u128) | (lo as u128)))
    } else {
        None
    }
}

// ---------------------------------------------------------------------------
// socket addresses, and the optional form used for LAN / WAN endpoints
// ---------------------------------------------------------------------------

pub open spec fn enc_sockaddr(sa: SockAddr) -> Seq<u8> {
    enc_ip(sa.ip) + enc_u16(sa.port)
}

#[verifier::opaque]
pub open spec fn dec_sockaddr(s: Seq<u8>) -> Option<(SockAddr, int)> {
    match dec_ip(s) {
        None => None,
        Some((ip, c1)) => match dec_u16(s.skip(c1)) {
            None => None,
            Some((port, c2)) => Some((SockAddr { ip, port }, c1 + c2)),
        },
    }
}

pub proof fn lemma_dec_enc_sockaddr(sa: SockAddr, rest: Seq<u8>)
    ensures
        dec_sockaddr(enc_sockaddr(sa) + rest) == Some((sa, enc_sockaddr(sa).len() as int)),
{
    reveal(dec_sockaddr);
    let s = enc_sockaddr(sa) + rest;
    assert_seqs_equal!(s == enc_ip(sa.ip) + (enc_u16(sa.port) + rest));
    lemma_dec_enc_ip(sa.ip, enc_u16(sa.port) + rest);
    assert_seqs_equal!(s.skip(enc_ip(sa.ip).len() as int) == enc_u16(sa.port) + rest);
    lemma_dec_enc_u16(sa.port, rest);
}

pub fn emit_sockaddr(out: &mut Vec<u8>, sa: &SockAddr)
    ensures
        final(out)@ == old(out)@ + enc_sockaddr(*sa),
{
    emit_ip(out, &sa.ip);
    emit_u16(out, sa.port);
    proof {
        assert_seqs_equal!(out@ == old(out)@ + enc_sockaddr(*sa));
    }
}

pub fn read_sockaddr(buf: &[u8], pos: &mut usize) -> (r: Option<SockAddr>)
    requires
        *old(pos) <= buf@.len(),
    ensures
        match dec_sockaddr(buf@.skip(*old(pos) as int)) {
            None => r is None,
            Some((v, c)) => r == Some(v) && *final(pos) == *old(pos) + c,
        },
        *old(pos) <= *final(pos) <= buf@.len(),
{
    proof {
        reveal(dec_sockaddr);
    }
    let ghost s = buf@.skip(*pos as int);
    let ip = match read_ip(buf, pos) {
        Some(v) => v,
        None => {
            return None;
        },
    };
    proof {
        let c1 = dec_ip(s)->Some_0.1;
        assert_seqs_equal!(buf@.skip(*pos as int) == s.skip(c1));
    }
    let port = match read_u16(buf, pos) {
        Some(v) => v,
        None => {
            return None;
        },
    };
    Some(SockAddr { ip, port })
}

pub open spec fn enc_opt_sockaddr(o: Option<SockAddr>) -> Seq<u8> {
    match o {
        None => enc_u8(0),
        Some(sa) => enc_u8(1) + enc_sockaddr(sa),
    }
}

#[verifier::opaque]
pub open spec fn dec_opt_sockaddr(s: Seq<u8>) -> Option<(Option<SockAddr>, int)> {
    match dec_u8(s) {
        None => None,
        Some((tag, c0)) => {
            if tag == 0 {
                Some((None, c0))
            } else if tag == 1 {
                match dec_sockaddr(s.skip(c0)) {
                    None => None,
                    Some((sa, c1)) => Some((Some(sa), c0 + c1)),
                }
            } else {
                None
            }
        },
    }
}

pub proof fn lemma_dec_enc_opt_sockaddr(o: Option<SockAddr>, rest: Seq<u8>)
    ensures
        dec_opt_sockaddr(enc_opt_sockaddr(o) + rest) == Some(
            (o, enc_opt_sockaddr(o).len() as int),
        ),
{
    reveal(dec_opt_sockaddr);
    let s = enc_opt_sockaddr(o) + rest;
    match o {
        None => {
            lemma_dec_enc_u8(0, rest);
        },
        Some(sa) => {
            assert_seqs_equal!(s == enc_u8(1) + (enc_sockaddr(sa) + rest));
            lemma_dec_enc_u8(1, enc_sockaddr(sa) + rest);
            assert_seqs_equal!(s.skip(1) == enc_sockaddr(sa) + rest);
            lemma_dec_enc_sockaddr(sa, rest);
        },
    }
}

pub fn emit_opt_sockaddr(out: &mut Vec<u8>, o: &Option<SockAddr>)
    ensures
        final(out)@ == old(out)@ + enc_opt_sockaddr(*o),
{
    match o {
        None => {
            emit_u8(out, 0);
        },
        Some(sa) => {
            emit_u8(out, 1);
            emit_sockaddr(out, sa);
        },
    }
    proof {
        assert_seqs_equal!(out@ == old(out)@ + enc_opt_sockaddr(*o));
    }
}

pub fn read_opt_sockaddr(buf: &[u8], pos: &mut usize) -> (r: Option<Option<SockAddr>>)
    requires
        *old(pos) <= buf@.len(),
    ensures
        match dec_opt_sockaddr(buf@.skip(*old(pos) as int)) {
            None => r is None,
            Some((v, c)) => r == Some(v) && *final(pos) == *old(pos) + c,
        },
        *old(pos) <= *final(pos) <= buf@.len(),
{
    proof {
        reveal(dec_opt_sockaddr);
    }
    let ghost s = buf@.skip(*pos as int);
    let tag = match read_u8(buf, pos) {
        Some(v) => v,
        None => {
            return None;
        },
    };
    proof {
        assert_seqs_equal!(buf@.skip(*pos as int) == s.skip(1));
    }
    if tag == 0 {
        Some(None)
    } else if tag == 1 {
        let sa = match read_sockaddr(buf, pos) {
            Some(v) => v,
            None => {
                return None;
            },
        };
        Some(Some(sa))
    } else {
        None
    }
}

} // verus!
