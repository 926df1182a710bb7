//! On-wire framing over the two transports.
//!
//! TCP carries `u16 big-endian length || ciphered payload`; a header that
//! announces more than the frame limit is a protocol error and costs the
//! connection. UDP carries one ciphered message per datagram; a datagram
//! larger than the MTU is dropped, and the cipher on UDP must be stateless,
//! so the rotating variant is refused there.

use vstd::prelude::*;
use vstd::assert_seqs_equal;

use crate::cipher::{lemma_cipher_round_trip, Cipher, CipherModel};
use crate::codec::enc_u16;
use crate::protocol::{dec_msg, enc_msg, lemma_dec_enc_msg, Msg, MsgModel};
use crate::protocol_io::{decode_msg, encode_msg};

verus! {

/// The largest ciphered payload a TCP frame may carry: the MTU plus protocol
/// overhead.
pub const TCP_MAX_FRAME: usize = 2048;

/// What can go wrong when a frame is taken apart or built.
#[derive(Clone, Copy, Debug, PartialEq, Eq, Structural)]
pub enum FrameError {
    /// The frame exceeds the limit of its transport.
    TooLarge,
    /// The bytes do not parse as one whole message.
    Malformed,
}

/// Build one TCP frame: length prefix, then the ciphered encoding. The
/// cipher advances one frame; an oversized message leaves it untouched.
pub fn encode_tcp_frame(cipher: &mut Cipher, m: &Msg) -> (r: Result<Vec<u8>, FrameError>)
    requires
        m@.wf(),
    ensures
        enc_msg(m@).len() <= TCP_MAX_FRAME ==> r is Ok && r->Ok_0@ == enc_u16(
            enc_msg(m@).len() as u16,
        ) + old(cipher)@.apply(enc_msg(m@)) && final(cipher)@ == old(cipher)@.next(),
        enc_msg(m@).len() > TCP_MAX_FRAME ==> r is Err && r->Err_0 == FrameError::TooLarge
            && final(cipher)@ == old(cipher)@,
{
    let mut body = encode_msg(m);
    if body.len() > TCP_MAX_FRAME {
        return Err(FrameError::TooLarge);
    }
    let len = body.len() as u16;
    cipher.apply_frame(&mut body);
    let mut out: Vec<u8> = Vec::new();
    out.push((len >> 8u16) as u8);
    out.push(#[verifier::truncate] (len as u8));
    let mut i: usize = 0;
    let n = body.len();
    while i < n
        invariant
            n == body@.len(),
            i <= n,
            out@ == enc_u16(len) + body@.take(i as int),
        decreases n - i,
    {
        out.push(body[i]);
        proof {
            assert_seqs_equal!(out@ == enc_u16(len) + body@.take(i + 1int));
        }
        i += 1;
    }
    proof {
        assert(body@.take(n as int) =~= body@);
    }
    Ok(out)
}

/// The payload length a TCP frame header announces.
pub fn parse_frame_len(b0: u8, b1: u8) -> (r: u16)
    ensures
        r == ((b0 as u16) << 8u16 | (b1 as u16)),
{
    (b0 as u16) << 8u16 | (b1 as u16)
}

/// Whether a frame header may be followed at all: a length over the limit is
/// a protocol error, and the reader must drop the connection.
pub fn check_tcp_frame_len(len: u16) -> (r: Result<(), FrameError>)
    ensures
        r is Ok <==> len <= TCP_MAX_FRAME,
        r is Err ==> r->Err_0 == FrameError::TooLarge,
{
    if len as usize <= TCP_MAX_FRAME {
        Ok(())
    } else {
        Err(FrameError::TooLarge)
    }
}

/// Decipher and parse the payload of one TCP frame. The cipher advances one
/// frame whether or not the bytes parse, so one bad frame cannot desync the
/// stream's keys.
pub fn decode_tcp_payload(cipher: &mut Cipher, payload: Vec<u8>) -> (r: Result<Msg, FrameError>)
    ensures
        ({
            let plain = old(cipher)@.apply(payload@);
            match dec_msg(plain) {
                Some((m, c)) => if c == plain.len() {
                    r is Ok && r->Ok_0@ == m
                } else {
                    r is Err && r->Err_0 == FrameError::Malformed
                },
                None => r is Err && r->Err_0 == FrameError::Malformed,
            }
        }),
        final(cipher)@ == old(cipher)@.next(),
{
    let mut buf = payload;
    cipher.apply_frame(&mut buf);
    match decode_msg(buf.as_slice()) {
        Some(m) => Ok(m),
        None => Err(FrameError::Malformed),
    }
}

/// Build one UDP datagram: the ciphered encoding of the message, nothing
/// else. Rotation is refused on UDP, so the cipher state never changes here.
pub fn encode_udp_datagram(cipher: &Cipher, m: &Msg, mtu: usize) -> (r: Result<
    Vec<u8>,
    FrameError,
>)
    requires
        m@.wf(),
        !cipher.spec_is_rotation(),
    ensures
        enc_msg(m@).len() <= mtu ==> r is Ok && r->Ok_0@ == cipher@.apply(enc_msg(m@)),
        enc_msg(m@).len() > mtu ==> r is Err && r->Err_0 == FrameError::TooLarge,
{
    let mut body = encode_msg(m);
    if body.len() > mtu {
        return Err(FrameError::TooLarge);
    }
    cipher.apply_stateless(&mut body);
    Ok(body)
}

/// Take in one UDP datagram: drop anything over the MTU, decipher the rest
/// and parse it as one whole message.
pub fn accept_udp_datagram(cipher: &Cipher, datagram: Vec<u8>, mtu: usize) -> (r: Result<
    Msg,
    FrameError,
>)
    requires
        !cipher.spec_is_rotation(),
    ensures
        datagram@.len() > mtu ==> r is Err && r->Err_0 == FrameError::TooLarge,
        datagram@.len() <= mtu ==> ({
            let plain = cipher@.apply(datagram@);
            match dec_msg(plain) {
                Some((m, c)) => if c == plain.len() {
                    r is Ok && r->Ok_0@ == m
                } else {
                    r is Err && r->Err_0 == FrameError::Malformed
                },
                None => r is Err && r->Err_0 == FrameError::Malformed,
            }
        }),
{
    if datagram.len() > mtu {
        return Err(FrameError::TooLarge);
    }
    let mut buf = datagram;
    cipher.apply_stateless(&mut buf);
    match decode_msg(buf.as_slice()) {
        Some(m) => Ok(m),
        None => Err(FrameError::Malformed),
    }
}

/// The framing round-trip through any cipher: deciphering a ciphered
/// encoding with the matching cipher state parses back to the very message.
pub proof fn lemma_ciphered_msg_round_trip(c: CipherModel, m: MsgModel)
    requires
        m.wf(),
    ensures
        dec_msg(c.apply(c.apply(enc_msg(m)))) == Some((m, enc_msg(m).len() as int)),
{
    lemma_cipher_round_trip(c, enc_msg(m));
    lemma_dec_enc_msg(m, Seq::<u8>::empty());
    assert_seqs_equal!(enc_msg(m) + Seq::<u8>::empty() == enc_msg(m));
}

} // verus!
