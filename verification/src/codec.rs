//! Byte-level building blocks of the wire schema: big-endian integers,
//! length-prefixed byte strings and counted lists.
//!
//! Every value has a specification-level encoder, and a decoder that returns
//! the value together with how many bytes it consumed; the lemmas state that
//! decoding an encoding, whatever follows it, gives the value back. The
//! executable readers and writers are proved against those functions.

use vstd::prelude::*;
use vstd::assert_seqs_equal;

verus! {

// ---------------------------------------------------------------------------
// specification encoders
// ---------------------------------------------------------------------------

pub open spec fn enc_u8(x: u8) -> Seq<u8> {
    seq![x]
}

pub open spec fn enc_u16(x: u16) -> Seq<u8> {
    seq![(x >> 8u16) as u8, x as u8]
}

pub open spec fn enc_u32(x: u32) -> Seq<u8> {
    enc_u16((x >> 16u32) as u16) + enc_u16(x as u16)
}

pub open spec fn enc_u64(x: u64) -> Seq<u8> {
    enc_u32((x >> 32u64) as u32) + enc_u32(x as u32)
}

/// A byte string: a 16-bit count, then the bytes themselves.
pub open spec fn enc_bytes(b: Seq<u8>) -> Seq<u8> {
    enc_u16(b.len() as u16) + b
}

pub open spec fn bytes_fit(b: Seq<u8>) -> bool {
    b.len() <= 0xFFFF
}

// ---------------------------------------------------------------------------
// specification decoders: value and number of bytes consumed
// ---------------------------------------------------------------------------

pub open spec fn dec_u8(s: Seq<u8>) -> Option<(u8, int)> {
    if s.len() < 1 {
        None
    } else {
        Some((s[0], 1int))
    }
}

pub open spec fn dec_u16(s: Seq<u8>) -> Option<(u16, int)> {
    if s.len() < 2 {
        None
    } else {
        Some((((s[0] as u16) << 8u16 | (s[1] as u16)) as u16, 2int))
    }
}

pub open spec fn dec_u32(s: Seq<u8>) -> Option<(u32, int)> {
    match dec_u16(s) {
        None => None,
        Some((hi, c1)) => match dec_u16(s.skip(c1)) {
            None => None,
            Some((lo, c2)) => Some(((((hi as u32) << 16u32) | (lo as u32)) as u32, c1 + c2)),
        },
    }
}

pub open spec fn dec_u64(s: Seq<u8>) -> Option<(u64, int)> {
    match dec_u32(s) {
        None => None,
        Some((hi, c1)) => match dec_u32(s.skip(c1)) {
            None => None,
            Some((lo, c2)) => Some(((((hi as u64) << 32u64) | (lo as u64)) as u64, c1 + c2)),
        },
    }
}

#[verifier::opaque]
pub open spec fn dec_bytes(s: Seq<u8>) -> Option<(Seq<u8>, int)> {
    match dec_u16(s) {
        None => None,
        Some((n, c1)) => {
            if s.skip(c1).len() < n {
                None
            } else {
                Some((s.skip(c1).take(n as int), c1 + n))
            }
        },
    }
}

// ---------------------------------------------------------------------------
// round-trip lemmas
// ---------------------------------------------------------------------------

/// Concatenation associates.
pub proof fn lemma_add_assoc<T>(a: Seq<T>, b: Seq<T>, c: Seq<T>)
    ensures
        (a + b) + c == a + (b + c),
{
    assert_seqs_equal!((a + b) + c == a + (b + c));
}

/// Skipping a concatenation's first part leaves the second.
pub proof fn lemma_skip_of_add<T>(a: Seq<T>, b: Seq<T>)
    ensures
        (a + b).skip(a.len() as int) == b,
{
    assert_seqs_equal!((a + b).skip(a.len() as int) == b);
}

/// Two skips in a row skip the sum.
pub proof fn lemma_skip_of_skip<T>(s: Seq<T>, a: int, b: int)
    requires
        0 <= a,
        0 <= b,
        a + b <= s.len(),
    ensures
        s.skip(a).skip(b) == s.skip(a + b),
{
    assert_seqs_equal!(s.skip(a).skip(b) == s.skip(a + b));
}

pub proof fn lemma_dec_enc_u8(x: u8, rest: Seq<u8>)
    ensures
        dec_u8(enc_u8(x) + rest) == Some((x, 1int)),
{
}

pub proof fn lemma_dec_enc_u16(x: u16, rest: Seq<u8>)
    ensures
        dec_u16(enc_u16(x) + rest) == Some((x, 2int)),
{
    let s = enc_u16(x) + rest;
    assert(s[0] == (x >> 8u16) as u8 && s[1] == x as u8);
    assert((((x >> 8u16) as u8 as u16) << 8u16 | (x as u8 as u16)) as u16 == x) by (bit_vector);
}

pub proof fn lemma_dec_enc_u32(x: u32, rest: Seq<u8>)
    ensures
        dec_u32(enc_u32(x) + rest) == Some((x, 4int)),
{
    let hi = (x >> 16u32) as u16;
    let lo = x as u16;
    let s = enc_u32(x) + rest;
    assert_seqs_equal!(s == enc_u16(hi) + (enc_u16(lo) + rest));
    lemma_dec_enc_u16(hi, enc_u16(lo) + rest);
    assert_seqs_equal!(s.skip(2) == enc_u16(lo) + rest);
    lemma_dec_enc_u16(lo, rest);
    assert(((((x >> 16u32) as u16 as u32) << 16u32) | (x as u16 as u32)) as u32 == x)
        by (bit_vector);
}

pub proof fn lemma_dec_enc_u64(x: u64, rest: Seq<u8>)
    ensures
        dec_u64(enc_u64(x) + rest) == Some((x, 8int)),
{
    let hi = (x >> 32u64) as u32;
    let lo = x as u32;
    let s = enc_u64(x) + rest;
    assert_seqs_equal!(s == enc_u32(hi) + (enc_u32(lo) + rest));
    lemma_dec_enc_u32(hi, enc_u32(lo) + rest);
    assert_seqs_equal!(s.skip(4) == enc_u32(lo) + rest);
    lemma_dec_enc_u32(lo, rest);
    assert(((((x >> 32u64) as u32 as u64) << 32u64) | (x as u32 as u64)) as u64 == x)
        by (bit_vector);
}

pub proof fn lemma_dec_enc_bytes(b: Seq<u8>, rest: Seq<u8>)
    requires
        bytes_fit(b),
    ensures
        dec_bytes(enc_bytes(b) + rest) == Some((b, 2 + b.len() as int)),
{
    reveal(dec_bytes);
    let n = b.len() as u16;
    let s = enc_bytes(b) + rest;
    assert_seqs_equal!(s == enc_u16(n) + (b + rest));
    lemma_dec_enc_u16(n, b + rest);
    assert_seqs_equal!(s.skip(2) == b + rest);
    assert_seqs_equal!((b + rest).take(n as int) == b);
}

// ---------------------------------------------------------------------------
// counted lists, generic over the element codec
// ---------------------------------------------------------------------------

/// The elements encoded back to back, without the count.
pub open spec fn enc_list_body<T>(elems: Seq<T>, f: spec_fn(T) -> Seq<u8>) -> Seq<u8>
    decreases elems.len(),
{
    if elems.len() == 0 {
        Seq::<u8>::empty()
    } else {
        f(elems[0]) + enc_list_body(elems.skip(1), f)
    }
}

/// A list: a 16-bit element count, then the elements.
pub open spec fn enc_list<T>(elems: Seq<T>, f: spec_fn(T) -> Seq<u8>) -> Seq<u8> {
    enc_u16(elems.len() as u16) + enc_list_body(elems, f)
}

pub open spec fn list_fits<T>(elems: Seq<T>) -> bool {
    elems.len() <= 0xFFFF
}

/// Decode exactly `n` elements back to back.
pub open spec fn dec_list_body<T>(
    s: Seq<u8>,
    n: nat,
    g: spec_fn(Seq<u8>) -> Option<(T, int)>,
) -> Option<(Seq<T>, int)>
    decreases n,
{
    if n == 0 {
        Some((Seq::<T>::empty(), 0int))
    } else {
        match g(s) {
            None => None,
            Some((v, c)) => match dec_list_body(s.skip(c), (n - 1) as nat, g) {
                None => None,
                Some((vs, c2)) => Some((seq![v] + vs, c + c2)),
            },
        }
    }
}

#[verifier::opaque]
pub open spec fn dec_list<T>(s: Seq<u8>, g: spec_fn(Seq<u8>) -> Option<(T, int)>) -> Option<
    (Seq<T>, int),
> {
    match dec_u16(s) {
        None => None,
        Some((n, c1)) => match dec_list_body(s.skip(c1), n as nat, g) {
            None => None,
            Some((vs, c2)) => Some((vs, c1 + c2)),
        },
    }
}

/// A partial parse: elements and bytes already consumed, in front of what a
/// remaining parse yields.
pub open spec fn lift_list<T>(prefix: Seq<T>, consumed: int, r: Option<(Seq<T>, int)>) -> Option<
    (Seq<T>, int),
> {
    match r {
        None => None,
        Some((vs, c)) => Some((prefix + vs, consumed + c)),
    }
}

/// Encoding one more element appends its encoding.
pub proof fn lemma_enc_list_body_snoc<T>(elems: Seq<T>, f: spec_fn(T) -> Seq<u8>, i: int)
    requires
        0 <= i < elems.len(),
    ensures
        enc_list_body(elems.take(i + 1), f) == enc_list_body(elems.take(i), f) + f(elems[i]),
    decreases i,
{
    if i == 0 {
        assert(elems.take(1) =~= seq![elems[0]]);
        assert(elems.take(1).skip(1) =~= Seq::<T>::empty());
        assert(elems.take(0) =~= Seq::<T>::empty());
        assert_seqs_equal!(enc_list_body(elems.take(1), f) ==
            enc_list_body(elems.take(0), f) + f(elems[0]));
    } else {
        let tail = elems.skip(1);
        assert(elems.take(i + 1).skip(1) =~= tail.take(i));
        assert(elems.take(i).skip(1) =~= tail.take(i - 1));
        assert(elems.take(i + 1)[0] == elems[0] && elems.take(i)[0] == elems[0]);
        lemma_enc_list_body_snoc(tail, f, i - 1);
        assert(tail[i - 1] == elems[i]);
        assert(enc_list_body(elems.take(i + 1), f) == f(elems[0]) + enc_list_body(
            tail.take(i),
            f,
        ));
        assert(enc_list_body(elems.take(i), f) == f(elems[0]) + enc_list_body(
            tail.take(i - 1),
            f,
        ));
        lemma_add_assoc(f(elems[0]), enc_list_body(tail.take(i - 1), f), f(elems[i]));
    }
}

/// An element codec is sound when decoding one of its encodings, whatever
/// follows, gives the element back and consumes exactly the encoding.
pub open spec fn elem_codec_ok<T>(
    f: spec_fn(T) -> Seq<u8>,
    g: spec_fn(Seq<u8>) -> Option<(T, int)>,
    wf: spec_fn(T) -> bool,
) -> bool {
    forall|t: T, rest: Seq<u8>|
        wf(t) ==> #[trigger] g(f(t) + rest) == Some((t, f(t).len() as int))
}

pub proof fn lemma_dec_enc_list_body<T>(
    elems: Seq<T>,
    f: spec_fn(T) -> Seq<u8>,
    g: spec_fn(Seq<u8>) -> Option<(T, int)>,
    wf: spec_fn(T) -> bool,
    rest: Seq<u8>,
)
    requires
        elem_codec_ok(f, g, wf),
        forall|i: int| 0 <= i < elems.len() ==> wf(#[trigger] elems[i]),
    ensures
        dec_list_body(enc_list_body(elems, f) + rest, elems.len(), g) == Some(
            (elems, enc_list_body(elems, f).len() as int),
        ),
    decreases elems.len(),
{
    if elems.len() == 0 {
        assert_seqs_equal!(enc_list_body(elems, f) + rest == rest);
        assert(dec_list_body(rest, 0, g) == Some((Seq::<T>::empty(), 0int)));
        assert_seqs_equal!(elems == Seq::<T>::empty());
    } else {
        let head = elems[0];
        let tail = elems.skip(1);
        let body_tail = enc_list_body(tail, f);
        let s = enc_list_body(elems, f) + rest;
        assert_seqs_equal!(s == f(head) + (body_tail + rest));
        assert(g(f(head) + (body_tail + rest)) == Some((head, f(head).len() as int)));
        assert_seqs_equal!(s.skip(f(head).len() as int) == body_tail + rest);
        lemma_dec_enc_list_body(tail, f, g, wf, rest);
        assert_seqs_equal!(seq![head] + tail == elems);
    }
}

pub proof fn lemma_dec_enc_list<T>(
    elems: Seq<T>,
    f: spec_fn(T) -> Seq<u8>,
    g: spec_fn(Seq<u8>) -> Option<(T, int)>,
    wf: spec_fn(T) -> bool,
    rest: Seq<u8>,
)
    requires
        elem_codec_ok(f, g, wf),
        forall|i: int| 0 <= i < elems.len() ==> wf(#[trigger] elems[i]),
        list_fits(elems),
    ensures
        dec_list(enc_list(elems, f) + rest, g) == Some(
            (elems, enc_list(elems, f).len() as int),
        ),
{
    reveal(dec_list);
    let n = elems.len() as u16;
    let body = enc_list_body(elems, f);
    let s = enc_list(elems, f) + rest;
    assert_seqs_equal!(s == enc_u16(n) + (body + rest));
    lemma_dec_enc_u16(n, body + rest);
    assert_seqs_equal!(s.skip(2) == body + rest);
    lemma_dec_enc_list_body(elems, f, g, wf, rest);
}

// ---------------------------------------------------------------------------
// executable writers
// ---------------------------------------------------------------------------

pub fn emit_u8(out: &mut Vec<u8>, x: u8)
    ensures
        final(out)@ == old(out)@ + enc_u8(x),
{
    out.push(x);
    proof {
        assert_seqs_equal!(out@ == old(out)@ + enc_u8(x));
    }
}

pub fn emit_u16(out: &mut Vec<u8>, x: u16)
    ensures
        final(out)@ == old(out)@ + enc_u16(x),
{
    out.push((x >> 8u16) as u8);
    out.push(#[verifier::truncate] (x as u8));
    proof {
        assert_seqs_equal!(out@ == old(out)@ + enc_u16(x));
    }
}

pub fn emit_u32(out: &mut Vec<u8>, x: u32)
    ensures
        final(out)@ == old(out)@ + enc_u32(x),
{
    emit_u16(out, (x >> 16u32) as u16);
    emit_u16(out, #[verifier::truncate] (x as u16));
    proof {
        assert_seqs_equal!(out@ == old(out)@ + enc_u32(x));
    }
}

pub fn emit_u64(out: &mut Vec<u8>, x: u64)
    ensures
        final(out)@ == old(out)@ + enc_u64(x),
{
    emit_u32(out, (x >> 32u64) as u32);
    emit_u32(out, #[verifier::truncate] (x as u32));
    proof {
        assert_seqs_equal!(out@ == old(out)@ + enc_u64(x));
    }
}

pub fn emit_bytes(out: &mut Vec<u8>, b: &Vec<u8>)
    requires
        bytes_fit(b@),
    ensures
        final(out)@ == old(out)@ + enc_bytes(b@),
{
    emit_u16(out, b.len() as u16);
    let ghost mid = out@;
    let n = b.len();
    let mut i: usize = 0;
    while i < n
        invariant
            n == b@.len(),
            i <= n,
            out@ == mid + b@.take(i as int),
        decreases n - i,
    {
        out.push(b[i]);
        proof {
            assert_seqs_equal!(out@ == mid + b@.take(i + 1int));
        }
        i += 1;
    }
    proof {
        assert_seqs_equal!(b@.take(n as int) == b@);
        assert_seqs_equal!(out@ == old(out)@ + enc_bytes(b@));
    }
}

// ---------------------------------------------------------------------------
// executable readers: a position that advances through the buffer
// ---------------------------------------------------------------------------

pub fn read_u8(buf: &[u8], pos: &mut usize) -> (r: Option<u8>)
    requires
        *old(pos) <= buf@.len(),
    ensures
        match dec_u8(buf@.skip(*old(pos) as int)) {
            None => r is None && *final(pos) == *old(pos),
            Some((v, c)) => r == Some(v) && *final(pos) == *old(pos) + c,
        },
        *final(pos) <= buf@.len(),
{
    let ghost s = buf@.skip(*pos as int);
    if *pos < buf.len() {
        let v = buf[*pos];
        assert(v == s[0]);
        *pos = *pos + 1;
        Some(v)
    } else {
        None
    }
}

pub fn read_u16(buf: &[u8], pos: &mut usize) -> (r: Option<u16>)
    requires
        *old(pos) <= buf@.len(),
    ensures
        match dec_u16(buf@.skip(*old(pos) as int)) {
            None => r is None && *final(pos) == *old(pos),
            Some((v, c)) => r == Some(v) && *final(pos) == *old(pos) + c,
        },
        *final(pos) <= buf@.len(),
{
    let ghost s = buf@.skip(*pos as int);
    if buf.len() - *pos >= 2 {
        let b0 = buf[*pos];
        let b1 = buf[*pos + 1];
        assert(b0 == s[0] && b1 == s[1]);
        *pos = *pos + 2;
        Some((b0 as u16) << 8u16 | (b1 as u16))
    } else {
        None
    }
}

pub fn read_u32(buf: &[u8], pos: &mut usize) -> (r: Option<u32>)
    requires
        *old(pos) <= buf@.len(),
    ensures
        match dec_u32(buf@.skip(*old(pos) as int)) {
            None => r is None,
            Some((v, c)) => r == Some(v) && *final(pos) == *old(pos) + c,
        },
        *final(pos) <= buf@.len(),
        *final(pos) >= *old(pos),
{
    let ghost s = buf@.skip(*pos as int);
    let ghost p0 = *pos;
    let hi = match read_u16(buf, pos) {
        Some(v) => v,
        None => {
            return None;
        },
    };
    proof {
        assert_seqs_equal!(buf@.skip(*pos as int) == s.skip(2));
    }
    let lo = match read_u16(buf, pos) {
        Some(v) => v,
        None => {
            return None;
        },
    };
    Some(((hi as u32) << 16u32) | (lo as u32))
}

pub fn read_u64(buf: &[u8], pos: &mut usize) -> (r: Option<u64>)
    requires
        *old(pos) <= buf@.len(),
    ensures
        match dec_u64(buf@.skip(*old(pos) as int)) {
            None => r is None,
            Some((v, c)) => r == Some(v) && *final(pos) == *old(pos) + c,
        },
        *final(pos) <= buf@.len(),
        *final(pos) >= *old(pos),
{
    let ghost s = buf@.skip(*pos as int);
    let ghost p0 = *pos;
    let hi = match read_u32(buf, pos) {
        Some(v) => v,
        None => {
            return None;
        },
    };
    proof {
        let c1 = dec_u32(s)->Some_0.1;
        assert_seqs_equal!(buf@.skip(*pos as int) == s.skip(c1));
    }
    let lo = match read_u32(buf, pos) {
        Some(v) => v,
        None => {
            return None;
        },
    };
    Some(((hi as u64) << 32u64) | (lo as u64))
}

pub fn read_bytes(buf: &[u8], pos: &mut usize) -> (r: Option<Vec<u8>>)
    requires
        *old(pos) <= buf@.len(),
    ensures
        match dec_bytes(buf@.skip(*old(pos) as int)) {
            None => r is None,
            Some((v, c)) => r is Some && r->Some_0@ == v && *final(pos) == *old(pos) + c,
        },
        *final(pos) <= buf@.len(),
        *final(pos) >= *old(pos),
{
    proof {
        reveal(dec_bytes);
    }
    let ghost s = buf@.skip(*pos as int);
    let n = match read_u16(buf, pos) {
        Some(v) => v,
        None => {
            return None;
        },
    };
    proof {
        assert_seqs_equal!(buf@.skip(*pos as int) == s.skip(2));
    }
    if buf.len() - *pos < n as usize {
        return None;
    }
    let mut v: Vec<u8> = Vec::new();
    let end = *pos + n as usize;
    let start = *pos;
    let mut i: usize = start;
    while i < end
        invariant
            start <= i <= end <= buf@.len(),
            v@ == buf@.subrange(start as int, i as int),
        decreases end - i,
    {
        v.push(buf[i]);
        proof {
            assert_seqs_equal!(v@ == buf@.subrange(start as int, i + 1int));
        }
        i += 1;
    }
    *pos = end;
    proof {
        assert_seqs_equal!(v@ == s.skip(2).take(n as int));
    }
    Some(v)
}

} // verus!
