//! Byte-level obfuscation of every on-wire datagram.
//!
//! Three variants over a pre-shared key: the identity, XOR with the key
//! repeated, and rotating XOR where the key is rotated left by one byte after
//! every frame. Encryption works in place, and decryption is the same
//! operation, so both ends stay in sync by applying it once per frame on the
//! same stream. Datagrams without ordering (UDP) must not use the rotating
//! variant.

use vstd::prelude::*;
use vstd::assert_seqs_equal;

verus! {

/// The key byte that lines up with position `i`: the key repeats, and an
/// empty key obfuscates nothing.
pub open spec fn key_byte(key: Seq<u8>, i: int) -> u8 {
    if key.len() == 0 {
        0u8
    } else {
        key[i % (key.len() as int)]
    }
}

/// XOR of each data byte with the key byte at its position.
pub open spec fn xor_with_key(key: Seq<u8>, data: Seq<u8>) -> Seq<u8> {
    Seq::new(data.len(), |i: int| data[i] ^ key_byte(key, i))
}

/// The key rotated left by one byte.
pub open spec fn rotate_left(key: Seq<u8>) -> Seq<u8> {
    if key.len() <= 1 {
        key
    } else {
        key.subrange(1, key.len() as int) + key.subrange(0, 1)
    }
}

/// Applying the key twice gives the data back: XOR is an involution.
pub proof fn lemma_xor_involution(key: Seq<u8>, data: Seq<u8>)
    ensures
        xor_with_key(key, xor_with_key(key, data)) == data,
{
    let twice = xor_with_key(key, xor_with_key(key, data));
    assert forall|i: int| 0 <= i < data.len() implies twice[i] == data[i] by {
        let k = key_byte(key, i);
        let d = data[i];
        assert((d ^ k) ^ k == d) by (bit_vector);
    }
    assert_seqs_equal!(twice == data);
}

/// An empty key hides nothing: XOR with zero is the identity.
pub proof fn lemma_empty_key_identity(data: Seq<u8>)
    ensures
        xor_with_key(Seq::<u8>::empty(), data) == data,
{
    let out = xor_with_key(Seq::<u8>::empty(), data);
    assert forall|i: int| 0 <= i < data.len() implies out[i] == data[i] by {
        let d = data[i];
        assert(d ^ 0u8 == d) by (bit_vector);
    }
    assert_seqs_equal!(out == data);
}

/// The mathematical state of a cipher: the key the next frame sees, and
/// whether the key turns after each frame.
pub ghost struct CipherModel {
    pub key: Seq<u8>,
    pub rotating: bool,
}

impl CipherModel {
    /// What one application to a frame does to the bytes.
    pub open spec fn apply(self, data: Seq<u8>) -> Seq<u8> {
        xor_with_key(self.key, data)
    }

    /// The state after one frame.
    pub open spec fn next(self) -> CipherModel {
        if self.rotating {
            CipherModel { key: rotate_left(self.key), rotating: true }
        } else {
            self
        }
    }
}

/// The per-group datagram obfuscation. `Rotation` carries the key in its
/// current position; the other variants are stateless.
#[derive(Clone, Debug, PartialEq, Eq)]
pub enum Cipher {
    NoOp,
    Xor { key: Vec<u8> },
    Rotation { key: Vec<u8> },
}

impl View for Cipher {
    type V = CipherModel;

    open spec fn view(&self) -> CipherModel {
        match self {
            Cipher::NoOp => CipherModel { key: Seq::<u8>::empty(), rotating: false },
            Cipher::Xor { key } => CipherModel { key: key@, rotating: false },
            Cipher::Rotation { key } => CipherModel { key: key@, rotating: true },
        }
    }
}

impl Cipher {
    pub open spec fn spec_is_rotation(self) -> bool {
        self is Rotation
    }

    /// A key of `None` turns obfuscation off; otherwise the key bytes are
    /// used, rotating when the group enables key rotation.
    pub fn from_key(key: Option<Vec<u8>>, enable_rotation: bool) -> (r: Cipher)
        ensures
            key is None ==> r == Cipher::NoOp,
            key is Some ==> r@.key == key->Some_0@,
            key is Some ==> (r is Rotation <==> enable_rotation),
            r is Rotation <==> (key is Some && enable_rotation),
    {
        match key {
            None => Cipher::NoOp,
            Some(k) => {
                if enable_rotation {
                    Cipher::Rotation { key: k }
                } else {
                    Cipher::Xor { key: k }
                }
            },
        }
    }

    pub fn is_rotation(&self) -> (r: bool)
        ensures
            r == self.spec_is_rotation(),
    {
        match self {
            Cipher::Rotation { .. } => true,
            _ => false,
        }
    }

    /// Obfuscate one frame in place and advance the cipher state.
    /// Deciphering is the very same operation.
    pub fn apply_frame(&mut self, data: &mut Vec<u8>)
        ensures
            final(data)@ == old(self)@.apply(old(data)@),
            final(self)@ == old(self)@.next(),
    {
        match self {
            Cipher::NoOp => {
                proof {
                    lemma_empty_key_identity(data@);
                }
            },
            Cipher::Xor { key } => {
                xor_in_place(key, data);
            },
            Cipher::Rotation { key } => {
                xor_in_place(key, data);
                rotate_key(key);
            },
        }
    }
}

impl Cipher {
    /// Obfuscate one frame in place without touching any state: for the
    /// transports without ordering, where the rotating variant is refused.
    pub fn apply_stateless(&self, data: &mut Vec<u8>)
        requires
            !self.spec_is_rotation(),
        ensures
            final(data)@ == self@.apply(old(data)@),
    {
        match self {
            Cipher::NoOp => {
                proof {
                    lemma_empty_key_identity(data@);
                }
            },
            Cipher::Xor { key } => {
                xor_in_place(key, data);
            },
            Cipher::Rotation { .. } => {
                proof {
                    assert(false);
                }
            },
        }
    }
}

/// XOR every data byte with the repeating key.
fn xor_in_place(key: &Vec<u8>, data: &mut Vec<u8>)
    ensures
        final(data)@ == xor_with_key(key@, old(data)@),
{
    if key.len() == 0 {
        proof {
            lemma_empty_key_identity(data@);
        }
        return ;
    }
    let ghost orig = data@;
    let n = data.len();
    let klen = key.len();
    let mut i: usize = 0;
    while i < n
        invariant
            0 < klen == key@.len(),
            n == data@.len() == orig.len(),
            i <= n,
            forall|j: int| 0 <= j < i ==> data@[j] == #[trigger] xor_with_key(key@, orig)[j],
            forall|j: int| i <= j < n ==> data@[j] == orig[j],
        decreases n - i,
    {
        let b = data[i] ^ key[i % klen];
        data.set(i, b);
        i += 1;
    }
    proof {
        assert_seqs_equal!(data@ == xor_with_key(key@, orig));
    }
}

/// Rotate the key one byte to the left.
fn rotate_key(key: &mut Vec<u8>)
    ensures
        final(key)@ == rotate_left(old(key)@),
{
    if key.len() > 1 {
        let first = key.remove(0);
        key.push(first);
        proof {
            assert_seqs_equal!(key@ == rotate_left(old(key)@));
        }
    }
}

/// Ciphering a frame and then deciphering it on a peer whose cipher is in the
/// same state gives the frame back; both ends advance to the same state.
pub proof fn lemma_cipher_round_trip(c: CipherModel, data: Seq<u8>)
    ensures
        c.apply(c.apply(data)) == data,
{
    lemma_xor_involution(c.key, data);
}

/// A whole stream enciphered frame by frame, each frame with the state the
/// one before left behind.
pub open spec fn apply_stream(c: CipherModel, frames: Seq<Seq<u8>>) -> Seq<Seq<u8>>
    decreases frames.len(),
{
    if frames.len() == 0 {
        frames
    } else {
        seq![c.apply(frames[0])] + apply_stream(c.next(), frames.skip(1))
    }
}

/// Deciphering an enciphered stream in order gives every frame back: the two
/// ends rotate in step, so no frame desynchronises the keys.
pub proof fn lemma_stream_round_trip(c: CipherModel, frames: Seq<Seq<u8>>)
    ensures
        apply_stream(c, apply_stream(c, frames)) == frames,
    decreases frames.len(),
{
    if frames.len() == 0 {
    } else {
        let sent = apply_stream(c, frames);
        lemma_cipher_round_trip(c, frames[0]);
        lemma_stream_round_trip(c.next(), frames.skip(1));
        assert(sent.skip(1) == apply_stream(c.next(), frames.skip(1)));
        assert_seqs_equal!(apply_stream(c, sent) == frames);
    }
}

} // verus!
