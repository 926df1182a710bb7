use fubuki::cipher::Cipher;
use fubuki::framing::{decode_tcp_payload, encode_tcp_frame, parse_frame_len};
use fubuki::protocol::Msg;

fn msg_eq(a: &Msg, b: &Msg) -> bool {
    a == b
}

#[test]
fn noop_cipher_is_identity() {
    let mut c = Cipher::from_key(None, false);
    let mut data = vec![1u8, 2, 3, 255, 0];
    c.apply_frame(&mut data);
    assert_eq!(data, vec![1u8, 2, 3, 255, 0]);
}

#[test]
fn xor_cipher_is_bytewise_xor() {
    let mut c = Cipher::from_key(Some(vec![0xAA, 0x55]), false);
    let mut data = vec![0x00u8, 0x00, 0xFF, 0xFF];
    c.apply_frame(&mut data);
    assert_eq!(data, vec![0xAA, 0x55, 0x55, 0xAA]);
}

#[test]
fn xor_cipher_round_trips() {
    let mut enc = Cipher::from_key(Some(b"secret".to_vec()), false);
    let mut dec = Cipher::from_key(Some(b"secret".to_vec()), false);
    let original: Vec<u8> = (0u8..=255).collect();
    let mut data = original.clone();
    enc.apply_frame(&mut data);
    assert_ne!(data, original);
    dec.apply_frame(&mut data);
    assert_eq!(data, original);
}

#[test]
fn empty_key_xor_is_identity() {
    let mut c = Cipher::from_key(Some(Vec::new()), false);
    let mut data = vec![9u8, 8, 7];
    c.apply_frame(&mut data);
    assert_eq!(data, vec![9u8, 8, 7]);
}

#[test]
fn rotation_cipher_rotates_key_each_frame() {
    let mut a = Cipher::from_key(Some(vec![1, 2, 3]), true);
    let mut first = vec![0u8, 0, 0];
    a.apply_frame(&mut first);
    assert_eq!(first, vec![1, 2, 3]);
    let mut second = vec![0u8, 0, 0];
    a.apply_frame(&mut second);
    assert_eq!(second, vec![2, 3, 1]);
}

#[test]
fn rotation_cipher_stays_in_sync_over_many_frames() {
    // ten thousand consecutive TCP frames encrypt and decrypt without desync
    let mut sender = Cipher::from_key(Some(b"rotating-key".to_vec()), true);
    let mut receiver = Cipher::from_key(Some(b"rotating-key".to_vec()), true);
    for i in 0u32..10_000 {
        let msg = Msg::HeartbeatReq { from: 7, seq: i, ts: i as u64 };
        let frame = encode_tcp_frame(&mut sender, &msg).expect("fits");
        let len = parse_frame_len(frame[0], frame[1]) as usize;
        assert_eq!(len, frame.len() - 2);
        let payload = frame[2..].to_vec();
        let back = decode_tcp_payload(&mut receiver, payload).expect("parses");
        assert!(msg_eq(&back, &msg));
    }
}

#[test]
fn stateless_cipher_decrypts_out_of_order() {
    // UDP never rotates, so datagrams decrypt in any order
    let cipher = Cipher::from_key(Some(b"udp-key".to_vec()), false);
    let frames: Vec<Vec<u8>> = (0u8..10).map(|i| vec![i; 16]).collect();
    let mut wires: Vec<Vec<u8>> = frames
        .iter()
        .map(|f| {
            let mut w = f.clone();
            cipher.apply_stateless(&mut w);
            w
        })
        .collect();
    wires.reverse();
    for (rev_idx, mut w) in wires.into_iter().enumerate() {
        let orig_idx = 9 - rev_idx;
        cipher.apply_stateless(&mut w);
        assert_eq!(w, frames[orig_idx]);
    }
}
