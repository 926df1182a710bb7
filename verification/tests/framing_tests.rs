use fubuki::cipher::Cipher;
use fubuki::framing::{
    accept_udp_datagram, check_tcp_frame_len, decode_tcp_payload, encode_tcp_frame,
    encode_udp_datagram, parse_frame_len, FrameError, TCP_MAX_FRAME,
};
use fubuki::protocol::Msg;
use fubuki::protocol_io::encode_msg;

#[test]
fn tcp_frame_carries_length_then_ciphered_payload() {
    let mut c = Cipher::from_key(None, false);
    let msg = Msg::HeartbeatResp { seq: 1 };
    let frame = encode_tcp_frame(&mut c, &msg).expect("fits");
    let body = encode_msg(&msg);
    assert_eq!(parse_frame_len(frame[0], frame[1]) as usize, body.len());
    assert_eq!(&frame[2..], &body[..]);
}

#[test]
fn oversized_tcp_frame_is_a_protocol_error() {
    // a header announcing more than the frame limit costs the connection
    assert!(check_tcp_frame_len(2048).is_ok());
    assert_eq!(check_tcp_frame_len(2049), Err(FrameError::TooLarge));
    // and an oversized message cannot be framed in the first place
    let mut c = Cipher::from_key(None, false);
    let msg = Msg::P2p { packet: vec![0u8; TCP_MAX_FRAME + 1] };
    assert_eq!(encode_tcp_frame(&mut c, &msg), Err(FrameError::TooLarge));
}

#[test]
fn udp_datagram_over_mtu_is_dropped() {
    let c = Cipher::from_key(None, false);
    let datagram = vec![0u8; 1501];
    assert_eq!(accept_udp_datagram(&c, datagram, 1500), Err(FrameError::TooLarge));
}

#[test]
fn udp_round_trip_through_xor_cipher() {
    let sender = Cipher::from_key(Some(b"udp".to_vec()), false);
    let receiver = Cipher::from_key(Some(b"udp".to_vec()), false);
    let msg = Msg::P2p { packet: vec![1, 2, 3, 4] };
    let wire = encode_udp_datagram(&sender, &msg, 1446).expect("fits");
    let back = accept_udp_datagram(&receiver, wire, 1446).expect("parses");
    assert_eq!(back, msg);
}

#[test]
fn udp_send_over_mtu_is_refused() {
    let c = Cipher::from_key(None, false);
    let msg = Msg::P2p { packet: vec![0u8; 1500] };
    assert_eq!(encode_udp_datagram(&c, &msg, 100), Err(FrameError::TooLarge));
}

#[test]
fn garbage_payload_is_malformed_not_fatal() {
    let mut c = Cipher::from_key(None, false);
    let r = decode_tcp_payload(&mut c, vec![255, 255, 255]);
    assert_eq!(r, Err(FrameError::Malformed));
    let c2 = Cipher::from_key(None, false);
    let r = accept_udp_datagram(&c2, vec![255, 255, 255], 1500);
    assert_eq!(r, Err(FrameError::Malformed));
}

#[test]
fn tcp_round_trip_through_every_cipher_kind() {
    let keys: Vec<(Option<Vec<u8>>, bool)> = vec![
        (None, false),
        (Some(b"xor-key".to_vec()), false),
        (Some(b"rot-key".to_vec()), true),
    ];
    for (key, rot) in keys {
        let mut tx = Cipher::from_key(key.clone(), rot);
        let mut rx = Cipher::from_key(key, rot);
        let msg = Msg::Forward { from: 5, to: 6, packet: vec![9; 32] };
        let frame = encode_tcp_frame(&mut tx, &msg).expect("fits");
        let back = decode_tcp_payload(&mut rx, frame[2..].to_vec()).expect("parses");
        assert_eq!(back, msg);
    }
}
