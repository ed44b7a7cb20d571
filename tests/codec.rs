use volume_link::codec::{
    decode_status, encode_command, encode_handshake, verify_handshake_reply, FrameError,
    VolumeState,
};

const SIGNATURE: [u8; 8] = [0x03, 0x55, 0x72, 0xf5, 0x1e, 0xd8, 0x06, 0x33];

#[test]
fn handshake_frame_is_signature() {
    assert_eq!(encode_handshake(), SIGNATURE.to_vec());
}

#[test]
fn command_frame_for_volume_42_unmuted() {
    assert_eq!(
        encode_command(42, false),
        vec![0x01, 0xAA, 0x80, 0, 0, 0, 0, 0, 0]
    );
}

#[test]
fn command_frame_layout_for_every_volume() {
    for v in 0u8..=100 {
        for muted in [false, true] {
            let f = encode_command(v, muted);
            assert_eq!(f.len(), 9);
            assert_eq!(f[0], 0x01);
            assert_eq!(f[1], v | 0x80);
            assert_eq!(f[2], if muted { 255 } else { 128 });
            assert!(f[3..].iter().all(|&b| b == 0));
        }
    }
}

#[test]
fn decode_recovers_volume_and_mute() {
    for v in 0u8..=100 {
        for m in [128u8, 255] {
            let mut frame = vec![0u8; 16];
            frame[0] = m;
            frame[1] = v | 0x80;
            assert_eq!(
                decode_status(&frame),
                Ok(VolumeState { volume: v, muted: m == 255 })
            );
        }
    }
}

#[test]
fn decode_treats_unknown_mute_byte_as_unmuted() {
    let mut frame = vec![0u8; 16];
    frame[0] = 7;
    frame[1] = 0x80 | 60;
    assert_eq!(decode_status(&frame), Ok(VolumeState { volume: 60, muted: false }));
}

#[test]
fn decode_rejects_frame_shorter_than_two_bytes() {
    assert_eq!(decode_status(&[]), Err(FrameError::MalformedFrame));
    assert_eq!(decode_status(&[255]), Err(FrameError::MalformedFrame));
    assert_eq!(decode_status(&[255, 0x85]), Ok(VolumeState { volume: 5, muted: true }));
}

#[test]
fn reply_with_signature_accepted_whatever_byte_zero() {
    let mut reply = SIGNATURE.to_vec();
    reply[0] = 0x99;
    assert!(verify_handshake_reply(&reply));
    reply.extend_from_slice(&[1, 2, 3, 4, 5, 6, 7, 8]);
    assert!(verify_handshake_reply(&reply));
}

#[test]
fn short_reply_rejected() {
    assert!(!verify_handshake_reply(&SIGNATURE[..7]));
    assert!(!verify_handshake_reply(&[]));
}

#[test]
fn mutated_reply_rejected() {
    for i in 1..8 {
        let mut reply = SIGNATURE.to_vec();
        reply[i] ^= 0x01;
        assert!(!verify_handshake_reply(&reply));
    }
}
