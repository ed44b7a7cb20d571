use volume_link::probe::{check_handshake_reply, check_handshake_written, ProbeFailure};

#[test]
fn short_handshake_write_rejected() {
    assert_eq!(check_handshake_written(7), Err(ProbeFailure::ShortWrite));
    assert_eq!(check_handshake_written(0), Err(ProbeFailure::ShortWrite));
    assert_eq!(check_handshake_written(8), Ok(()));
}

#[test]
fn reply_verdicts() {
    let good = [0x00, 0x55, 0x72, 0xf5, 0x1e, 0xd8, 0x06, 0x33, 0, 0];
    assert_eq!(check_handshake_reply(&good), Ok(()));
    assert_eq!(check_handshake_reply(&good[..5]), Err(ProbeFailure::ShortReply));
    let mut bad = good;
    bad[7] = 0x34;
    assert_eq!(check_handshake_reply(&bad), Err(ProbeFailure::SignatureMismatch));
}
