use volume_link::codec::VolumeState;
use volume_link::sync::{
    check_written, handshake_command, Collector, CollectorAction, Identity, MixerUpdate,
    SyncError, COLLECTOR_PERIOD_MS, EMITTER_PERIOD_MS,
};

fn status(mute: u8, volume: u8) -> Vec<u8> {
    let mut f = vec![0u8; 16];
    f[0] = mute;
    f[1] = 0x80 | volume;
    f
}

#[test]
fn handshake_writes_mixer_state() {
    let cmd = handshake_command(VolumeState { volume: 42, muted: false });
    assert_eq!(cmd, vec![0x01, 0xAA, 0x80, 0, 0, 0, 0, 0, 0]);
}

#[test]
fn collector_applies_changed_fields() {
    let mut c = Collector::new(10, false);
    let update = c.on_frame(&status(255, 35)).unwrap();
    assert_eq!(update, MixerUpdate { volume: Some(35), muted: Some(true) });
    assert_eq!(c.state(), VolumeState { volume: 35, muted: true });
}

#[test]
fn collector_updates_only_once_for_repeated_frames() {
    let mut c = Collector::new(10, false);
    let first = c.on_frame(&status(128, 20)).unwrap();
    assert_eq!(first, MixerUpdate { volume: Some(20), muted: None });
    for _ in 0..5 {
        let again = c.on_frame(&status(128, 20)).unwrap();
        assert_eq!(again, MixerUpdate { volume: None, muted: None });
    }
}

#[test]
fn collector_short_read_is_error() {
    let mut c = Collector::new(10, true);
    assert_eq!(c.on_frame(&[255, 0x85, 0]), Err(SyncError::ShortRead));
    assert_eq!(c.state(), VolumeState { volume: 10, muted: true });
}

#[test]
fn collector_waits_for_whole_frame() {
    let c = Collector::new(0, false);
    assert_eq!(c.on_available(0), CollectorAction::Wait);
    assert_eq!(c.on_available(15), CollectorAction::Wait);
    assert_eq!(c.on_available(16), CollectorAction::Read(16));
    assert_eq!(c.on_available(40), CollectorAction::Read(16));
}

#[test]
fn identity_payload_prefix_is_poll_trigger() {
    let reply: Vec<u8> = (0u8..16).collect();
    let id = Identity::from_reply(&reply).ok().unwrap();
    assert_eq!(id.poll_trigger(), vec![0, 1, 2, 3, 4, 5, 6, 7]);
}

#[test]
fn identity_short_reply_fails_handshake() {
    assert!(matches!(Identity::from_reply(&[1, 2, 3]), Err(SyncError::HandshakeFailed)));
}

#[test]
fn write_count_checked() {
    assert_eq!(check_written(8, 8), Ok(()));
    assert_eq!(check_written(8, 5), Err(SyncError::ShortWrite));
}

#[test]
fn collector_polls_twice_per_trigger() {
    assert!(COLLECTOR_PERIOD_MS * 2 <= EMITTER_PERIOD_MS);
}
