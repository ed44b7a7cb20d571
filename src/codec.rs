//! Encoding and decoding of the frames exchanged with the device.
use vstd::prelude::*;

verus! {

/// Number of bytes in the handshake signature.
pub const SIGNATURE_LEN: usize = 8;

/// Number of bytes in a status frame and in the identity payload.
pub const FRAME_LEN: usize = 16;

/// Number of bytes in a command frame.
pub const COMMAND_LEN: usize = 9;

/// Opcode carried by byte 0 of a command frame.
pub const COMMAND_OPCODE: u8 = 0x01;

/// Mute byte meaning "muted".
pub const MUTED_BYTE: u8 = 255;

/// Mute byte meaning "unmuted".
pub const UNMUTED_BYTE: u8 = 128;

/// Bit 7 of a volume byte: marks a report and is not part of the volume.
pub const REPORT_MARKER: u8 = 0x80;

/// Mask selecting the volume bits of a volume byte.
pub const VOLUME_MASK: u8 = 0x7f;

/// The handshake signature the device answers to.
pub open spec fn signature() -> Seq<u8> {
    seq![0x03u8, 0x55u8, 0x72u8, 0xf5u8, 0x1eu8, 0xd8u8, 0x06u8, 0x33u8]
}

/// Volume and mute state, as reported by the device or held for the mixer.
#[derive(Clone, Copy, Debug, PartialEq, Eq, Structural)]
pub struct VolumeState {
    pub volume: u8,
    pub muted: bool,
}

/// A status frame too short to carry a volume and a mute byte.
#[derive(Clone, Copy, Debug, PartialEq, Eq, Structural)]
pub enum FrameError {
    MalformedFrame,
}

/// The mute byte that encodes `muted`.
pub open spec fn mute_byte(muted: bool) -> u8 {
    if muted {
        MUTED_BYTE
    } else {
        UNMUTED_BYTE
    }
}

/// The command frame announcing `volume` and `muted` to the device.
pub open spec fn command_frame(volume: u8, muted: bool) -> Seq<u8> {
    seq![COMMAND_OPCODE, volume | REPORT_MARKER, mute_byte(muted), 0u8, 0u8, 0u8, 0u8, 0u8, 0u8]
}

/// The state a status frame reports: volume from the low seven bits of
/// byte 1, muted only when byte 0 is the muted sentinel.
pub open spec fn status_of(frame: Seq<u8>) -> VolumeState
    recommends
        frame.len() >= 2,
{
    VolumeState { volume: frame[1] & VOLUME_MASK, muted: frame[0] == MUTED_BYTE }
}

/// A handshake reply identifies the device when it holds at least the
/// signature's length and agrees with it on bytes 1 to 7 (byte 0 carries
/// device data).
pub open spec fn reply_matches(reply: Seq<u8>) -> bool {
    &&& reply.len() >= SIGNATURE_LEN
    &&& forall|i: int| 1 <= i < SIGNATURE_LEN ==> reply[i] == signature()[i]
}

/// The handshake frame sent to every candidate port.
pub fn encode_handshake() -> (r: Vec<u8>)
    ensures
        r@ == signature(),
{
    let r: Vec<u8> = vec![0x03, 0x55, 0x72, 0xf5, 0x1e, 0xd8, 0x06, 0x33];
    assert(r@ =~= signature());
    r
}

/// The command frame carrying the mixer's state to the device.
pub fn encode_command(volume: u8, muted: bool) -> (r: Vec<u8>)
    ensures
        r@ == command_frame(volume, muted),
{
    let mute: u8 = if muted {
        MUTED_BYTE
    } else {
        UNMUTED_BYTE
    };
    let r: Vec<u8> = vec![COMMAND_OPCODE, volume | REPORT_MARKER, mute, 0, 0, 0, 0, 0, 0];
    assert(r@ =~= command_frame(volume, muted));
    r
}

/// Reads volume and mute from a status frame.
pub fn decode_status(frame: &[u8]) -> (r: Result<VolumeState, FrameError>)
    ensures
        frame@.len() >= 2 ==> r == Ok::<VolumeState, FrameError>(status_of(frame@)),
        frame@.len() < 2 ==> r == Err::<VolumeState, FrameError>(FrameError::MalformedFrame),
{
    if frame.len() < 2 {
        return Err(FrameError::MalformedFrame);
    }
    Ok(VolumeState { volume: frame[1] & VOLUME_MASK, muted: frame[0] == MUTED_BYTE })
}

/// Whether a handshake reply comes from the expected device.
pub fn verify_handshake_reply(frame: &[u8]) -> (r: bool)
    ensures
        r == reply_matches(frame@),
{
    if frame.len() < SIGNATURE_LEN {
        return false;
    }
    let expected = encode_handshake();
    let mut i: usize = 1;
    while i < SIGNATURE_LEN
        invariant
            1 <= i <= SIGNATURE_LEN,
            frame@.len() >= SIGNATURE_LEN,
            expected@ == signature(),
            forall|j: int| 1 <= j < i ==> frame@[j] == signature()[j],
        decreases SIGNATURE_LEN - i,
    {
        if frame[i] != expected[i] {
            return false;
        }
        i = i + 1;
    }
    true
}

/// A reply of at least eight bytes that carries the signature in bytes 1
/// to 7 is accepted.
pub proof fn lemma_signed_reply_accepted(reply: Seq<u8>)
    requires
        reply.len() >= SIGNATURE_LEN,
        reply.subrange(1, SIGNATURE_LEN as int) == signature().subrange(1, SIGNATURE_LEN as int),
    ensures
        reply_matches(reply),
{
    assert forall|i: int| 1 <= i < SIGNATURE_LEN implies reply[i] == signature()[i] by {
        assert(reply.subrange(1, SIGNATURE_LEN as int)[i - 1] == reply[i]);
        assert(signature().subrange(1, SIGNATURE_LEN as int)[i - 1] == signature()[i]);
    }
}

/// A reply shorter than eight bytes is rejected.
pub proof fn lemma_short_reply_rejected(reply: Seq<u8>)
    requires
        reply.len() < SIGNATURE_LEN,
    ensures
        !reply_matches(reply),
{
}

/// Changing any one of bytes 1 to 7 of an accepted reply makes it rejected.
pub proof fn lemma_mutated_reply_rejected(reply: Seq<u8>, i: int, b: u8)
    requires
        reply_matches(reply),
        1 <= i < SIGNATURE_LEN,
        b != reply[i],
    ensures
        !reply_matches(reply.update(i, b)),
{
    assert(reply.update(i, b)[i] != signature()[i]);
}

/// Decoding a status frame built from a mute sentinel and a marked volume of
/// at most 100 gives back that volume and mute state.
pub proof fn lemma_decode_status_inverts_frame(volume: u8, mute: u8, rest: Seq<u8>)
    requires
        volume <= 100,
        mute == MUTED_BYTE || mute == UNMUTED_BYTE,
        rest.len() == FRAME_LEN - 2,
    ensures
        ({
            let frame = seq![mute, volume | REPORT_MARKER] + rest;
            &&& frame.len() == FRAME_LEN
            &&& status_of(frame) == VolumeState { volume, muted: mute == MUTED_BYTE }
        }),
{
    let frame = seq![mute, volume | REPORT_MARKER] + rest;
    assert(frame[0] == mute);
    assert(frame[1] == volume | REPORT_MARKER);
    assert((volume | 0x80u8) & 0x7fu8 == volume) by (bit_vector)
        requires
            volume <= 100u8,
    ;
}

/// A command frame has nine bytes: the opcode, the volume with bit 7 set,
/// the mute sentinel, then six zero bytes.
pub proof fn lemma_command_frame_layout(volume: u8, muted: bool)
    ensures
        command_frame(volume, muted).len() == COMMAND_LEN,
        command_frame(volume, muted)[0] == 0x01,
        command_frame(volume, muted)[1] == volume | 0x80,
        command_frame(volume, muted)[2] == (if muted { 255u8 } else { 128u8 }),
        forall|i: int| 3 <= i < COMMAND_LEN ==> command_frame(volume, muted)[i] == 0,
{
}

} // verus!
