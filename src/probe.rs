//! Verdicts of a port probe: the handshake is written, a reply is read, and
//! each step's outcome decides whether the port holds the device.
use vstd::prelude::*;
use crate::codec::{reply_matches, verify_handshake_reply, SIGNATURE_LEN};

verus! {

/// Baud rate of the serial link.
pub const BAUD_RATE: u32 = 115_200;

/// Read and write timeout of a probed port, in milliseconds.
pub const PROBE_TIMEOUT_MS: u64 = 1000;

/// Size of the buffer a handshake reply is read into.
pub const REPLY_BUFFER_LEN: usize = 16;

/// Why a probed port is not the device. The caller treats all three alike.
#[derive(Clone, Copy, Debug, PartialEq, Eq, Structural)]
pub enum ProbeFailure {
    ShortWrite,
    ShortReply,
    SignatureMismatch,
}

/// Outcome of writing the handshake, given how many bytes the port took.
pub fn check_handshake_written(written: usize) -> (r: Result<(), ProbeFailure>)
    ensures
        written >= SIGNATURE_LEN ==> r == Ok::<(), ProbeFailure>(()),
        written < SIGNATURE_LEN ==> r == Err::<(), ProbeFailure>(ProbeFailure::ShortWrite),
{
    if written < SIGNATURE_LEN {
        Err(ProbeFailure::ShortWrite)
    } else {
        Ok(())
    }
}

/// Outcome of reading the handshake reply, given the bytes that arrived.
pub fn check_handshake_reply(reply: &[u8]) -> (r: Result<(), ProbeFailure>)
    ensures
        reply@.len() < SIGNATURE_LEN ==> r == Err::<(), ProbeFailure>(ProbeFailure::ShortReply),
        reply@.len() >= SIGNATURE_LEN && reply_matches(reply@) ==> r == Ok::<(), ProbeFailure>(()),
        reply@.len() >= SIGNATURE_LEN && !reply_matches(reply@) ==> r == Err::<(), ProbeFailure>(
            ProbeFailure::SignatureMismatch,
        ),
{
    if reply.len() < SIGNATURE_LEN {
        Err(ProbeFailure::ShortReply)
    } else if verify_handshake_reply(reply) {
        Ok(())
    } else {
        Err(ProbeFailure::SignatureMismatch)
    }
}

} // verus!
