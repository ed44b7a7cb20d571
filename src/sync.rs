//! State of the synchronisation engine: the startup handshake, the poll
//! trigger repeated by the emitter, and the collector that turns status
//! frames into mixer updates.
//!
//! After startup the emitter only repeats the poll trigger: it never carries
//! the mixer's current state, so a change made to the mixer by other means is
//! not shown on the device.
use vstd::prelude::*;
use crate::codec::{
    command_frame, decode_status, encode_command, status_of, VolumeState, FRAME_LEN,
    SIGNATURE_LEN,
};

verus! {

/// Delay before the emitter's first poll trigger, in milliseconds.
pub const EMITTER_START_DELAY_MS: u64 = 1000;

/// Interval between two poll triggers, in milliseconds.
pub const EMITTER_PERIOD_MS: u64 = 100;

/// Interval between two collector polls: half the emitter's, so that the
/// collector looks at least twice per trigger.
pub const COLLECTOR_PERIOD_MS: u64 = EMITTER_PERIOD_MS / 2;

/// Failures past discovery. Each one ends the session.
#[derive(Clone, Copy, Debug, PartialEq, Eq, Structural)]
pub enum SyncError {
    HandshakeFailed,
    ShortWrite,
    ShortRead,
}

/// Outcome of a write on the link: every byte must have been taken.
pub fn check_written(expected: usize, written: usize) -> (r: Result<(), SyncError>)
    ensures
        written == expected ==> r == Ok::<(), SyncError>(()),
        written != expected ==> r == Err::<(), SyncError>(SyncError::ShortWrite),
{
    if written != expected {
        Err(SyncError::ShortWrite)
    } else {
        Ok(())
    }
}

/// The command frame written at startup, carrying the mixer's state.
pub fn handshake_command(state: VolumeState) -> (r: Vec<u8>)
    ensures
        r@ == command_frame(state.volume, state.muted),
{
    encode_command(state.volume, state.muted)
}

/// The device's reply to the startup command frame.
pub struct Identity {
    payload: Vec<u8>,
}

impl Identity {
    /// The payload is always one whole frame.
    #[verifier::type_invariant]
    spec fn whole_frame(&self) -> bool {
        self.payload@.len() == FRAME_LEN
    }

    /// The sixteen bytes of the reply.
    pub closed spec fn payload(&self) -> Seq<u8> {
        self.payload@
    }

    /// Keeps the startup reply; anything but a full frame fails the handshake.
    pub fn from_reply(reply: &[u8]) -> (r: Result<Identity, SyncError>)
        ensures
            reply@.len() == FRAME_LEN ==> (r matches Ok(id) && id.payload() == reply@),
            reply@.len() != FRAME_LEN ==> r == Err::<Identity, SyncError>(
                SyncError::HandshakeFailed,
            ),
    {
        if reply.len() != FRAME_LEN {
            return Err(SyncError::HandshakeFailed);
        }
        let mut payload: Vec<u8> = Vec::new();
        let mut i: usize = 0;
        while i < reply.len()
            invariant
                i <= reply@.len(),
                payload@ == reply@.subrange(0, i as int),
            decreases reply@.len() - i,
        {
            payload.push(reply[i]);
            i = i + 1;
            assert(payload@ =~= reply@.subrange(0, i as int));
        }
        assert(payload@ =~= reply@);
        Ok(Identity { payload })
    }

    /// The poll trigger: the first eight bytes of the payload.
    pub fn poll_trigger(&self) -> (r: Vec<u8>)
        ensures
            r@ == self.payload().subrange(0, SIGNATURE_LEN as int),
    {
        proof {
            use_type_invariant(self);
        }
        let mut r: Vec<u8> = Vec::new();
        let mut i: usize = 0;
        while i < SIGNATURE_LEN
            invariant
                i <= SIGNATURE_LEN,
                self.payload@.len() == FRAME_LEN,
                r@ == self.payload@.subrange(0, i as int),
            decreases SIGNATURE_LEN - i,
        {
            r.push(self.payload[i]);
            i = i + 1;
            assert(r@ =~= self.payload@.subrange(0, i as int));
        }
        r
    }
}

/// What the collector does after asking how many bytes are ready.
#[derive(Clone, Copy, Debug, PartialEq, Eq, Structural)]
pub enum CollectorAction {
    /// Fewer than a frame is ready: sleep and ask again, consuming nothing.
    Wait,
    /// Read exactly this many bytes.
    Read(usize),
}

/// Calls the collector owes the mixer for one status frame.
#[derive(Clone, Copy, Debug, PartialEq, Eq, Structural)]
pub struct MixerUpdate {
    pub volume: Option<u8>,
    pub muted: Option<bool>,
}

/// The mixer calls that bring `held` to `reported`: one per field that differs.
pub open spec fn mixer_update(held: VolumeState, reported: VolumeState) -> MixerUpdate {
    MixerUpdate {
        volume: if held.volume != reported.volume {
            Some(reported.volume)
        } else {
            None
        },
        muted: if held.muted != reported.muted {
            Some(reported.muted)
        } else {
            None
        },
    }
}

/// An update that makes no mixer call.
pub open spec fn no_update() -> MixerUpdate {
    MixerUpdate { volume: None, muted: None }
}

/// The collector loop's own record of the state last pushed to the mixer.
pub struct Collector {
    held: VolumeState,
}

impl Collector {
    /// The state the collector believes the mixer holds.
    pub closed spec fn held(&self) -> VolumeState {
        self.held
    }

    /// Starts from the mixer's state as read when the loop begins.
    pub fn new(volume: u8, muted: bool) -> (r: Collector)
        ensures
            r.held() == (VolumeState { volume, muted }),
    {
        Collector { held: VolumeState { volume, muted } }
    }

    /// The state the collector believes the mixer holds.
    pub fn state(&self) -> (r: VolumeState)
        ensures
            r == self.held(),
    {
        self.held
    }

    /// Reads a frame once a whole one is ready, otherwise waits.
    pub fn on_available(&self, available: u32) -> (r: CollectorAction)
        ensures
            available < FRAME_LEN ==> r == CollectorAction::Wait,
            available >= FRAME_LEN ==> r == CollectorAction::Read(FRAME_LEN),
    {
        if (available as usize) < FRAME_LEN {
            CollectorAction::Wait
        } else {
            CollectorAction::Read(FRAME_LEN)
        }
    }

    /// Takes the bytes read for a status frame, returns the mixer calls owed
    /// and records the reported state. A read that came back short is an error
    /// and leaves the collector as it was.
    pub fn on_frame(&mut self, frame: &[u8]) -> (r: Result<MixerUpdate, SyncError>)
        ensures
            frame@.len() == FRAME_LEN ==> r == Ok::<MixerUpdate, SyncError>(
                mixer_update(old(self).held(), status_of(frame@)),
            ) && final(self).held() == status_of(frame@),
            frame@.len() != FRAME_LEN ==> r == Err::<MixerUpdate, SyncError>(SyncError::ShortRead)
                && final(self).held() == old(self).held(),
    {
        if frame.len() != FRAME_LEN {
            return Err(SyncError::ShortRead);
        }
        let reported = match decode_status(frame) {
            Ok(s) => s,
            Err(_) => {
                return Err(SyncError::ShortRead);
            },
        };
        let mut update = MixerUpdate { volume: None, muted: None };
        if self.held.volume != reported.volume {
            update.volume = Some(reported.volume);
            self.held.volume = reported.volume;
        }
        if self.held.muted != reported.muted {
            update.muted = Some(reported.muted);
            self.held.muted = reported.muted;
        }
        Ok(update)
    }
}

/// The mixer calls the collector makes for a run of reported states, starting
/// from `held`.
pub open spec fn mixer_updates(held: VolumeState, reports: Seq<VolumeState>) -> Seq<MixerUpdate>
    decreases reports.len(),
{
    if reports.len() == 0 {
        Seq::empty()
    } else {
        seq![mixer_update(held, reports[0])] + mixer_updates(reports[0], reports.drop_first())
    }
}

/// Fed the same reported state again and again, the collector calls the
/// mixer at most for the first report and never afterwards.
pub proof fn lemma_repeated_frames_update_once(held: VolumeState, report: VolumeState, n: nat)
    ensures
        ({
            let updates = mixer_updates(held, Seq::new(n, |i: int| report));
            &&& updates.len() == n
            &&& forall|k: int| 1 <= k < n ==> #[trigger] updates[k] == no_update()
        }),
    decreases n,
{
    let reports = Seq::new(n, |i: int| report);
    if n > 0 {
        lemma_repeated_frames_update_once(report, report, (n - 1) as nat);
        assert(reports.drop_first() =~= Seq::new((n - 1) as nat, |i: int| report));
        let tail = mixer_updates(report, reports.drop_first());
        let updates = mixer_updates(held, reports);
        assert(mixer_update(report, report) == no_update());
        assert forall|k: int| 1 <= k < n implies #[trigger] updates[k] == no_update() by {
            assert(updates[k] == tail[k - 1]);
            if k == 1 {
                assert(tail[0] == seq![mixer_update(report, report)][0]);
            }
        }
    }
}

} // verus!
