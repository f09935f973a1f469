//! The operations a looper accepts from the control side.
use vstd::prelude::*;
use crate::looper::LooperSpeed;

verus! {

/// A control-thread request for one looper. Ops carrying a buffer hand its
/// ownership to the audio thread.
#[derive(Debug)]
#[allow(inconsistent_fields)]
pub enum LooperOp<S> {
    /// Claim a free slot for `uid`, recording from and playing on segment
    /// `seg` (0 = the chain's first input, the default).
    Create { uid: u64, seg: usize },
    /// Free the slot and return every layer it holds.
    Remove { uid: u64 },
    /// The record/overdub footswitch tap. `buffer` must be `Some` when the
    /// tap starts a recording.
    TapRecord { uid: u64, buffer: Option<Vec<S>> },
    /// Install a layer recorded earlier as the base layer, `len_frames` long.
    LoadLayer { uid: u64, buffer: Vec<S>, len_frames: usize },
    Play { uid: u64 },
    Stop { uid: u64 },
    Undo { uid: u64 },
    Redo { uid: u64 },
    Clear { uid: u64 },
    SetMix { uid: u64, value: S },
    SetDecay { uid: u64, value: S },
    SetSpeed { uid: u64, speed: LooperSpeed },
    SetReverse { uid: u64, value: bool },
}

/// The looper an op is addressed to.
pub open spec fn op_uid<S>(op: LooperOp<S>) -> u64 {
    match op {
        LooperOp::Create { uid, .. } => uid,
        LooperOp::Remove { uid } => uid,
        LooperOp::TapRecord { uid, .. } => uid,
        LooperOp::LoadLayer { uid, .. } => uid,
        LooperOp::Play { uid } => uid,
        LooperOp::Stop { uid } => uid,
        LooperOp::Undo { uid } => uid,
        LooperOp::Redo { uid } => uid,
        LooperOp::Clear { uid } => uid,
        LooperOp::SetMix { uid, .. } => uid,
        LooperOp::SetDecay { uid, .. } => uid,
        LooperOp::SetSpeed { uid, .. } => uid,
        LooperOp::SetReverse { uid, .. } => uid,
    }
}

/// The buffer an op carries, if any.
pub open spec fn op_buffer<S>(op: LooperOp<S>) -> Option<Seq<S>> {
    match op {
        LooperOp::TapRecord { buffer, .. } => match buffer {
            Some(b) => Some(b@),
            None => None,
        },
        LooperOp::LoadLayer { buffer, .. } => Some(buffer@),
        _ => None,
    }
}

impl<S> LooperOp<S> {
    pub fn uid(&self) -> (r: u64)
        ensures
            r == op_uid(*self),
    {
        match self {
            LooperOp::Create { uid, .. } => *uid,
            LooperOp::Remove { uid } => *uid,
            LooperOp::TapRecord { uid, .. } => *uid,
            LooperOp::LoadLayer { uid, .. } => *uid,
            LooperOp::Play { uid } => *uid,
            LooperOp::Stop { uid } => *uid,
            LooperOp::Undo { uid } => *uid,
            LooperOp::Redo { uid } => *uid,
            LooperOp::Clear { uid } => *uid,
            LooperOp::SetMix { uid, .. } => *uid,
            LooperOp::SetDecay { uid, .. } => *uid,
            LooperOp::SetSpeed { uid, .. } => *uid,
            LooperOp::SetReverse { uid, .. } => *uid,
        }
    }

    /// Take the buffer out of an op that carries one.
    pub fn take_buffer(self) -> (r: Option<Vec<S>>)
        ensures
            match r {
                Some(b) => op_buffer(self) == Some(b@),
                None => op_buffer(self) is None,
            },
    {
        match self {
            LooperOp::TapRecord { buffer, .. } => buffer,
            LooperOp::LoadLayer { buffer, .. } => Some(buffer),
            _ => None,
        }
    }
}

} // verus!
