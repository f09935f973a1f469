//! Publishes a looper's state to whoever is watching, and carries the ops
//! and the spent buffers between the control thread and the audio thread.
use vstd::prelude::*;
use std::sync::atomic::{AtomicU64, AtomicU8, AtomicUsize};
use std::sync::atomic::Ordering;
use crossbeam_queue::ArrayQueue;
use crate::looper::{LooperState, LOOPER_MAX_LAYERS};
use crate::looper_op::LooperOp;
use crate::queue::{queue_new, queue_pop, queue_push};

verus! {

/// How many loopers one chain can hold.
pub const LOOPER_MAX_PER_CHAIN: usize = 4;

/// Depth of the op queue from the control thread to the audio thread.
pub const OP_QUEUE_DEPTH: usize = 64;

/// Depth of the queue that hands spent buffers back to the control thread:
/// every layer of every looper of the chain fits at once.
pub const RETIRE_QUEUE_DEPTH: usize = 32;

/// What the GUI / MCP / gRPC read about one looper.
#[derive(Debug, Clone, Copy, PartialEq, Eq, Structural)]
pub struct LooperStatus {
    pub uid: u64,
    pub state: LooperState,
    pub position_frames: usize,
    pub len_frames: usize,
    pub layers: usize,
    /// Moves whenever the exported mixdown would change.
    pub content_rev: u64,
}

/// The one-byte code a state is published as.
pub open spec fn state_code_spec(state: LooperState) -> u8 {
    match state {
        LooperState::Empty => 0,
        LooperState::Recording => 1,
        LooperState::Playing => 2,
        LooperState::Overdubbing => 3,
        LooperState::Stopped => 4,
    }
}

pub fn state_code(state: LooperState) -> (r: u8)
    ensures
        r == state_code_spec(state),
{
    match state {
        LooperState::Empty => 0,
        LooperState::Recording => 1,
        LooperState::Playing => 2,
        LooperState::Overdubbing => 3,
        LooperState::Stopped => 4,
    }
}

/// The state a published code stands for; an unknown code reads as `Empty`.
pub fn state_from_code(code: u8) -> (r: LooperState)
    ensures
        code <= 4 ==> state_code_spec(r) == code,
        code > 4 ==> r == LooperState::Empty,
{
    match code {
        1 => LooperState::Recording,
        2 => LooperState::Playing,
        3 => LooperState::Overdubbing,
        4 => LooperState::Stopped,
        _ => LooperState::Empty,
    }
}

/// Publishing a state and reading it back gives the same state: the code is
/// a faithful encoding.
pub proof fn law_state_code_round_trip(state: LooperState)
    ensures
        state_code_spec(state) <= 4,
        forall|s: LooperState| state_code_spec(s) == state_code_spec(state) ==> s == state,
{
}

/// Lock-free mirror of one slot, written by the audio thread once per
/// callback and read by any thread without locking.
pub struct StatusCell {
    pub uid: AtomicU64,
    pub state: AtomicU8,
    pub position: AtomicUsize,
    pub len: AtomicUsize,
    pub layers: AtomicUsize,
    pub content_rev: AtomicU64,
}

impl StatusCell {
    pub fn new() -> Self {
        StatusCell {
            uid: AtomicU64::new(0),
            state: AtomicU8::new(0),
            position: AtomicUsize::new(0),
            len: AtomicUsize::new(0),
            layers: AtomicUsize::new(0),
            content_rev: AtomicU64::new(0),
        }
    }

    /// Read the cell as a status for `uid`.
    fn read(&self, uid: u64) -> (r: LooperStatus)
        ensures
            r.uid == uid,
    {
        LooperStatus {
            uid,
            state: state_from_code(self.state.load(Ordering::Relaxed)),
            position_frames: self.position.load(Ordering::Relaxed),
            len_frames: self.len.load(Ordering::Relaxed),
            layers: self.layers.load(Ordering::Relaxed),
            content_rev: self.content_rev.load(Ordering::Relaxed),
        }
    }

    /// Publish `status` into the cell.
    pub fn store(&self, status: LooperStatus) {
        self.uid.store(status.uid, Ordering::Relaxed);
        self.state.store(state_code(status.state), Ordering::Relaxed);
        self.position.store(status.position_frames, Ordering::Relaxed);
        self.len.store(status.len_frames, Ordering::Relaxed);
        self.layers.store(status.layers, Ordering::Relaxed);
        self.content_rev.store(status.content_rev, Ordering::Relaxed);
    }
}

/// The control <-> audio channel for one chain's loopers.
#[verifier::reject_recursive_types(S)]
pub struct LooperShared<S> {
    pub(crate) ops: ArrayQueue<LooperOp<S>>,
    pub(crate) retired: ArrayQueue<Vec<S>>,
    pub(crate) status: Vec<StatusCell>,
    /// Longest loop, in frames, at the runtime's live sample rate. The
    /// control thread reads it to size the buffers it allocates.
    pub(crate) max_frames: usize,
}

impl<S> LooperShared<S> {
    pub closed spec fn cell_count(&self) -> nat {
        self.status@.len()
    }

    pub closed spec fn max_frames_spec(&self) -> nat {
        self.max_frames as nat
    }

    /// One status cell per looper the chain can hold.
    pub fn new(max_frames: usize) -> (r: Self)
        ensures
            r.cell_count() == LOOPER_MAX_PER_CHAIN,
            r.max_frames_spec() == max_frames,
    {
        let mut status: Vec<StatusCell> = Vec::new();
        let mut i: usize = 0;
        while i < LOOPER_MAX_PER_CHAIN
            invariant
                i <= LOOPER_MAX_PER_CHAIN,
                status@.len() == i,
            decreases LOOPER_MAX_PER_CHAIN - i,
        {
            status.push(StatusCell::new());
            i = i + 1;
        }
        LooperShared {
            ops: queue_new(OP_QUEUE_DEPTH),
            retired: queue_new(RETIRE_QUEUE_DEPTH),
            status,
            max_frames,
        }
    }

    pub fn max_frames(&self) -> (r: usize)
        ensures
            r == self.max_frames_spec(),
    {
        self.max_frames
    }

    /// Queue an op for the audio thread. `Err` hands the op back when the
    /// queue is full (the audio thread is not draining).
    pub fn push(&self, op: LooperOp<S>) -> (r: Result<(), LooperOp<S>>)
        ensures
            r matches Err(back) ==> back == op,
    {
        queue_push(&self.ops, op)
    }

    /// Park a spent buffer for the control thread to drop. When the return
    /// queue is full (only if the control thread stopped draining) the
    /// buffer is dropped here instead.
    pub fn give_back(&self, buffer: Vec<S>) {
        let _ = queue_push(&self.retired, buffer);
    }

    /// Collect the layer buffers the audio thread is done with, so they are
    /// dropped off the audio thread. Takes at most what the queue can hold
    /// at once.
    pub fn drain_retired(&self) -> (r: Vec<Vec<S>>)
        ensures
            r@.len() <= RETIRE_QUEUE_DEPTH,
    {
        let mut out: Vec<Vec<S>> = Vec::new();
        let mut i: usize = 0;
        while i < RETIRE_QUEUE_DEPTH
            invariant
                i <= RETIRE_QUEUE_DEPTH,
                out@.len() <= i,
            decreases RETIRE_QUEUE_DEPTH - i,
        {
            match queue_pop(&self.retired) {
                Some(buf) => out.push(buf),
                None => break,
            }
            i = i + 1;
        }
        out
    }

    /// The published status of looper `uid`. Uid 0 marks a free slot, so it
    /// never names a looper.
    pub fn status(&self, uid: u64) -> (r: Option<LooperStatus>)
        ensures
            uid == 0 ==> r is None,
            r matches Some(st) ==> st.uid == uid,
    {
        if uid == 0 {
            return None;
        }
        let mut i: usize = 0;
        while i < self.status.len()
            invariant
                i <= self.status@.len(),
                uid != 0,
            decreases self.status@.len() - i,
        {
            let cell = &self.status[i];
            if cell.uid.load(Ordering::Relaxed) == uid {
                return Some(cell.read(uid));
            }
            i = i + 1;
        }
        None
    }

    /// Every live looper of this chain, in slot order.
    pub fn statuses(&self) -> (r: Vec<LooperStatus>)
        ensures
            r@.len() <= self.cell_count(),
            forall|k: int| 0 <= k < r@.len() ==> r@[k].uid != 0,
    {
        let mut out: Vec<LooperStatus> = Vec::new();
        let mut i: usize = 0;
        while i < self.status.len()
            invariant
                i <= self.status@.len(),
                out@.len() <= i,
                forall|k: int| 0 <= k < out@.len() ==> out@[k].uid != 0,
            decreases self.status@.len() - i,
        {
            let cell = &self.status[i];
            let uid = cell.uid.load(Ordering::Relaxed);
            if uid != 0 {
                out.push(cell.read(uid));
            }
            i = i + 1;
        }
        out
    }

    /// Copy the published status of a superseded runtime (chain rebuild),
    /// so the UI does not blink through "no loopers" mid-swap.
    pub fn adopt_status_from(&self, other: &Self) {
        let mut i: usize = 0;
        while i < self.status.len() && i < other.status.len()
            invariant
                i <= self.status@.len(),
            decreases self.status@.len() - i,
        {
            let src = &other.status[i];
            let dst = &self.status[i];
            dst.uid.store(src.uid.load(Ordering::Relaxed), Ordering::Relaxed);
            dst.state.store(src.state.load(Ordering::Relaxed), Ordering::Relaxed);
            dst.position.store(src.position.load(Ordering::Relaxed), Ordering::Relaxed);
            dst.len.store(src.len.load(Ordering::Relaxed), Ordering::Relaxed);
            dst.layers.store(src.layers.load(Ordering::Relaxed), Ordering::Relaxed);
            dst.content_rev.store(src.content_rev.load(Ordering::Relaxed), Ordering::Relaxed);
            i = i + 1;
        }
    }
}

} // verus!
