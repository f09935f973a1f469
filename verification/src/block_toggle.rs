//! Turning a block on or off without rebuilding its chain.
//!
//! The control thread queues `(block, enabled)`; the audio thread drains the
//! queue inside its own callback and flips each matching node in place,
//! starting a fade so the change never clicks. A block whose node has no
//! live processor (built while disabled, or faulted) cannot be faded back
//! in: re-enabling it needs a full rebuild, and the control thread is told
//! so up front.
use vstd::prelude::*;
use crossbeam_queue::ArrayQueue;
use crate::queue::{queue_new, queue_pop, queue_push};

verus! {

/// How many toggles may wait for the audio thread.
pub const TOGGLE_QUEUE_DEPTH: usize = 64;

/// Length of the crossfade that starts when a block is turned on or off,
/// in frames.
pub const FADE_IN_FRAMES: usize = 256;

/// Where a block node is in its on/off crossfade.
#[derive(Clone, Copy, Debug, PartialEq, Eq, Structural)]
pub enum FadeState {
    Active,
    Bypassed,
    FadingIn { frames_remaining: usize },
    FadingOut { frames_remaining: usize },
}

/// The fade state after `frames` more frames went through the block: a
/// fade that runs out lands on `Active` (in) or `Bypassed` (out).
pub open spec fn fade_after(s: FadeState, frames: int) -> FadeState {
    match s {
        FadeState::FadingIn { frames_remaining } => if frames_remaining <= frames {
            FadeState::Active
        } else {
            FadeState::FadingIn { frames_remaining: (frames_remaining - frames) as usize }
        },
        FadeState::FadingOut { frames_remaining } => if frames_remaining <= frames {
            FadeState::Bypassed
        } else {
            FadeState::FadingOut { frames_remaining: (frames_remaining - frames) as usize }
        },
        other => other,
    }
}

/// Advance a fade by the `frames` frames of one processed buffer.
pub fn advance_fade(s: FadeState, frames: usize) -> (r: FadeState)
    ensures
        r == fade_after(s, frames as int),
{
    match s {
        FadeState::FadingIn { frames_remaining } => if frames_remaining <= frames {
            FadeState::Active
        } else {
            FadeState::FadingIn { frames_remaining: frames_remaining - frames }
        },
        FadeState::FadingOut { frames_remaining } => if frames_remaining <= frames {
            FadeState::Bypassed
        } else {
            FadeState::FadingOut { frames_remaining: frames_remaining - frames }
        },
        other => other,
    }
}

/// What the toggle path reads and writes of a block node.
pub struct ToggleNode {
    pub block_id: String,
    pub enabled: bool,
    /// Whether the node holds a live processor (not a bypass stand-in).
    pub live: bool,
    pub fade_state: FadeState,
}

/// A toggle the audio thread could not apply.
pub enum ToggleError {
    /// The node has no live processor to fade in: rebuild the chain.
    NeedsRebuild { block_id: String },
    /// No node of the chain has this block id.
    NotFound { block_id: String },
}

/// Why the control thread refused to queue a toggle.
#[derive(Clone, Copy, Debug, PartialEq, Eq, Structural)]
pub enum ToggleRefusal {
    /// Re-enabling a block with no live processor needs a full rebuild.
    NoLiveProcessor,
    /// The audio thread is not draining the queue.
    QueueFull,
}

/// Whether the toggle `(id, enabled)` is refused at node `n`.
pub open spec fn refuses(n: ToggleNode, id: Seq<char>, enabled: bool) -> bool {
    n.block_id@ == id && enabled && !n.live
}

/// Whether the toggle `(id, enabled)` applies to node `n`.
pub open spec fn touches(n: ToggleNode, id: Seq<char>, enabled: bool) -> bool {
    n.block_id@ == id && !(enabled && !n.live)
}

/// Node `n` after the toggle `(id, enabled)`: a node it applies to takes
/// the new flag, and starts fading in (or out) when the flag changes.
pub open spec fn toggled(n: ToggleNode, id: Seq<char>, enabled: bool) -> ToggleNode {
    if touches(n, id, enabled) {
        ToggleNode {
            block_id: n.block_id,
            enabled: enabled,
            live: n.live,
            fade_state: if n.enabled != enabled {
                if enabled {
                    FadeState::FadingIn { frames_remaining: FADE_IN_FRAMES }
                } else {
                    FadeState::FadingOut { frames_remaining: FADE_IN_FRAMES }
                }
            } else {
                n.fade_state
            },
        }
    } else {
        n
    }
}

/// Every node of every input runtime after the toggle.
pub open spec fn toggled_all(states: Seq<Seq<ToggleNode>>, id: Seq<char>, enabled: bool) -> Seq<
    Seq<ToggleNode>,
> {
    states.map_values(|nodes: Seq<ToggleNode>| nodes.map_values(|n: ToggleNode| toggled(n, id, enabled)))
}

pub open spec fn refusals_in(nodes: Seq<ToggleNode>, id: Seq<char>, enabled: bool) -> nat
    decreases nodes.len(),
{
    if nodes.len() == 0 {
        0
    } else {
        refusals_in(nodes.drop_last(), id, enabled) + if refuses(nodes.last(), id, enabled) {
            1nat
        } else {
            0nat
        }
    }
}

pub open spec fn touched_in(nodes: Seq<ToggleNode>, id: Seq<char>, enabled: bool) -> nat
    decreases nodes.len(),
{
    if nodes.len() == 0 {
        0
    } else {
        touched_in(nodes.drop_last(), id, enabled) + if touches(nodes.last(), id, enabled) {
            1nat
        } else {
            0nat
        }
    }
}

/// How many nodes, over every input runtime, refuse the toggle.
pub open spec fn refusals_all(states: Seq<Seq<ToggleNode>>, id: Seq<char>, enabled: bool) -> nat
    decreases states.len(),
{
    if states.len() == 0 {
        0
    } else {
        refusals_all(states.drop_last(), id, enabled) + refusals_in(states.last(), id, enabled)
    }
}

/// How many nodes, over every input runtime, take the toggle.
pub open spec fn touched_all(states: Seq<Seq<ToggleNode>>, id: Seq<char>, enabled: bool) -> nat
    decreases states.len(),
{
    if states.len() == 0 {
        0
    } else {
        touched_all(states.drop_last(), id, enabled) + touched_in(states.last(), id, enabled)
    }
}

/// The nodes of every input runtime as values.
pub open spec fn nested_view(states: Seq<Vec<ToggleNode>>) -> Seq<Seq<ToggleNode>> {
    states.map_values(|v: Vec<ToggleNode>| v@)
}

/// Whether `errors` is what the toggle `(id, enabled)` reports: one
/// "needs rebuild" per refusing node, then "not found" when no node took it.
pub open spec fn toggle_errors_spec(errors: Seq<ToggleError>, refused: nat, touched: nat, id: Seq<char>) -> bool {
    &&& errors.len() == refused + if touched == 0 { 1nat } else { 0nat }
    &&& forall|k: int| 0 <= k < refused ==> (#[trigger] errors[k] matches ToggleError::NeedsRebuild {
        block_id,
    } && block_id@ == id)
    &&& touched == 0 ==> (errors[refused as int] matches ToggleError::NotFound { block_id }
        && block_id@ == id)
}

fn toggle_node(node: &mut ToggleNode, id: &String, enabled: bool) -> (r: (bool, bool))
    ensures
        *final(node) == toggled(*old(node), id@, enabled),
        r.0 == refuses(*old(node), id@, enabled),
        r.1 == touches(*old(node), id@, enabled),
{
    if node.block_id != *id {
        return (false, false);
    }
    if enabled && !node.live {
        return (true, false);
    }
    if node.enabled != enabled {
        node.fade_state = if enabled {
            FadeState::FadingIn { frames_remaining: FADE_IN_FRAMES }
        } else {
            FadeState::FadingOut { frames_remaining: FADE_IN_FRAMES }
        };
    }
    node.enabled = enabled;
    (false, true)
}

fn toggle_nodes(nodes: &mut Vec<ToggleNode>, id: &String, enabled: bool, errors: &mut Vec<ToggleError>) -> (touched: usize)
    ensures
        final(nodes)@ == old(nodes)@.map_values(|n: ToggleNode| toggled(n, id@, enabled)),
        touched as nat == touched_in(old(nodes)@, id@, enabled),
        final(errors)@.len() == old(errors)@.len() + refusals_in(old(nodes)@, id@, enabled),
        forall|k: int| 0 <= k < old(errors)@.len() ==> final(errors)@[k] == old(errors)@[k],
        forall|k: int|
            old(errors)@.len() <= k < final(errors)@.len() ==> (#[trigger] final(errors)@[k] matches ToggleError::NeedsRebuild {
                block_id,
            } && block_id@ == id@),
{
    let ghost start = nodes@;
    let ghost e0 = errors@;
    let mut touched: usize = 0;
    let mut j: usize = 0;
    while j < nodes.len()
        invariant
            j <= nodes@.len(),
            nodes@.len() == start.len(),
            forall|k: int| 0 <= k < j ==> nodes@[k] == toggled(start[k], id@, enabled),
            forall|k: int| j <= k < nodes@.len() ==> nodes@[k] == start[k],
            touched as nat == touched_in(start.take(j as int), id@, enabled),
            touched <= j,
            errors@.len() == e0.len() + refusals_in(start.take(j as int), id@, enabled),
            forall|k: int| 0 <= k < e0.len() ==> errors@[k] == e0[k],
            forall|k: int|
                e0.len() <= k < errors@.len() ==> (#[trigger] errors@[k] matches ToggleError::NeedsRebuild {
                    block_id,
                } && block_id@ == id@),
        decreases nodes@.len() - j,
    {
        proof {
            assert(start.take(j + 1).drop_last() =~= start.take(j as int));
            assert(start.take(j + 1).last() == start[j as int]);
        }
        let (refused, took) = toggle_node(&mut nodes[j], id, enabled);
        if refused {
            errors.push(ToggleError::NeedsRebuild { block_id: id.clone() });
        }
        if took {
            touched = touched + 1;
        }
        j = j + 1;
    }
    proof {
        assert(start.take(start.len() as int) =~= start);
        assert(nodes@ =~= start.map_values(|n: ToggleNode| toggled(n, id@, enabled)));
    }
    touched
}

/// Apply the toggle `(block_id, enabled)` to every matching node of every
/// input runtime of a chain, in place. A matching node takes the new flag
/// and starts a fade when the flag changes; re-enabling a node with no live
/// processor is refused with `NeedsRebuild`. When no node took the toggle
/// the last error is `NotFound`.
pub fn apply_block_toggle(states: &mut Vec<Vec<ToggleNode>>, block_id: &String, enabled: bool) -> (errors: Vec<ToggleError>)
    ensures
        nested_view(final(states)@) == toggled_all(nested_view(old(states)@), block_id@, enabled),
        toggle_errors_spec(
            errors@,
            refusals_all(nested_view(old(states)@), block_id@, enabled),
            touched_all(nested_view(old(states)@), block_id@, enabled),
            block_id@,
        ),
{
    let ghost start = nested_view(states@);
    let mut errors: Vec<ToggleError> = Vec::new();
    let mut any = false;
    let mut i: usize = 0;
    while i < states.len()
        invariant
            i <= states@.len(),
            states@.len() == start.len(),
            forall|k: int|
                0 <= k < i ==> states@[k]@ == start[k].map_values(|n: ToggleNode| toggled(n, block_id@, enabled)),
            forall|k: int| i <= k < states@.len() ==> states@[k]@ == start[k],
            any == (touched_all(start.take(i as int), block_id@, enabled) > 0),
            errors@.len() == refusals_all(start.take(i as int), block_id@, enabled),
            forall|k: int|
                0 <= k < errors@.len() ==> (#[trigger] errors@[k] matches ToggleError::NeedsRebuild {
                    block_id: b,
                } && b@ == block_id@),
        decreases states@.len() - i,
    {
        proof {
            assert(start.take(i + 1).drop_last() =~= start.take(i as int));
            assert(start.take(i + 1).last() == start[i as int]);
        }
        let t = toggle_nodes(&mut states[i], block_id, enabled, &mut errors);
        any = any || t > 0;
        i = i + 1;
    }
    if !any {
        errors.push(ToggleError::NotFound { block_id: block_id.clone() });
    }
    proof {
        assert(start.take(start.len() as int) =~= start);
        assert(nested_view(states@) =~= toggled_all(start, block_id@, enabled));
    }
    errors
}

/// The chain's nodes after the toggles `ts`, applied in order.
pub open spec fn apply_toggles(states: Seq<Seq<ToggleNode>>, ts: Seq<(Seq<char>, bool)>) -> Seq<
    Seq<ToggleNode>,
>
    decreases ts.len(),
{
    if ts.len() == 0 {
        states
    } else {
        toggled_all(apply_toggles(states, ts.drop_last()), ts.last().0, ts.last().1)
    }
}

/// How many errors applying toggle `(id, enabled)` to `states` reports: one
/// per refused node, and one more when no node took it.
pub open spec fn toggle_error_count(states: Seq<Seq<ToggleNode>>, id: Seq<char>, enabled: bool) -> nat {
    refusals_all(states, id, enabled) + if touched_all(states, id, enabled) == 0 {
        1nat
    } else {
        0nat
    }
}

/// Whether `errors` is what applying the toggles `ts` to `states`, in
/// order, reports: each toggle's errors, one after the other.
pub open spec fn drained_errors(errors: Seq<ToggleError>, states: Seq<Seq<ToggleNode>>, ts: Seq<(Seq<char>, bool)>) -> bool
    decreases ts.len(),
{
    if ts.len() == 0 {
        errors.len() == 0
    } else {
        let prev = apply_toggles(states, ts.drop_last());
        let (id, enabled) = ts.last();
        let n = toggle_error_count(prev, id, enabled);
        &&& n <= errors.len()
        &&& toggle_errors_spec(
            errors.subrange(errors.len() - n, errors.len() as int),
            refusals_all(prev, id, enabled),
            touched_all(prev, id, enabled),
            id,
        )
        &&& drained_errors(errors.subrange(0, errors.len() - n), states, ts.drop_last())
    }
}

/// The control thread's side of block toggling for one chain runtime.
pub struct BlockToggles {
    pending: ArrayQueue<(String, bool)>,
    bypass_block_ids: Vec<String>,
}

impl BlockToggles {
    /// The blocks whose node has no live processor.
    pub closed spec fn bypass_ids(&self) -> Seq<Seq<char>> {
        self.bypass_block_ids@.map_values(|s: String| s@)
    }

    /// An empty toggle queue for a runtime whose nodes for
    /// `bypass_block_ids` have no live processor.
    pub fn new(bypass_block_ids: Vec<String>) -> (r: Self)
        ensures
            r.bypass_ids() == bypass_block_ids@.map_values(|s: String| s@),
    {
        BlockToggles { pending: queue_new(TOGGLE_QUEUE_DEPTH), bypass_block_ids }
    }

    fn is_bypassed(&self, block_id: &String) -> (r: bool)
        ensures
            r == self.bypass_ids().contains(block_id@),
    {
        let mut i: usize = 0;
        while i < self.bypass_block_ids.len()
            invariant
                i <= self.bypass_block_ids@.len(),
                forall|k: int| 0 <= k < i ==> self.bypass_ids()[k] != block_id@,
            decreases self.bypass_block_ids@.len() - i,
        {
            if self.bypass_block_ids[i] == *block_id {
                assert(self.bypass_ids()[i as int] == block_id@);
                return true;
            }
            i = i + 1;
        }
        false
    }

    /// Queue turning `block_id` on or off for the audio thread. Re-enabling
    /// a block with no live processor is refused at once (it needs a full
    /// rebuild); otherwise the toggle is queued, or refused with
    /// `QueueFull` when the audio thread is not draining.
    pub fn set_block_enabled(&self, block_id: &String, enabled: bool) -> (r: Result<(), ToggleRefusal>)
        ensures
            (r == Err::<(), ToggleRefusal>(ToggleRefusal::NoLiveProcessor)) <==> (enabled
                && self.bypass_ids().contains(block_id@)),
    {
        if enabled && self.is_bypassed(block_id) {
            return Err(ToggleRefusal::NoLiveProcessor);
        }
        match queue_push(&self.pending, (block_id.clone(), enabled)) {
            Ok(()) => Ok(()),
            Err(_) => Err(ToggleRefusal::QueueFull),
        }
    }

    /// Apply the queued toggles to the chain's nodes, oldest first, at most
    /// a queue's worth per call. Returns how many were applied and what
    /// they reported. Whatever was queued, the nodes end as the applied
    /// toggles, in order, leave them.
    pub fn drain_pending_block_toggles(&self, states: &mut Vec<Vec<ToggleNode>>) -> (r: (usize, Vec<ToggleError>))
        ensures
            r.0 <= TOGGLE_QUEUE_DEPTH,
            exists|ts: Seq<(Seq<char>, bool)>|
                ts.len() == r.0 && nested_view(final(states)@) == apply_toggles(
                    nested_view(old(states)@),
                    ts,
                ) && drained_errors(r.1@, nested_view(old(states)@), ts),
    {
        let ghost start = nested_view(states@);
        let ghost mut ts: Seq<(Seq<char>, bool)> = Seq::empty();
        let mut errors: Vec<ToggleError> = Vec::new();
        let mut applied: usize = 0;
        while applied < TOGGLE_QUEUE_DEPTH
            invariant
                applied <= TOGGLE_QUEUE_DEPTH,
                ts.len() == applied,
                nested_view(states@) == apply_toggles(start, ts),
                drained_errors(errors@, start, ts),
            decreases TOGGLE_QUEUE_DEPTH - applied,
        {
            match queue_pop(&self.pending) {
                None => {
                    break;
                },
                Some((id, enabled)) => {
                    let ghost prev = nested_view(states@);
                    let ghost before = errors@;
                    let mut errs = apply_block_toggle(states, &id, enabled);
                    let ghost mine = errs@;
                    errors.append(&mut errs);
                    proof {
                        let ts2 = ts.push((id@, enabled));
                        assert(ts2.drop_last() =~= ts);
                        let n = toggle_error_count(prev, id@, enabled);
                        assert(mine.len() == n);
                        assert(errors@.subrange(errors@.len() - n, errors@.len() as int) =~= mine);
                        assert(errors@.subrange(0, errors@.len() - n) =~= before);
                        ts = ts2;
                    }
                    applied = applied + 1;
                },
            }
        }
        (applied, errors)
    }
}

/// Applying the same toggle twice leaves a node as applying it once: a
/// repeated on (or off) request neither restarts nor reverses a fade.
pub proof fn law_toggle_idempotent(n: ToggleNode, id: Seq<char>, enabled: bool)
    ensures
        toggled(toggled(n, id, enabled), id, enabled) == toggled(n, id, enabled),
{
}

/// A toggle leaves every node of another block exactly as it was.
pub proof fn law_toggle_is_local(n: ToggleNode, id: Seq<char>, enabled: bool)
    requires
        n.block_id@ != id,
    ensures
        toggled(n, id, enabled) == n,
{
}

/// Turning a block off and back on (or on and back off) with the node
/// live ends with its flag as it started, fading towards it.
pub proof fn law_toggle_round_trip(n: ToggleNode, id: Seq<char>)
    requires
        n.block_id@ == id,
        n.live,
    ensures
        toggled(toggled(n, id, !n.enabled), id, n.enabled).enabled == n.enabled,
        toggled(toggled(n, id, !n.enabled), id, n.enabled).fade_state == (if n.enabled {
            FadeState::FadingIn { frames_remaining: FADE_IN_FRAMES }
        } else {
            FadeState::FadingOut { frames_remaining: FADE_IN_FRAMES }
        }),
{
}

/// Processing two buffers in a row advances a fade as one buffer of their
/// combined length does.
pub proof fn law_fade_additive(s: FadeState, a: int, b: int)
    requires
        0 <= a,
        0 <= b,
    ensures
        fade_after(fade_after(s, a), b) == fade_after(s, a + b),
{
}

/// A fade never outlasts its remaining frames: once that many frames went
/// through, the node is `Active` (fade in) or `Bypassed` (fade out).
pub proof fn law_fade_ends(s: FadeState, frames: int)
    requires
        match s {
            FadeState::FadingIn { frames_remaining } => frames_remaining <= frames,
            FadeState::FadingOut { frames_remaining } => frames_remaining <= frames,
            _ => true,
        },
    ensures
        fade_after(s, frames) == FadeState::Active || fade_after(s, frames) == FadeState::Bypassed,
{
}

} // verus!
