//! Every looper attached to one chain: the audio-thread slots, driven by
//! the ops the control thread queues.
//!
//! The control thread never takes the processing lock: it pushes a
//! [`LooperOp`] onto a queue and the audio thread drains the queue inside
//! the section it already owns. Layer buffers travel inside the ops and
//! travel back through the return queue, so they are dropped off the audio
//! thread.
use vstd::prelude::*;
use crate::audio_frame::{frame_pair, frame_pair_spec, AudioFrame};
use crate::looper::{
    clear_spec, load_layer_spec, opt_view, play_spec, redo_spec, set_decay_spec, set_mix_spec,
    set_reverse_spec, set_speed_spec, stop_spec, tap_record_spec, tick_spec, tickable, undo_spec,
    LooperSlot, LooperState, LooperView,
};
use crate::looper::LooperSpeed;
use crate::looper_op::{op_buffer, op_uid, LooperOp};
use crate::looper_status::{
    state_code, LooperShared, LooperStatus, LOOPER_MAX_PER_CHAIN, OP_QUEUE_DEPTH,
};

verus! {

/// One slot of the bank, as the contracts see it. `uid == 0`: free.
pub struct EntryView<S> {
    pub uid: u64,
    /// The chain segment this looper records from and plays on.
    pub seg: usize,
    pub slot: LooperView<S>,
}

struct Entry<S> {
    uid: u64,
    seg: usize,
    slot: LooperSlot<S>,
}

/// The loopers themselves, owned by the audio thread.
pub struct LooperBank<S> {
    entries: Vec<Entry<S>>,
    active: usize,
}

/// No looper is claimed by two slots.
pub open spec fn unique_uids<S>(s: Seq<EntryView<S>>) -> bool {
    forall|i: int, j: int|
        0 <= i < s.len() && 0 <= j < s.len() && i != j && s[i].uid != 0 ==> s[i].uid != s[j].uid
}

/// How many slots are claimed.
pub open spec fn claimed_count<S>(s: Seq<EntryView<S>>) -> nat
    decreases s.len(),
{
    if s.len() == 0 {
        0
    } else {
        claimed_count(s.drop_last()) + if s.last().uid != 0 { 1nat } else { 0nat }
    }
}

/// The first slot at or after `from` holding `uid`, or -1.
pub open spec fn find_uid<S>(s: Seq<EntryView<S>>, uid: u64, from: int) -> int
    decreases s.len() - from,
{
    if from < 0 || from >= s.len() {
        -1
    } else if s[from].uid == uid {
        from
    } else {
        find_uid(s, uid, from + 1)
    }
}

/// What an op addressed to a claimed slot does to its looper.
pub open spec fn slot_op_spec<S>(v: LooperView<S>, op: LooperOp<S>) -> LooperView<S> {
    match op {
        LooperOp::Create { .. } => v,
        LooperOp::Remove { .. } => clear_spec(v),
        LooperOp::TapRecord { buffer, .. } => tap_record_spec(v, opt_view(buffer)),
        LooperOp::LoadLayer { buffer, len_frames, .. } => load_layer_spec(
            v,
            buffer@,
            len_frames as nat,
        ),
        LooperOp::Play { .. } => play_spec(v),
        LooperOp::Stop { .. } => stop_spec(v),
        LooperOp::Undo { .. } => undo_spec(v),
        LooperOp::Redo { .. } => redo_spec(v),
        LooperOp::Clear { .. } => clear_spec(v),
        LooperOp::SetMix { value, .. } => set_mix_spec(v, value),
        LooperOp::SetDecay { value, .. } => set_decay_spec(v, value),
        LooperOp::SetSpeed { speed, .. } => set_speed_spec(v, speed),
        LooperOp::SetReverse { value, .. } => set_reverse_spec(v, value),
    }
}

/// The bank after one op.
///
/// `Create` re-targets an existing looper to its new segment (keeping the
/// material) or claims the first free slot, cleared; with no free slot it
/// does nothing. `Remove` clears the looper and frees its slot. Every other
/// op reaches the looper it names. An op for uid 0 or for a looper the bank
/// does not hold changes nothing.
pub open spec fn bank_apply_spec<S>(s: Seq<EntryView<S>>, op: LooperOp<S>) -> Seq<EntryView<S>> {
    let uid = op_uid(op);
    let i = find_uid(s, uid, 0);
    if uid == 0 {
        s
    } else {
        match op {
            LooperOp::Create { seg, .. } => {
                let free = find_uid(s, 0, 0);
                if i >= 0 {
                    s.update(i, EntryView { seg: seg, ..s[i] })
                } else if free >= 0 {
                    s.update(free, EntryView { uid: uid, seg: seg, slot: clear_spec(s[free].slot) })
                } else {
                    s
                }
            },
            LooperOp::Remove { .. } => if i >= 0 {
                s.update(i, EntryView { uid: 0, slot: clear_spec(s[i].slot), ..s[i] })
            } else {
                s
            },
            _ => if i >= 0 {
                s.update(i, EntryView { slot: slot_op_spec(s[i].slot, op), ..s[i] })
            } else {
                s
            },
        }
    }
}

/// The bank after applying `ops` in order.
pub open spec fn bank_apply_all<S>(s: Seq<EntryView<S>>, ops: Seq<LooperOp<S>>) -> Seq<EntryView<S>>
    decreases ops.len(),
{
    if ops.len() == 0 {
        s
    } else {
        bank_apply_spec(bank_apply_all(s, ops.drop_last()), ops.last())
    }
}

/// The buffer an op hands straight back: one addressed to uid 0 or to a
/// looper the bank does not hold.
pub open spec fn bank_refused_spec<S>(s: Seq<EntryView<S>>, op: LooperOp<S>) -> Option<Seq<S>> {
    let uid = op_uid(op);
    if uid == 0 {
        op_buffer(op)
    } else {
        match op {
            LooperOp::Create { .. } => None,
            _ => if find_uid(s, uid, 0) < 0 {
                op_buffer(op)
            } else {
                None
            },
        }
    }
}

/// Every slot after `frames` have been recorded into segment `seg`: a
/// claimed looper on that segment ticks once per frame, every other slot is
/// untouched.
pub open spec fn entry_after_frames<S>(e: EntryView<S>, seg: usize, frames: Seq<AudioFrame<S>>) -> EntryView<S> {
    if e.uid != 0 && e.seg == seg {
        EntryView { slot: ticks_spec(e.slot, frames), ..e }
    } else {
        e
    }
}

/// A looper after one tick per frame of `frames`.
pub open spec fn ticks_spec<S>(v: LooperView<S>, frames: Seq<AudioFrame<S>>) -> LooperView<S>
    decreases frames.len(),
{
    if frames.len() == 0 {
        v
    } else {
        tick_spec(ticks_spec(v, frames.drop_last()), frame_pair_spec(frames.last()))
    }
}

proof fn lemma_ticks_push<S>(v: LooperView<S>, frames: Seq<AudioFrame<S>>, f: AudioFrame<S>)
    ensures
        ticks_spec(v, frames.push(f)) == tick_spec(ticks_spec(v, frames), frame_pair_spec(f)),
{
    assert(frames.push(f).drop_last() =~= frames);
}

proof fn lemma_tick_keeps_tickable<S>(v: LooperView<S>, dry: [S; 2])
    requires
        tickable(v),
    ensures
        tickable(tick_spec(v, dry)),
        tick_spec(v, dry).active == v.active,
{
}

proof fn lemma_ticks_keep_tickable<S>(v: LooperView<S>, frames: Seq<AudioFrame<S>>)
    requires
        tickable(v),
    ensures
        tickable(ticks_spec(v, frames)),
    decreases frames.len(),
{
    if frames.len() > 0 {
        lemma_ticks_keep_tickable(v, frames.drop_last());
        lemma_tick_keeps_tickable(ticks_spec(v, frames.drop_last()), frame_pair_spec(frames.last()));
    }
}

proof fn lemma_claimed_count_bound<S>(s: Seq<EntryView<S>>)
    ensures
        claimed_count(s) <= s.len(),
        claimed_count(s) == 0 <==> forall|k: int| 0 <= k < s.len() ==> s[k].uid == 0,
    decreases s.len(),
{
    if s.len() > 0 {
        lemma_claimed_count_bound(s.drop_last());
        if claimed_count(s) == 0 {
            assert forall|k: int| 0 <= k < s.len() implies s[k].uid == 0 by {
                if k < s.len() - 1 {
                    assert(s.drop_last()[k] == s[k]);
                }
            }
        }
        if forall|k: int| 0 <= k < s.len() ==> s[k].uid == 0 {
            assert forall|k: int| 0 <= k < s.drop_last().len() implies s.drop_last()[k].uid == 0 by {
                assert(s.drop_last()[k] == s[k]);
            }
        }
    }
}

proof fn lemma_claimed_count_same_uids<S>(a: Seq<EntryView<S>>, b: Seq<EntryView<S>>)
    requires
        a.len() == b.len(),
        forall|k: int| 0 <= k < a.len() ==> a[k].uid == b[k].uid,
    ensures
        claimed_count(a) == claimed_count(b),
    decreases a.len(),
{
    if a.len() > 0 {
        lemma_claimed_count_same_uids(a.drop_last(), b.drop_last());
    }
}

/// Removing a looper frees its slot: afterwards no slot answers to its uid,
/// and the claimed count drops by one when it was held.
pub proof fn law_remove_frees_the_slot<S>(s: Seq<EntryView<S>>, uid: u64)
    requires
        unique_uids(s),
        uid != 0,
    ensures
        find_uid(bank_apply_spec(s, LooperOp::Remove { uid }), uid, 0) == -1,
        unique_uids(bank_apply_spec(s, LooperOp::Remove { uid })),
{
    let t = bank_apply_spec(s, LooperOp::Remove { uid });
    lemma_find_uid(s, uid, 0);
    lemma_find_uid(t, uid, 0);
    let i = find_uid(s, uid, 0);
    if i >= 0 {
        assert forall|k: int| 0 <= k < t.len() implies t[k].uid != uid by {
            if k != i {
                assert(s[i].uid != s[k].uid);
            }
        }
    }
}

/// Re-creating a looper that exists (its input endpoint changed) keeps
/// everything it recorded: only the segment it lives on moves.
pub proof fn law_recreate_keeps_material<S>(s: Seq<EntryView<S>>, uid: u64, seg: usize)
    requires
        uid != 0,
        find_uid(s, uid, 0) >= 0,
    ensures
        ({
            let i = find_uid(s, uid, 0);
            let t = bank_apply_spec(s, LooperOp::Create { uid, seg });
            &&& t[i].slot == s[i].slot
            &&& t[i].seg == seg
            &&& t[i].uid == uid
        }),
{
    lemma_find_uid(s, uid, 0);
}

/// Creating a new looper with a free slot available claims exactly one
/// slot, empty.
pub proof fn law_create_claims_an_empty_slot<S>(s: Seq<EntryView<S>>, uid: u64, seg: usize)
    requires
        uid != 0,
        find_uid(s, uid, 0) == -1,
        find_uid(s, 0, 0) >= 0,
    ensures
        ({
            let t = bank_apply_spec(s, LooperOp::Create { uid, seg });
            let j = find_uid(t, uid, 0);
            &&& 0 <= j < t.len()
            &&& t[j].slot.state == LooperState::Empty
            &&& t[j].slot.layers.len() == 0
            &&& t[j].seg == seg
            &&& claimed_count(t) == claimed_count(s) + 1
        }),
{
    let t = bank_apply_spec(s, LooperOp::Create { uid, seg });
    let j0 = find_uid(s, 0, 0);
    lemma_find_uid(s, 0, 0);
    lemma_find_uid(s, uid, 0);
    lemma_find_uid(t, uid, 0);
    assert(t[j0].uid == uid);
    lemma_claimed_count_update(s, j0, t[j0]);
}

proof fn lemma_claimed_count_update<S>(s: Seq<EntryView<S>>, i: int, e: EntryView<S>)
    requires
        0 <= i < s.len(),
    ensures
        claimed_count(s.update(i, e)) + (if s[i].uid != 0 { 1nat } else { 0nat }) == claimed_count(s)
            + (if e.uid != 0 { 1nat } else { 0nat }),
    decreases s.len(),
{
    let t = s.update(i, e);
    if i == s.len() - 1 {
        assert(t.drop_last() =~= s.drop_last());
    } else {
        assert(t.drop_last() =~= s.drop_last().update(i, e));
        lemma_claimed_count_update(s.drop_last(), i, e);
    }
}

proof fn lemma_unique_same_uids<S>(a: Seq<EntryView<S>>, b: Seq<EntryView<S>>)
    requires
        a.len() == b.len(),
        forall|k: int| 0 <= k < a.len() ==> a[k].uid == b[k].uid,
        unique_uids(b),
    ensures
        unique_uids(a),
        claimed_count(a) == claimed_count(b),
{
    lemma_claimed_count_same_uids(a, b);
    assert forall|i: int, j: int|
        0 <= i < a.len() && 0 <= j < a.len() && i != j && a[i].uid != 0 implies a[i].uid != a[j].uid by {
        assert(b[i].uid != b[j].uid);
    }
}

proof fn lemma_find_uid<S>(s: Seq<EntryView<S>>, uid: u64, from: int)
    requires
        0 <= from,
    ensures
        find_uid(s, uid, from) == -1 || (from <= find_uid(s, uid, from) < s.len() && s[find_uid(
            s,
            uid,
            from,
        )].uid == uid),
        find_uid(s, uid, from) == -1 <==> forall|k: int| from <= k < s.len() ==> s[k].uid != uid,
        find_uid(s, uid, from) >= 0 ==> forall|k: int| from <= k < find_uid(s, uid, from) ==> s[k].uid
            != uid,
    decreases s.len() - from,
{
    if from < s.len() && s[from].uid != uid {
        lemma_find_uid(s, uid, from + 1);
    }
}

impl<S: Copy> LooperBank<S> {
    pub closed spec fn view(&self) -> Seq<EntryView<S>> {
        self.entries@.map_values(|e: Entry<S>| EntryView { uid: e.uid, seg: e.seg, slot: e.slot@ })
    }

    /// The bank's consistency: one slot per looper a chain can hold, every
    /// looper consistent, the claimed count cached, and no uid claimed
    /// twice.
    pub closed spec fn wf(&self) -> bool {
        &&& self.entries@.len() == LOOPER_MAX_PER_CHAIN
        &&& forall|i: int| 0 <= i < self.entries@.len() ==> (#[trigger] self.entries@[i]).slot.wf()
        &&& self.active == claimed_count(self@)
        &&& unique_uids(self@)
    }

    /// Free slots, each an empty looper whose layers hold `max_frames`
    /// frames and whose level and decay start at `unity`.
    pub fn new(max_frames: usize, unity: S) -> (r: Self)
        ensures
            r.wf(),
            r@.len() == LOOPER_MAX_PER_CHAIN,
            forall|i: int| 0 <= i < r@.len() ==> {
                &&& (#[trigger] r@[i]).uid == 0
                &&& r@[i].seg == 0
                &&& r@[i].slot.state == LooperState::Empty
                &&& r@[i].slot.max_frames == max_frames
                &&& r@[i].slot.layers.len() == 0
                &&& r@[i].slot.retired.len() == 0
                &&& r@[i].slot.active == 0
                &&& r@[i].slot.len_frames == 0
                &&& r@[i].slot.write_pos == 0
                &&& r@[i].slot.cursor == 0
                &&& r@[i].slot.mix == unity
                &&& r@[i].slot.decay == unity
                &&& r@[i].slot.speed == LooperSpeed::Normal
                &&& !r@[i].slot.reverse
            },
    {
        let mut entries: Vec<Entry<S>> = Vec::new();
        let mut i: usize = 0;
        while i < LOOPER_MAX_PER_CHAIN
            invariant
                i <= LOOPER_MAX_PER_CHAIN,
                entries@.len() == i,
                forall|k: int| 0 <= k < i ==> {
                    &&& (#[trigger] entries@[k]).uid == 0
                    &&& entries@[k].seg == 0
                    &&& entries@[k].slot.wf()
                    &&& entries@[k].slot@.state == LooperState::Empty
                    &&& entries@[k].slot@.max_frames == max_frames
                    &&& entries@[k].slot@.layers.len() == 0
                    &&& entries@[k].slot@.retired.len() == 0
                    &&& entries@[k].slot@.active == 0
                    &&& entries@[k].slot@.len_frames == 0
                    &&& entries@[k].slot@.write_pos == 0
                    &&& entries@[k].slot@.cursor == 0
                    &&& entries@[k].slot@.mix == unity
                    &&& entries@[k].slot@.decay == unity
                    &&& entries@[k].slot@.speed == LooperSpeed::Normal
                    &&& !entries@[k].slot@.reverse
                },
            decreases LOOPER_MAX_PER_CHAIN - i,
        {
            entries.push(Entry { uid: 0, seg: 0, slot: LooperSlot::new(max_frames, unity) });
            i = i + 1;
        }
        let r = LooperBank { entries, active: 0 };
        proof {
            lemma_claimed_count_bound(r@);
        }
        r
    }

    /// Whether no slot is claimed: the audio thread skips the whole feature
    /// with one branch when no looper exists.
    pub fn is_idle(&self) -> (r: bool)
        requires
            self.wf(),
        ensures
            r == (forall|i: int| 0 <= i < self@.len() ==> self@[i].uid == 0),
    {
        proof {
            lemma_claimed_count_bound(self@);
        }
        self.active == 0
    }

    /// Whether any looper lives on segment `seg`.
    pub fn has_segment(&self, seg: usize) -> (r: bool)
        ensures
            r == (exists|i: int| 0 <= i < self@.len() && self@[i].uid != 0 && self@[i].seg == seg),
    {
        let mut i: usize = 0;
        while i < self.entries.len()
            invariant
                i <= self.entries@.len(),
                forall|k: int| 0 <= k < i ==> !(self@[k].uid != 0 && self@[k].seg == seg),
            decreases self.entries@.len() - i,
        {
            if self.entries[i].uid != 0 && self.entries[i].seg == seg {
                assert(self@[i as int].uid != 0 && self@[i as int].seg == seg);
                return true;
            }
            i = i + 1;
        }
        false
    }

    /// Apply one op; an op the bank cannot route hands its buffer back.
    pub fn apply(&mut self, op: LooperOp<S>) -> (r: Option<Vec<S>>)
        requires
            old(self).wf(),
        ensures
            final(self).wf(),
            final(self)@ == bank_apply_spec(old(self)@, op),
            opt_view(r) == bank_refused_spec(old(self)@, op),
    {
        let ghost pre = self@;
        let ghost op_g = op;
        proof {
            lemma_find_uid(pre, op_uid(op), 0);
            lemma_find_uid(pre, 0, 0);
        }
        let uid = op.uid();
        if uid == 0 {
            let b = op.take_buffer();
            return b;
        }
        if let LooperOp::Create { uid, seg } = op {
            match self.index_of(uid) {
                Some(existing) => {
                    self.entries[existing].seg = seg;
                    proof {
                        assert(self@ =~= pre.update(existing as int, EntryView { seg: seg, ..pre[existing as int] }));
                    }
                },
                None => {
                    match self.index_of(0) {
                        Some(free) => {
                            self.entries[free].uid = uid;
                            self.entries[free].seg = seg;
                            self.entries[free].slot.clear();
                            proof {
                                assert(self@ =~= pre.update(
                                    free as int,
                                    EntryView { uid: uid, seg: seg, slot: clear_spec(pre[free as int].slot) },
                                ));
                            }
                        },
                        None => {},
                    }
                },
            }
            self.refresh_active();
            return None;
        }
        let idx = match self.index_of(uid) {
            Some(i) => i,
            None => {
                let b = op.take_buffer();
                return b;
            },
        };
        match op {
            LooperOp::Create { .. } => {},
            LooperOp::Remove { .. } => {
                self.entries[idx].slot.clear();
                self.entries[idx].uid = 0;
                self.refresh_active();
            },
            LooperOp::TapRecord { buffer, .. } => self.entries[idx].slot.tap_record(buffer),
            LooperOp::LoadLayer { buffer, len_frames, .. } => self.entries[idx].slot.load_layer(
                buffer,
                len_frames,
            ),
            LooperOp::Play { .. } => self.entries[idx].slot.play(),
            LooperOp::Stop { .. } => self.entries[idx].slot.stop(),
            LooperOp::Undo { .. } => self.entries[idx].slot.undo(),
            LooperOp::Redo { .. } => self.entries[idx].slot.redo(),
            LooperOp::Clear { .. } => self.entries[idx].slot.clear(),
            LooperOp::SetMix { value, .. } => self.entries[idx].slot.set_mix(value),
            LooperOp::SetDecay { value, .. } => self.entries[idx].slot.set_decay(value),
            LooperOp::SetSpeed { speed, .. } => self.entries[idx].slot.set_speed(speed),
            LooperOp::SetReverse { value, .. } => self.entries[idx].slot.set_reverse(value),
        }
        proof {
            assert forall|k: int| 0 <= k < pre.len() && k != idx implies self@[k].uid == pre[k].uid by {
                assert(self.entries@[k] == old(self).entries@[k]);
            }
            match op_g {
                LooperOp::Remove { .. } => {
                    assert(self@[idx as int].uid == 0);
                },
                _ => {
                    assert(self@.len() == pre.len());
                    assert forall|k: int| 0 <= k < pre.len() implies self@[k].uid == pre[k].uid by {
                        if k != idx {
                            assert(self.entries@[k] == old(self).entries@[k]);
                        }
                    }
                    lemma_claimed_count_same_uids(self@, pre);
                },
            }
            assert(self.entries@.len() == LOOPER_MAX_PER_CHAIN);
            assert(forall|i: int| 0 <= i < self.entries@.len() ==> (#[trigger] self.entries@[i]).slot.wf());
            assert(self.active == claimed_count(self@));
            assert forall|i: int, j: int|
                0 <= i < self@.len() && 0 <= j < self@.len() && i != j && self@[i].uid != 0 implies self@[i].uid
                    != self@[j].uid by {
                match op_g {
                    LooperOp::Remove { .. } => {
                        if i != idx && j != idx {
                            assert(pre[i].uid != pre[j].uid);
                        }
                    },
                    _ => {
                        assert(pre[i].uid != pre[j].uid);
                    },
                }
            }
        }
        None
    }

    /// Apply every op queued so far (at most one queue's worth per call;
    /// later ones wait for the next callback). Buffers the bank cannot route
    /// go back through the return queue. Whatever was queued, the bank ends
    /// as applying those ops, in order, leaves it.
    pub fn drain_ops(&mut self, shared: &LooperShared<S>)
        requires
            old(self).wf(),
        ensures
            final(self).wf(),
            exists|ops: Seq<LooperOp<S>>|
                ops.len() <= OP_QUEUE_DEPTH && final(self)@ == bank_apply_all(old(self)@, ops),
    {
        let ghost start = self@;
        let ghost mut ops: Seq<LooperOp<S>> = Seq::empty();
        let mut n: usize = 0;
        while n < OP_QUEUE_DEPTH
            invariant
                self.wf(),
                n <= OP_QUEUE_DEPTH,
                ops.len() == n,
                self@ == bank_apply_all(start, ops),
            decreases OP_QUEUE_DEPTH - n,
        {
            match crate::queue::queue_pop(&shared.ops) {
                Some(op) => {
                    let ghost g = op;
                    if let Some(buf) = self.apply(op) {
                        shared.give_back(buf);
                    }
                    proof {
                        let ops2 = ops.push(g);
                        assert(ops2.drop_last() =~= ops);
                        ops = ops2;
                    }
                },
                None => break,
            }
            n = n + 1;
        }
    }

    /// Record segment `seg`'s dry input into the loopers that live on it.
    ///
    /// The bank is a recorder only: each claimed looper on `seg` ticks once
    /// per frame (writing the dry frame when armed and moving its cursor);
    /// the frames themselves are left as they are. What a looper plays is
    /// heard on its own isolated stream, never summed back into the chain.
    pub fn process(&mut self, seg: usize, frames: &[AudioFrame<S>])
        requires
            old(self).wf(),
            forall|i: int|
                0 <= i < old(self)@.len() && old(self)@[i].uid != 0 && old(self)@[i].seg == seg
                    ==> tickable(#[trigger] old(self)@[i].slot),
        ensures
            final(self).wf(),
            final(self)@.len() == old(self)@.len(),
            forall|i: int|
                0 <= i < old(self)@.len() ==> #[trigger] final(self)@[i] == entry_after_frames(
                    old(self)@[i],
                    seg,
                    frames@,
                ),
    {
        let ghost pre = self@;
        let mut f: usize = 0;
        while f < frames.len()
            invariant
                self.wf(),
                f <= frames@.len(),
                self@.len() == pre.len(),
                forall|i: int|
                    0 <= i < pre.len() ==> #[trigger] self@[i] == entry_after_frames(
                        pre[i],
                        seg,
                        frames@.take(f as int),
                    ),
                forall|i: int|
                    0 <= i < pre.len() && pre[i].uid != 0 && pre[i].seg == seg ==> tickable(
                        #[trigger] pre[i].slot,
                    ),
            decreases frames@.len() - f,
        {
            let dry = frame_pair(&frames[f]);
            let ghost mid = self@;
            proof {
                assert forall|i: int| 0 <= i < pre.len() && pre[i].uid != 0 && pre[i].seg == seg implies tickable(
                    #[trigger] mid[i].slot,
                ) by {
                    lemma_ticks_keep_tickable(pre[i].slot, frames@.take(f as int));
                }
            }
            let mut e: usize = 0;
            while e < self.entries.len()
                invariant
                    self.wf(),
                    f < frames@.len(),
                    dry == frame_pair_spec(frames@[f as int]),
                    e <= self@.len(),
                    self@.len() == pre.len(),
                    mid.len() == pre.len(),
                    forall|i: int| 0 <= i < pre.len() ==> #[trigger] mid[i] == entry_after_frames(
                        pre[i],
                        seg,
                        frames@.take(f as int),
                    ),
                    forall|i: int|
                        0 <= i < pre.len() && pre[i].uid != 0 && pre[i].seg == seg ==> tickable(
                            #[trigger] mid[i].slot,
                        ),
                    forall|i: int| 0 <= i < e ==> #[trigger] self@[i] == entry_after_frames(
                        pre[i],
                        seg,
                        frames@.take(f + 1),
                    ),
                    forall|i: int| e <= i < pre.len() ==> #[trigger] self@[i] == mid[i],
                decreases pre.len() - e,
            {
                proof {
                    assert(frames@.take(f + 1) =~= frames@.take(f as int).push(frames@[f as int]));
                    lemma_ticks_push(pre[e as int].slot, frames@.take(f as int), frames@[f as int]);
                }
                let ghost ents = self.entries@;
                let ghost cur = self@;
                proof {
                    assert(cur[e as int] == mid[e as int]);
                    assert(cur[e as int].uid == ents[e as int].uid);
                    assert(cur[e as int].seg == ents[e as int].seg);
                    assert(cur[e as int].slot == ents[e as int].slot@);
                    assert(ents[e as int].slot.wf());
                }
                if self.entries[e].uid != 0 && self.entries[e].seg == seg {
                    let _ = self.entries[e].slot.tick(dry);
                }
                proof {
                    assert forall|i: int| 0 <= i < pre.len() && i != e implies self@[i] == cur[i] by {
                        assert(self.entries@[i] == ents[i]);
                    }
                    assert forall|k: int| 0 <= k < pre.len() implies self@[k].uid == cur[k].uid by {
                        if k != e {
                            assert(self.entries@[k] == ents[k]);
                        }
                    }
                    lemma_unique_same_uids(self@, cur);
                    assert forall|i: int| 0 <= i < self.entries@.len() implies (#[trigger] self.entries@[i]).slot.wf() by {
                        if i != e {
                            assert(self.entries@[i] == ents[i]);
                        }
                    }
                    assert(self@[e as int] == entry_after_frames(pre[e as int], seg, frames@.take(f + 1)));
                    assert forall|i: int| 0 <= i < e + 1 implies #[trigger] self@[i] == entry_after_frames(
                        pre[i],
                        seg,
                        frames@.take(f + 1),
                    ) by {
                        if i < e {
                            assert(cur[i] == entry_after_frames(pre[i], seg, frames@.take(f + 1)));
                        }
                    }
                    assert forall|i: int| e + 1 <= i < pre.len() implies #[trigger] self@[i] == mid[i] by {
                        assert(cur[i] == mid[i]);
                    }
                }
                e = e + 1;
            }
            f = f + 1;
        }
        proof {
            assert(frames@.take(frames@.len() as int) =~= frames@);
        }
    }

    /// Publish every slot's state for the UI and hand every buffer the
    /// loopers gave up back to the control thread.
    pub fn publish(&mut self, shared: &LooperShared<S>)
        requires
            old(self).wf(),
        ensures
            final(self).wf(),
            final(self)@.len() == old(self)@.len(),
            forall|i: int|
                0 <= i < old(self)@.len() ==> #[trigger] final(self)@[i] == (EntryView {
                    slot: LooperView { retired: Seq::<Seq<S>>::empty(), ..old(self)@[i].slot },
                    ..old(self)@[i]
                }),
    {
        let ghost pre = self@;
        let mut e: usize = 0;
        while e < self.entries.len()
            invariant
                self.wf(),
                e <= self@.len(),
                self@.len() == pre.len(),
                forall|i: int| 0 <= i < e ==> #[trigger] self@[i] == (EntryView {
                    slot: LooperView { retired: Seq::<Seq<S>>::empty(), ..pre[i].slot },
                    ..pre[i]
                }),
                forall|i: int| e <= i < pre.len() ==> #[trigger] self@[i] == pre[i],
            decreases pre.len() - e,
        {
            if e < shared.status.len() {
                let st = LooperStatus {
                    uid: self.entries[e].uid,
                    state: self.entries[e].slot.state(),
                    position_frames: self.entries[e].slot.position_frames(),
                    len_frames: self.entries[e].slot.len_frames(),
                    layers: self.entries[e].slot.active_layers(),
                    content_rev: self.entries[e].slot.content_revision(),
                };
                shared.status[e].store(st);
            }
            let ghost before = self@;
            while self.entries[e].slot.has_retired()
                invariant
                    self.wf(),
                    e < self@.len(),
                    self@.len() == pre.len(),
                    self@[e as int] == (EntryView {
                        slot: LooperView {
                            retired: self@[e as int].slot.retired,
                            ..pre[e as int].slot
                        },
                        ..pre[e as int]
                    }),
                    forall|i: int| 0 <= i < pre.len() && i != e ==> #[trigger] self@[i] == before[i],
                decreases self@[e as int].slot.retired.len(),
            {
                let ghost inner = self@;
                let ghost ents = self.entries@;
                proof {
                    assert(ents[e as int].slot.wf());
                }
                let taken = self.entries[e].slot.take_retired();
                if let Some(buf) = taken {
                    shared.give_back(buf);
                }
                proof {
                    assert forall|i: int| 0 <= i < pre.len() && i != e implies self@[i] == inner[i] by {
                        assert(self.entries@[i] == ents[i]);
                    }
                    assert forall|k: int| 0 <= k < pre.len() implies self@[k].uid == inner[k].uid by {
                        if k != e {
                            assert(self.entries@[k] == ents[k]);
                        }
                    }
                    lemma_unique_same_uids(self@, inner);
                    assert forall|i: int| 0 <= i < self.entries@.len() implies (#[trigger] self.entries@[i]).slot.wf() by {
                        if i != e {
                            assert(self.entries@[i] == ents[i]);
                        }
                    }
                    assert forall|i: int| 0 <= i < pre.len() && i != e implies #[trigger] self@[i] == before[i] by {
                        assert(inner[i] == before[i]);
                    }
                }
            }
            proof {
                assert(self@[e as int].slot.retired =~= Seq::<Seq<S>>::empty());
            }
            e = e + 1;
        }
    }

    /// The looper held for `uid`, for the control thread to export.
    pub fn slot(&self, uid: u64) -> (r: Option<&LooperSlot<S>>)
        requires
            self.wf(),
        ensures
            match r {
                Some(s) => {
                    let i = find_uid(self@, uid, 0);
                    &&& 0 <= i < self@.len()
                    &&& s@ == self@[i].slot
                    &&& s.wf()
                },
                None => find_uid(self@, uid, 0) == -1,
            },
    {
        match self.index_of(uid) {
            Some(i) => {
                assert(self.entries@[i as int].slot.wf());
                Some(&self.entries[i].slot)
            },
            None => None,
        }
    }

    fn index_of(&self, uid: u64) -> (r: Option<usize>)
        ensures
            match r {
                Some(i) => i == find_uid(self@, uid, 0) && i < self@.len(),
                None => find_uid(self@, uid, 0) == -1,
            },
    {
        proof {
            lemma_find_uid(self@, uid, 0);
        }
        let mut i: usize = 0;
        while i < self.entries.len()
            invariant
                i <= self.entries@.len(),
                forall|k: int| 0 <= k < i ==> self@[k].uid != uid,
                find_uid(self@, uid, 0) == -1 || find_uid(self@, uid, 0) >= i,
            decreases self.entries@.len() - i,
        {
            proof {
                lemma_find_uid(self@, uid, 0);
            }
            if self.entries[i].uid == uid {
                assert(self@[i as int].uid == uid);
                return Some(i);
            }
            assert(self@[i as int].uid != uid);
            i = i + 1;
        }
        None
    }

    fn refresh_active(&mut self)
        requires
            old(self).entries@.len() == LOOPER_MAX_PER_CHAIN,
        ensures
            final(self).entries == old(self).entries,
            final(self).active == claimed_count(old(self)@),
    {
        let mut count: usize = 0;
        let mut i: usize = 0;
        while i < self.entries.len()
            invariant
                i <= self.entries@.len() == LOOPER_MAX_PER_CHAIN,
                count == claimed_count(self@.take(i as int)),
                count <= i,
            decreases self.entries@.len() - i,
        {
            proof {
                assert(self@.take(i + 1).drop_last() =~= self@.take(i as int));
            }
            if self.entries[i].uid != 0 {
                count = count + 1;
            }
            i = i + 1;
        }
        proof {
            assert(self@.take(i as int) =~= self@);
        }
        self.active = count;
    }
}

} // verus!
