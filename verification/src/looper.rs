//! The per-chain looper core (Boss RC-style, multi-layer).
//!
//! One [`LooperSlot`] is one looper: a stack of interleaved-stereo layers, a
//! transport state machine, and a playback cursor. It is driven frame by
//! frame through [`LooperSlot::tick`], which records the dry frame when armed
//! and reports which recorded frames the loop plays at this instant.
//!
//! The slot is generic over the sample type `S`: it moves, stores and
//! overwrites samples but never does arithmetic on them. Mixing the audible
//! layers into one output frame (level, decay, interpolation) is the job of
//! the caller, which gets the exact read plan from `tick`.
//!
//! The playback cursor is kept in half frames (`frame`, `half`): the three
//! playback speeds step by 1/2, 1 or 2 frames, so every cursor position the
//! looper can reach is a multiple of one half frame.
use vstd::prelude::*;
use vstd::arithmetic::div_mod::{lemma_add_mod_noop, lemma_small_mod, lemma_sub_mod_noop};

verus! {

/// How many overdub layers a single looper can hold.
pub const LOOPER_MAX_LAYERS: usize = 8;

/// Transport state of one looper.
#[derive(Clone, Copy, Debug, PartialEq, Eq, Structural)]
pub enum LooperState {
    /// Nothing recorded.
    Empty,
    /// Capturing the first layer; the loop length is still growing.
    Recording,
    /// Looping the recorded layers.
    Playing,
    /// Looping while capturing a new layer on top.
    Overdubbing,
    /// Material kept, playback halted.
    Stopped,
}

impl Default for LooperState {
    fn default() -> (r: Self)
        ensures
            r == LooperState::Empty,
    {
        LooperState::Empty
    }
}

/// Playback rate of a looper. Not a resample: the read cursor steps by this
/// factor, so the pitch shifts with the speed.
#[derive(Clone, Copy, Debug, PartialEq, Eq, Structural)]
pub enum LooperSpeed {
    Half,
    Normal,
    Double,
}

/// How far one frame of playback moves the cursor, in half frames.
pub open spec fn speed_half_steps(speed: LooperSpeed) -> int {
    match speed {
        LooperSpeed::Half => 1,
        LooperSpeed::Normal => 2,
        LooperSpeed::Double => 4,
    }
}

/// Which recorded frames one playback instant reads: frames `i0` and `i1`
/// (the next one, wrapped) of each of the `count` lowest layers, blended
/// half-way when `half` is set (the cursor sits between two frames).
#[derive(Clone, Copy, Debug, PartialEq, Eq, Structural)]
pub struct PlaybackRead {
    pub count: usize,
    pub i0: usize,
    pub i1: usize,
    pub half: bool,
}

/// The abstract state of a looper.
pub struct LooperView<S> {
    pub state: LooperState,
    /// Every layer still held, oldest first. `layers[..active]` are audible,
    /// the rest is the redo tail.
    pub layers: Seq<Seq<S>>,
    /// Buffers handed back, in the order they were given up.
    pub retired: Seq<Seq<S>>,
    pub active: nat,
    pub max_frames: nat,
    pub len_frames: nat,
    pub write_pos: nat,
    /// Playback cursor in half frames.
    pub cursor: nat,
    pub mix: S,
    pub decay: S,
    pub speed: LooperSpeed,
    pub reverse: bool,
    /// Moves whenever what the loop would export changes.
    pub content_rev: u64,
}

pub struct LooperSlot<S> {
    layers: Vec<Vec<S>>,
    retired: Vec<Vec<S>>,
    active: usize,
    max_frames: usize,
    len_frames: usize,
    write_pos: usize,
    read_frame: usize,
    read_half: bool,
    state: LooperState,
    mix: S,
    decay: S,
    speed: LooperSpeed,
    reverse: bool,
    content_rev: u64,
}

/// The buffers of a vector of layers, as sequences.
pub open spec fn layers_view<S>(v: Seq<Vec<S>>) -> Seq<Seq<S>> {
    v.map_values(|b: Vec<S>| b@)
}

/// The longest loop a slot sized for `max_frames` can hold (a restored loop
/// keeps at least one frame even in a zero-sized slot).
pub open spec fn len_ceiling(max_frames: nat) -> nat {
    if max_frames == 0 { 1 } else { max_frames }
}

/// `retired` after a buffer that may be absent is handed back.
pub open spec fn retire_spec<S>(retired: Seq<Seq<S>>, buffer: Option<Seq<S>>) -> Seq<Seq<S>> {
    match buffer {
        Some(b) => retired.push(b),
        None => retired,
    }
}

pub open spec fn opt_view<S>(buffer: Option<Vec<S>>) -> Option<Seq<S>> {
    match buffer {
        Some(b) => Some(b@),
        None => None,
    }
}

/// Where the cursor moves in one playback frame, in half frames, on a loop
/// of `len` frames.
pub open spec fn advance_spec(cursor: nat, len: nat, speed: LooperSpeed, reverse: bool) -> nat {
    if len == 0 {
        cursor
    } else if reverse {
        ((cursor - speed_half_steps(speed)) % (2 * len as int)) as nat
    } else {
        ((cursor + speed_half_steps(speed)) % (2 * len as int)) as nat
    }
}

/// The revision after one more change of content.
pub open spec fn next_rev(rev: u64) -> u64 {
    if rev == u64::MAX { 0 } else { (rev + 1) as u64 }
}

/// The looper after an undo: one audible layer fewer, none dropped.
pub open spec fn undo_spec<S>(v: LooperView<S>) -> LooperView<S> {
    LooperView {
        active: if v.active == 0 { 0 } else { (v.active - 1) as nat },
        content_rev: next_rev(v.content_rev),
        ..v
    }
}

/// The looper after a redo: the first silenced layer is audible again.
pub open spec fn redo_spec<S>(v: LooperView<S>) -> LooperView<S> {
    LooperView {
        active: if v.active < v.layers.len() { v.active + 1 } else { v.active },
        content_rev: next_rev(v.content_rev),
        ..v
    }
}

/// The looper after a tap starts an overdub on `buffer`: the redo tail is
/// handed back (newest first) and the new layer goes on top.
pub open spec fn overdub_start_spec<S>(v: LooperView<S>, buffer: Seq<S>) -> LooperView<S> {
    LooperView {
        state: LooperState::Overdubbing,
        layers: v.layers.subrange(0, v.active as int).push(buffer),
        retired: v.retired + v.layers.subrange(v.active as int, v.layers.len() as int).reverse(),
        active: v.active + 1,
        ..v
    }
}

/// The looper after the record/overdub footswitch tap, handed `buffer`.
pub open spec fn tap_record_spec<S>(pre: LooperView<S>, buffer: Option<Seq<S>>) -> LooperView<S> {
    match pre.state {
        LooperState::Empty => match buffer {
            Some(b) => LooperView {
                state: LooperState::Recording,
                layers: seq![b],
                active: 1,
                write_pos: 0,
                len_frames: 0,
                ..pre
            },
            None => pre,
        },
        LooperState::Recording => LooperView {
            state: LooperState::Playing,
            retired: retire_spec(pre.retired, buffer),
            len_frames: frozen_len(pre.write_pos, pre.max_frames),
            cursor: 0,
            content_rev: next_rev(pre.content_rev),
            ..pre
        },
        LooperState::Playing | LooperState::Stopped => match buffer {
            Some(b) => if pre.active < LOOPER_MAX_LAYERS {
                overdub_start_spec(pre, b)
            } else {
                LooperView { retired: pre.retired.push(b), ..pre }
            },
            None => pre,
        },
        LooperState::Overdubbing => LooperView {
            state: LooperState::Playing,
            retired: retire_spec(pre.retired, buffer),
            content_rev: next_rev(pre.content_rev),
            ..pre
        },
    }
}

/// The looper after `play`: from the top of the loop, once a length is fixed.
pub open spec fn play_spec<S>(pre: LooperView<S>) -> LooperView<S> {
    if pre.len_frames == 0 {
        pre
    } else {
        LooperView { state: LooperState::Playing, cursor: 0, ..pre }
    }
}

/// The looper after `stop`: halted, material kept; a recording is closed.
pub open spec fn stop_spec<S>(pre: LooperView<S>) -> LooperView<S> {
    match pre.state {
        LooperState::Empty => pre,
        LooperState::Recording => LooperView {
            state: LooperState::Stopped,
            len_frames: frozen_len(pre.write_pos, pre.max_frames),
            cursor: 0,
            content_rev: next_rev(pre.content_rev),
            ..pre
        },
        _ => LooperView { state: LooperState::Stopped, ..pre },
    }
}

/// The looper after `clear`: empty, every layer handed back newest first.
pub open spec fn clear_spec<S>(pre: LooperView<S>) -> LooperView<S> {
    LooperView {
        state: LooperState::Empty,
        layers: Seq::<Seq<S>>::empty(),
        retired: pre.retired + pre.layers.reverse(),
        active: 0,
        len_frames: 0,
        write_pos: 0,
        cursor: 0,
        content_rev: next_rev(pre.content_rev),
        ..pre
    }
}

pub open spec fn set_mix_spec<S>(pre: LooperView<S>, mix: S) -> LooperView<S> {
    LooperView { mix: mix, content_rev: next_rev(pre.content_rev), ..pre }
}

pub open spec fn set_decay_spec<S>(pre: LooperView<S>, decay: S) -> LooperView<S> {
    LooperView { decay: decay, content_rev: next_rev(pre.content_rev), ..pre }
}

pub open spec fn set_speed_spec<S>(pre: LooperView<S>, speed: LooperSpeed) -> LooperView<S> {
    LooperView { speed: speed, ..pre }
}

pub open spec fn set_reverse_spec<S>(pre: LooperView<S>, reverse: bool) -> LooperView<S> {
    LooperView { reverse: reverse, content_rev: next_rev(pre.content_rev), ..pre }
}

/// The loop length a restored layer gets: as asked, within the slot's size,
/// never zero.
pub open spec fn restored_len(len_frames: nat, max_frames: nat) -> nat {
    let l = if len_frames <= max_frames { len_frames } else { max_frames };
    if l == 0 { 1 } else { l }
}

/// The looper after a saved layer is restored into it.
pub open spec fn load_layer_spec<S>(pre: LooperView<S>, buffer: Seq<S>, len_frames: nat) -> LooperView<S> {
    LooperView {
        state: LooperState::Stopped,
        layers: seq![buffer],
        retired: pre.retired + pre.layers.reverse(),
        active: 1,
        len_frames: restored_len(len_frames, pre.max_frames),
        write_pos: restored_len(len_frames, pre.max_frames),
        cursor: 0,
        content_rev: next_rev(pre.content_rev),
        ..pre
    }
}

/// Whether one more frame can be ticked: a recording or an overdub needs a
/// layer to write into (an undo can take the last one away).
pub open spec fn tickable<S>(v: LooperView<S>) -> bool {
    (v.state == LooperState::Recording || v.state == LooperState::Overdubbing) ==> v.active >= 1
}

/// The looper after one frame of `dry` input.
pub open spec fn tick_spec<S>(pre: LooperView<S>, dry: [S; 2]) -> LooperView<S> {
    match pre.state {
        LooperState::Empty | LooperState::Stopped => pre,
        LooperState::Recording => {
            let layers = write_frame_spec(pre.layers, pre.active - 1, pre.write_pos as int, dry);
            if pre.write_pos + 1 >= pre.max_frames {
                LooperView {
                    state: LooperState::Playing,
                    layers: layers,
                    write_pos: pre.write_pos + 1,
                    len_frames: frozen_len(pre.write_pos + 1, pre.max_frames),
                    cursor: 0,
                    content_rev: next_rev(pre.content_rev),
                    ..pre
                }
            } else {
                LooperView { layers: layers, write_pos: pre.write_pos + 1, ..pre }
            }
        },
        LooperState::Playing => LooperView {
            cursor: advance_spec(pre.cursor, pre.len_frames, pre.speed, pre.reverse),
            ..pre
        },
        LooperState::Overdubbing => LooperView {
            layers: write_frame_spec(pre.layers, pre.active - 1, (pre.cursor / 2) as int, dry),
            cursor: advance_spec(pre.cursor, pre.len_frames, pre.speed, pre.reverse),
            ..pre
        },
    }
}

/// What the loop plays during that frame (`None`: silence).
pub open spec fn tick_read_spec<S>(pre: LooperView<S>) -> Option<PlaybackRead> {
    match pre.state {
        LooperState::Playing => read_plan_spec(pre.active, pre.cursor, pre.len_frames),
        LooperState::Overdubbing => read_plan_spec((pre.active - 1) as nat, pre.cursor, pre.len_frames),
        _ => None,
    }
}

/// The loop length fixed when the first recording closes.
pub open spec fn frozen_len(write_pos: nat, max_frames: nat) -> nat {
    let w = if write_pos == 0 { 1 } else { write_pos };
    if w <= max_frames { w } else { max_frames }
}

impl<S: Copy> LooperSlot<S> {
    pub closed spec fn view(&self) -> LooperView<S> {
        LooperView {
            state: self.state,
            layers: layers_view(self.layers@),
            retired: layers_view(self.retired@),
            active: self.active as nat,
            max_frames: self.max_frames as nat,
            len_frames: self.len_frames as nat,
            write_pos: self.write_pos as nat,
            cursor: (2 * self.read_frame + if self.read_half { 1int } else { 0int }) as nat,
            mix: self.mix,
            decay: self.decay,
            speed: self.speed,
            reverse: self.reverse,
            content_rev: self.content_rev,
        }
    }

    /// The slot's internal consistency.
    pub closed spec fn wf(&self) -> bool {
        &&& self.active <= self.layers@.len() <= LOOPER_MAX_LAYERS
        &&& self.len_frames <= len_ceiling(self.max_frames as nat)
        &&& self.len_frames == 0 ==> self.read_frame == 0 && !self.read_half
        &&& self.len_frames > 0 ==> self.read_frame < self.len_frames
        &&& match self.state {
            LooperState::Empty => self.layers@.len() == 0 && self.len_frames == 0,
            LooperState::Recording => {
                &&& self.layers@.len() >= 1
                &&& self.len_frames == 0
                &&& (self.write_pos < self.max_frames || self.write_pos == 0)
            },
            _ => self.layers@.len() >= 1,
        }
    }

    /// A well-formed slot never has more audible layers than it holds, nor
    /// more layers than a looper may stack.
    pub proof fn lemma_wf_layer_bounds(&self)
        requires
            self.wf(),
        ensures
            self@.active <= self@.layers.len() <= LOOPER_MAX_LAYERS,
    {
    }

    /// A fresh, empty looper whose layers hold `max_frames` frames. `unity`
    /// is the level and decay a looper starts at (no attenuation).
    pub fn new(max_frames: usize, unity: S) -> (s: Self)
        ensures
            s.wf(),
            s@.state == LooperState::Empty,
            s@.layers.len() == 0,
            s@.retired.len() == 0,
            s@.active == 0,
            s@.max_frames == max_frames,
            s@.len_frames == 0,
            s@.write_pos == 0,
            s@.cursor == 0,
            s@.mix == unity,
            s@.decay == unity,
            s@.speed == LooperSpeed::Normal,
            !s@.reverse,
    {
        let s = LooperSlot {
            layers: Vec::new(),
            retired: Vec::new(),
            active: 0,
            max_frames,
            len_frames: 0,
            write_pos: 0,
            read_frame: 0,
            read_half: false,
            state: LooperState::Empty,
            mix: unity,
            decay: unity,
            speed: LooperSpeed::Normal,
            reverse: false,
            content_rev: 0,
        };
        proof {
            assert(layers_view(s.layers@) =~= Seq::<Seq<S>>::empty());
            assert(layers_view(s.retired@) =~= Seq::<Seq<S>>::empty());
        }
        s
    }

    pub fn state(&self) -> (r: LooperState)
        ensures
            r == self@.state,
    {
        self.state
    }

    pub fn len_frames(&self) -> (r: usize)
        ensures
            r == self@.len_frames,
    {
        self.len_frames
    }

    pub fn max_frames(&self) -> (r: usize)
        ensures
            r == self@.max_frames,
    {
        self.max_frames
    }

    /// Audible layer count (what undo/redo move).
    pub fn active_layers(&self) -> (r: usize)
        ensures
            r == self@.active,
    {
        self.active
    }

    /// The whole frame the playback cursor is on.
    pub fn position_frames(&self) -> (r: usize)
        ensures
            r == self@.cursor / 2,
    {
        self.read_frame
    }

    /// The level the loop plays at.
    pub fn mix(&self) -> (r: S)
        ensures
            r == self@.mix,
    {
        self.mix
    }

    /// The gain step applied to each older layer.
    pub fn decay(&self) -> (r: S)
        ensures
            r == self@.decay,
    {
        self.decay
    }

    /// Every layer still held, oldest first.
    pub fn layers(&self) -> (r: &Vec<Vec<S>>)
        ensures
            layers_view(r@) == self@.layers,
    {
        &self.layers
    }

    /// A counter that moves whenever what the loop would export changes:
    /// a recording or overdub closing, undo, redo, clear, a restored layer,
    /// and a change of level, decay or direction.
    pub fn content_revision(&self) -> (r: u64)
        ensures
            r == self@.content_rev,
    {
        self.content_rev
    }

    /// Whether another layer can be recorded.
    pub fn can_record(&self) -> (r: bool)
        ensures
            r == (self@.active < LOOPER_MAX_LAYERS),
    {
        self.active < LOOPER_MAX_LAYERS
    }

    /// The record/overdub footswitch tap.
    ///
    /// `buffer` must be `Some` for the tap to start a recording (state
    /// `Empty`, or `Playing`/`Stopped` with room for a layer); in every
    /// other case a buffer handed in goes straight back through `retired`.
    pub fn tap_record(&mut self, buffer: Option<Vec<S>>)
        requires
            old(self).wf(),
        ensures
            final(self).wf(),
            final(self)@ == tap_record_spec(old(self)@, opt_view(buffer)),
    {
        match self.state {
            LooperState::Empty => {
                if let Some(buf) = buffer {
                    proof {
                        lemma_layers_view_push(self.layers@, buf);
                        assert(layers_view(self.layers@) =~= Seq::<Seq<S>>::empty());
                    }
                    self.layers.push(buf);
                    self.active = self.layers.len();
                    self.write_pos = 0;
                    self.len_frames = 0;
                    self.state = LooperState::Recording;
                }
            },
            LooperState::Recording => {
                retire(&mut self.retired, buffer);
                self.freeze();
                self.bump_content();
            },
            LooperState::Playing | LooperState::Stopped => {
                if let Some(buf) = buffer {
                    if self.active < LOOPER_MAX_LAYERS {
                        retire_above(&mut self.layers, &mut self.retired, self.active);
                        proof {
                            lemma_layers_view_push(self.layers@, buf);
                        }
                        self.layers.push(buf);
                        self.active = self.layers.len();
                        self.state = LooperState::Overdubbing;
                    } else {
                        retire(&mut self.retired, Some(buf));
                    }
                }
            },
            LooperState::Overdubbing => {
                retire(&mut self.retired, buffer);
                self.state = LooperState::Playing;
                self.bump_content();
            },
        }
    }

    /// Close the first recording: the loop length is fixed from here on.
    fn freeze(&mut self)
        requires
            old(self).layers@.len() >= 1,
            old(self).active <= old(self).layers@.len() <= LOOPER_MAX_LAYERS,
        ensures
            final(self)@ == (LooperView {
                state: LooperState::Playing,
                len_frames: frozen_len(old(self)@.write_pos, old(self)@.max_frames),
                cursor: 0,
                ..old(self)@
            }),
            final(self).wf(),
    {
        let w = if self.write_pos == 0 { 1 } else { self.write_pos };
        self.len_frames = if w <= self.max_frames { w } else { self.max_frames };
        self.read_frame = 0;
        self.read_half = false;
        self.state = LooperState::Playing;
    }

    /// Start (or resume) playback from the top of the loop. Nothing happens
    /// while no loop length is fixed.
    pub fn play(&mut self)
        requires
            old(self).wf(),
        ensures
            final(self).wf(),
            final(self)@ == play_spec(old(self)@),
    {
        if self.len_frames == 0 {
            return;
        }
        if self.state == LooperState::Recording {
            // A recording never has a fixed length, so this only guards the
            // transport against a future change of that rule.
            self.freeze();
            return;
        }
        self.read_frame = 0;
        self.read_half = false;
        self.state = LooperState::Playing;
    }

    /// Halt playback, keeping the material. A recording in progress is
    /// closed first.
    pub fn stop(&mut self)
        requires
            old(self).wf(),
        ensures
            final(self).wf(),
            final(self)@ == stop_spec(old(self)@),
            old(self)@.state != LooperState::Empty ==> final(self)@.state == LooperState::Stopped,
            final(self)@.layers == old(self)@.layers,
            final(self)@.active == old(self)@.active,
    {
        match self.state {
            LooperState::Empty => {},
            LooperState::Recording => {
                self.freeze();
                self.state = LooperState::Stopped;
                self.bump_content();
            },
            _ => self.state = LooperState::Stopped,
        }
    }

    /// Silence the newest audible layer. The layer stays in place as the
    /// redo tail until something new is recorded over it.
    pub fn undo(&mut self)
        requires
            old(self).wf(),
        ensures
            final(self).wf(),
            final(self)@ == undo_spec(old(self)@),
    {
        self.active = self.active.saturating_sub(1);
        self.bump_content();
    }

    /// Restore the layer the last undo silenced, if it is still there.
    pub fn redo(&mut self)
        requires
            old(self).wf(),
        ensures
            final(self).wf(),
            final(self)@ == redo_spec(old(self)@),
    {
        if self.active < self.layers.len() {
            self.active = self.active + 1;
        }
        self.bump_content();
    }

    /// Drop every layer (handed back newest first) and go back to `Empty`.
    pub fn clear(&mut self)
        requires
            old(self).wf(),
        ensures
            final(self).wf(),
            final(self)@ == clear_spec(old(self)@),
    {
        proof {
            assert(layers_view(self.layers@).subrange(0, self.layers@.len() as int) =~= layers_view(
                self.layers@,
            ));
        }
        retire_above(&mut self.layers, &mut self.retired, 0);
        self.active = 0;
        self.len_frames = 0;
        self.write_pos = 0;
        self.read_frame = 0;
        self.read_half = false;
        self.state = LooperState::Empty;
        self.bump_content();
        proof {
            assert(final_layers_empty(self.layers@));
        }
    }

    /// Loop level. The caller keeps it within 0..=1.
    pub fn set_mix(&mut self, mix: S)
        requires
            old(self).wf(),
        ensures
            final(self).wf(),
            final(self)@ == set_mix_spec(old(self)@, mix),
    {
        self.mix = mix;
        self.bump_content();
    }

    /// Per-layer-of-age gain applied to older layers. The caller keeps it
    /// within 0..=1; unity means no decay.
    pub fn set_decay(&mut self, decay: S)
        requires
            old(self).wf(),
        ensures
            final(self).wf(),
            final(self)@ == set_decay_spec(old(self)@, decay),
    {
        self.decay = decay;
        self.bump_content();
    }

    pub fn set_speed(&mut self, speed: LooperSpeed)
        requires
            old(self).wf(),
        ensures
            final(self).wf(),
            final(self)@ == set_speed_spec(old(self)@, speed),
    {
        self.speed = speed;
    }

    pub fn set_reverse(&mut self, reverse: bool)
        requires
            old(self).wf(),
        ensures
            final(self).wf(),
            final(self)@ == set_reverse_spec(old(self)@, reverse),
    {
        self.reverse = reverse;
        self.bump_content();
    }

    /// Install a layer recorded in an earlier session as the looper's only
    /// layer, `len_frames` long (at least one frame, at most the slot's
    /// size). The looper lands in `Stopped`: reopening a project must not
    /// start playing on its own. The layers it held are handed back, newest
    /// first.
    pub fn load_layer(&mut self, buffer: Vec<S>, len_frames: usize)
        requires
            old(self).wf(),
        ensures
            final(self).wf(),
            final(self)@ == load_layer_spec(old(self)@, buffer@, len_frames as nat),
    {
        proof {
            assert(layers_view(self.layers@).subrange(0, self.layers@.len() as int) =~= layers_view(
                self.layers@,
            ));
        }
        retire_above(&mut self.layers, &mut self.retired, 0);
        proof {
            lemma_layers_view_push(self.layers@, buffer);
            assert(layers_view(self.layers@) =~= Seq::<Seq<S>>::empty());
            assert(Seq::<Seq<S>>::empty().push(buffer@) =~= seq![buffer@]);
        }
        self.layers.push(buffer);
        self.active = self.layers.len();
        let l = if len_frames <= self.max_frames { len_frames } else { self.max_frames };
        self.len_frames = if l == 0 { 1 } else { l };
        self.write_pos = self.len_frames;
        self.read_frame = 0;
        self.read_half = false;
        self.state = LooperState::Stopped;
        self.bump_content();
    }

    /// Whether a buffer waits to be collected.
    pub fn has_retired(&self) -> (r: bool)
        ensures
            r == (self@.retired.len() > 0),
    {
        self.retired.len() > 0
    }

    /// Collect one buffer the slot is done with (the most recently handed
    /// back first). Call until it returns `None`.
    pub fn take_retired(&mut self) -> (r: Option<Vec<S>>)
        requires
            old(self).wf(),
        ensures
            final(self).wf(),
            old(self)@.retired.len() == 0 ==> r is None && final(self)@ == old(self)@,
            old(self)@.retired.len() > 0 ==> {
                &&& r matches Some(b) && b@ == old(self)@.retired.last()
                &&& final(self)@ == (LooperView {
                    retired: old(self)@.retired.drop_last(),
                    ..old(self)@
                })
            },
    {
        let ghost r0 = self.retired@;
        let r = self.retired.pop();
        proof {
            if r0.len() > 0 {
                assert(layers_view(self.retired@) =~= layers_view(r0).drop_last());
                assert(layers_view(r0).last() == r0.last()@);
            }
        }
        r
    }

    /// Move the playback cursor by one frame of playback at the current
    /// speed and direction, wrapping around the loop.
    fn advance(&mut self)
        requires
            old(self).wf(),
        ensures
            final(self).wf(),
            final(self)@ == (LooperView {
                cursor: advance_spec(
                    old(self)@.cursor,
                    old(self)@.len_frames,
                    old(self)@.speed,
                    old(self)@.reverse,
                ),
                ..old(self)@
            }),
    {
        if self.len_frames == 0 {
            return;
        }
        let steps: usize = match self.speed {
            LooperSpeed::Half => 1,
            LooperSpeed::Normal => 2,
            LooperSpeed::Double => 4,
        };
        let ghost c0: int = self@.cursor as int;
        let ghost m: int = 2 * self.len_frames as int;
        let ghost pre = self@;
        proof {
            lemma_small_mod(c0 as nat, m as nat);
        }
        let mut k: usize = 0;
        while k < steps
            invariant
                self.wf(),
                self.len_frames > 0,
                m == 2 * self.len_frames,
                k <= steps,
                steps as int == speed_half_steps(pre.speed),
                self.reverse == pre.reverse,
                self@ == (LooperView { cursor: self@.cursor, ..pre }),
                self@.cursor as int == if pre.reverse { (c0 - k) % m } else { (c0 + k) % m },
            decreases steps - k,
        {
            let ghost c: int = self@.cursor as int;
            proof {
                lemma_small_mod(1, m as nat);
            }
            if self.reverse {
                if self.read_half {
                    self.read_half = false;
                } else {
                    self.read_frame = if self.read_frame == 0 {
                        self.len_frames - 1
                    } else {
                        self.read_frame - 1
                    };
                    self.read_half = true;
                }
                proof {
                    lemma_sub_mod_noop(c0 - k, 1, m);
                    assert((c - 1) % m == (c0 - k - 1) % m);
                    if c > 0 {
                        lemma_small_mod((c - 1) as nat, m as nat);
                        assert(self@.cursor == c - 1);
                    } else {
                        assert((-1int) % m == m - 1) by {
                            vstd::arithmetic::div_mod::lemma_fundamental_div_mod_converse(-1, m, -1, m - 1);
                        }
                        assert(self@.cursor == m - 1);
                    }
                }
            } else {
                if self.read_half {
                    self.read_frame = if self.read_frame + 1 == self.len_frames {
                        0
                    } else {
                        self.read_frame + 1
                    };
                    self.read_half = false;
                } else {
                    self.read_half = true;
                }
                proof {
                    lemma_add_mod_noop(c0 + k, 1, m);
                    assert((c + 1) % m == (c0 + k + 1) % m);
                    if c + 1 < m {
                        lemma_small_mod((c + 1) as nat, m as nat);
                    } else {
                        vstd::arithmetic::div_mod::lemma_mod_self_0(m);
                    }
                }
            }
            k = k + 1;
        }
    }

    /// Advance one frame: record `dry` when armed, move the playback cursor,
    /// and say which recorded frames the loop plays at this instant (`None`:
    /// the loop is silent).
    ///
    /// While overdubbing, the layer being written is not yet audible; it
    /// becomes audible when the tap closes it. The record ceiling
    /// (`max_frames`) closes a first recording by itself.
    pub fn tick(&mut self, dry: [S; 2]) -> (r: Option<PlaybackRead>)
        requires
            old(self).wf(),
            tickable(old(self)@),
        ensures
            final(self).wf(),
            final(self)@ == tick_spec(old(self)@, dry),
            r == tick_read_spec(old(self)@),
    {
        match self.state {
            LooperState::Empty | LooperState::Stopped => None,
            LooperState::Recording => {
                write_frame(&mut self.layers, self.active - 1, self.write_pos, dry);
                self.write_pos = self.write_pos + 1;
                if self.write_pos >= self.max_frames {
                    self.freeze();
                    self.bump_content();
                }
                None
            },
            LooperState::Playing | LooperState::Overdubbing => {
                let overdubbing = self.state == LooperState::Overdubbing;
                let audible = if overdubbing {
                    self.active - 1
                } else {
                    self.active
                };
                let out = self.read_plan(audible);
                if overdubbing {
                    write_frame(&mut self.layers, self.active - 1, self.read_frame, dry);
                }
                self.advance();
                out
            },
        }
    }

    /// The frames `count` layers play at the current cursor.
    fn read_plan(&self, count: usize) -> (r: Option<PlaybackRead>)
        requires
            self.wf(),
        ensures
            r == read_plan_spec(count as nat, self@.cursor, self@.len_frames),
    {
        if count == 0 || self.len_frames == 0 {
            return None;
        }
        let i1 = if self.read_frame + 1 == self.len_frames {
            0
        } else {
            self.read_frame + 1
        };
        proof {
            let c = self@.cursor as int;
            let len = self.len_frames as int;
            assert(c / 2 == self.read_frame) by {
                vstd::arithmetic::div_mod::lemma_fundamental_div_mod_converse(
                    c,
                    2,
                    self.read_frame as int,
                    if self.read_half { 1 } else { 0 },
                );
            }
            assert(c % 2 == if self.read_half { 1int } else { 0int }) by {
                vstd::arithmetic::div_mod::lemma_fundamental_div_mod_converse(
                    c,
                    2,
                    self.read_frame as int,
                    if self.read_half { 1 } else { 0 },
                );
            }
            lemma_small_mod(self.read_frame as nat, len as nat);
            if self.read_frame + 1 < len {
                lemma_small_mod((self.read_frame + 1) as nat, len as nat);
            } else {
                vstd::arithmetic::div_mod::lemma_mod_self_0(len);
            }
        }
        Some(PlaybackRead { count, i0: self.read_frame, i1, half: self.read_half })
    }

    fn bump_content(&mut self)
        ensures
            final(self)@ == (LooperView { content_rev: next_rev(old(self)@.content_rev), ..old(self)@ }),
            final(self).wf() == old(self).wf(),
    {
        self.content_rev = self.content_rev.wrapping_add(1);
    }
}

/// `layers` after frame `frame` of layer `layer` is overwritten with `v`
/// (nothing happens when the layer or the frame does not exist).
pub open spec fn write_frame_spec<S>(layers: Seq<Seq<S>>, layer: int, frame: int, v: [S; 2]) -> Seq<Seq<S>> {
    if 0 <= layer < layers.len() && 0 <= frame && 2 * frame + 1 < layers[layer].len() {
        layers.update(layer, layers[layer].update(2 * frame, v[0]).update(2 * frame + 1, v[1]))
    } else {
        layers
    }
}

/// What playing `count` layers at `cursor` on a loop of `len` frames reads.
pub open spec fn read_plan_spec(count: nat, cursor: nat, len: nat) -> Option<PlaybackRead> {
    if count == 0 || len == 0 {
        None
    } else {
        Some(PlaybackRead {
            count: count as usize,
            i0: ((cursor / 2) % len) as usize,
            i1: ((cursor / 2 + 1) % len) as usize,
            half: cursor % 2 == 1,
        })
    }
}

/// Redo restores exactly the layer the last undo silenced: the audible
/// count comes back and the layers themselves were never touched.
/// Stopping halts any looper that holds a loop or a take: whatever it was
/// doing (playing, overdubbing, recording or already stopped) it lands in
/// `Stopped`, with every layer, the audible count and the buffers handed
/// back untouched. A loop whose length was already fixed keeps that length,
/// and an empty looper stays as it was.
pub proof fn law_stop_halts<S>(pre: LooperView<S>)
    ensures
        pre.state != LooperState::Empty ==> stop_spec(pre).state == LooperState::Stopped,
        pre.state == LooperState::Empty ==> stop_spec(pre) == pre,
        stop_spec(pre).layers == pre.layers,
        stop_spec(pre).active == pre.active,
        stop_spec(pre).retired == pre.retired,
        pre.state != LooperState::Recording ==> stop_spec(pre).len_frames == pre.len_frames,
        stop_spec(stop_spec(pre)) == stop_spec(pre),
{
}

pub proof fn law_redo_restores_undo<S>(v: LooperView<S>)
    requires
        0 < v.active <= v.layers.len(),
    ensures
        redo_spec(undo_spec(v)).active == v.active,
        redo_spec(undo_spec(v)).layers == v.layers,
        redo_spec(undo_spec(v)).retired == v.retired,
        redo_spec(undo_spec(v)).state == v.state,
{
}

/// On a looper, undo then redo brings back exactly what the undo silenced:
/// the audible count, the layers, what was handed back and the state.
pub proof fn law_slot_redo_restores_undo<S: Copy>(slot: &LooperSlot<S>)
    requires
        slot.wf(),
        slot@.active > 0,
    ensures
        redo_spec(undo_spec(slot@)).active == slot@.active,
        redo_spec(undo_spec(slot@)).layers == slot@.layers,
        redo_spec(undo_spec(slot@)).retired == slot@.retired,
        redo_spec(undo_spec(slot@)).state == slot@.state,
{
    slot.lemma_wf_layer_bounds();
    law_redo_restores_undo(slot@);
}

/// Recording over an undone layer discards it for good: once an overdub
/// starts, redo has nothing left to restore, and the discarded layers are
/// the ones handed back.
pub proof fn law_overdub_drops_redo_tail<S>(v: LooperView<S>, buffer: Seq<S>)
    requires
        v.active <= v.layers.len(),
    ensures
        redo_spec(overdub_start_spec(v, buffer)).active == overdub_start_spec(v, buffer).active,
        overdub_start_spec(v, buffer).retired.len() == v.retired.len() + (v.layers.len() - v.active),
{
}

/// Undo on a looper with nothing audible changes nothing but the revision.
pub proof fn law_undo_floor<S>(v: LooperView<S>)
    requires
        v.active == 0,
    ensures
        undo_spec(v).active == 0,
        undo_spec(v).layers == v.layers,
{
}

/// Playing a loop backwards retraces, step for step, where playing it
/// forwards went: one frame forward then one frame in reverse puts the
/// cursor back where it was.
pub proof fn law_reverse_retraces<S>(cursor: nat, len: nat, speed: LooperSpeed)
    requires
        cursor < 2 * len,
    ensures
        advance_spec(advance_spec(cursor, len, speed, false), len, speed, true) == cursor,
{
    if len > 0 {
        let m = 2 * len as int;
        let st = speed_half_steps(speed);
        let fwd = (cursor + st) % m;
        vstd::arithmetic::div_mod::lemma_sub_mod_noop(cursor + st, st, m);
        vstd::arithmetic::div_mod::lemma_sub_mod_noop_right(fwd, st, m);
        lemma_small_mod(cursor, m as nat);
        assert((fwd - st) % m == cursor);
    }
}

/// Overwrite frame `frame` of layer `layer` with `v`, when both exist.
fn write_frame<S: Copy>(layers: &mut Vec<Vec<S>>, layer: usize, frame: usize, v: [S; 2])
    ensures
        final(layers)@.len() == old(layers)@.len(),
        layers_view(final(layers)@) == write_frame_spec(
            layers_view(old(layers)@),
            layer as int,
            frame as int,
            v,
        ),
{
    if layer < layers.len() {
        let n = layers[layer].len();
        if frame < n / 2 {
            let ghost before = layers@;
            let mut buf: Vec<S> = Vec::new();
            std::mem::swap(&mut buf, &mut layers[layer]);
            buf.set(2 * frame, v[0]);
            buf.set(2 * frame + 1, v[1]);
            layers.set(layer, buf);
            proof {
                assert(layers_view(before)[layer as int] == before[layer as int]@);
                assert(layers_view(layers@) =~= write_frame_spec(
                    layers_view(before),
                    layer as int,
                    frame as int,
                    v,
                ));
            }
        } else {
            proof {
                assert(layers_view(layers@)[layer as int] == layers@[layer as int]@);
            }
        }
    }
}

spec fn final_layers_empty<S>(v: Seq<Vec<S>>) -> bool {
    layers_view(v) =~= Seq::<Seq<S>>::empty()
}

proof fn lemma_layers_view_push<S>(v: Seq<Vec<S>>, b: Vec<S>)
    ensures
        layers_view(v.push(b)) == layers_view(v).push(b@),
{
    assert(layers_view(v.push(b)) =~= layers_view(v).push(b@));
}

/// Hand a buffer that may be absent back to `retired`.
fn retire<S>(retired: &mut Vec<Vec<S>>, buffer: Option<Vec<S>>)
    ensures
        layers_view(final(retired)@) == retire_spec(layers_view(old(retired)@), opt_view(buffer)),
{
    if let Some(buf) = buffer {
        proof {
            lemma_layers_view_push(retired@, buf);
        }
        retired.push(buf);
    }
}

/// Move `layers[keep..]` to `retired`, newest first.
fn retire_above<S>(layers: &mut Vec<Vec<S>>, retired: &mut Vec<Vec<S>>, keep: usize)
    requires
        keep <= old(layers)@.len(),
    ensures
        final(layers)@.len() == keep,
        layers_view(final(layers)@) == layers_view(old(layers)@).subrange(0, keep as int),
        layers_view(final(retired)@) == layers_view(old(retired)@) + layers_view(
            old(layers)@,
        ).subrange(keep as int, old(layers)@.len() as int).reverse(),
{
    let ghost l0 = layers_view(layers@);
    let ghost r0 = layers_view(retired@);
    while layers.len() > keep
        invariant
            keep <= layers@.len() <= l0.len(),
            layers_view(layers@) == l0.subrange(0, layers@.len() as int),
            layers_view(retired@) == r0 + l0.subrange(layers@.len() as int, l0.len() as int).reverse(),
        decreases layers@.len(),
    {
        let ghost n = layers@.len();
        let ghost before = layers@;
        let buf = layers.pop().unwrap();
        proof {
            assert(layers_view(before)[n - 1] == before[n - 1]@);
            assert(l0[n - 1] == layers_view(before)[n - 1]);
            lemma_layers_view_push(retired@, buf);
            assert(layers_view(layers@) =~= l0.subrange(0, layers@.len() as int));
            assert(buf@ == l0[n - 1]);
            assert(l0.subrange(n - 1, l0.len() as int).reverse() =~= l0.subrange(
                n as int,
                l0.len() as int,
            ).reverse().push(l0[n - 1]));
        }
        retired.push(buf);
    }
    proof {
        assert(layers_view(layers@) =~= l0.subrange(0, keep as int));
    }
}

} // verus!
