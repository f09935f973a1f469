//! Building a chain's block nodes: instance serials, the scratch a
//! processor needs, and whether an existing node can be reused when the
//! chain is rebuilt.
use vstd::prelude::*;
use crate::audio_frame::AudioChannelLayout;
use crate::block_toggle::{FadeState, FADE_IN_FRAMES};
use crate::endpoints::{pos_from, string_views};

verus! {

/// Hands out the serial numbers that tell block-node instances apart.
pub struct BlockSerials {
    next: u64,
}

/// The serial after `s`, wrapping like an atomic counter.
pub open spec fn serial_after(s: u64) -> u64 {
    if s == u64::MAX {
        0
    } else {
        (s + 1) as u64
    }
}

impl BlockSerials {
    /// The serial the next node gets.
    pub closed spec fn upcoming(&self) -> u64 {
        self.next
    }

    /// Serials start at 1.
    pub fn new() -> (r: Self)
        ensures
            r.upcoming() == 1,
    {
        BlockSerials { next: 1 }
    }

    /// A fresh serial for a new block node.
    pub fn next_block_instance_serial(&mut self) -> (r: u64)
        ensures
            r == old(self).upcoming(),
            final(self).upcoming() == serial_after(r),
    {
        let r = self.next;
        self.next = self.next.wrapping_add(1);
        r
    }
}

/// Two serials handed out one after the other increase, short of the
/// counter's wrap.
pub proof fn law_serials_increase(s: u64)
    requires
        s < u64::MAX,
    ensures
        serial_after(s) > s,
{
}

/// The processor of an audio block, by channel shape: `M` is a mono and
/// `St` a stereo processor.
pub enum AudioProcessor<M, St> {
    Mono(M),
    DualMono { left: M, right: M },
    Stereo(St),
    StereoFromMono(St),
}

/// The per-buffer scratch a processor works in.
pub enum ProcessorScratch<S> {
    /// A bypass node processes nothing.
    Empty,
    Mono(Vec<S>),
    DualMono { left: Vec<S>, right: Vec<S> },
    Stereo(Vec<[S; 2]>),
}

/// Empty scratch of the shape `processor` works in: a mono processor gets
/// a mono buffer, a dual-mono pair two, anything stereo a stereo buffer.
pub fn processor_scratch<M, St, S>(processor: &AudioProcessor<M, St>) -> (r: ProcessorScratch<S>)
    ensures
        processor is Mono ==> (r matches ProcessorScratch::Mono(v) && v@.len() == 0),
        processor is DualMono ==> (r matches ProcessorScratch::DualMono { left, right }
            && left@.len() == 0 && right@.len() == 0),
        (processor is Stereo || processor is StereoFromMono) ==> (r matches ProcessorScratch::Stereo(
            v,
        ) && v@.len() == 0),
{
    match processor {
        AudioProcessor::Mono(_) => ProcessorScratch::Mono(Vec::new()),
        AudioProcessor::DualMono { .. } => ProcessorScratch::DualMono {
            left: Vec::new(),
            right: Vec::new(),
        },
        AudioProcessor::Stereo(_) | AudioProcessor::StereoFromMono(_) => ProcessorScratch::Stereo(
            Vec::new(),
        ),
    }
}

/// What is known of an existing node when its block comes round again.
#[derive(Clone, Copy, Debug, PartialEq, Eq, Structural)]
pub struct ReuseFacts {
    /// The node was built for the bus layout the block now receives.
    pub layout_matches: bool,
    /// The block is exactly what the node was built from.
    pub snapshot_equal: bool,
    /// The block differs from the node's snapshot at most in `enabled`.
    pub equal_but_enabled: bool,
    /// The node is a bypass stand-in with no processor.
    pub node_is_bypass: bool,
    /// The node's snapshot had the block enabled.
    pub node_was_enabled: bool,
}

/// What to do with an existing node for an enabled, non-routing block.
#[derive(Clone, Copy, Debug, PartialEq, Eq, Structural)]
pub enum ReuseDecision {
    /// Build a new node.
    Rebuild,
    /// Keep the node as it is.
    ReuseAsIs,
    /// Keep the node's processor, take the new snapshot, and start a fade-in
    /// when the block was just turned on.
    ReuseWithSnapshot { fade_in: bool },
}

pub open spec fn reuse_spec(f: ReuseFacts, block_enabled: bool) -> ReuseDecision {
    if !f.layout_matches {
        ReuseDecision::Rebuild
    } else if f.snapshot_equal {
        ReuseDecision::ReuseAsIs
    } else if f.equal_but_enabled {
        if f.node_is_bypass && block_enabled {
            ReuseDecision::Rebuild
        } else {
            ReuseDecision::ReuseWithSnapshot { fade_in: !f.node_was_enabled && block_enabled }
        }
    } else {
        ReuseDecision::Rebuild
    }
}

/// Whether an existing node can serve a block again. A node built for
/// another layout, or from different parameters, is rebuilt. When only
/// `enabled` changed the processor is kept, unless the node is a bypass
/// stand-in being turned on (it has nothing to fade in).
pub fn try_reuse_decision(facts: ReuseFacts, block_enabled: bool) -> (r: ReuseDecision)
    ensures
        r == reuse_spec(facts, block_enabled),
{
    if !facts.layout_matches {
        return ReuseDecision::Rebuild;
    }
    if facts.snapshot_equal {
        return ReuseDecision::ReuseAsIs;
    }
    if facts.equal_but_enabled {
        if facts.node_is_bypass && block_enabled {
            return ReuseDecision::Rebuild;
        }
        return ReuseDecision::ReuseWithSnapshot { fade_in: !facts.node_was_enabled && block_enabled };
    }
    ReuseDecision::Rebuild
}

/// What becomes of one block when the chain's nodes are (re)built.
#[derive(Clone, Copy, Debug, PartialEq, Eq, Structural)]
pub enum BlockPlan {
    /// A disabled block keeps its existing node (processor alive for an
    /// instant re-enable), fading out when it was just turned off.
    KeepDisabled { fade_out: bool },
    /// A disabled block with no node gets a bypass stand-in.
    NewBypass,
    /// Input, output and insert blocks are routing, not processing.
    Skip,
    /// A select block is rebuilt around its options.
    Select,
    /// An enabled processing block: reuse or rebuild.
    Process(ReuseDecision),
}

/// The kind of block being planned, as far as the plan cares.
#[derive(Clone, Copy, Debug, PartialEq, Eq, Structural)]
pub enum PlanKind {
    Routing,
    Select,
    Processing,
}

pub open spec fn plan_spec(
    block_enabled: bool,
    kind: PlanKind,
    existing: Option<ReuseFacts>,
) -> BlockPlan {
    if !block_enabled {
        match existing {
            Some(f) => BlockPlan::KeepDisabled { fade_out: f.node_was_enabled && !f.node_is_bypass },
            None => BlockPlan::NewBypass,
        }
    } else {
        match kind {
            PlanKind::Routing => BlockPlan::Skip,
            PlanKind::Select => BlockPlan::Select,
            PlanKind::Processing => match existing {
                Some(f) => BlockPlan::Process(reuse_spec(f, true)),
                None => BlockPlan::Process(ReuseDecision::Rebuild),
            },
        }
    }
}

/// Plan one block of a rebuild: `existing` describes the node built for
/// the same block id last time, if there is one.
pub fn plan_block(block_enabled: bool, kind: PlanKind, existing: Option<ReuseFacts>) -> (r: BlockPlan)
    ensures
        r == plan_spec(block_enabled, kind, existing),
{
    if !block_enabled {
        return match existing {
            Some(f) => BlockPlan::KeepDisabled { fade_out: f.node_was_enabled && !f.node_is_bypass },
            None => BlockPlan::NewBypass,
        };
    }
    match kind {
        PlanKind::Routing => BlockPlan::Skip,
        PlanKind::Select => BlockPlan::Select,
        PlanKind::Processing => match existing {
            Some(f) => BlockPlan::Process(try_reuse_decision(f, true)),
            None => BlockPlan::Process(ReuseDecision::Rebuild),
        },
    }
}

/// How a model processes audio, as its schema declares.
#[derive(Clone, Copy, Debug, PartialEq, Eq, Structural)]
pub enum ModelAudioMode {
    /// One mono pipeline, whatever the bus.
    MonoOnly,
    /// One mono pipeline per channel.
    DualMono,
    /// A stereo pipeline, on a stereo bus only.
    TrueStereo,
    /// Takes mono or stereo, always yields stereo.
    MonoToStereo,
}

/// What a model's builder hands back: a mono or a stereo processor.
pub enum BlockProcessor<M, St> {
    Mono(M),
    Stereo(St),
}

/// The processor shape a model runs as.
#[derive(Clone, Copy, Debug, PartialEq, Eq, Structural)]
pub enum ProcessorKind {
    Mono,
    DualMono,
    Stereo,
    StereoFromMono,
}

pub open spec fn kind_of<M, St>(p: AudioProcessor<M, St>) -> ProcessorKind {
    match p {
        AudioProcessor::Mono(_) => ProcessorKind::Mono,
        AudioProcessor::DualMono { .. } => ProcessorKind::DualMono,
        AudioProcessor::Stereo(_) => ProcessorKind::Stereo,
        AudioProcessor::StereoFromMono(_) => ProcessorKind::StereoFromMono,
    }
}

/// The processor a model of `mode` runs as on an `input` bus, if it can run
/// there at all: a true-stereo model cannot run on a mono bus.
pub open spec fn processor_plan_spec(mode: ModelAudioMode, input: AudioChannelLayout) -> Option<ProcessorKind> {
    match (mode, input) {
        (ModelAudioMode::MonoOnly, _) => Some(ProcessorKind::Mono),
        (ModelAudioMode::DualMono, AudioChannelLayout::Mono) => Some(ProcessorKind::Mono),
        (ModelAudioMode::DualMono, AudioChannelLayout::Stereo) => Some(ProcessorKind::DualMono),
        (ModelAudioMode::TrueStereo, AudioChannelLayout::Stereo) => Some(ProcessorKind::Stereo),
        (ModelAudioMode::MonoToStereo, AudioChannelLayout::Mono) => Some(ProcessorKind::StereoFromMono),
        (ModelAudioMode::MonoToStereo, AudioChannelLayout::Stereo) => Some(ProcessorKind::Stereo),
        _ => None,
    }
}

pub fn processor_plan(mode: ModelAudioMode, input: AudioChannelLayout) -> (r: Option<ProcessorKind>)
    ensures
        r == processor_plan_spec(mode, input),
{
    match (mode, input) {
        (ModelAudioMode::MonoOnly, _) => Some(ProcessorKind::Mono),
        (ModelAudioMode::DualMono, AudioChannelLayout::Mono) => Some(ProcessorKind::Mono),
        (ModelAudioMode::DualMono, AudioChannelLayout::Stereo) => Some(ProcessorKind::DualMono),
        (ModelAudioMode::TrueStereo, AudioChannelLayout::Stereo) => Some(ProcessorKind::Stereo),
        (ModelAudioMode::MonoToStereo, AudioChannelLayout::Mono) => Some(ProcessorKind::StereoFromMono),
        (ModelAudioMode::MonoToStereo, AudioChannelLayout::Stereo) => Some(ProcessorKind::Stereo),
        _ => None,
    }
}

/// Why a block's processor could not be built.
pub enum ProcessorBuildError<E> {
    /// The model's audio mode does not accept the bus it is placed on.
    LayoutRefused,
    /// The audio mode accepts the bus but has no way to run on it.
    CannotRun,
    /// The model's builder failed.
    Build(E),
    /// The builder returned the other shape than the one asked for.
    WrongShape { wanted_mono: bool },
}

/// A built processor and the bus layout it leaves behind.
pub struct ProcessorBuildOutcome<M, St> {
    pub processor: AudioProcessor<M, St>,
    pub output_layout: AudioChannelLayout,
}

/// Whether a builder result is the right shape for the layout it was
/// asked for: mono for a mono bus, stereo for a stereo one.
pub open spec fn builds_right_shape<M, St, E>(l: AudioChannelLayout, res: Result<BlockProcessor<M, St>, E>) -> bool {
    match res {
        Ok(BlockProcessor::Mono(_)) => l == AudioChannelLayout::Mono,
        Ok(BlockProcessor::Stereo(_)) => l == AudioChannelLayout::Stereo,
        Err(_) => false,
    }
}

/// The layout the builder is asked for to make a processor of kind `k`:
/// mono for each mono pipeline, stereo for a stereo one.
pub open spec fn requested_layout(k: ProcessorKind) -> AudioChannelLayout {
    match k {
        ProcessorKind::Mono | ProcessorKind::DualMono => AudioChannelLayout::Mono,
        _ => AudioChannelLayout::Stereo,
    }
}

/// A builder result as a mono processor.
pub fn expect_mono_processor<M, St, E>(built: Result<BlockProcessor<M, St>, E>) -> (r: Result<M, ProcessorBuildError<E>>)
    ensures
        match built {
            Ok(BlockProcessor::Mono(m)) => r == Ok::<M, ProcessorBuildError<E>>(m),
            Ok(BlockProcessor::Stereo(_)) => r matches Err(ProcessorBuildError::WrongShape { wanted_mono }) && wanted_mono,
            Err(e) => r == Err::<M, ProcessorBuildError<E>>(ProcessorBuildError::Build(e)),
        },
{
    match built {
        Ok(BlockProcessor::Mono(m)) => Ok(m),
        Ok(BlockProcessor::Stereo(_)) => Err(ProcessorBuildError::WrongShape { wanted_mono: true }),
        Err(e) => Err(ProcessorBuildError::Build(e)),
    }
}

/// A builder result as a stereo processor.
pub fn expect_stereo_processor<M, St, E>(built: Result<BlockProcessor<M, St>, E>) -> (r: Result<St, ProcessorBuildError<E>>)
    ensures
        match built {
            Ok(BlockProcessor::Stereo(st)) => r == Ok::<St, ProcessorBuildError<E>>(st),
            Ok(BlockProcessor::Mono(_)) => r matches Err(ProcessorBuildError::WrongShape { wanted_mono }) && !wanted_mono,
            Err(e) => r == Err::<St, ProcessorBuildError<E>>(ProcessorBuildError::Build(e)),
        },
{
    match built {
        Ok(BlockProcessor::Stereo(st)) => Ok(st),
        Ok(BlockProcessor::Mono(_)) => Err(ProcessorBuildError::WrongShape { wanted_mono: false }),
        Err(e) => Err(ProcessorBuildError::Build(e)),
    }
}

/// Build the processor of a model of `mode` placed on an `input_layout`
/// bus. `output_layout` is what the model's schema says it leaves on the
/// bus (`None`: it refuses this input). The builder is asked for a mono
/// processor for each mono pipeline and a stereo one for a stereo pipeline:
/// one mono pipeline for a mono-only model (and for a dual-mono model on a
/// mono bus), two for a dual-mono model on a stereo bus, one stereo
/// pipeline otherwise. When every builder call succeeds with the shape it
/// was asked for, so does the build.
pub fn build_audio_processor_for_model<M, St, E, F>(
    mode: ModelAudioMode,
    input_layout: AudioChannelLayout,
    output_layout: Option<AudioChannelLayout>,
    builder: F,
) -> (r: Result<ProcessorBuildOutcome<M, St>, ProcessorBuildError<E>>) where
    F: Fn(AudioChannelLayout) -> Result<BlockProcessor<M, St>, E>,

    requires
        forall|l: AudioChannelLayout| call_requires(builder, (l,)),
    ensures
        output_layout is None ==> (r matches Err(ProcessorBuildError::LayoutRefused)),
        output_layout is Some && processor_plan_spec(mode, input_layout) is None ==> (r matches Err(
            ProcessorBuildError::CannotRun,
        )),
        r matches Ok(o) ==> output_layout == Some(o.output_layout) && processor_plan_spec(mode, input_layout)
            == Some(kind_of(o.processor)),
        output_layout is Some && processor_plan_spec(mode, input_layout) is Some ==> (r is Ok || r matches Err(
            ProcessorBuildError::Build(_),
        ) || r matches Err(ProcessorBuildError::WrongShape { .. })),
        r matches Err(ProcessorBuildError::Build(e)) ==> call_ensures(
            builder,
            (requested_layout(processor_plan_spec(mode, input_layout)->0),),
            Err::<BlockProcessor<M, St>, E>(e),
        ),
        r matches Err(ProcessorBuildError::WrongShape { .. }) ==> exists|res: Result<BlockProcessor<M, St>, E>|
            call_ensures(builder, (requested_layout(processor_plan_spec(mode, input_layout)->0),), res)
                && res is Ok && !builds_right_shape(requested_layout(processor_plan_spec(mode, input_layout)->0), res),
        (output_layout is Some && processor_plan_spec(mode, input_layout) is Some && forall|
            l: AudioChannelLayout,
            res: Result<BlockProcessor<M, St>, E>,
        | call_ensures(builder, (l,), res) ==> builds_right_shape(l, res)) ==> r is Ok,
{
    let out = match output_layout {
        None => return Err(ProcessorBuildError::LayoutRefused),
        Some(o) => o,
    };
    let plan = match processor_plan(mode, input_layout) {
        None => return Err(ProcessorBuildError::CannotRun),
        Some(p) => p,
    };
    let processor = match plan {
        ProcessorKind::Mono => {
            let built = builder(AudioChannelLayout::Mono);
            let ghost g = built;
            proof {
                if forall|l: AudioChannelLayout, res: Result<BlockProcessor<M, St>, E>|
                    call_ensures(builder, (l,), res) ==> builds_right_shape(l, res) {
                    assert(builds_right_shape(AudioChannelLayout::Mono, built));
                }
            }
            match expect_mono_processor(built) {
                Ok(m) => AudioProcessor::Mono(m),
                Err(e) => {
                    assert(call_ensures(builder, (AudioChannelLayout::Mono,), g));
                    proof {
                        let req = requested_layout(processor_plan_spec(mode, input_layout)->0);
                        assert(req == AudioChannelLayout::Mono);
                        assert(call_ensures(builder, (req,), g));
                        if e is WrongShape {
                            assert(g is Ok && !builds_right_shape(req, g));
                        }
                    }
                    return Err(e);
                },
            }
        },
        ProcessorKind::DualMono => {
            let l = builder(AudioChannelLayout::Mono);
            let ghost gl = l;
            proof {
                if forall|l: AudioChannelLayout, res: Result<BlockProcessor<M, St>, E>|
                    call_ensures(builder, (l,), res) ==> builds_right_shape(l, res) {
                    assert(builds_right_shape(AudioChannelLayout::Mono, l));
                }
            }
            let left = match expect_mono_processor(l) {
                Ok(m) => m,
                Err(e) => {
                    assert(call_ensures(builder, (AudioChannelLayout::Mono,), gl));
                    proof {
                        let req = requested_layout(processor_plan_spec(mode, input_layout)->0);
                        assert(req == AudioChannelLayout::Mono);
                        assert(call_ensures(builder, (req,), gl));
                        if e is WrongShape {
                            assert(gl is Ok && !builds_right_shape(req, gl));
                        }
                    }
                    return Err(e);
                },
            };
            let rr = builder(AudioChannelLayout::Mono);
            let ghost gr = rr;
            proof {
                if forall|l: AudioChannelLayout, res: Result<BlockProcessor<M, St>, E>|
                    call_ensures(builder, (l,), res) ==> builds_right_shape(l, res) {
                    assert(builds_right_shape(AudioChannelLayout::Mono, rr));
                }
            }
            let right = match expect_mono_processor(rr) {
                Ok(m) => m,
                Err(e) => {
                    assert(call_ensures(builder, (AudioChannelLayout::Mono,), gr));
                    proof {
                        let req = requested_layout(processor_plan_spec(mode, input_layout)->0);
                        assert(req == AudioChannelLayout::Mono);
                        assert(call_ensures(builder, (req,), gr));
                        if e is WrongShape {
                            assert(gr is Ok && !builds_right_shape(req, gr));
                        }
                    }
                    return Err(e);
                },
            };
            AudioProcessor::DualMono { left, right }
        },
        ProcessorKind::Stereo => {
            let built = builder(AudioChannelLayout::Stereo);
            let ghost g = built;
            proof {
                if forall|l: AudioChannelLayout, res: Result<BlockProcessor<M, St>, E>|
                    call_ensures(builder, (l,), res) ==> builds_right_shape(l, res) {
                    assert(builds_right_shape(AudioChannelLayout::Stereo, built));
                }
            }
            match expect_stereo_processor(built) {
                Ok(st) => AudioProcessor::Stereo(st),
                Err(e) => {
                    assert(call_ensures(builder, (AudioChannelLayout::Stereo,), g));
                    proof {
                        let req = requested_layout(processor_plan_spec(mode, input_layout)->0);
                        assert(req == AudioChannelLayout::Stereo);
                        assert(call_ensures(builder, (req,), g));
                        if e is WrongShape {
                            assert(g is Ok && !builds_right_shape(req, g));
                        }
                    }
                    return Err(e);
                },
            }
        },
        ProcessorKind::StereoFromMono => {
            let built = builder(AudioChannelLayout::Stereo);
            let ghost g = built;
            proof {
                if forall|l: AudioChannelLayout, res: Result<BlockProcessor<M, St>, E>|
                    call_ensures(builder, (l,), res) ==> builds_right_shape(l, res) {
                    assert(builds_right_shape(AudioChannelLayout::Stereo, built));
                }
            }
            match expect_stereo_processor(built) {
                Ok(st) => AudioProcessor::StereoFromMono(st),
                Err(e) => {
                    assert(call_ensures(builder, (AudioChannelLayout::Stereo,), g));
                    proof {
                        let req = requested_layout(processor_plan_spec(mode, input_layout)->0);
                        assert(req == AudioChannelLayout::Stereo);
                        assert(call_ensures(builder, (req,), g));
                        if e is WrongShape {
                            assert(g is Ok && !builds_right_shape(req, g));
                        }
                    }
                    return Err(e);
                },
            }
        },
    };
    Ok(ProcessorBuildOutcome { processor, output_layout: out })
}

/// Why a select block could not be built.
#[derive(Clone, Copy, Debug, PartialEq, Eq, Structural)]
pub enum SelectError {
    /// Two options leave different layouts on the bus: switching between
    /// them would change the layout under the blocks that follow.
    MixedLayouts,
    /// The selected option is not among the options.
    UnknownOption,
}

/// Whether every option leaves the same layout.
pub open spec fn layouts_agree(layouts: Seq<AudioChannelLayout>) -> bool {
    forall|i: int| 0 <= i < layouts.len() ==> #[trigger] layouts[i] == layouts[0]
}

/// The layout a select block leaves on the bus: every option must leave
/// the same one, and it is the selected option's (the first option with the
/// selected id).
pub fn select_output_layout(
    option_ids: &Vec<String>,
    option_layouts: &Vec<AudioChannelLayout>,
    selected: &String,
) -> (r: Result<AudioChannelLayout, SelectError>)
    requires
        option_ids@.len() == option_layouts@.len(),
    ensures
        !layouts_agree(option_layouts@) ==> r == Err::<AudioChannelLayout, SelectError>(
            SelectError::MixedLayouts,
        ),
        layouts_agree(option_layouts@) && pos_from(string_views(option_ids@), selected@, 0) < 0 ==> r
            == Err::<AudioChannelLayout, SelectError>(SelectError::UnknownOption),
        layouts_agree(option_layouts@) && pos_from(string_views(option_ids@), selected@, 0) >= 0 ==> r
            == Ok::<AudioChannelLayout, SelectError>(
            option_layouts@[pos_from(string_views(option_ids@), selected@, 0)],
        ),
{
    let mut i: usize = 1;
    while i < option_layouts.len()
        invariant
            1 <= i,
            i <= option_layouts@.len() || option_layouts@.len() == 0,
            forall|k: int| 0 <= k < i && k < option_layouts@.len() ==> #[trigger] option_layouts@[k] == option_layouts@[0],
        decreases option_layouts@.len() - i,
    {
        if option_layouts[i] != option_layouts[0] {
            return Err(SelectError::MixedLayouts);
        }
        i = i + 1;
    }
    match crate::endpoints::find_string(option_ids, selected) {
        Some(j) => Ok(option_layouts[j]),
        None => Err(SelectError::UnknownOption),
    }
}

/// A select node fades in when it is new and plays on when it was rebuilt
/// around an existing one.
pub fn select_fade(is_new: bool) -> (r: FadeState)
    ensures
        r == (if is_new {
            FadeState::FadingIn { frames_remaining: FADE_IN_FRAMES }
        } else {
            FadeState::Active
        }),
{
    if is_new {
        FadeState::FadingIn { frames_remaining: FADE_IN_FRAMES }
    } else {
        FadeState::Active
    }
}

/// The fade a block's node starts in after a rebuild, from its plan (and
/// whether its build failed); `None` where the node keeps the fade it had.
pub open spec fn plan_fade_spec(plan: BlockPlan, faulted: bool) -> Option<FadeState> {
    match plan {
        BlockPlan::NewBypass => Some(FadeState::Bypassed),
        BlockPlan::KeepDisabled { fade_out } => if fade_out {
            Some(FadeState::FadingOut { frames_remaining: FADE_IN_FRAMES })
        } else {
            None
        },
        BlockPlan::Skip | BlockPlan::Select => None,
        BlockPlan::Process(ReuseDecision::Rebuild) => if faulted {
            Some(FadeState::Bypassed)
        } else {
            Some(FadeState::FadingIn { frames_remaining: FADE_IN_FRAMES })
        },
        BlockPlan::Process(ReuseDecision::ReuseAsIs) => None,
        BlockPlan::Process(ReuseDecision::ReuseWithSnapshot { fade_in }) => if fade_in {
            Some(FadeState::FadingIn { frames_remaining: FADE_IN_FRAMES })
        } else {
            None
        },
    }
}

/// The fade a rebuilt block's node starts in: a bypass stand-in (new, or
/// for a block whose build failed) is bypassed, a freshly built node fades
/// in, a kept node of a block just turned off fades out, and a reused node
/// of a block just turned on fades in. Any other kept or reused node keeps
/// its fade, and a select node's fade is [`select_fade`]'s.
pub fn plan_fade(plan: BlockPlan, faulted: bool) -> (r: Option<FadeState>)
    ensures
        r == plan_fade_spec(plan, faulted),
{
    match plan {
        BlockPlan::NewBypass => Some(FadeState::Bypassed),
        BlockPlan::KeepDisabled { fade_out } => if fade_out {
            Some(FadeState::FadingOut { frames_remaining: FADE_IN_FRAMES })
        } else {
            None
        },
        BlockPlan::Skip | BlockPlan::Select => None,
        BlockPlan::Process(ReuseDecision::Rebuild) => if faulted {
            Some(FadeState::Bypassed)
        } else {
            Some(FadeState::FadingIn { frames_remaining: FADE_IN_FRAMES })
        },
        BlockPlan::Process(ReuseDecision::ReuseAsIs) => None,
        BlockPlan::Process(ReuseDecision::ReuseWithSnapshot { fade_in }) => if fade_in {
            Some(FadeState::FadingIn { frames_remaining: FADE_IN_FRAMES })
        } else {
            None
        },
    }
}

/// The node a select block gets, apart from its option nodes.
#[derive(Clone, Copy, Debug, PartialEq, Eq, Structural)]
pub struct SelectNodePlan {
    pub instance_serial: u64,
    pub input_layout: AudioChannelLayout,
    pub output_layout: AudioChannelLayout,
    pub fade: FadeState,
}

/// Plan the node of a select block on an `input_layout` bus whose options
/// (ids `option_ids`) leave `option_layouts`. A rebuilt node keeps the
/// serial of the node it replaces and plays on; a new one takes a fresh
/// serial (taken before the options are looked at, so a refused select uses
/// one up) and fades in. The node leaves the selected option's layout;
/// options that leave different layouts, or a selected id no option has,
/// refuse it.
pub fn plan_select_node(
    option_ids: &Vec<String>,
    option_layouts: &Vec<AudioChannelLayout>,
    selected: &String,
    input_layout: AudioChannelLayout,
    existing_serial: Option<u64>,
    serials: &mut BlockSerials,
) -> (r: Result<SelectNodePlan, SelectError>)
    requires
        option_ids@.len() == option_layouts@.len(),
    ensures
        existing_serial is None ==> final(serials).upcoming() == serial_after(old(serials).upcoming()),
        existing_serial is Some ==> final(serials).upcoming() == old(serials).upcoming(),
        !layouts_agree(option_layouts@) ==> r == Err::<SelectNodePlan, SelectError>(SelectError::MixedLayouts),
        layouts_agree(option_layouts@) && pos_from(string_views(option_ids@), selected@, 0) < 0 ==> r
            == Err::<SelectNodePlan, SelectError>(SelectError::UnknownOption),
        layouts_agree(option_layouts@) && pos_from(string_views(option_ids@), selected@, 0) >= 0 ==> r
            == Ok::<SelectNodePlan, SelectError>(
            SelectNodePlan {
                instance_serial: match existing_serial {
                    Some(s) => s,
                    None => old(serials).upcoming(),
                },
                input_layout,
                output_layout: option_layouts@[pos_from(string_views(option_ids@), selected@, 0)],
                fade: if existing_serial is None {
                    FadeState::FadingIn { frames_remaining: FADE_IN_FRAMES }
                } else {
                    FadeState::Active
                },
            },
        ),
{
    let is_new = existing_serial.is_none();
    let instance_serial = match existing_serial {
        Some(s) => s,
        None => serials.next_block_instance_serial(),
    };
    let output_layout = match select_output_layout(option_ids, option_layouts, selected) {
        Ok(l) => l,
        Err(e) => return Err(e),
    };
    Ok(SelectNodePlan { instance_serial, input_layout, output_layout, fade: select_fade(is_new) })
}

/// What a rebuild does with one block of the chain, in chain order.
#[derive(Clone, Copy, Debug, PartialEq, Eq, Structural)]
pub enum NodeStep {
    /// A disabled block: its existing node is kept, or a bypass stand-in
    /// takes its place; the bus layout passes through unchanged.
    Pass,
    /// Input, output and insert blocks are routing: they get no node.
    Skip,
    /// An enabled block whose existing node is reused as it is; it leaves
    /// `output_layout` on the bus.
    Reuse { output_layout: AudioChannelLayout },
    /// A select block, built around its options: if it cannot be built the
    /// whole rebuild fails.
    Select,
    /// An enabled processing block built anew: if it cannot be built it
    /// becomes a faulted bypass and the rebuild goes on.
    Build,
}

/// One node of a rebuilt chain: the step it serves, the bus layouts it
/// reads and leaves, the node the builder made (none for a kept, reused or
/// bypass node) and whether it is a faulted bypass.
pub struct PlannedNode<N> {
    pub step: usize,
    pub input_layout: AudioChannelLayout,
    pub output_layout: AudioChannelLayout,
    pub built: Option<N>,
    pub faulted: bool,
}

/// The steps of `steps[..k]` that get a node, in order.
pub open spec fn node_steps(steps: Seq<NodeStep>, k: int) -> Seq<usize>
    decreases k,
{
    if k <= 0 {
        Seq::empty()
    } else if steps[k - 1] is Skip {
        node_steps(steps, k - 1)
    } else {
        node_steps(steps, k - 1).push((k - 1) as usize)
    }
}

/// Whether `node` is what its step makes of the bus layout it reads.
pub open spec fn node_ok<N, E, F: Fn(usize, AudioChannelLayout) -> Result<(N, AudioChannelLayout), E>>(
    build: F,
    step: NodeStep,
    node: PlannedNode<N>,
) -> bool {
    match step {
        NodeStep::Pass => node.output_layout == node.input_layout && node.built is None && !node.faulted,
        NodeStep::Reuse { output_layout } => node.output_layout == output_layout && node.built is None
            && !node.faulted,
        NodeStep::Select => !node.faulted && (node.built matches Some(n) && call_ensures(
            build,
            (node.step, node.input_layout),
            Ok::<(N, AudioChannelLayout), E>((n, node.output_layout)),
        )),
        NodeStep::Build => match node.built {
            Some(n) => !node.faulted && call_ensures(
                build,
                (node.step, node.input_layout),
                Ok::<(N, AudioChannelLayout), E>((n, node.output_layout)),
            ),
            None => node.faulted && node.output_layout == node.input_layout && exists|e: E|
                call_ensures(build, (node.step, node.input_layout), Err::<(N, AudioChannelLayout), E>(e)),
        },
        NodeStep::Skip => false,
    }
}

#[verifier::opaque]
/// Whether `nodes` is a rebuild of `steps` from `input_layout`: one node per
/// step that is not routing, in order, each reading the layout the node
/// before it left (the first one reads `input_layout`), ending on `last`.
pub open spec fn nodes_ok<N, E, F: Fn(usize, AudioChannelLayout) -> Result<(N, AudioChannelLayout), E>>(
    build: F,
    steps: Seq<NodeStep>,
    k: int,
    input_layout: AudioChannelLayout,
    nodes: Seq<PlannedNode<N>>,
    last: AudioChannelLayout,
) -> bool {
    &&& nodes.map_values(|n: PlannedNode<N>| n.step) == node_steps(steps, k)
    &&& forall|j: int|
        #![trigger nodes[j]]
        0 <= j < nodes.len() ==> node_ok(build, steps[nodes[j].step as int], nodes[j])
    &&& forall|j: int|
        #![trigger nodes[j].input_layout]
        0 <= j < nodes.len() ==> nodes[j].input_layout == if j == 0 {
            input_layout
        } else {
            nodes[j - 1].output_layout
        }
    &&& last == if nodes.len() == 0 {
        input_layout
    } else {
        nodes.last().output_layout
    }
}

/// Whether select step `k` can fail with `e` when built on layout `l`.
pub open spec fn select_fails<N, E, F: Fn(usize, AudioChannelLayout) -> Result<(N, AudioChannelLayout), E>>(
    build: F,
    steps: Seq<NodeStep>,
    k: usize,
    l: AudioChannelLayout,
    e: E,
) -> bool {
    k < steps.len() && steps[k as int] is Select && call_ensures(build, (k, l), Err::<(N, AudioChannelLayout), E>(e))
}

proof fn lemma_no_nodes_yet<N, E, F: Fn(usize, AudioChannelLayout) -> Result<(N, AudioChannelLayout), E>>(
    build: F,
    steps: Seq<NodeStep>,
    input_layout: AudioChannelLayout,
    nodes: Seq<PlannedNode<N>>,
)
    requires
        nodes.len() == 0,
    ensures
        nodes_ok(build, steps, 0, input_layout, nodes, input_layout),
{
    reveal(nodes_ok);
    assert(nodes.map_values(|n: PlannedNode<N>| n.step) =~= node_steps(steps, 0));
}

proof fn lemma_skip_step<N, E, F: Fn(usize, AudioChannelLayout) -> Result<(N, AudioChannelLayout), E>>(
    build: F,
    steps: Seq<NodeStep>,
    i: int,
    input_layout: AudioChannelLayout,
    nodes: Seq<PlannedNode<N>>,
    current: AudioChannelLayout,
)
    requires
        0 <= i < steps.len(),
        steps[i] is Skip,
        nodes_ok(build, steps, i, input_layout, nodes, current),
    ensures
        nodes_ok(build, steps, i + 1, input_layout, nodes, current),
{
    reveal(nodes_ok);
}

proof fn lemma_push_node<N, E, F: Fn(usize, AudioChannelLayout) -> Result<(N, AudioChannelLayout), E>>(
    build: F,
    steps: Seq<NodeStep>,
    i: int,
    input_layout: AudioChannelLayout,
    nodes: Seq<PlannedNode<N>>,
    current: AudioChannelLayout,
    node: PlannedNode<N>,
)
    requires
        0 <= i < steps.len(),
        !(steps[i] is Skip),
        nodes_ok(build, steps, i, input_layout, nodes, current),
        node.step == i,
        node.input_layout == current,
        node_ok(build, steps[i], node),
    ensures
        nodes_ok(build, steps, i + 1, input_layout, nodes.push(node), node.output_layout),
{
    reveal(nodes_ok);
    let pushed = nodes.push(node);
    assert(pushed.map_values(|n: PlannedNode<N>| n.step) =~= nodes.map_values(|n: PlannedNode<N>| n.step).push(
        i as usize,
    ));
    assert(node_steps(steps, i + 1) == node_steps(steps, i).push(i as usize));
    assert forall|j: int| #![trigger pushed[j]] 0 <= j < pushed.len() implies node_ok(
        build,
        steps[pushed[j].step as int],
        pushed[j],
    ) by {
        if j < nodes.len() {
            assert(pushed[j] == nodes[j]);
        }
    }
    assert forall|j: int| #![trigger pushed[j].input_layout] 0 <= j < pushed.len() implies pushed[j].input_layout == if j == 0 {
        input_layout
    } else {
        pushed[j - 1].output_layout
    } by {
        if j < nodes.len() {
            assert(pushed[j] == nodes[j]);
            if j > 0 {
                assert(pushed[j - 1] == nodes[j - 1]);
            }
        } else if j > 0 {
            assert(pushed[j - 1] == nodes[nodes.len() - 1]);
        }
    }
}

/// One step of a rebuild: add the node step `i` gets, if any, and move the
/// bus layout on. Fails only on a select block its builder fails on.
fn build_step<N, E, F>(
    build: &F,
    steps: &Vec<NodeStep>,
    i: usize,
    input_layout: AudioChannelLayout,
    nodes: &mut Vec<PlannedNode<N>>,
    current: &mut AudioChannelLayout,
) -> (r: Result<(), E>) where F: Fn(usize, AudioChannelLayout) -> Result<(N, AudioChannelLayout), E>
    requires
        i < steps@.len(),
        forall|i: usize, l: AudioChannelLayout| call_requires(*build, (i, l)),
        nodes_ok(*build, steps@, i as int, input_layout, old(nodes)@, *old(current)),
    ensures
        r is Ok ==> nodes_ok(*build, steps@, i + 1, input_layout, final(nodes)@, *final(current)),
        r is Ok && steps@[i as int] is Skip ==> final(nodes)@ == old(nodes)@,
        r is Ok && !(steps@[i as int] is Skip) ==> final(nodes)@.len() == old(nodes)@.len() + 1
            && final(nodes)@.drop_last() == old(nodes)@ && final(nodes)@.last().step == i
            && final(nodes)@.last().input_layout == *old(current),
        r matches Err(e) ==> steps@[i as int] is Select && call_ensures(
            *build,
            (i, *old(current)),
            Err::<(N, AudioChannelLayout), E>(e),
        ),
{
    let ghost prev = nodes@;
    let ghost cur0 = *current;
    let step = steps[i];
    match step {
        NodeStep::Skip => {
            proof {
                lemma_skip_step(*build, steps@, i as int, input_layout, prev, cur0);
            }
        },
        NodeStep::Pass => {
            let node = PlannedNode { step: i, input_layout: *current, output_layout: *current, built: None, faulted: false };
            proof {
                lemma_push_node(*build, steps@, i as int, input_layout, prev, cur0, node);
            }
            nodes.push(node);
        },
        NodeStep::Reuse { output_layout } => {
            let node = PlannedNode { step: i, input_layout: *current, output_layout, built: None, faulted: false };
            proof {
                lemma_push_node(*build, steps@, i as int, input_layout, prev, cur0, node);
            }
            nodes.push(node);
            *current = output_layout;
        },
        NodeStep::Select => {
            match build(i, *current) {
                Ok((n, out)) => {
                    let node = PlannedNode { step: i, input_layout: *current, output_layout: out, built: Some(n), faulted: false };
                    proof {
                        lemma_push_node(*build, steps@, i as int, input_layout, prev, cur0, node);
                    }
                    nodes.push(node);
                    *current = out;
                },
                Err(e) => {
                    return Err(e);
                },
            }
        },
        NodeStep::Build => {
            match build(i, *current) {
                Ok((n, out)) => {
                    let node = PlannedNode { step: i, input_layout: *current, output_layout: out, built: Some(n), faulted: false };
                    proof {
                        lemma_push_node(*build, steps@, i as int, input_layout, prev, cur0, node);
                    }
                    nodes.push(node);
                    *current = out;
                },
                Err(e) => {
                    let node = PlannedNode { step: i, input_layout: *current, output_layout: *current, built: None, faulted: true };
                    proof {
                        assert(call_ensures(*build, (i, cur0), Err::<(N, AudioChannelLayout), E>(e)));
                        lemma_push_node(*build, steps@, i as int, input_layout, prev, cur0, node);
                    }
                    nodes.push(node);
                },
            }
        },
    }
    Ok(())
}

/// A select block the builder failed on: its step, the bus layout it was
/// built on and the builder's error.
pub struct SelectFailure<E> {
    pub step: usize,
    pub layout: AudioChannelLayout,
    pub error: E,
}

/// Rebuild a chain's nodes step by step, threading the bus layout through
/// them: a kept or bypass node passes it on, a reused node leaves its own
/// layout, and a built node leaves what its builder says. A processing
/// block the builder fails on becomes a faulted bypass; a select block it
/// fails on fails the whole rebuild with the builder's error. When no
/// select block can fail, the rebuild succeeds.
pub fn build_block_nodes<N, E, F>(steps: &Vec<NodeStep>, input_layout: AudioChannelLayout, build: F) -> (r: Result<
    (Vec<PlannedNode<N>>, AudioChannelLayout),
    SelectFailure<E>,
>) where F: Fn(usize, AudioChannelLayout) -> Result<(N, AudioChannelLayout), E>
    requires
        forall|i: usize, l: AudioChannelLayout| call_requires(build, (i, l)),
    ensures
        r matches Ok((nodes, last)) ==> nodes_ok(build, steps@, steps@.len() as int, input_layout, nodes@, last),
        r matches Err(f) ==> select_fails::<N, E, F>(build, steps@, f.step, f.layout, f.error),
        (forall|i: usize, l: AudioChannelLayout, res: Result<(N, AudioChannelLayout), E>|
            #![trigger call_ensures(build, (i, l), res)]
            i < steps@.len() && steps@[i as int] is Select && call_ensures(build, (i, l), res) ==> res is Ok)
            ==> r is Ok,
{
    let mut nodes: Vec<PlannedNode<N>> = Vec::new();
    let mut current = input_layout;
    proof {
        lemma_no_nodes_yet(build, steps@, input_layout, nodes@);
    }
    let mut i: usize = 0;
    while i < steps.len()
        invariant
            i <= steps@.len(),
            forall|i: usize, l: AudioChannelLayout| call_requires(build, (i, l)),
            nodes_ok(build, steps@, i as int, input_layout, nodes@, current),
        decreases steps@.len() - i,
    {
        let layout = current;
        match build_step(&build, steps, i, input_layout, &mut nodes, &mut current) {
            Ok(()) => {},
            Err(error) => {
                return Err(SelectFailure { step: i, layout, error });
            },
        }
        i = i + 1;
    }
    Ok((nodes, current))
}

/// What is known of the node an existing block had, when the block comes
/// round again in a rebuild.
#[derive(Clone, Copy, Debug, PartialEq, Eq, Structural)]
pub struct ExistingNode {
    /// The bus layout the node was built for.
    pub input_layout: AudioChannelLayout,
    /// The layout it leaves on the bus.
    pub output_layout: AudioChannelLayout,
    pub snapshot_equal: bool,
    pub equal_but_enabled: bool,
    pub node_is_bypass: bool,
    pub node_was_enabled: bool,
}

/// One block of a chain as a rebuild sees it.
#[derive(Clone, Copy, Debug, PartialEq, Eq, Structural)]
pub struct BlockFacts {
    pub enabled: bool,
    pub kind: PlanKind,
    pub existing: Option<ExistingNode>,
}

/// The reuse facts of an existing node for a block that now receives `layout`.
pub open spec fn facts_at(e: ExistingNode, layout: AudioChannelLayout) -> ReuseFacts {
    ReuseFacts {
        layout_matches: e.input_layout == layout,
        snapshot_equal: e.snapshot_equal,
        equal_but_enabled: e.equal_but_enabled,
        node_is_bypass: e.node_is_bypass,
        node_was_enabled: e.node_was_enabled,
    }
}

/// The plan of block `b` when it receives the bus layout `layout`.
pub open spec fn plan_at(b: BlockFacts, layout: AudioChannelLayout) -> BlockPlan {
    plan_spec(
        b.enabled,
        b.kind,
        match b.existing {
            Some(e) => Some(facts_at(e, layout)),
            None => None,
        },
    )
}

/// The node step a plan makes of block `b`: a kept or new bypass node
/// passes the layout on, routing gets no node, a select block and a rebuilt
/// block are built, and a reused node leaves the layout it was built to
/// leave.
pub open spec fn step_of_plan(p: BlockPlan, b: BlockFacts) -> NodeStep {
    match p {
        BlockPlan::KeepDisabled { .. } | BlockPlan::NewBypass => NodeStep::Pass,
        BlockPlan::Skip => NodeStep::Skip,
        BlockPlan::Select => NodeStep::Select,
        BlockPlan::Process(ReuseDecision::Rebuild) => NodeStep::Build,
        BlockPlan::Process(_) => match b.existing {
            Some(e) => NodeStep::Reuse { output_layout: e.output_layout },
            None => NodeStep::Build,
        },
    }
}

/// The steps the plans `plans` make of `blocks`.
pub open spec fn plan_steps(plans: Seq<BlockPlan>, blocks: Seq<BlockFacts>) -> Seq<NodeStep> {
    Seq::new(plans.len(), |m: int| step_of_plan(plans[m], blocks[m]))
}

proof fn lemma_node_steps_prefix(s1: Seq<NodeStep>, s2: Seq<NodeStep>, k: int)
    requires
        0 <= k <= s1.len(),
        k <= s2.len(),
        forall|m: int| 0 <= m < k ==> s1[m] == s2[m],
    ensures
        node_steps(s1, k) == node_steps(s2, k),
        forall|j: int| 0 <= j < node_steps(s1, k).len() ==> #[trigger] node_steps(s1, k)[j] < k,
    decreases k,
{
    if k > 0 {
        lemma_node_steps_prefix(s1, s2, k - 1);
    }
}

proof fn lemma_nodes_ok_prefix<N, E, F: Fn(usize, AudioChannelLayout) -> Result<(N, AudioChannelLayout), E>>(
    build: F,
    s1: Seq<NodeStep>,
    s2: Seq<NodeStep>,
    k: int,
    input_layout: AudioChannelLayout,
    nodes: Seq<PlannedNode<N>>,
    last: AudioChannelLayout,
)
    requires
        0 <= k <= s1.len(),
        k <= s2.len(),
        forall|m: int| 0 <= m < k ==> s1[m] == s2[m],
        nodes_ok(build, s1, k, input_layout, nodes, last),
    ensures
        nodes_ok(build, s2, k, input_layout, nodes, last),
{
    reveal(nodes_ok);
    lemma_node_steps_prefix(s1, s2, k);
    assert forall|j: int| #![trigger nodes[j]] 0 <= j < nodes.len() implies node_ok(
        build,
        s2[nodes[j].step as int],
        nodes[j],
    ) by {
        assert(nodes.map_values(|n: PlannedNode<N>| n.step)[j] == nodes[j].step);
        assert(node_steps(s1, k)[j] < k);
    }
}

/// Rebuild the nodes of `blocks` on an `input_layout` bus, planning each
/// block on the layout it actually receives: an existing node is reused only
/// when it was built for that layout. The builder makes the select blocks
/// and the blocks that are rebuilt; a processing block it fails on becomes a
/// faulted bypass, a select block it fails on fails the rebuild. Returns the
/// nodes, the layout the last one leaves and each block's plan.
pub fn rebuild_block_nodes<N, E, F>(blocks: &Vec<BlockFacts>, input_layout: AudioChannelLayout, build: F) -> (r: Result<
    (Vec<PlannedNode<N>>, AudioChannelLayout, Vec<BlockPlan>),
    SelectFailure<E>,
>) where F: Fn(usize, AudioChannelLayout) -> Result<(N, AudioChannelLayout), E>
    requires
        forall|i: usize, l: AudioChannelLayout| call_requires(build, (i, l)),
    ensures
        r matches Ok((nodes, last, plans)) ==> {
            &&& plans@.len() == blocks@.len()
            &&& nodes_ok(build, plan_steps(plans@, blocks@), blocks@.len() as int, input_layout, nodes@, last)
            &&& forall|j: int|
                #![trigger nodes@[j]]
                0 <= j < nodes@.len() ==> plans@[nodes@[j].step as int] == plan_at(
                    blocks@[nodes@[j].step as int],
                    nodes@[j].input_layout,
                )
            &&& forall|m: int|
                0 <= m < plans@.len() ==> ((#[trigger] plans@[m]) is Skip <==> (blocks@[m].enabled
                    && blocks@[m].kind == PlanKind::Routing))
        },
        r matches Err(f) ==> f.step < blocks@.len() && blocks@[f.step as int].enabled && blocks@[f.step as int].kind
            == PlanKind::Select && call_ensures(build, (f.step, f.layout), Err::<(N, AudioChannelLayout), E>(f.error)),
        (forall|i: usize, l: AudioChannelLayout, res: Result<(N, AudioChannelLayout), E>|
            #![trigger call_ensures(build, (i, l), res)]
            i < blocks@.len() && blocks@[i as int].enabled && blocks@[i as int].kind == PlanKind::Select
                && call_ensures(build, (i, l), res) ==> res is Ok) ==> r is Ok,
{
    let mut nodes: Vec<PlannedNode<N>> = Vec::new();
    let mut steps: Vec<NodeStep> = Vec::new();
    let mut plans: Vec<BlockPlan> = Vec::new();
    let mut current = input_layout;
    proof {
        lemma_no_nodes_yet(build, steps@, input_layout, nodes@);
    }
    let mut i: usize = 0;
    while i < blocks.len()
        invariant
            i <= blocks@.len(),
            forall|i: usize, l: AudioChannelLayout| call_requires(build, (i, l)),
            steps@.len() == i,
            plans@.len() == i,
            steps@ == plan_steps(plans@, blocks@.take(i as int)),
            nodes_ok(build, steps@, i as int, input_layout, nodes@, current),
            forall|j: int|
                #![trigger nodes@[j]]
                0 <= j < nodes@.len() ==> nodes@[j].step < i && plans@[nodes@[j].step as int] == plan_at(
                    blocks@[nodes@[j].step as int],
                    nodes@[j].input_layout,
                ),
            forall|m: int|
                0 <= m < i ==> ((#[trigger] plans@[m]) is Skip <==> (blocks@[m].enabled && blocks@[m].kind
                    == PlanKind::Routing)),
        decreases blocks@.len() - i,
    {
        let b = blocks[i];
        let facts = match b.existing {
            Some(e) => Some(ReuseFacts {
                layout_matches: e.input_layout == current,
                snapshot_equal: e.snapshot_equal,
                equal_but_enabled: e.equal_but_enabled,
                node_is_bypass: e.node_is_bypass,
                node_was_enabled: e.node_was_enabled,
            }),
            None => None,
        };
        let plan = plan_block(b.enabled, b.kind, facts);
        let step = match plan {
            BlockPlan::KeepDisabled { .. } | BlockPlan::NewBypass => NodeStep::Pass,
            BlockPlan::Skip => NodeStep::Skip,
            BlockPlan::Select => NodeStep::Select,
            BlockPlan::Process(ReuseDecision::Rebuild) => NodeStep::Build,
            BlockPlan::Process(_) => match b.existing {
                Some(e) => NodeStep::Reuse { output_layout: e.output_layout },
                None => NodeStep::Build,
            },
        };
        let ghost old_steps = steps@;
        let ghost old_nodes = nodes@;
        let ghost old_current = current;
        assert(plan == plan_at(b, current));
        steps.push(step);
        plans.push(plan);
        proof {
            assert(steps@ =~= plan_steps(plans@, blocks@.take(i + 1)));
            lemma_nodes_ok_prefix(build, old_steps, steps@, i as int, input_layout, nodes@, current);
        }
        let layout = current;
        match build_step(&build, &steps, i, input_layout, &mut nodes, &mut current) {
            Ok(()) => {},
            Err(error) => {
                return Err(SelectFailure { step: i, layout, error });
            },
        }
        proof {
            assert forall|j: int|
                #![trigger nodes@[j]]
                0 <= j < nodes@.len() implies nodes@[j].step < i + 1 && plans@[nodes@[j].step as int] == plan_at(
                    blocks@[nodes@[j].step as int],
                    nodes@[j].input_layout,
                ) by {
                if j < old_nodes.len() {
                    assert(nodes@[j] == old_nodes[j]);
                }
            }
        }
        i = i + 1;
    }
    proof {
        assert(blocks@.take(blocks@.len() as int) =~= blocks@);
    }
    Ok((nodes, current, plans))
}

} // verus!
