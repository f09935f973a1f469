//! Assembling a chain runtime from its segments: the bus layout each
//! segment processes on, the channels it writes, which segments each device
//! stream drives, and what a live rebuild may keep of the old runtime.
use vstd::prelude::*;
use vstd::pervasive::VecAdditionalExecFns;
use crate::audio_frame::AudioChannelLayout;
use crate::chain::{
    chain_has_enabled_insert, copy_channels, is_enabled_insert, Chain, ChainBlock, ChainInputMode, ChainOutputMode,
    InputEntry, IoBinding, OutputEntry,
};
use crate::endpoints::{
    effective_inputs, effective_inputs_spec, effective_outputs, first_seen, resolve_chain_io,
    resolved_inputs_from, EffInput,
};
use crate::segments::{group_segments_by_input, segment_keys, segs_of_group, split_chain_into_segments, ChainSegment};
use crate::block_toggle::FADE_IN_FRAMES;

verus! {

/// The bus a segment processes on.
#[derive(Clone, Copy, Debug, PartialEq, Eq, Structural)]
pub enum ProcessingLayout {
    Mono,
    Stereo,
    /// Two independent mono pipelines on a stereo bus.
    DualMono,
}

pub open spec fn processing_layout_spec(output_channels: int, mode: ChainInputMode) -> ProcessingLayout {
    match mode {
        ChainInputMode::Mono => if output_channels >= 2 {
            ProcessingLayout::Stereo
        } else {
            ProcessingLayout::Mono
        },
        ChainInputMode::Stereo => ProcessingLayout::Stereo,
        ChainInputMode::DualMono => ProcessingLayout::DualMono,
    }
}

/// The bus of a segment reading an input in `mode` and writing
/// `output_channels` channels: a mono input stays mono only when it writes
/// a single channel (it is upmixed once when it writes a pair), a stereo
/// input is stereo, and a dual-mono input keeps two independent pipelines.
pub fn processing_layout(output_channels: usize, mode: ChainInputMode) -> (r: ProcessingLayout)
    ensures
        r == processing_layout_spec(output_channels as int, mode),
{
    match mode {
        ChainInputMode::Mono => if output_channels >= 2 {
            ProcessingLayout::Stereo
        } else {
            ProcessingLayout::Mono
        },
        ChainInputMode::Stereo => ProcessingLayout::Stereo,
        ChainInputMode::DualMono => ProcessingLayout::DualMono,
    }
}

/// The frame layout a bus carries between blocks: dual mono travels as a
/// stereo pair.
pub fn bus_layout(p: ProcessingLayout) -> (r: AudioChannelLayout)
    ensures
        r == (if p == ProcessingLayout::Mono {
            AudioChannelLayout::Mono
        } else {
            AudioChannelLayout::Stereo
        }),
{
    match p {
        ProcessingLayout::Mono => AudioChannelLayout::Mono,
        _ => AudioChannelLayout::Stereo,
    }
}

/// The layout an input is read in from the device.
pub fn input_read_layout(mode: ChainInputMode) -> (r: AudioChannelLayout)
    ensures
        r == (if mode == ChainInputMode::Mono {
            AudioChannelLayout::Mono
        } else {
            AudioChannelLayout::Stereo
        }),
{
    match mode {
        ChainInputMode::Mono => AudioChannelLayout::Mono,
        _ => AudioChannelLayout::Stereo,
    }
}

pub open spec fn output_layout_spec(channels: int, mode: ChainOutputMode) -> AudioChannelLayout {
    if channels >= 2 && mode == ChainOutputMode::Stereo {
        AudioChannelLayout::Stereo
    } else {
        AudioChannelLayout::Mono
    }
}

/// The layout an output route carries: stereo only for a stereo entry over
/// at least two channels.
pub fn output_entry_layout(output: &OutputEntry) -> (r: AudioChannelLayout)
    ensures
        r == output_layout_spec(output.channels@.len() as int, output.mode),
{
    if output.channels.len() >= 2 {
        match output.mode {
            ChainOutputMode::Stereo => AudioChannelLayout::Stereo,
            ChainOutputMode::Mono => AudioChannelLayout::Mono,
        }
    } else {
        AudioChannelLayout::Mono
    }
}

/// How many frames a fresh segment fades in over: none when it reuses the
/// nodes of the segment it replaces.
pub fn segment_fade_in(had_existing: bool) -> (r: usize)
    ensures
        r == (if had_existing { 0 } else { FADE_IN_FRAMES }),
{
    if had_existing {
        0
    } else {
        FADE_IN_FRAMES
    }
}

/// The channels of the outputs `routes[..k]` point at, in order; a route
/// past the outputs contributes nothing.
pub open spec fn route_channels(routes: Seq<usize>, outs: Seq<OutputEntry>) -> Seq<usize>
    decreases routes.len(),
{
    if routes.len() == 0 {
        Seq::empty()
    } else {
        let prev = route_channels(routes.drop_last(), outs);
        if routes.last() < outs.len() {
            prev + outs[routes.last() as int].channels@
        } else {
            prev
        }
    }
}

/// Every device channel a segment writes, through all of its routes.
pub fn segment_output_channels(routes: &[usize], outs: &[OutputEntry]) -> (r: Vec<usize>)
    ensures
        r@ == route_channels(routes@, outs@),
{
    let mut out: Vec<usize> = Vec::new();
    let mut i: usize = 0;
    while i < routes.len()
        invariant
            i <= routes@.len(),
            out@ == route_channels(routes@.take(i as int), outs@),
        decreases routes@.len() - i,
    {
        proof {
            assert(routes@.take(i + 1).drop_last() =~= routes@.take(i as int));
            assert(routes@.take(i + 1).last() == routes@[i as int]);
        }
        let r = routes[i];
        if r < outs.len() {
            let chans = &outs[r].channels;
            let ghost before = out@;
            let mut k: usize = 0;
            while k < chans.len()
                invariant
                    k <= chans@.len(),
                    out@ == before + chans@.take(k as int),
                decreases chans@.len() - k,
            {
                out.push(chans[k]);
                proof {
                    assert(chans@.take(k + 1) =~= chans@.take(k as int).push(chans@[k as int]));
                    assert(before + chans@.take(k + 1) =~= (before + chans@.take(k as int)).push(chans@[k as int]));
                }
                k = k + 1;
            }
            assert(chans@.take(chans@.len() as int) =~= chans@);
        }
        i = i + 1;
    }
    assert(routes@.take(routes@.len() as int) =~= routes@);
    out
}

/// The largest stream any of `cpal` names, 0 when there is none.
pub open spec fn max_stream(cpal: Seq<usize>) -> int
    decreases cpal.len(),
{
    if cpal.len() == 0 {
        0
    } else {
        let m = max_stream(cpal.drop_last());
        if cpal.last() > m {
            cpal.last() as int
        } else {
            m
        }
    }
}

/// The positions among `cpal` read from stream `c`, in order.
pub open spec fn on_stream(cpal: Seq<usize>, c: int) -> Seq<usize>
    decreases cpal.len(),
{
    if cpal.len() == 0 {
        Seq::empty()
    } else {
        let prev = on_stream(cpal.drop_last(), c);
        if cpal.last() == c {
            prev.push((cpal.len() - 1) as usize)
        } else {
            prev
        }
    }
}

/// The device stream of each segment.
pub open spec fn segment_streams(segs: Seq<ChainSegment>) -> Seq<usize> {
    segs.map_values(|s: ChainSegment| s.cpal_input_index)
}

proof fn lemma_max_stream(cpal: Seq<usize>)
    ensures
        max_stream(cpal) >= 0,
        forall|i: int| 0 <= i < cpal.len() ==> cpal[i] <= max_stream(cpal),
    decreases cpal.len(),
{
    if cpal.len() > 0 {
        lemma_max_stream(cpal.drop_last());
        assert forall|i: int| 0 <= i < cpal.len() implies cpal[i] <= max_stream(cpal) by {
            if i < cpal.len() - 1 {
                assert(cpal.drop_last()[i] == cpal[i]);
            }
        }
    }
}

/// Which segments each device stream drives: slot `c` lists, in order, the
/// segments fed by stream `c`, up to the largest stream the segments use
/// (a runtime fed by one stream of a shared device gets empty slots for
/// the others).
pub fn input_to_segments(segments: &[ChainSegment]) -> (r: Vec<Vec<usize>>)
    requires
        forall|i: int| 0 <= i < segments@.len() ==> #[trigger] segments@[i].cpal_input_index < usize::MAX,
    ensures
        r@.len() == max_stream(segment_streams(segments@)) + 1,
        forall|c: int| 0 <= c < r@.len() ==> #[trigger] r@[c]@ == on_stream(segment_streams(segments@), c),
{
    let ghost cpal = segment_streams(segments@);
    let mut max: usize = 0;
    let mut i: usize = 0;
    while i < segments.len()
        invariant
            i <= segments@.len(),
            cpal == segment_streams(segments@),
            max as int == max_stream(cpal.take(i as int)),
        decreases segments@.len() - i,
    {
        proof {
            assert(cpal.take(i + 1).drop_last() =~= cpal.take(i as int));
            assert(cpal.take(i + 1).last() == segments@[i as int].cpal_input_index);
        }
        if segments[i].cpal_input_index > max {
            max = segments[i].cpal_input_index;
        }
        i = i + 1;
    }
    assert(cpal.take(segments@.len() as int) =~= cpal);
    proof {
        lemma_max_stream(cpal);
    }
    assert(max < usize::MAX) by {
        lemma_max_is_one_of(cpal);
        if max_stream(cpal) != 0 {
            let w = choose|w: int| 0 <= w < cpal.len() && cpal[w] == max_stream(cpal);
            assert(segments@[w].cpal_input_index < usize::MAX);
        }
    }
    let mut mapping: Vec<Vec<usize>> = Vec::new();
    let mut c: usize = 0;
    while c <= max
        invariant
            c <= max + 1,
            max < usize::MAX,
            mapping@.len() == c,
            forall|k: int| 0 <= k < c ==> (#[trigger] mapping@[k])@ == Seq::<usize>::empty(),
        decreases max + 1 - c,
    {
        mapping.push(Vec::new());
        c = c + 1;
    }
    let mut s: usize = 0;
    while s < segments.len()
        invariant
            s <= segments@.len(),
            cpal == segment_streams(segments@),
            max as int == max_stream(cpal),
            mapping@.len() == max + 1,
            forall|i: int| 0 <= i < cpal.len() ==> cpal[i] <= max,
            forall|k: int| 0 <= k < mapping@.len() ==> (#[trigger] mapping@[k])@ == on_stream(cpal.take(s as int), k),
        decreases segments@.len() - s,
    {
        proof {
            assert(cpal.take(s + 1).drop_last() =~= cpal.take(s as int));
            assert(cpal.take(s + 1).last() == segments@[s as int].cpal_input_index);
        }
        let k = segments[s].cpal_input_index;
        assert(k <= max);
        mapping[k].push(s);
        s = s + 1;
    }
    assert(cpal.take(segments@.len() as int) =~= cpal);
    mapping
}

proof fn lemma_max_is_one_of(cpal: Seq<usize>)
    ensures
        max_stream(cpal) == 0 || exists|w: int| 0 <= w < cpal.len() && cpal[w] == max_stream(cpal),
    decreases cpal.len(),
{
    if cpal.len() > 0 {
        lemma_max_is_one_of(cpal.drop_last());
        if cpal.last() > max_stream(cpal.drop_last()) {
            assert(cpal[cpal.len() - 1] == max_stream(cpal));
        } else if max_stream(cpal.drop_last()) != 0 {
            let w = choose|w: int|
                0 <= w < cpal.drop_last().len() && cpal.drop_last()[w] == max_stream(cpal.drop_last());
            assert(cpal[w] == cpal.drop_last()[w]);
        }
    }
}

/// Why a live rebuild of a runtime cannot go in place.
#[derive(Clone, Copy, Debug, PartialEq, Eq, Structural)]
pub enum RebuildError {
    /// The runtime serves raw input entry `group`, which the edited chain
    /// no longer has: the topology changed and needs a full rebuild.
    GroupGone { group: usize },
}

/// The segments a live rebuild refills a runtime with. A runtime isolated
/// on one raw input entry gets only that entry's segments (refilling it
/// with every segment would play one guitar in every sibling runtime); a
/// whole-chain runtime gets them all.
pub fn select_owned_segments(chain: &Chain, segments: Vec<ChainSegment>, owned_group: Option<usize>) -> (r: Result<
    Vec<ChainSegment>,
    RebuildError,
>)
    ensures
        owned_group is None ==> (r matches Ok(v) && v@ == segments@),
        owned_group matches Some(g) ==> ({
            let whole = (exists|b: int| 0 <= b < chain.blocks@.len() && is_enabled_insert(chain.blocks@[b]))
                || segments@.len() == 0;
            if whole {
                if g == 0 {
                    (r matches Ok(v) && v@ == segments@)
                } else {
                    r == Err::<Vec<ChainSegment>, RebuildError>(RebuildError::GroupGone { group: g })
                }
            } else if first_seen(segment_keys(segments@)).0.contains(g) {
                (r matches Ok(v) && v@ == segs_of_group(segments@, g))
            } else {
                r == Err::<Vec<ChainSegment>, RebuildError>(RebuildError::GroupGone { group: g })
            }
        }),
{
    match owned_group {
        None => Ok(segments),
        Some(g) => {
            let ghost segs = segments@;
            let mut groups = group_segments_by_input(chain, segments);
            let ghost gv = groups@;
            let ghost whole = (exists|b: int| 0 <= b < chain.blocks@.len() && is_enabled_insert(chain.blocks@[b]))
                || segs.len() == 0;
            let ghost keys = first_seen(segment_keys(segs)).0;
            proof {
                assert(!whole ==> gv.len() == keys.len());
                assert(whole ==> gv.len() == 1);
                if !whole {
                    assert forall|k: int| 0 <= k < gv.len() implies gv[k].0 == keys[k] && gv[k].1@
                        == segs_of_group(segs, gv[k].0) by {
                        assert(gv[k] == groups@[k]);
                    }
                }
            }
            let mut i: usize = 0;
            while i < groups.len()
                invariant
                    i <= groups@.len(),
                    owned_group == Some(g),
                    segs == segments@,
                    groups@ == gv,
                    whole == ((exists|b: int| 0 <= b < chain.blocks@.len() && is_enabled_insert(chain.blocks@[b]))
                        || segs.len() == 0),
                    keys == first_seen(segment_keys(segs)).0,
                    whole ==> gv.len() == 1 && gv[0].0 == 0 && gv[0].1@ == segs,
                    !whole ==> gv.len() == keys.len(),
                    !whole ==> forall|k: int|
                        0 <= k < gv.len() ==> gv[k].0 == keys[k] && gv[k].1@ == segs_of_group(segs, gv[k].0),
                    forall|k: int| 0 <= k < i ==> gv[k].0 != g,
                decreases groups@.len() - i,
            {
                if groups[i].0 == g {
                    let (_, picked) = groups.remove(i);
                    proof {
                        if !((exists|b: int| 0 <= b < chain.blocks@.len() && is_enabled_insert(chain.blocks@[b]))
                            || segs.len() == 0) {
                            assert(first_seen(segment_keys(segs)).0[i as int] == g);
                        }
                    }
                    return Ok(picked);
                }
                i = i + 1;
            }
            proof {
                if !((exists|b: int| 0 <= b < chain.blocks@.len() && is_enabled_insert(chain.blocks@[b]))
                    || segs.len() == 0) {
                    if first_seen(segment_keys(segs)).0.contains(g) {
                        let k = choose|k: int| 0 <= k < first_seen(segment_keys(segs)).0.len()
                            && first_seen(segment_keys(segs)).0[k] == g;
                        assert(gv[k].0 == g);
                    }
                }
            }
            Err(RebuildError::GroupGone { group: g })
        },
    }
}

/// What a live rebuild does with the old nodes of a segment.
#[derive(Clone, Copy, Debug, PartialEq, Eq, Structural)]
pub enum RebuildMode {
    /// No old nodes: build fresh.
    Fresh,
    /// Reuse the old processors in place (a parameter edit).
    Reuse,
    /// Build fresh and keep the old nodes ringing out alongside (spillover).
    FreshWithTail,
}

pub fn rebuild_mode(spillover: bool, has_old_nodes: bool) -> (r: RebuildMode)
    ensures
        !has_old_nodes ==> r == RebuildMode::Fresh,
        has_old_nodes && spillover ==> r == RebuildMode::FreshWithTail,
        has_old_nodes && !spillover ==> r == RebuildMode::Reuse,
{
    if !has_old_nodes {
        RebuildMode::Fresh
    } else if spillover {
        RebuildMode::FreshWithTail
    } else {
        RebuildMode::Reuse
    }
}

/// Whether a rebuild keeps an existing output route (with its buffered
/// audio and standing cushion): only when no queue reset was asked for and
/// the route's channels, layout and cushion target are all unchanged.
pub fn route_reusable(
    reset_output_queue: bool,
    old_channels: &[usize],
    old_layout: AudioChannelLayout,
    old_target: usize,
    new_channels: &[usize],
    new_layout: AudioChannelLayout,
    new_target: usize,
) -> (r: bool)
    ensures
        r == (!reset_output_queue && old_channels@ == new_channels@ && old_layout == new_layout
            && old_target == new_target),
{
    if reset_output_queue || old_layout != new_layout || old_target != new_target {
        return false;
    }
    if old_channels.len() != new_channels.len() {
        return false;
    }
    let mut i: usize = 0;
    while i < old_channels.len()
        invariant
            i <= old_channels@.len(),
            old_channels@.len() == new_channels@.len(),
            forall|k: int| 0 <= k < i ==> old_channels@[k] == new_channels@[k],
        decreases old_channels@.len() - i,
    {
        if old_channels[i] != new_channels[i] {
            return false;
        }
        i = i + 1;
    }
    assert(old_channels@ =~= new_channels@);
    true
}

/// The runtime groups of a chain with effective inputs `eff`: one group,
/// numbered 0, when an enabled insert makes the chain a single runtime or
/// it has no input; otherwise each raw input entry's group, in order of
/// first appearance.
pub open spec fn input_groups_spec(blocks: Seq<ChainBlock>, eff: Seq<EffInput>) -> Seq<usize> {
    if (exists|b: int| 0 <= b < blocks.len() && is_enabled_insert(blocks[b])) || eff.len() == 0 {
        seq![0usize]
    } else {
        first_seen(eff.map_values(|e: EffInput| e.group as usize)).0
    }
}

/// The group ids of the isolated runtimes `chain` is built as, in the
/// order the runtimes are built.
pub fn input_group_ids(chain: &Chain, registry: &[IoBinding]) -> (r: Vec<usize>)
    requires
        resolved_inputs_from(chain.io_binding_ids@, registry@, 0).len() + chain.blocks@.len() < usize::MAX,
    ensures
        r@ == input_groups_spec(
            chain.blocks@,
            effective_inputs_spec(chain.blocks@, resolved_inputs_from(chain.io_binding_ids@, registry@, 0), registry@),
        ),
{
    let (rin, rout) = resolve_chain_io(chain, registry);
    proof {
        // A vector's length fits in `usize`, so the resolved outputs do.
        assert(rout@.len() == rout.len());
    }
    let (eff, cpal, splits, groups) = effective_inputs(chain, &rin, registry);
    let eff_out = effective_outputs(chain, &rout, registry);
    let segs = split_chain_into_segments(chain, &eff, &cpal, &splits, &groups, &eff_out, registry);
    let ghost spec_eff = effective_inputs_spec(
        chain.blocks@,
        resolved_inputs_from(chain.io_binding_ids@, registry@, 0),
        registry@,
    );
    proof {
        assert(segment_keys(segs@) =~= spec_eff.map_values(|e: EffInput| e.group as usize)) by {
            assert forall|i: int| 0 <= i < segs@.len() implies #[trigger] segs@[i].entry_group
                == spec_eff[i].group as usize by {
                assert(segs@[i]@ == crate::segments::segment_spec(
                    chain.blocks@,
                    chain.io_binding_ids@,
                    registry@,
                    crate::chain::input_views(eff@),
                    cpal@,
                    splits@,
                    groups@,
                    eff_out@.len() as int,
                    i,
                ));
                assert(segs@[i]@.group == groups@[i]);
            }
        }
    }
    let ghost keys = segment_keys(segs@);
    let ghost n_segs = segs@.len();
    let grouped = group_segments_by_input(chain, segs);
    let mut ids: Vec<usize> = Vec::new();
    let mut k: usize = 0;
    while k < grouped.len()
        invariant
            k <= grouped@.len(),
            ids@ =~= grouped@.take(k as int).map_values(|p: (usize, Vec<ChainSegment>)| p.0),
        decreases grouped@.len() - k,
    {
        ids.push(grouped[k].0);
        k = k + 1;
    }
    proof {
        if (exists|b: int| 0 <= b < chain.blocks@.len() && is_enabled_insert(chain.blocks@[b])) || n_segs == 0 {
            assert(ids@ =~= seq![0usize]);
        } else {
            assert(ids@ =~= first_seen(keys).0);
        }
    }
    ids
}

/// The parts of one input's processing state that are not its block nodes.
pub struct InputPlan {
    /// The layout the input is read in from the device.
    pub input_read_layout: AudioChannelLayout,
    /// The layout of the bus its blocks process on.
    pub processing_layout: AudioChannelLayout,
    /// The source is one channel broadcast to the bus.
    pub source_is_mono: bool,
    pub input_channels: Vec<usize>,
    /// Frames the segment fades in over.
    pub fade_in_remaining: usize,
    pub output_route_indices: Vec<usize>,
    pub split_mono_sibling_count: Option<usize>,
}

/// Plan the processing state of `input`, writing `output_channel_count`
/// channels: it is read in its mode's layout, processes on the bus
/// [`processing_layout`] picks, fades in unless it reuses the nodes of the
/// state it replaces, and keeps its routes and sibling count.
pub fn plan_input_processing(
    input: &InputEntry,
    output_channel_count: usize,
    had_existing: bool,
    output_route_indices: Vec<usize>,
    split_mono_sibling_count: Option<usize>,
) -> (r: InputPlan)
    ensures
        r.input_read_layout == (if input.mode == ChainInputMode::Mono {
            AudioChannelLayout::Mono
        } else {
            AudioChannelLayout::Stereo
        }),
        r.processing_layout == (if processing_layout_spec(output_channel_count as int, input.mode)
            == ProcessingLayout::Mono {
            AudioChannelLayout::Mono
        } else {
            AudioChannelLayout::Stereo
        }),
        r.source_is_mono == (input.mode == ChainInputMode::Mono),
        r.input_channels@ == input.channels@,
        r.fade_in_remaining == (if had_existing { 0 } else { FADE_IN_FRAMES }),
        r.output_route_indices == output_route_indices,
        r.split_mono_sibling_count == split_mono_sibling_count,
{
    let input_read_layout = input_read_layout(input.mode);
    let processing = bus_layout(processing_layout(output_channel_count, input.mode));
    let source_is_mono = match input_read_layout {
        AudioChannelLayout::Mono => true,
        AudioChannelLayout::Stereo => false,
    };
    InputPlan {
        input_read_layout,
        processing_layout: processing,
        source_is_mono,
        input_channels: copy_channels(&input.channels),
        fade_in_remaining: segment_fade_in(had_existing),
        output_route_indices,
        split_mono_sibling_count,
    }
}

/// Take every input's block nodes out for a live rebuild, leaving each
/// input with none.
pub fn extract_blocks<T>(states: &mut Vec<Vec<T>>) -> (r: Vec<Vec<T>>)
    ensures
        r@ == old(states)@,
        final(states)@.len() == old(states)@.len(),
        forall|j: int| 0 <= j < final(states)@.len() ==> (#[trigger] final(states)@[j])@.len() == 0,
{
    let mut out: Vec<Vec<T>> = Vec::new();
    let mut j: usize = 0;
    while j < states.len()
        invariant
            j <= states@.len(),
            states@.len() == old(states)@.len(),
            out@ == old(states)@.take(j as int),
            forall|k: int| 0 <= k < j ==> (#[trigger] states@[k])@.len() == 0,
            forall|k: int| j <= k < states@.len() ==> states@[k] == old(states)@[k],
        decreases states@.len() - j,
    {
        let mut taken: Vec<T> = Vec::new();
        states.set_and_swap(j, &mut taken);
        out.push(taken);
        proof {
            assert(out@ =~= old(states)@.take(j + 1));
        }
        j = j + 1;
    }
    proof {
        assert(old(states)@.take(old(states)@.len() as int) =~= old(states)@);
    }
    out
}

/// After a live rebuild failed: give each input whose nodes are gone the
/// nodes still held for it in `extracted`, so the chain keeps playing. An
/// input that still has nodes keeps them; inputs past the end of
/// `extracted` are left alone.
pub fn restore_blocks<T>(states: &mut Vec<Vec<T>>, extracted: Vec<Vec<T>>)
    ensures
        final(states)@.len() == old(states)@.len(),
        forall|j: int|
            0 <= j < old(states)@.len() ==> #[trigger] final(states)@[j] == if j < extracted@.len()
                && old(states)@[j]@.len() == 0 {
                extracted@[j]
            } else {
                old(states)@[j]
            },
{
    let mut rest = extracted;
    let ghost ex = rest@;
    proof {
        assert(rest@.len() == rest.len());
    }
    let mut j: usize = 0;
    while j < states.len() && rest.len() > 0
        invariant
            j <= states@.len(),
            states@.len() == old(states)@.len(),
            ex.len() <= usize::MAX,
            j as int <= ex.len(),
            rest@ == ex.subrange(j as int, ex.len() as int),
            forall|k: int|
                0 <= k < j ==> #[trigger] states@[k] == if k < ex.len() && old(states)@[k]@.len() == 0 {
                    ex[k]
                } else {
                    old(states)@[k]
                },
            forall|k: int| j <= k < states@.len() ==> states@[k] == old(states)@[k],
        decreases states@.len() - j,
    {
        let mut next = rest.remove(0);
        if states[j].len() == 0 {
            states.set_and_swap(j, &mut next);
        }
        proof {
            assert(rest@ =~= ex.subrange(j + 1, ex.len() as int));
        }
        j = j + 1;
    }
}

} // verus!
