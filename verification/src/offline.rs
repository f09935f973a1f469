//! Offline rendering of a chain: the chunking of the render, which nodes
//! run, and the report of blocks that could not be built.
//!
//! A render never fails on a block that would not build: the block is
//! replaced by a bypass and reported, so a caller that needs every block
//! to have run checks the report.
use vstd::prelude::*;
use crate::audio_frame::{frame_pair, frame_pair_spec, AudioFrame};
use crate::endpoints::{find_string, string_views};

verus! {

/// One block that could not be built into a processor.
#[derive(Debug, Clone, PartialEq, Eq)]
pub struct FaultedBlock {
    pub block_id: String,
    pub effect_type: String,
    pub model: String,
    pub error: String,
}

/// What the fault report reads of a built node.
pub struct OfflineNode {
    pub block_id: String,
    /// Why the node could not be built, if it could not.
    pub fault_reason: Option<String>,
    /// The effect type and model of a block that names a model.
    pub model_ref: Option<(String, String)>,
    /// The label of the block's kind, for a block without a model.
    pub kind_label: String,
}

#[verifier::ext_equal]
pub struct FaultView {
    pub block_id: Seq<char>,
    pub effect_type: Seq<char>,
    pub model: Seq<char>,
    pub error: Seq<char>,
}

impl View for FaultedBlock {
    type V = FaultView;

    open spec fn view(&self) -> FaultView {
        FaultView {
            block_id: self.block_id@,
            effect_type: self.effect_type@,
            model: self.model@,
            error: self.error@,
        }
    }
}

/// The report of node `n`, when it faulted: its model's effect type and
/// model, or its kind's label and no model.
pub open spec fn fault_of(n: OfflineNode) -> Option<FaultView> {
    match n.fault_reason {
        Some(reason) => Some(
            FaultView {
                block_id: n.block_id@,
                effect_type: match n.model_ref {
                    Some(m) => m.0@,
                    None => n.kind_label@,
                },
                model: match n.model_ref {
                    Some(m) => m.1@,
                    None => Seq::empty(),
                },
                error: reason@,
            },
        ),
        None => None,
    }
}

/// The reports of the faulted nodes among `nodes`, in order.
pub open spec fn faults_spec(nodes: Seq<OfflineNode>) -> Seq<FaultView>
    decreases nodes.len(),
{
    if nodes.len() == 0 {
        Seq::empty()
    } else {
        let prev = faults_spec(nodes.drop_last());
        match fault_of(nodes.last()) {
            Some(f) => prev.push(f),
            None => prev,
        }
    }
}

/// Every block that could not be built, in chain order.
pub fn collect_faulted_blocks(nodes: &[OfflineNode]) -> (r: Vec<FaultedBlock>)
    ensures
        r@.map_values(|f: FaultedBlock| f@) == faults_spec(nodes@),
{
    let mut out: Vec<FaultedBlock> = Vec::new();
    let mut i: usize = 0;
    while i < nodes.len()
        invariant
            i <= nodes@.len(),
            out@.map_values(|f: FaultedBlock| f@) == faults_spec(nodes@.take(i as int)),
        decreases nodes@.len() - i,
    {
        let n = &nodes[i];
        proof {
            assert(nodes@.take(i + 1).drop_last() =~= nodes@.take(i as int));
            assert(nodes@.take(i + 1).last() == nodes@[i as int]);
        }
        match &n.fault_reason {
            Some(reason) => {
                let (effect_type, model) = match &n.model_ref {
                    Some(m) => (m.0.clone(), m.1.clone()),
                    None => (n.kind_label.clone(), String::new()),
                };
                let f = FaultedBlock { block_id: n.block_id.clone(), effect_type, model, error: reason.clone() };
                let ghost prev = out@;
                out.push(f);
                proof {
                    assert(f@ =~= fault_of(*n)->Some_0);
                    assert(out@.map_values(|f: FaultedBlock| f@) =~= prev.map_values(|f: FaultedBlock| f@).push(f@));
                }
            },
            None => {},
        }
        i = i + 1;
    }
    assert(nodes@.take(nodes@.len() as int) =~= nodes@);
    out
}

/// Why a render was refused.
#[derive(Clone, Copy, Debug, PartialEq, Eq, Structural)]
pub enum RenderError {
    /// Chunks of zero frames would never finish.
    ZeroBlockSize,
}

/// The chunks `(start, len)` of a render of `total` frames from frame
/// `start` on, each `block_size` frames but the last.
pub open spec fn chunks_from(start: int, total: int, block_size: int) -> Seq<(usize, usize)>
    decreases total - start,
{
    if block_size <= 0 || start >= total {
        Seq::empty()
    } else {
        let len = if block_size < total - start { block_size } else { total - start };
        seq![(start as usize, len as usize)] + chunks_from(start + len, total, block_size)
    }
}

/// The chunks of an offline render: the input plus a tail of silence
/// that lets time-based blocks ring out, cut into `block_size`-frame
/// chunks (the last one shorter). A zero block size is refused.
pub fn render_chunks(input_len: usize, tail_frames: usize, block_size: usize) -> (r: Result<
    Vec<(usize, usize)>,
    RenderError,
>)
    requires
        input_len + tail_frames <= usize::MAX,
    ensures
        block_size == 0 <==> r is Err,
        r matches Ok(v) ==> v@ == chunks_from(0, input_len + tail_frames, block_size as int),
{
    if block_size == 0 {
        return Err(RenderError::ZeroBlockSize);
    }
    let total = input_len + tail_frames;
    let mut out: Vec<(usize, usize)> = Vec::new();
    let mut start: usize = 0;
    while start < total
        invariant
            start <= total,
            block_size > 0,
            total == input_len + tail_frames,
            out@ + chunks_from(start as int, total as int, block_size as int) == chunks_from(
                0,
                total as int,
                block_size as int,
            ),
        decreases total - start,
    {
        let len = if block_size < total - start { block_size } else { total - start };
        let ghost rest = chunks_from(start + len, total as int, block_size as int);
        let ghost prev = out@;
        out.push((start, len));
        proof {
            assert(prev + (seq![(start, len)] + rest) =~= prev.push((start, len)) + rest);
        }
        start = start + len;
    }
    assert(out@ + chunks_from(start as int, total as int, block_size as int) =~= out@);
    Ok(out)
}

/// Frame `g` of the render input: the input frame, or `silence` in the
/// tail after it.
pub fn render_input_frame<S: Copy>(input: &[[S; 2]], g: usize, silence: S) -> (r: [S; 2])
    ensures
        g < input@.len() ==> r == input@[g as int],
        g >= input@.len() ==> r == [silence, silence],
{
    if g < input.len() {
        input[g]
    } else {
        [silence, silence]
    }
}

/// Whether node `i` runs in a masked render: the mask decides where it
/// reaches, the node's own flag beyond.
pub fn node_runs(mask: &[bool], i: usize, node_enabled: bool) -> (r: bool)
    ensures
        r == if i < mask@.len() {
            mask@[i as int]
        } else {
            node_enabled
        },
{
    if i < mask.len() {
        mask[i]
    } else {
        node_enabled
    }
}

/// The frames a list of chunks covers.
pub open spec fn chunk_total(c: Seq<(usize, usize)>) -> int
    decreases c.len(),
{
    if c.len() == 0 {
        0
    } else {
        c[0].1 + chunk_total(c.drop_first())
    }
}

/// The chunks of a render cover it exactly: they start where the render
/// starts, each begins where the previous one ended, none is empty or
/// longer than the block size, and together they hold every frame once.
pub proof fn law_chunks_cover(start: int, total: int, block_size: int)
    requires
        0 <= start <= total,
        total <= usize::MAX,
        block_size > 0,
    ensures
        ({
            let c = chunks_from(start, total, block_size);
            &&& chunk_total(c) == total - start
            &&& c.len() > 0 ==> c[0].0 == start
            &&& forall|k: int| 0 <= k < c.len() ==> 0 < #[trigger] c[k].1 <= block_size
            &&& forall|k: int| 0 <= k < c.len() - 1 ==> #[trigger] c[k + 1].0 == c[k].0 + c[k].1
        }),
    decreases total - start,
{
    if start < total {
        let len = if block_size < total - start { block_size } else { total - start };
        let c = chunks_from(start, total, block_size);
        let rest = chunks_from(start + len, total, block_size);
        law_chunks_cover(start + len, total, block_size);
        assert(c.drop_first() =~= rest);
        assert forall|k: int| 0 <= k < c.len() - 1 implies #[trigger] c[k + 1].0 == c[k].0 + c[k].1 by {
            if k > 0 {
                assert(c[k] == rest[k - 1]);
                assert(c[k + 1] == rest[k]);
            }
        }
    }
}

/// A block processor that renders a buffer of frames in place, keeping its
/// length. Blocks implement it. `processes` relates a buffer before and after one call of
/// `process_buffer` on a processor in a given state; a processor that
/// states nothing of its output keeps the default, which relates every pair.
pub trait BufferProcessor<S> {
    open spec fn processes(&self, before: Seq<AudioFrame<S>>, after: Seq<AudioFrame<S>>) -> bool {
        true
    }

    fn process_buffer(&mut self, frames: &mut Vec<AudioFrame<S>>)
        ensures
            old(self).processes(old(frames)@, final(frames)@),
            final(frames)@.len() == old(frames)@.len(),
    ;
}

/// What a node runs.
pub enum RuntimeProcessor<P> {
    Audio(P),
    /// One of several option nodes, chosen by block id.
    Select(SelectRuntimeState<P>),
    /// Nothing: a stand-in for a block with no processor.
    Bypass,
}

pub struct SelectRuntimeState<P> {
    pub selected_block_id: String,
    pub options: Vec<BlockRuntimeNode<P>>,
}

/// One block of a built chain.
pub struct BlockRuntimeNode<P> {
    pub block_id: String,
    /// The block could not be built; it passes its input through.
    pub faulted: bool,
    pub processor: RuntimeProcessor<P>,
}

/// The first option with the selected id, if any.
pub open spec fn selected_option<P>(options: Seq<BlockRuntimeNode<P>>, id: Seq<char>, i: int) -> Option<int>
    decreases options.len() - i,
{
    if i < 0 || i >= options.len() {
        None
    } else if options[i].block_id@ == id {
        Some(i)
    } else {
        selected_option(options, id, i + 1)
    }
}

/// Whether rendering through `node` runs a processor at all: a faulted or
/// bypass node does not, and a select node runs what its selected option
/// runs (nothing when no option has the selected id).
pub open spec fn runs<P>(node: BlockRuntimeNode<P>) -> bool
    decreases node,
{
    if node.faulted {
        false
    } else {
        match node.processor {
            RuntimeProcessor::Audio(_) => true,
            RuntimeProcessor::Select(sel) => match selected_option(sel.options@, sel.selected_block_id@, 0) {
                Some(i) => if 0 <= i < sel.options@.len() {
                    runs(sel.options@[i])
                } else {
                    false
                },
                None => false,
            },
            RuntimeProcessor::Bypass => false,
        }
    }
}

/// Whether rendering through `node` can turn `before` into `after`: a
/// faulted or bypass node, and a select node with no option of the
/// selected id, leave the frames as they are; an audio node's processor
/// relates them; a select node renders through its selected option.
pub open spec fn offline_renders<S, P: BufferProcessor<S>>(
    node: BlockRuntimeNode<P>,
    before: Seq<AudioFrame<S>>,
    after: Seq<AudioFrame<S>>,
) -> bool
    decreases node,
{
    if node.faulted {
        after == before
    } else {
        match node.processor {
            RuntimeProcessor::Audio(p) => p.processes(before, after),
            RuntimeProcessor::Select(sel) => match selected_option(sel.options@, sel.selected_block_id@, 0) {
                Some(i) => if 0 <= i < sel.options@.len() {
                    offline_renders(sel.options@[i], before, after)
                } else {
                    after == before
                },
                None => after == before,
            },
            RuntimeProcessor::Bypass => after == before,
        }
    }
}

proof fn lemma_selected_same_ids<P>(a: Seq<BlockRuntimeNode<P>>, b: Seq<BlockRuntimeNode<P>>, id: Seq<char>, j: int)
    requires
        a.len() == b.len(),
        forall|k: int| 0 <= k < a.len() ==> #[trigger] a[k].block_id@ == b[k].block_id@,
    ensures
        selected_option(a, id, j) == selected_option(b, id, j),
    decreases a.len() - j,
{
    if 0 <= j < a.len() {
        lemma_selected_same_ids(a, b, id, j + 1);
    }
}

fn find_selected<P>(options: &Vec<BlockRuntimeNode<P>>, id: &String) -> (r: Option<usize>)
    ensures
        match r {
            Some(i) => i < options@.len() && selected_option(options@, id@, 0) == Some(i as int),
            None => selected_option(options@, id@, 0) is None,
        },
{
    let mut i: usize = 0;
    while i < options.len()
        invariant
            i <= options@.len(),
            selected_option(options@, id@, 0) == selected_option(options@, id@, i as int),
        decreases options@.len() - i,
    {
        if options[i].block_id == *id {
            return Some(i);
        }
        i = i + 1;
    }
    None
}

/// Render `frames` through one node offline. A faulted node, a bypass
/// node and a select node whose selected option does not exist leave the
/// frames untouched; an audio node runs its processor; a select node
/// renders through its selected option.
pub fn apply_block_offline<S, P: BufferProcessor<S>>(node: &mut BlockRuntimeNode<P>, frames: &mut Vec<AudioFrame<S>>)
    ensures
        !runs(*old(node)) ==> final(frames)@ == old(frames)@,
        offline_renders(*old(node), old(frames)@, final(frames)@),
        final(frames)@.len() == old(frames)@.len(),
        runs(*final(node)) == runs(*old(node)),
        final(node).block_id == old(node).block_id,
        final(node).faulted == old(node).faulted,
    decreases *old(node),
{
    if node.faulted {
        return;
    }
    match &mut node.processor {
        RuntimeProcessor::Audio(p) => {
            p.process_buffer(frames);
        },
        RuntimeProcessor::Select(sel) => {
            match find_selected(&sel.options, &sel.selected_block_id) {
                Some(i) => {
                    let ghost before = sel.options@;
                    apply_block_offline(&mut sel.options[i], frames);
                    proof {
                        lemma_selected_same_ids(sel.options@, before, sel.selected_block_id@, 0);
                    }
                },
                None => {},
            }
        },
        RuntimeProcessor::Bypass => {},
    }
}

/// Whether a node of `states` with id `id` has no processor at all.
pub open spec fn bypass_listed<P>(states: Seq<Vec<BlockRuntimeNode<P>>>, id: Seq<char>) -> bool {
    exists|i: int, j: int|
        0 <= i < states.len() && 0 <= j < states[i]@.len() && (#[trigger] states[i]@[j]).processor is Bypass
            && states[i]@[j].block_id@ == id
}

/// The ids of the blocks whose node, in any input's pipeline, is a bypass
/// stand-in, each listed once: re-enabling one of them needs a rebuild.
pub fn collect_bypass_block_ids<P>(input_states: &Vec<Vec<BlockRuntimeNode<P>>>) -> (r: Vec<String>)
    ensures
        string_views(r@).no_duplicates(),
        forall|id: Seq<char>| string_views(r@).contains(id) <==> bypass_listed(input_states@, id),
{
    let mut ids: Vec<String> = Vec::new();
    let mut i: usize = 0;
    while i < input_states.len()
        invariant
            i <= input_states@.len(),
            string_views(ids@).no_duplicates(),
            forall|id: Seq<char>|
                string_views(ids@).contains(id) <==> (exists|a: int, b: int|
                    0 <= a < i && 0 <= b < input_states@[a]@.len() && (#[trigger] input_states@[a]@[b]).processor is Bypass
                        && input_states@[a]@[b].block_id@ == id),
        decreases input_states@.len() - i,
    {
        let blocks = &input_states[i];
        let mut j: usize = 0;
        while j < blocks.len()
            invariant
                i < input_states@.len(),
                blocks@ == input_states@[i as int]@,
                j <= blocks@.len(),
                string_views(ids@).no_duplicates(),
                forall|id: Seq<char>|
                    string_views(ids@).contains(id) <==> ((exists|a: int, b: int|
                        0 <= a < i && 0 <= b < input_states@[a]@.len() && (#[trigger] input_states@[a]@[b]).processor is Bypass
                            && input_states@[a]@[b].block_id@ == id) || (exists|b: int|
                        0 <= b < j && (#[trigger] blocks@[b]).processor is Bypass && blocks@[b].block_id@ == id)),
            decreases blocks@.len() - j,
        {
            let is_bypass = match &blocks[j].processor {
                RuntimeProcessor::Bypass => true,
                _ => false,
            };
            let ghost before = ids@;
            let ghost bid = blocks@[j as int].block_id@;
            let ghost mut pushed = false;
            if is_bypass {
                match find_string(&ids, &blocks[j].block_id) {
                    Some(k) => {
                        assert(string_views(before)[k as int] == bid);
                    },
                    None => {
                        ids.push(blocks[j].block_id.clone());
                        proof {
                            pushed = true;
                            assert(string_views(ids@) =~= string_views(before).push(bid));
                        }
                    },
                }
            }
            assert(pushed ==> string_views(ids@) == string_views(before).push(bid) && !string_views(before).contains(bid));
            assert(!pushed ==> ids@ == before && (is_bypass ==> string_views(before).contains(bid)));
            proof {
                assert forall|id: Seq<char>|
                    string_views(ids@).contains(id) <==> ((exists|a: int, b: int|
                        0 <= a < i && 0 <= b < input_states@[a]@.len() && (#[trigger] input_states@[a]@[b]).processor is Bypass
                            && input_states@[a]@[b].block_id@ == id) || (exists|b: int|
                        0 <= b < j + 1 && (#[trigger] blocks@[b]).processor is Bypass && blocks@[b].block_id@ == id)) by {
                    if string_views(ids@).contains(id) {
                        let k = choose|k: int| 0 <= k < string_views(ids@).len() && string_views(ids@)[k] == id;
                        if k < before.len() {
                            assert(string_views(before)[k] == id);
                        } else {
                            assert(blocks@[j as int].processor is Bypass);
                        }
                    }
                    if pushed && id == bid {
                        assert(string_views(ids@)[before.len() as int] == id);
                    } else if string_views(before).contains(id) {
                        let k = choose|k: int| 0 <= k < string_views(before).len() && string_views(before)[k] == id;
                        assert(string_views(ids@)[k] == id);
                    }
                }
            }
            j = j + 1;
        }
        proof {
            assert forall|id: Seq<char>|
                string_views(ids@).contains(id) <==> (exists|a: int, b: int|
                    0 <= a < i + 1 && 0 <= b < input_states@[a]@.len() && (#[trigger] input_states@[a]@[b]).processor is Bypass
                        && input_states@[a]@[b].block_id@ == id) by {
                if exists|b: int| 0 <= b < j && (#[trigger] blocks@[b]).processor is Bypass && blocks@[b].block_id@ == id {
                    let b = choose|b: int| 0 <= b < j && (#[trigger] blocks@[b]).processor is Bypass && blocks@[b].block_id@ == id;
                    assert(input_states@[i as int]@[b] == blocks@[b]);
                }
                if exists|a: int, b: int|
                    0 <= a < i + 1 && 0 <= b < input_states@[a]@.len() && (#[trigger] input_states@[a]@[b]).processor is Bypass
                        && input_states@[a]@[b].block_id@ == id {
                    let (a, b) = choose|a: int, b: int|
                        0 <= a < i + 1 && 0 <= b < input_states@[a]@.len() && (#[trigger] input_states@[a]@[b]).processor is Bypass
                            && input_states@[a]@[b].block_id@ == id;
                    if a == i {
                        assert(blocks@[b] == input_states@[a]@[b]);
                    }
                }
            }
        }
        i = i + 1;
    }
    ids
}

/// The text of a caught panic, from what its payload turned out to be: a
/// string slice, else a `String`, else a placeholder.
pub fn panic_message(as_str: Option<&str>, as_string: Option<&String>) -> (r: String)
    ensures
        as_str matches Some(t) ==> r@ == t@,
        as_str is None && as_string is Some ==> r@ == as_string->0@,
        as_str is None && as_string is None ==> r@ == "unknown panic"@,
{
    match as_str {
        Some(t) => t.to_owned(),
        None => match as_string {
            Some(t) => t.clone(),
            None => "unknown panic".to_owned(),
        },
    }
}

/// Frame `g` of a render's input: the input frame, or silence in the tail.
pub open spec fn fed_frame<S>(input: Seq<[S; 2]>, g: int, silence: S) -> [S; 2] {
    if g < input.len() {
        input[g]
    } else {
        [silence, silence]
    }
}

/// Whether no enabled node of `nodes` runs a processor.
pub open spec fn none_runs<P>(nodes: Seq<BlockRuntimeNode<P>>, enabled: Seq<bool>) -> bool {
    forall|n: int| 0 <= n < nodes.len() ==> !(enabled[n] && runs(#[trigger] nodes[n]))
}

/// Render `input` and `tail_frames` frames of `silence` after it through
/// the enabled nodes (`enabled[n]` for node `n`), in chunks of `block_size`
/// frames, as stereo pairs. The output is as long as input and tail
/// together; where no enabled node runs a processor it is the input
/// followed by the silence. A zero block size is refused.
pub fn render_nodes<S: Copy, P: BufferProcessor<S>>(
    nodes: &mut Vec<BlockRuntimeNode<P>>,
    enabled: &Vec<bool>,
    input: &[[S; 2]],
    block_size: usize,
    tail_frames: usize,
    silence: S,
) -> (r: Result<Vec<[S; 2]>, RenderError>)
    requires
        input@.len() + tail_frames <= usize::MAX,
        enabled@.len() == old(nodes)@.len(),
    ensures
        r is Err <==> block_size == 0,
        r matches Ok(out) ==> out@.len() == input@.len() + tail_frames,
        r matches Ok(out) ==> (none_runs(old(nodes)@, enabled@) ==> forall|g: int|
            0 <= g < out@.len() ==> #[trigger] out@[g] == fed_frame(input@, g, silence)),
        final(nodes)@.len() == old(nodes)@.len(),
{
    if block_size == 0 {
        return Err(RenderError::ZeroBlockSize);
    }
    let ghost quiet = none_runs(nodes@, enabled@);
    let total = input.len() + tail_frames;
    let mut out: Vec<[S; 2]> = Vec::new();
    let mut frame_idx: usize = 0;
    while frame_idx < total
        invariant
            frame_idx <= total,
            total == input@.len() + tail_frames,
            block_size > 0,
            out@.len() == frame_idx,
            nodes@.len() == enabled@.len(),
            nodes@.len() == old(nodes)@.len(),
            quiet == none_runs(old(nodes)@, enabled@),
            quiet ==> none_runs(nodes@, enabled@),
            quiet ==> forall|g: int| 0 <= g < out@.len() ==> #[trigger] out@[g] == fed_frame(input@, g, silence),
        decreases total - frame_idx,
    {
        let chunk = if block_size < total - frame_idx { block_size } else { total - frame_idx };
        let mut buf: Vec<AudioFrame<S>> = Vec::new();
        let mut i: usize = 0;
        while i < chunk
            invariant
                i <= chunk,
                frame_idx + chunk <= total,
                total == input@.len() + tail_frames,
                buf@.len() == i,
                forall|k: int| 0 <= k < i ==> #[trigger] buf@[k] == AudioFrame::Stereo(
                    fed_frame(input@, frame_idx + k, silence),
                ),
            decreases chunk - i,
        {
            buf.push(AudioFrame::Stereo(render_input_frame(input, frame_idx + i, silence)));
            i = i + 1;
        }
        let ghost fed = buf@;
        let mut n: usize = 0;
        while n < nodes.len()
            invariant
                n <= nodes@.len(),
                nodes@.len() == enabled@.len(),
                nodes@.len() == old(nodes)@.len(),
                buf@.len() == chunk,
                quiet ==> none_runs(nodes@, enabled@),
                quiet ==> buf@ == fed,
            decreases nodes@.len() - n,
        {
            if enabled[n] {
                let ghost before = nodes@;
                apply_block_offline(&mut nodes[n], &mut buf);
                proof {
                    if quiet {
                        assert(!(enabled@[n as int] && runs(before[n as int])));
                        assert forall|m: int| 0 <= m < nodes@.len() implies !(enabled@[m] && runs(
                            #[trigger] nodes@[m],
                        )) by {
                            if m != n {
                                assert(nodes@[m] == before[m]);
                            }
                        }
                    }
                }
            }
            n = n + 1;
        }
        let ghost before_out = out@;
        let mut k: usize = 0;
        while k < buf.len()
            invariant
                k <= buf@.len(),
                buf@.len() == chunk,
                frame_idx + chunk <= total,
                out@.len() == frame_idx + k,
                forall|g: int| 0 <= g < frame_idx ==> #[trigger] out@[g] == before_out[g],
                forall|j: int| 0 <= j < k ==> #[trigger] out@[frame_idx + j] == frame_pair_spec(buf@[j]),
            decreases buf@.len() - k,
        {
            out.push(frame_pair(&buf[k]));
            k = k + 1;
        }
        proof {
            if quiet {
                assert forall|g: int| 0 <= g < out@.len() implies #[trigger] out@[g] == fed_frame(input@, g, silence) by {
                    if g >= frame_idx {
                        let j = g - frame_idx;
                        assert(out@[frame_idx + j] == frame_pair_spec(buf@[j]));
                        assert(buf@[j] == fed[j]);
                    } else {
                        assert(out@[g] == before_out[g]);
                    }
                }
            }
        }
        frame_idx = frame_idx + chunk;
    }
    Ok(out)
}

} // verus!
