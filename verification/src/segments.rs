//! Cutting a chain into segments: one per effective input, each running
//! the processing blocks from where its input enters up to the next enabled
//! insert (whose send it then feeds) or to the end of the chain (where it
//! feeds the outputs of its own binding).
use vstd::prelude::*;
use vstd::string::StrSliceExecFns;
use crate::chain::{
    is_enabled_insert, is_routing, BlockKind, Chain, ChainBlock, InputEntry, InputView, IoBinding,
    OutputEntry, chain_has_enabled_insert, copy_channels,
};
use crate::endpoints::{
    binding_inputs, binding_outputs, enabled_insert_io, first_seen, insert_send_spec,
    insert_sends_from, pos_from, resolved_inputs_from, resolved_outputs_from,
    insert_send_as_output_entry, copy_input,
};
use crate::chain::input_views;

verus! {

/// A straight run of processing blocks between an input and its routes.
pub struct ChainSegment {
    pub input: InputEntry,
    /// The device stream that feeds the input.
    pub cpal_input_index: usize,
    /// The processing blocks of the run, as positions in the chain.
    pub block_indices: Vec<usize>,
    /// The output routes the run writes, as positions among the chain's
    /// effective outputs.
    pub output_route_indices: Vec<usize>,
    /// How many split-mono siblings share the raw entry, when more than one.
    pub split_mono_sibling_count: Option<usize>,
    /// The raw input entry the run comes from.
    pub entry_group: usize,
}

#[verifier::ext_equal]
pub struct SegmentView {
    pub input: InputView,
    pub stream: usize,
    pub blocks: Seq<usize>,
    pub routes: Seq<usize>,
    pub siblings: Option<usize>,
    pub group: usize,
}

impl View for ChainSegment {
    type V = SegmentView;

    open spec fn view(&self) -> SegmentView {
        SegmentView {
            input: self.input@,
            stream: self.cpal_input_index,
            blocks: self.block_indices@,
            routes: self.output_route_indices@,
            siblings: self.split_mono_sibling_count,
            group: self.entry_group,
        }
    }
}

/// Where a run that starts at block `k` ends: at the first enabled insert
/// from `k` on, or at the end of the chain.
pub open spec fn seg_end_from(blocks: Seq<ChainBlock>, k: int) -> int
    decreases blocks.len() - k,
{
    if k < 0 || k >= blocks.len() {
        blocks.len() as int
    } else if is_enabled_insert(blocks[k]) {
        k
    } else {
        seg_end_from(blocks, k + 1)
    }
}

/// The processing (non-routing) blocks among `blocks[start..end]`.
pub open spec fn non_routing_in(blocks: Seq<ChainBlock>, start: int, end: int) -> Seq<usize>
    decreases end - start,
{
    if end <= start {
        Seq::empty()
    } else {
        let prev = non_routing_in(blocks, start, end - 1);
        if !is_routing(blocks[end - 1].kind) {
            prev.push((end - 1) as usize)
        } else {
            prev
        }
    }
}

/// The positions `a, a + 1, ..., b - 1`.
pub open spec fn range_seq(a: int, b: int) -> Seq<usize> {
    Seq::new(if b > a { (b - a) as nat } else { 0 }, |i: int| (a + i) as usize)
}

/// How many insert sends the chain has.
pub open spec fn sends_total(blocks: Seq<ChainBlock>, reg: Seq<IoBinding>) -> int {
    insert_sends_from(blocks, reg, 0).len() as int
}

/// How many of `n_out` effective outputs are regular (not insert sends).
pub open spec fn regular_count(blocks: Seq<ChainBlock>, reg: Seq<IoBinding>, n_out: int) -> int {
    if n_out >= sends_total(blocks, reg) {
        n_out - sends_total(blocks, reg)
    } else {
        0
    }
}

/// The route of the send of the insert at block `q`: after the regular
/// outputs, sends are numbered in block order.
pub open spec fn send_route_spec(blocks: Seq<ChainBlock>, reg: Seq<IoBinding>, q: int, n_out: int) -> Seq<
    usize,
> {
    match enabled_insert_io(blocks[q]) {
        Some(io) => if insert_send_spec(reg, io) is Some {
            seq![
                (regular_count(blocks, reg, n_out) + sends_total(blocks, reg) - insert_sends_from(
                    blocks,
                    reg,
                    q,
                ).len()) as usize,
            ]
        } else {
            Seq::empty()
        },
        None => Seq::empty(),
    }
}

/// The routes the tail of raw input entry `raw` feeds. The chain's
/// bindings `ids[k..]` own the inputs from `in_off` on and the outputs
/// from `out_off` on, in order: an entry of a binding feeds exactly that
/// binding's outputs; any other entry feeds every regular output.
pub open spec fn tail_routes_from(
    ids: Seq<String>,
    reg: Seq<IoBinding>,
    k: int,
    in_off: int,
    out_off: int,
    raw: int,
    n_regular: int,
) -> Seq<usize>
    decreases ids.len() - k,
{
    if k < 0 || k >= ids.len() {
        range_seq(0, n_regular)
    } else {
        let ni = binding_inputs(reg, ids[k]@).len() as int;
        let no = binding_outputs(reg, ids[k]@).len() as int;
        if in_off <= raw < in_off + ni {
            range_seq(out_off, out_off + no)
        } else {
            tail_routes_from(ids, reg, k + 1, in_off + ni, out_off + no, raw, n_regular)
        }
    }
}

/// The routes of a run that ends at block `end`.
pub open spec fn segment_routes(
    blocks: Seq<ChainBlock>,
    ids: Seq<String>,
    reg: Seq<IoBinding>,
    end: int,
    raw: int,
    n_out: int,
) -> Seq<usize> {
    if end < blocks.len() {
        send_route_spec(blocks, reg, end, n_out)
    } else {
        tail_routes_from(ids, reg, 0, 0, 0, raw, regular_count(blocks, reg, n_out))
    }
}

/// How many of `groups` are `g`.
pub open spec fn group_count(groups: Seq<usize>, g: int) -> int
    decreases groups.len(),
{
    if groups.len() == 0 {
        0
    } else {
        group_count(groups.drop_last(), g) + if groups.last() as int == g {
            1int
        } else {
            0int
        }
    }
}

pub open spec fn siblings_spec(groups: Seq<usize>, g: int) -> Option<usize> {
    if group_count(groups, g) > 1 {
        Some(group_count(groups, g) as usize)
    } else {
        None
    }
}

/// The segment of effective input `i`.
pub open spec fn segment_spec(
    blocks: Seq<ChainBlock>,
    ids: Seq<String>,
    reg: Seq<IoBinding>,
    inputs: Seq<InputView>,
    cpal: Seq<usize>,
    splits: Seq<usize>,
    groups: Seq<usize>,
    n_out: int,
    i: int,
) -> SegmentView {
    let start = splits[i] as int;
    let end = seg_end_from(blocks, start);
    SegmentView {
        input: inputs[i],
        stream: cpal[i],
        blocks: non_routing_in(blocks, start, end),
        routes: segment_routes(blocks, ids, reg, end, groups[i] as int, n_out),
        siblings: siblings_spec(groups, groups[i] as int),
        group: groups[i],
    }
}

fn segment_end(blocks: &Vec<ChainBlock>, start: usize) -> (r: usize)
    ensures
        r as int == seg_end_from(blocks@, start as int),
        r <= blocks@.len(),
{
    let mut k: usize = start;
    if k >= blocks.len() {
        return blocks.len();
    }
    while k < blocks.len()
        invariant
            start <= k <= blocks@.len(),
            seg_end_from(blocks@, start as int) == seg_end_from(blocks@, k as int),
        decreases blocks@.len() - k,
    {
        let b = &blocks[k];
        if b.enabled {
            if let BlockKind::Insert(_) = &b.kind {
                return k;
            }
        }
        k = k + 1;
    }
    blocks.len()
}

fn block_is_routing(b: &ChainBlock) -> (r: bool)
    ensures
        r == is_routing(b.kind),
{
    match &b.kind {
        BlockKind::Input | BlockKind::Output | BlockKind::Insert(_) => true,
        _ => false,
    }
}

fn blocks_between(blocks: &Vec<ChainBlock>, start: usize, end: usize) -> (r: Vec<usize>)
    requires
        end <= blocks@.len(),
    ensures
        r@ == non_routing_in(blocks@, start as int, end as int),
{
    let mut out: Vec<usize> = Vec::new();
    if end <= start {
        return out;
    }
    let mut k: usize = start;
    while k < end
        invariant
            start <= k <= end,
            end <= blocks@.len(),
            out@ == non_routing_in(blocks@, start as int, k as int),
        decreases end - k,
    {
        if !block_is_routing(&blocks[k]) {
            out.push(k);
        }
        k = k + 1;
    }
    out
}

fn send_exists(b: &ChainBlock, registry: &[IoBinding]) -> (r: bool)
    ensures
        r == (match enabled_insert_io(*b) {
            Some(io) => insert_send_spec(registry@, io) is Some,
            None => false,
        }),
{
    if b.enabled {
        if let BlockKind::Insert(ins) = &b.kind {
            let s = insert_send_as_output_entry(ins, registry);
            return s.is_some();
        }
    }
    false
}

/// How many insert sends the blocks from `q` on have.
fn sends_from(blocks: &Vec<ChainBlock>, registry: &[IoBinding], q: usize) -> (r: usize)
    requires
        q <= blocks@.len(),
    ensures
        r as int == insert_sends_from(blocks@, registry@, q as int).len(),
        r <= blocks@.len() - q,
{
    let mut n: usize = 0;
    let len = blocks.len();
    let mut k: usize = len;
    while k > q
        invariant
            len == blocks@.len(),
            q <= k <= blocks@.len(),
            n as int == insert_sends_from(blocks@, registry@, k as int).len(),
            n <= blocks@.len() - k,
        decreases k - q,
    {
        k = k - 1;
        if send_exists(&blocks[k], registry) {
            assert(n < blocks@.len());
            n = n + 1;
        }
    }
    n
}

fn range_vec(a: usize, b: usize) -> (r: Vec<usize>)
    ensures
        r@ == range_seq(a as int, b as int),
{
    let mut out: Vec<usize> = Vec::new();
    if b <= a {
        assert(out@ =~= range_seq(a as int, b as int));
        return out;
    }
    let mut k: usize = a;
    while k < b
        invariant
            a <= k <= b,
            out@ =~= range_seq(a as int, k as int),
        decreases b - k,
    {
        out.push(k);
        k = k + 1;
    }
    out
}

fn tail_routes(chain: &Chain, registry: &[IoBinding], raw: usize, n_regular: usize) -> (r: Vec<usize>)
    requires
        resolved_inputs_from(chain.io_binding_ids@, registry@, 0).len() <= usize::MAX,
        resolved_outputs_from(chain.io_binding_ids@, registry@, 0).len() <= usize::MAX,
    ensures
        r@ == tail_routes_from(chain.io_binding_ids@, registry@, 0, 0, 0, raw as int, n_regular as int),
{
    let ids = &chain.io_binding_ids;
    let mut in_off: usize = 0;
    let mut out_off: usize = 0;
    let mut k: usize = 0;
    while k < ids.len()
        invariant
            k <= ids@.len(),
            ids@ == chain.io_binding_ids@,
            in_off + resolved_inputs_from(ids@, registry@, k as int).len()
                == resolved_inputs_from(ids@, registry@, 0).len(),
            out_off + resolved_outputs_from(ids@, registry@, k as int).len()
                == resolved_outputs_from(ids@, registry@, 0).len(),
            resolved_inputs_from(ids@, registry@, 0).len() <= usize::MAX,
            resolved_outputs_from(ids@, registry@, 0).len() <= usize::MAX,
            tail_routes_from(ids@, registry@, 0, 0, 0, raw as int, n_regular as int)
                == tail_routes_from(ids@, registry@, k as int, in_off as int, out_off as int, raw as int, n_regular as int),
        decreases ids@.len() - k,
    {
        let ni = count_binding_inputs(registry, &ids[k]);
        let no = count_binding_outputs(registry, &ids[k]);
        proof {
            assert(resolved_inputs_from(ids@, registry@, k as int).len() == ni + resolved_inputs_from(
                ids@,
                registry@,
                k + 1,
            ).len());
            assert(resolved_outputs_from(ids@, registry@, k as int).len() == no
                + resolved_outputs_from(ids@, registry@, k + 1).len());
        }
        if in_off <= raw && raw - in_off < ni {
            return range_vec(out_off, out_off + no);
        }
        in_off = in_off + ni;
        out_off = out_off + no;
        k = k + 1;
    }
    range_vec(0, n_regular)
}

fn count_binding_inputs(registry: &[IoBinding], id: &String) -> (r: usize)
    ensures
        r as int == binding_inputs(registry@, id@).len(),
{
    let mut i: usize = 0;
    while i < registry.len()
        invariant
            i <= registry@.len(),
            crate::endpoints::find_binding_from(registry@, id@, 0) == crate::endpoints::find_binding_from(registry@, id@, i as int),
        decreases registry@.len() - i,
    {
        if registry[i].id == *id {
            return registry[i].inputs.len();
        }
        i = i + 1;
    }
    0
}

fn count_binding_outputs(registry: &[IoBinding], id: &String) -> (r: usize)
    ensures
        r as int == binding_outputs(registry@, id@).len(),
{
    let mut i: usize = 0;
    while i < registry.len()
        invariant
            i <= registry@.len(),
            crate::endpoints::find_binding_from(registry@, id@, 0) == crate::endpoints::find_binding_from(registry@, id@, i as int),
        decreases registry@.len() - i,
    {
        if registry[i].id == *id {
            return registry[i].outputs.len();
        }
        i = i + 1;
    }
    0
}

proof fn lemma_sends_monotone(blocks: Seq<ChainBlock>, reg: Seq<IoBinding>, a: int, b: int)
    requires
        0 <= a <= b,
    ensures
        insert_sends_from(blocks, reg, b).len() <= insert_sends_from(blocks, reg, a).len(),
    decreases b - a,
{
    if a < b {
        lemma_sends_monotone(blocks, reg, a + 1, b);
    }
}

/// The route of the send of the insert at `q`, if it has one.
fn send_route(blocks: &Vec<ChainBlock>, registry: &[IoBinding], q: usize, n_out: usize) -> (r: Vec<usize>)
    requires
        q < blocks@.len(),
    ensures
        r@ == send_route_spec(blocks@, registry@, q as int, n_out as int),
{
    let mut out: Vec<usize> = Vec::new();
    if send_exists(&blocks[q], registry) {
        let total = sends_from(blocks, registry, 0);
        let from_q = sends_from(blocks, registry, q);
        proof {
            lemma_sends_monotone(blocks@, registry@, 0, q as int);
        }
        let n_regular = if n_out >= total { n_out - total } else { 0 };
        out.push(n_regular + (total - from_q));
        assert(out@ =~= send_route_spec(blocks@, registry@, q as int, n_out as int));
    } else {
        assert(out@ =~= send_route_spec(blocks@, registry@, q as int, n_out as int));
    }
    out
}

fn count_group(groups: &[usize], g: usize) -> (r: usize)
    ensures
        r as int == group_count(groups@, g as int),
{
    let mut n: usize = 0;
    let mut i: usize = 0;
    while i < groups.len()
        invariant
            i <= groups@.len(),
            n as int == group_count(groups@.take(i as int), g as int),
            n <= i,
        decreases groups@.len() - i,
    {
        assert(groups@.take(i + 1).drop_last() =~= groups@.take(i as int));
        if groups[i] == g {
            n = n + 1;
        }
        i = i + 1;
    }
    assert(groups@.take(groups@.len() as int) =~= groups@);
    n
}

/// Cut the chain into one segment per effective input.
///
/// The segment of input `i` starts at block `split_positions[i]` and runs
/// up to the first enabled insert from there on, or to the end of the
/// chain; it holds the processing blocks of that run. A run that stops at
/// an insert writes that insert's send (numbered after the regular
/// outputs, in block order) when the insert's binding has an output. A run
/// that reaches the end writes the outputs of the binding its raw input
/// entry came from, or every regular output when the entry came from no
/// binding (an insert return, the fallback input). Entries split from one
/// mono raw entry record how many siblings they have.
pub fn split_chain_into_segments(
    chain: &Chain,
    eff_inputs: &[InputEntry],
    cpal_indices: &[usize],
    split_positions: &[usize],
    entry_groups: &[usize],
    eff_outputs: &[OutputEntry],
    registry: &[IoBinding],
) -> (r: Vec<ChainSegment>)
    requires
        cpal_indices@.len() == eff_inputs@.len(),
        split_positions@.len() == eff_inputs@.len(),
        entry_groups@.len() == eff_inputs@.len(),
        resolved_inputs_from(chain.io_binding_ids@, registry@, 0).len() <= usize::MAX,
        resolved_outputs_from(chain.io_binding_ids@, registry@, 0).len() <= usize::MAX,
    ensures
        r@.len() == eff_inputs@.len(),
        forall|i: int|
            0 <= i < r@.len() ==> r@[i]@ == segment_spec(
                chain.blocks@,
                chain.io_binding_ids@,
                registry@,
                input_views(eff_inputs@),
                cpal_indices@,
                split_positions@,
                entry_groups@,
                eff_outputs@.len() as int,
                i,
            ),
{
    let blocks = &chain.blocks;
    let n_out = eff_outputs.len();
    let mut out: Vec<ChainSegment> = Vec::new();
    let mut i: usize = 0;
    while i < eff_inputs.len()
        invariant
            i <= eff_inputs@.len(),
            blocks@ == chain.blocks@,
            n_out == eff_outputs@.len(),
            cpal_indices@.len() == eff_inputs@.len(),
            split_positions@.len() == eff_inputs@.len(),
            entry_groups@.len() == eff_inputs@.len(),
            resolved_inputs_from(chain.io_binding_ids@, registry@, 0).len() <= usize::MAX,
            resolved_outputs_from(chain.io_binding_ids@, registry@, 0).len() <= usize::MAX,
            out@.len() == i,
            forall|k: int|
                0 <= k < i ==> out@[k]@ == segment_spec(
                    chain.blocks@,
                    chain.io_binding_ids@,
                    registry@,
                    input_views(eff_inputs@),
                    cpal_indices@,
                    split_positions@,
                    entry_groups@,
                    eff_outputs@.len() as int,
                    k,
                ),
        decreases eff_inputs@.len() - i,
    {
        let start = split_positions[i];
        let end = segment_end(blocks, start);
        let block_indices = blocks_between(blocks, start, end);
        let routes = if end < blocks.len() {
            send_route(blocks, registry, end, n_out)
        } else {
            let total = sends_from(blocks, registry, 0);
            let n_regular = if n_out >= total { n_out - total } else { 0 };
            tail_routes(chain, registry, entry_groups[i], n_regular)
        };
        let c = count_group(entry_groups, entry_groups[i]);
        let siblings = if c > 1 { Some(c) } else { None };
        let seg = ChainSegment {
            input: copy_input(&eff_inputs[i]),
            cpal_input_index: cpal_indices[i],
            block_indices,
            output_route_indices: routes,
            split_mono_sibling_count: siblings,
            entry_group: entry_groups[i],
        };
        assert(seg@ =~= segment_spec(
            chain.blocks@,
            chain.io_binding_ids@,
            registry@,
            input_views(eff_inputs@),
            cpal_indices@,
            split_positions@,
            entry_groups@,
            eff_outputs@.len() as int,
            i as int,
        ));
        out.push(seg);
        i = i + 1;
    }
    out
}

/// The segments of `segs` that come from raw entry `g`, in order.
pub open spec fn segs_of_group(segs: Seq<ChainSegment>, g: usize) -> Seq<ChainSegment>
    decreases segs.len(),
{
    if segs.len() == 0 {
        Seq::empty()
    } else {
        let prev = segs_of_group(segs.drop_last(), g);
        if segs.last().entry_group == g {
            prev.push(segs.last())
        } else {
            prev
        }
    }
}

/// The raw entry of each segment.
pub open spec fn segment_keys(segs: Seq<ChainSegment>) -> Seq<usize> {
    segs.map_values(|s: ChainSegment| s.entry_group)
}

proof fn lemma_no_segs_of_group(segs: Seq<ChainSegment>, g: usize)
    requires
        forall|m: int| 0 <= m < segs.len() ==> segs[m].entry_group != g,
    ensures
        segs_of_group(segs, g) == Seq::<ChainSegment>::empty(),
    decreases segs.len(),
{
    if segs.len() > 0 {
        lemma_no_segs_of_group(segs.drop_last(), g);
    }
}

/// Where `key` first stands among the group keys of `groups`.
fn find_group(groups: &Vec<(usize, Vec<ChainSegment>)>, key: usize) -> (r: Option<usize>)
    ensures
        match r {
            Some(j) => j < groups@.len() && groups@[j as int].0 == key && pos_from(
                groups@.map_values(|p: (usize, Vec<ChainSegment>)| p.0),
                key,
                0,
            ) == j as int,
            None => pos_from(groups@.map_values(|p: (usize, Vec<ChainSegment>)| p.0), key, 0) == -1
                && forall|k: int| 0 <= k < groups@.len() ==> groups@[k].0 != key,
        },
{
    let ghost order = groups@.map_values(|p: (usize, Vec<ChainSegment>)| p.0);
    let mut j: usize = 0;
    while j < groups.len()
        invariant
            j <= groups@.len(),
            order == groups@.map_values(|p: (usize, Vec<ChainSegment>)| p.0),
            pos_from(order, key, 0) == pos_from(order, key, j as int),
            forall|k: int| 0 <= k < j ==> groups@[k].0 != key,
        decreases groups@.len() - j,
    {
        if groups[j].0 == key {
            return Some(j);
        }
        j = j + 1;
    }
    None
}

/// Partition a chain's segments into one group per raw input entry, each
/// to become an isolated runtime: groups in the order their entries first
/// appear, each holding its segments in order. Split-mono siblings share a
/// raw entry and so a group. A chain with an enabled insert is one
/// pipeline across streams and stays whole, as group 0; so do no segments.
pub fn group_segments_by_input(chain: &Chain, segments: Vec<ChainSegment>) -> (r: Vec<(usize, Vec<ChainSegment>)>)
    ensures
        (exists|b: int| 0 <= b < chain.blocks@.len() && is_enabled_insert(chain.blocks@[b]))
            || segments@.len() == 0 ==> r@.len() == 1 && r@[0].0 == 0 && r@[0].1@ == segments@,
        !((exists|b: int| 0 <= b < chain.blocks@.len() && is_enabled_insert(chain.blocks@[b]))
            || segments@.len() == 0) ==> {
            &&& r@.len() == first_seen(segment_keys(segments@)).0.len()
            &&& forall|k: int|
                #![trigger r@[k]]
                0 <= k < r@.len() ==> r@[k].0 == first_seen(segment_keys(segments@)).0[k]
                    && r@[k].1@ == segs_of_group(segments@, r@[k].0)
        },
{
    if chain_has_enabled_insert(chain) || segments.len() == 0 {
        let mut whole: Vec<(usize, Vec<ChainSegment>)> = Vec::new();
        whole.push((0, segments));
        return whole;
    }
    let ghost segs = segments@;
    let ghost keys = segment_keys(segs);
    let n = segments.len();
    let mut rest = segments;
    let mut groups: Vec<(usize, Vec<ChainSegment>)> = Vec::new();
    let mut i: usize = 0;
    while i < n
        invariant
            n == segs.len(),
            keys == segment_keys(segs),
            i <= n,
            rest@ == segs.subrange(i as int, n as int),
            groups@.map_values(|p: (usize, Vec<ChainSegment>)| p.0) == first_seen(keys.take(i as int)).0,
            forall|k: int|
                0 <= k < groups@.len() ==> groups@[k].1@ == segs_of_group(segs.take(i as int), groups@[k].0),
            forall|a: int, b: int| 0 <= a < b < groups@.len() ==> groups@[a].0 != groups@[b].0,
            forall|m: int|
                #![trigger segs[m]]
                0 <= m < i ==> exists|k: int| 0 <= k < groups@.len() && groups@[k].0 == segs[m].entry_group,
        decreases n - i,
    {
        let seg = rest.remove(0);
        let key = seg.entry_group;
        proof {
            assert(seg == segs[i as int]);
            assert(keys.take(i + 1).drop_last() =~= keys.take(i as int));
            assert(keys.take(i + 1).last() == key);
            assert(segs.take(i + 1).drop_last() =~= segs.take(i as int));
            assert(segs.take(i + 1).last() == seg);
            assert(rest@ =~= segs.subrange(i + 1, n as int));
        }
        let ghost old_groups = groups@;
        match find_group(&groups, key) {
            Some(j) => {
                groups[j].1.push(seg);
                proof {
                    assert(groups@.map_values(|p: (usize, Vec<ChainSegment>)| p.0) =~= old_groups.map_values(
                        |p: (usize, Vec<ChainSegment>)| p.0,
                    ));
                    assert forall|k: int| 0 <= k < groups@.len() implies groups@[k].1@ == segs_of_group(
                        segs.take(i + 1),
                        groups@[k].0,
                    ) by {
                        if k != j {
                            assert(groups@[k] == old_groups[k]);
                        }
                    }
                    assert forall|m: int| #![trigger segs[m]] 0 <= m < i + 1 implies exists|k: int|
                        0 <= k < groups@.len() && groups@[k].0 == segs[m].entry_group by {
                        if m < i {
                            let k0 = choose|k: int| 0 <= k < old_groups.len() && old_groups[k].0 == segs[m].entry_group;
                            assert(groups@[k0].0 == old_groups[k0].0);
                        } else {
                            assert(groups@[j as int].0 == segs[m].entry_group);
                        }
                    }
                }
            },
            None => {
                proof {
                    assert forall|m: int| 0 <= m < segs.take(i as int).len() implies segs.take(i as int)[m].entry_group != key by {
                        let k0 = choose|k: int| 0 <= k < old_groups.len() && old_groups[k].0 == segs[m].entry_group;
                    }
                    lemma_no_segs_of_group(segs.take(i as int), key);
                }
                let mut fresh: Vec<ChainSegment> = Vec::new();
                fresh.push(seg);
                groups.push((key, fresh));
                proof {
                    assert(groups@.map_values(|p: (usize, Vec<ChainSegment>)| p.0) =~= old_groups.map_values(
                        |p: (usize, Vec<ChainSegment>)| p.0,
                    ).push(key));
                    assert forall|k: int| 0 <= k < groups@.len() implies groups@[k].1@ == segs_of_group(
                        segs.take(i + 1),
                        groups@[k].0,
                    ) by {
                        if k < old_groups.len() {
                            assert(groups@[k] == old_groups[k]);
                        } else {
                            assert(groups@[k].1@ =~= seq![seg]);
                        }
                    }
                    assert forall|m: int| #![trigger segs[m]] 0 <= m < i + 1 implies exists|k: int|
                        0 <= k < groups@.len() && groups@[k].0 == segs[m].entry_group by {
                        if m < i {
                            let k0 = choose|k: int| 0 <= k < old_groups.len() && old_groups[k].0 == segs[m].entry_group;
                            assert(groups@[k0].0 == old_groups[k0].0);
                        } else {
                            assert(groups@[old_groups.len() as int].0 == segs[m].entry_group);
                        }
                    }
                }
            },
        }
        i = i + 1;
    }
    proof {
        assert(keys.take(n as int) =~= keys);
        assert(segs.take(n as int) =~= segs);
        assert forall|k: int| 0 <= k < groups@.len() implies groups@[k].0 == first_seen(keys).0[k] by {
            assert(groups@.map_values(|p: (usize, Vec<ChainSegment>)| p.0)[k] == groups@[k].0);
        }
    }
    groups
}

/// The effect type of a cabinet block.
pub const EFFECT_TYPE_CAB: &'static str = "cab";

/// The effect type of an impulse-response block.
pub const EFFECT_TYPE_IR: &'static str = "ir";

/// The model prefix of impulse responses loaded through any block.
pub const IR_MODEL_PREFIX: &'static str = "ir_";

/// Whether `prefix` begins `s`.
pub open spec fn has_prefix(s: Seq<char>, prefix: Seq<char>) -> bool {
    prefix.len() <= s.len() && s.subrange(0, prefix.len() as int) == prefix
}

/// Whether `prefix` begins `s`, compared character by character.
fn str_starts_with(s: &str, prefix: &str) -> (r: bool)
    ensures
        r == has_prefix(s@, prefix@),
{
    let n = prefix.unicode_len();
    if n > s.unicode_len() {
        return false;
    }
    let mut i: usize = 0;
    while i < n
        invariant
            n == prefix@.len(),
            n <= s@.len(),
            i <= n,
            s@.subrange(0, i as int) == prefix@.subrange(0, i as int),
        decreases n - i,
    {
        if s.get_char(i) != prefix.get_char(i) {
            assert(s@.subrange(0, n as int)[i as int] != prefix@[i as int]);
            return false;
        }
        assert(s@.subrange(0, i + 1) =~= s@.subrange(0, i as int).push(s@[i as int]));
        assert(prefix@.subrange(0, i + 1) =~= prefix@.subrange(0, i as int).push(prefix@[i as int]));
        i = i + 1;
    }
    assert(prefix@.subrange(0, n as int) =~= prefix@);
    true
}

/// Whether block `b` is an enabled convolution: a cabinet or IR block, or
/// any core or NAM block that loads an impulse response.
pub open spec fn is_convolution(b: ChainBlock) -> bool {
    b.enabled && match b.kind {
        BlockKind::Core(core) => core.effect_type@ == EFFECT_TYPE_CAB@ || core.effect_type@
            == EFFECT_TYPE_IR@ || has_prefix(core.model@, IR_MODEL_PREFIX@),
        BlockKind::Nam(nam) => has_prefix(nam.model@, IR_MODEL_PREFIX@),
        _ => false,
    }
}

/// Whether `block` is an enabled convolution (IR or cabinet) block.
pub fn block_is_convolution(block: &ChainBlock) -> (r: bool)
    ensures
        r == is_convolution(*block),
{
    if !block.enabled {
        return false;
    }
    match &block.kind {
        BlockKind::Core(core) => {
            let cab = EFFECT_TYPE_CAB.to_owned();
            let ir = EFFECT_TYPE_IR.to_owned();
            core.effect_type == cab || core.effect_type == ir || str_starts_with(
                core.model.as_str(),
                IR_MODEL_PREFIX,
            )
        },
        BlockKind::Nam(nam) => str_starts_with(nam.model.as_str(), IR_MODEL_PREFIX),
        _ => false,
    }
}

/// Whether segment `s` writes route `route`.
pub open spec fn writes_route(s: ChainSegment, route: usize) -> bool {
    s.output_route_indices@.contains(route)
}

fn contains_index(v: &Vec<usize>, x: usize) -> (r: bool)
    ensures
        r == v@.contains(x),
{
    let mut i: usize = 0;
    while i < v.len()
        invariant
            i <= v@.len(),
            forall|k: int| 0 <= k < i ==> v@[k] != x,
        decreases v@.len() - i,
    {
        if v[i] == x {
            return true;
        }
        i = i + 1;
    }
    false
}

/// Whether route `route_idx` runs on its producer's clock: some segment
/// writes it, and every segment that writes it reads its input from
/// `output_device`, the device the route plays on. Otherwise the two
/// clocks drift apart even at one nominal rate.
pub fn route_on_producer_clock(segments: &[ChainSegment], route_idx: usize, output_device: &String) -> (r: bool)
    ensures
        r == ((exists|i: int| 0 <= i < segments@.len() && writes_route(segments@[i], route_idx))
            && forall|i: int|
            0 <= i < segments@.len() && writes_route(segments@[i], route_idx)
                ==> segments@[i].input.device_id@ == output_device@),
{
    let mut any = false;
    let mut i: usize = 0;
    while i < segments.len()
        invariant
            i <= segments@.len(),
            any == exists|k: int| 0 <= k < i && writes_route(segments@[k], route_idx),
            forall|k: int|
                0 <= k < i && writes_route(segments@[k], route_idx)
                    ==> segments@[k].input.device_id@ == output_device@,
        decreases segments@.len() - i,
    {
        if contains_index(&segments[i].output_route_indices, route_idx) {
            if segments[i].input.device_id != *output_device {
                return false;
            }
            any = true;
        }
        i = i + 1;
    }
    any
}

/// Whether some processing block of `seg`, looked up in `blocks`, convolves.
pub open spec fn segment_convolves(blocks: Seq<ChainBlock>, seg: ChainSegment) -> bool {
    exists|k: int|
        0 <= k < seg.block_indices@.len() && seg.block_indices@[k] < blocks.len()
            && is_convolution(blocks[seg.block_indices@[k] as int])
}

fn segment_has_convolution(blocks: &Vec<ChainBlock>, seg: &ChainSegment) -> (r: bool)
    ensures
        r == segment_convolves(blocks@, *seg),
{
    let idx = &seg.block_indices;
    let mut k: usize = 0;
    while k < idx.len()
        invariant
            k <= idx@.len(),
            idx@ == seg.block_indices@,
            forall|j: int|
                0 <= j < k ==> !(idx@[j] < blocks@.len() && is_convolution(blocks@[idx@[j] as int])),
        decreases idx@.len() - k,
    {
        let b = idx[k];
        if b < blocks.len() {
            if block_is_convolution(&blocks[b]) {
                return true;
            }
        }
        k = k + 1;
    }
    false
}

/// Whether a convolution block feeds route `route_idx`: some segment that
/// writes the route runs one. Such a route is born with its cushion filled
/// so the convolver's first callbacks cannot starve it.
pub fn route_has_convolution(chain: &Chain, segments: &[ChainSegment], route_idx: usize) -> (r: bool)
    ensures
        r == exists|i: int|
            0 <= i < segments@.len() && writes_route(segments@[i], route_idx) && segment_convolves(
                chain.blocks@,
                segments@[i],
            ),
{
    let mut i: usize = 0;
    while i < segments.len()
        invariant
            i <= segments@.len(),
            forall|k: int|
                0 <= k < i ==> !(writes_route(segments@[k], route_idx) && segment_convolves(
                    chain.blocks@,
                    segments@[k],
                )),
        decreases segments@.len() - i,
    {
        if contains_index(&segments[i].output_route_indices, route_idx) {
            if segment_has_convolution(&chain.blocks, &segments[i]) {
                return true;
            }
        }
        i = i + 1;
    }
    false
}

/// How many inputs the bindings before position `k` of the chain's list
/// contribute.
pub open spec fn inputs_before(ids: Seq<String>, reg: Seq<IoBinding>, k: int) -> int {
    resolved_inputs_from(ids, reg, 0).len() - resolved_inputs_from(ids, reg, k).len()
}

/// How many outputs the bindings before position `k` contribute.
pub open spec fn outputs_before(ids: Seq<String>, reg: Seq<IoBinding>, k: int) -> int {
    resolved_outputs_from(ids, reg, 0).len() - resolved_outputs_from(ids, reg, k).len()
}

proof fn lemma_resolved_monotone(ids: Seq<String>, reg: Seq<IoBinding>, a: int, b: int)
    requires
        0 <= a <= b,
    ensures
        resolved_inputs_from(ids, reg, b).len() <= resolved_inputs_from(ids, reg, a).len(),
        resolved_outputs_from(ids, reg, b).len() <= resolved_outputs_from(ids, reg, a).len(),
    decreases b - a,
{
    if a < b {
        lemma_resolved_monotone(ids, reg, a + 1, b);
    }
}

proof fn lemma_tail_routes_reach(
    ids: Seq<String>,
    reg: Seq<IoBinding>,
    m: int,
    k: int,
    raw: int,
    n_regular: int,
)
    requires
        0 <= m <= k < ids.len(),
        inputs_before(ids, reg, k) <= raw < inputs_before(ids, reg, k) + binding_inputs(reg, ids[k]@).len(),
    ensures
        tail_routes_from(ids, reg, m, inputs_before(ids, reg, m), outputs_before(ids, reg, m), raw, n_regular)
            == range_seq(
            outputs_before(ids, reg, k),
            outputs_before(ids, reg, k) + binding_outputs(reg, ids[k]@).len(),
        ),
    decreases k - m,
{
    if m < k {
        lemma_resolved_monotone(ids, reg, m + 1, k);
        assert(resolved_inputs_from(ids, reg, m).len() == binding_inputs(reg, ids[m]@).len()
            + resolved_inputs_from(ids, reg, m + 1).len());
        assert(resolved_outputs_from(ids, reg, m).len() == binding_outputs(reg, ids[m]@).len()
            + resolved_outputs_from(ids, reg, m + 1).len());
        lemma_tail_routes_reach(ids, reg, m + 1, k, raw, n_regular);
    }
}

/// No cross-binding routing: a segment that runs to the end of the chain
/// and comes from an input of the chain's `k`-th binding writes exactly
/// that binding's outputs, never another binding's.
pub proof fn law_tail_routes_stay_in_binding(
    blocks: Seq<ChainBlock>,
    ids: Seq<String>,
    reg: Seq<IoBinding>,
    inputs: Seq<InputView>,
    cpal: Seq<usize>,
    splits: Seq<usize>,
    groups: Seq<usize>,
    n_out: int,
    i: int,
    k: int,
)
    requires
        0 <= i < splits.len(),
        i < groups.len(),
        0 <= k < ids.len(),
        seg_end_from(blocks, splits[i] as int) == blocks.len(),
        inputs_before(ids, reg, k) <= groups[i] < inputs_before(ids, reg, k) + binding_inputs(
            reg,
            ids[k]@,
        ).len(),
    ensures
        segment_spec(blocks, ids, reg, inputs, cpal, splits, groups, n_out, i).routes == range_seq(
            outputs_before(ids, reg, k),
            outputs_before(ids, reg, k) + binding_outputs(reg, ids[k]@).len(),
        ),
{
    lemma_tail_routes_reach(ids, reg, 0, k, groups[i] as int, regular_count(blocks, reg, n_out));
}

proof fn lemma_seg_end(blocks: Seq<ChainBlock>, start: int, k: int)
    requires
        0 <= start <= k,
        forall|m: int| start <= m < k && m < blocks.len() ==> !is_enabled_insert(#[trigger] blocks[m]),
    ensures
        seg_end_from(blocks, start) == seg_end_from(blocks, k),
    decreases k - start,
{
    if start < k && start < blocks.len() {
        lemma_seg_end(blocks, start + 1, k);
    }
}

proof fn lemma_seg_end_bounds(blocks: Seq<ChainBlock>, start: int)
    requires
        0 <= start,
    ensures
        start <= seg_end_from(blocks, start) || seg_end_from(blocks, start) == blocks.len(),
        seg_end_from(blocks, start) <= blocks.len(),
        seg_end_from(blocks, start) < blocks.len() ==> is_enabled_insert(blocks[seg_end_from(blocks, start)]),
        forall|m: int|
            start <= m < seg_end_from(blocks, start) ==> !is_enabled_insert(#[trigger] blocks[m]),
    decreases blocks.len() - start,
{
    if start < blocks.len() && !is_enabled_insert(blocks[start]) {
        lemma_seg_end_bounds(blocks, start + 1);
    }
}

proof fn lemma_non_routing_in(blocks: Seq<ChainBlock>, start: int, end: int)
    requires
        0 <= start,
        end <= blocks.len(),
        blocks.len() <= usize::MAX,
    ensures
        forall|x: int|
            0 <= x < non_routing_in(blocks, start, end).len() ==> start <= #[trigger] non_routing_in(
                blocks,
                start,
                end,
            )[x] < end && !is_routing(blocks[non_routing_in(blocks, start, end)[x] as int].kind),
        forall|x: int, y: int|
            0 <= x < y < non_routing_in(blocks, start, end).len() ==> non_routing_in(blocks, start, end)[x]
                < non_routing_in(blocks, start, end)[y],
    decreases end - start,
{
    if end > start {
        lemma_non_routing_in(blocks, start, end - 1);
        assert(((end - 1) as usize) as int == end - 1);
    }
}

/// A segment runs between inserts: its blocks are processing blocks, in
/// chain order, from its start up to where it ends; no enabled insert
/// lies before that end (a disabled insert does not split the chain), and
/// a segment that stops short of the end of the chain stops at an
/// enabled insert.
pub proof fn law_segment_runs_between_inserts(
    blocks: Seq<ChainBlock>,
    ids: Seq<String>,
    reg: Seq<IoBinding>,
    inputs: Seq<InputView>,
    cpal: Seq<usize>,
    splits: Seq<usize>,
    groups: Seq<usize>,
    n_out: int,
    i: int,
)
    requires
        0 <= i < splits.len(),
        blocks.len() <= usize::MAX,
    ensures
        ({
            let start = splits[i] as int;
            let end = seg_end_from(blocks, start);
            let seg = segment_spec(blocks, ids, reg, inputs, cpal, splits, groups, n_out, i);
            &&& end <= blocks.len()
            &&& forall|x: int|
                0 <= x < seg.blocks.len() ==> start <= #[trigger] seg.blocks[x] < end && !is_routing(
                    blocks[seg.blocks[x] as int].kind,
                )
            &&& forall|x: int, y: int| 0 <= x < y < seg.blocks.len() ==> seg.blocks[x] < seg.blocks[y]
            &&& forall|m: int| start <= m < end ==> !is_enabled_insert(#[trigger] blocks[m])
            &&& end < blocks.len() ==> is_enabled_insert(blocks[end])
        }),
{
    let start = splits[i] as int;
    lemma_seg_end_bounds(blocks, start);
    lemma_non_routing_in(blocks, start, seg_end_from(blocks, start));
}

} // verus!
