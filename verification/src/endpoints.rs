//! Endpoint resolution: which device channels a chain reads and writes.
//!
//! A chain names registry bindings; each binding contributes all of its
//! input and output endpoints, in the order the chain lists the bindings.
//! An enabled insert adds its binding's first output as a send route and
//! its first input as a return entry. A chain that resolves no input (or no
//! output) falls back to a single default one, so it still runs.
use vstd::prelude::*;
use crate::chain::{
    copy_channels, input_views, is_enabled_insert, output_views, BlockKind, Chain, ChainBlock,
    ChainInputMode, ChainOutputMode, ChannelMode, InputEntry, InputView, InsertBlock, IoBinding,
    IoEndpoint, OutputEntry, OutputView,
};

verus! {

/// The input mode a registry endpoint is read with.
pub open spec fn input_mode_of(m: ChannelMode) -> ChainInputMode {
    match m {
        ChannelMode::Mono => ChainInputMode::Mono,
        ChannelMode::Stereo => ChainInputMode::Stereo,
        ChannelMode::DualMono => ChainInputMode::DualMono,
    }
}

/// The output mode a registry endpoint is written with: a dual-mono pair
/// is driven as a stereo pair.
pub open spec fn output_mode_of(m: ChannelMode) -> ChainOutputMode {
    match m {
        ChannelMode::Mono => ChainOutputMode::Mono,
        _ => ChainOutputMode::Stereo,
    }
}

pub open spec fn endpoint_input(ep: IoEndpoint) -> InputView {
    InputView { device: ep.device_id@, mode: input_mode_of(ep.mode), channels: ep.channels@ }
}

pub open spec fn endpoint_output(ep: IoEndpoint) -> OutputView {
    OutputView { device: ep.device_id@, mode: output_mode_of(ep.mode), channels: ep.channels@ }
}

/// The first binding at or after `i` whose id is `id`.
pub open spec fn find_binding_from(reg: Seq<IoBinding>, id: Seq<char>, i: int) -> Option<int>
    decreases reg.len() - i,
{
    if i < 0 || i >= reg.len() {
        None
    } else if reg[i].id@ == id {
        Some(i)
    } else {
        find_binding_from(reg, id, i + 1)
    }
}

/// The first binding of the registry whose id is `id`.
pub open spec fn find_binding(reg: Seq<IoBinding>, id: Seq<char>) -> Option<int> {
    find_binding_from(reg, id, 0)
}

/// Every input endpoint of binding `id`, or none when it is unknown.
pub open spec fn binding_inputs(reg: Seq<IoBinding>, id: Seq<char>) -> Seq<InputView> {
    match find_binding(reg, id) {
        Some(k) => reg[k].inputs@.map_values(|ep: IoEndpoint| endpoint_input(ep)),
        None => Seq::empty(),
    }
}

/// Every output endpoint of binding `id`, or none when it is unknown.
pub open spec fn binding_outputs(reg: Seq<IoBinding>, id: Seq<char>) -> Seq<OutputView> {
    match find_binding(reg, id) {
        Some(k) => reg[k].outputs@.map_values(|ep: IoEndpoint| endpoint_output(ep)),
        None => Seq::empty(),
    }
}

/// The inputs of the bindings `ids[k..]`, in order.
pub open spec fn resolved_inputs_from(ids: Seq<String>, reg: Seq<IoBinding>, k: int) -> Seq<
    InputView,
>
    decreases ids.len() - k,
{
    if k < 0 || k >= ids.len() {
        Seq::empty()
    } else {
        binding_inputs(reg, ids[k]@) + resolved_inputs_from(ids, reg, k + 1)
    }
}

/// The outputs of the bindings `ids[k..]`, in order.
pub open spec fn resolved_outputs_from(ids: Seq<String>, reg: Seq<IoBinding>, k: int) -> Seq<
    OutputView,
>
    decreases ids.len() - k,
{
    if k < 0 || k >= ids.len() {
        Seq::empty()
    } else {
        binding_outputs(reg, ids[k]@) + resolved_outputs_from(ids, reg, k + 1)
    }
}

/// The return entry of an insert through binding `io`: its first input.
pub open spec fn insert_return_spec(reg: Seq<IoBinding>, io: Seq<char>) -> Option<InputView> {
    if binding_inputs(reg, io).len() > 0 {
        Some(binding_inputs(reg, io)[0])
    } else {
        None
    }
}

/// The send route of an insert through binding `io`: its first output.
pub open spec fn insert_send_spec(reg: Seq<IoBinding>, io: Seq<char>) -> Option<OutputView> {
    if binding_outputs(reg, io).len() > 0 {
        Some(binding_outputs(reg, io)[0])
    } else {
        None
    }
}

/// The binding `io` of block `b` when it is an enabled insert.
pub open spec fn enabled_insert_io(b: ChainBlock) -> Option<Seq<char>> {
    if b.enabled {
        match b.kind {
            BlockKind::Insert(ins) => Some(ins.io@),
            _ => None,
        }
    } else {
        None
    }
}

/// The send routes of the enabled inserts among `blocks[k..]`, in order.
pub open spec fn insert_sends_from(blocks: Seq<ChainBlock>, reg: Seq<IoBinding>, k: int) -> Seq<
    OutputView,
>
    decreases blocks.len() - k,
{
    if k < 0 || k >= blocks.len() {
        Seq::empty()
    } else {
        let rest = insert_sends_from(blocks, reg, k + 1);
        match enabled_insert_io(blocks[k]) {
            Some(io) => match insert_send_spec(reg, io) {
                Some(send) => seq![send] + rest,
                None => rest,
            },
            None => rest,
        }
    }
}

/// The output a chain falls back to when it resolves none.
pub open spec fn fallback_output() -> OutputView {
    OutputView { device: Seq::empty(), mode: ChainOutputMode::Stereo, channels: seq![0usize, 1usize] }
}

/// The outputs a chain writes: the resolved ones (or the fallback when
/// there are none), then one send per enabled insert whose binding has an
/// output.
pub open spec fn effective_outputs_spec(
    blocks: Seq<ChainBlock>,
    resolved: Seq<OutputView>,
    reg: Seq<IoBinding>,
) -> Seq<OutputView> {
    let regular = if resolved.len() == 0 { seq![fallback_output()] } else { resolved };
    regular + insert_sends_from(blocks, reg, 0)
}

/// The index of the first binding named `id`.
fn find_binding_index(reg: &[IoBinding], id: &String) -> (r: Option<usize>)
    ensures
        match r {
            Some(k) => find_binding(reg@, id@) == Some(k as int) && k < reg@.len(),
            None => find_binding(reg@, id@) is None,
        },
{
    let mut i: usize = 0;
    while i < reg.len()
        invariant
            i <= reg@.len(),
            find_binding_from(reg@, id@, 0) == find_binding_from(reg@, id@, i as int),
        decreases reg@.len() - i,
    {
        if reg[i].id == *id {
            return Some(i);
        }
        i = i + 1;
    }
    None
}

fn input_mode(m: ChannelMode) -> (r: ChainInputMode)
    ensures
        r == input_mode_of(m),
{
    match m {
        ChannelMode::Mono => ChainInputMode::Mono,
        ChannelMode::Stereo => ChainInputMode::Stereo,
        ChannelMode::DualMono => ChainInputMode::DualMono,
    }
}

fn output_mode(m: ChannelMode) -> (r: ChainOutputMode)
    ensures
        r == output_mode_of(m),
{
    match m {
        ChannelMode::Mono => ChainOutputMode::Mono,
        _ => ChainOutputMode::Stereo,
    }
}

fn input_entry_of(ep: &IoEndpoint) -> (r: InputEntry)
    ensures
        r@ == endpoint_input(*ep),
{
    let e = InputEntry {
        device_id: ep.device_id.clone(),
        mode: input_mode(ep.mode),
        channels: copy_channels(&ep.channels),
    };
    assert(e@ =~= endpoint_input(*ep));
    e
}

fn output_entry_of(ep: &IoEndpoint) -> (r: OutputEntry)
    ensures
        r@ == endpoint_output(*ep),
{
    let e = OutputEntry {
        device_id: ep.device_id.clone(),
        mode: output_mode(ep.mode),
        channels: copy_channels(&ep.channels),
    };
    assert(e@ =~= endpoint_output(*ep));
    e
}

/// Append every input endpoint of binding `id` to `out`.
fn push_binding_inputs(reg: &[IoBinding], id: &String, out: &mut Vec<InputEntry>)
    ensures
        input_views(final(out)@) == input_views(old(out)@) + binding_inputs(reg@, id@),
{
    let ghost start = input_views(out@);
    match find_binding_index(reg, id) {
        None => {
            assert(input_views(out@) =~= start + binding_inputs(reg@, id@));
        },
        Some(k) => {
            let eps = &reg[k].inputs;
            let ghost want = eps@.map_values(|ep: IoEndpoint| endpoint_input(ep));
            let mut j: usize = 0;
            while j < eps.len()
                invariant
                    j <= eps@.len(),
                    want == eps@.map_values(|ep: IoEndpoint| endpoint_input(ep)),
                    input_views(out@) =~= start + want.take(j as int),
                decreases eps@.len() - j,
            {
                let e = input_entry_of(&eps[j]);
                let ghost prev = out@;
                out.push(e);
                proof {
                    assert(want.take(j + 1) =~= want.take(j as int).push(want[j as int]));
                    assert(input_views(out@) =~= input_views(prev).push(e@));
                }
                j = j + 1;
            }
            assert(want.take(eps@.len() as int) =~= want);
        },
    }
}

/// Append every output endpoint of binding `id` to `out`.
fn push_binding_outputs(reg: &[IoBinding], id: &String, out: &mut Vec<OutputEntry>)
    ensures
        output_views(final(out)@) == output_views(old(out)@) + binding_outputs(reg@, id@),
{
    let ghost start = output_views(out@);
    match find_binding_index(reg, id) {
        None => {
            assert(output_views(out@) =~= start + binding_outputs(reg@, id@));
        },
        Some(k) => {
            let eps = &reg[k].outputs;
            let ghost want = eps@.map_values(|ep: IoEndpoint| endpoint_output(ep));
            let mut j: usize = 0;
            while j < eps.len()
                invariant
                    j <= eps@.len(),
                    want == eps@.map_values(|ep: IoEndpoint| endpoint_output(ep)),
                    output_views(out@) =~= start + want.take(j as int),
                decreases eps@.len() - j,
            {
                let e = output_entry_of(&eps[j]);
                let ghost prev = out@;
                out.push(e);
                proof {
                    assert(want.take(j + 1) =~= want.take(j as int).push(want[j as int]));
                    assert(output_views(out@) =~= output_views(prev).push(e@));
                }
                j = j + 1;
            }
            assert(want.take(eps@.len() as int) =~= want);
        },
    }
}

/// The inputs and outputs of the bindings the chain names, in the order it
/// names them; an id the registry does not hold contributes nothing.
pub fn resolve_chain_io(chain: &Chain, registry: &[IoBinding]) -> (r: (Vec<InputEntry>, Vec<OutputEntry>))
    ensures
        input_views(r.0@) == resolved_inputs_from(chain.io_binding_ids@, registry@, 0),
        output_views(r.1@) == resolved_outputs_from(chain.io_binding_ids@, registry@, 0),
{
    let ids = &chain.io_binding_ids;
    let mut ins: Vec<InputEntry> = Vec::new();
    let mut outs: Vec<OutputEntry> = Vec::new();
    let mut k: usize = 0;
    assert(input_views(ins@) =~= Seq::empty());
    assert(output_views(outs@) =~= Seq::empty());
    while k < ids.len()
        invariant
            k <= ids@.len(),
            input_views(ins@) + resolved_inputs_from(ids@, registry@, k as int)
                =~= resolved_inputs_from(ids@, registry@, 0),
            output_views(outs@) + resolved_outputs_from(ids@, registry@, k as int)
                =~= resolved_outputs_from(ids@, registry@, 0),
        decreases ids@.len() - k,
    {
        let ghost before_in = input_views(ins@);
        let ghost before_out = output_views(outs@);
        push_binding_inputs(registry, &ids[k], &mut ins);
        push_binding_outputs(registry, &ids[k], &mut outs);
        proof {
            let a = binding_inputs(registry@, ids@[k as int]@);
            let b = resolved_inputs_from(ids@, registry@, k + 1);
            assert(before_in + (a + b) =~= (before_in + a) + b);
            let c = binding_outputs(registry@, ids@[k as int]@);
            let d = resolved_outputs_from(ids@, registry@, k + 1);
            assert(before_out + (c + d) =~= (before_out + c) + d);
        }
        k = k + 1;
    }
    assert(input_views(ins@) =~= resolved_inputs_from(ids@, registry@, 0));
    assert(output_views(outs@) =~= resolved_outputs_from(ids@, registry@, 0));
    (ins, outs)
}

/// The entry an insert returns through: the first input of its binding,
/// or `None` when the binding is unknown or has no input.
pub fn insert_return_as_input_entry(insert: &InsertBlock, registry: &[IoBinding]) -> (r: Option<InputEntry>)
    ensures
        match r {
            Some(e) => insert_return_spec(registry@, insert.io@) == Some(e@),
            None => insert_return_spec(registry@, insert.io@) is None,
        },
{
    match find_binding_index(registry, &insert.io) {
        None => None,
        Some(k) => {
            let eps = &registry[k].inputs;
            if eps.len() == 0 {
                None
            } else {
                let e = input_entry_of(&eps[0]);
                Some(e)
            }
        },
    }
}

/// The route an insert sends through: the first output of its binding,
/// or `None` when the binding is unknown or has no output.
pub fn insert_send_as_output_entry(insert: &InsertBlock, registry: &[IoBinding]) -> (r: Option<OutputEntry>)
    ensures
        match r {
            Some(e) => insert_send_spec(registry@, insert.io@) == Some(e@),
            None => insert_send_spec(registry@, insert.io@) is None,
        },
{
    match find_binding_index(registry, &insert.io) {
        None => None,
        Some(k) => {
            let eps = &registry[k].outputs;
            if eps.len() == 0 {
                None
            } else {
                let e = output_entry_of(&eps[0]);
                Some(e)
            }
        },
    }
}

pub(crate) fn copy_output(e: &OutputEntry) -> (r: OutputEntry)
    ensures
        r@ == e@,
{
    let c = OutputEntry { device_id: e.device_id.clone(), mode: e.mode, channels: copy_channels(&e.channels) };
    assert(c@ =~= e@);
    c
}

/// Every output the chain writes: the resolved outputs (or one default
/// stereo output on channels 0 and 1 when none resolved), followed by the
/// send of each enabled insert, in block order.
pub fn effective_outputs(chain: &Chain, resolved: &[OutputEntry], registry: &[IoBinding]) -> (r: Vec<OutputEntry>)
    ensures
        output_views(r@) == effective_outputs_spec(chain.blocks@, output_views(resolved@), registry@),
{
    let mut out: Vec<OutputEntry> = Vec::new();
    if resolved.len() == 0 {
        let mut chans: Vec<usize> = Vec::new();
        chans.push(0);
        chans.push(1);
        let dev = String::new();
        assert(chans@ =~= seq![0usize, 1usize]);
        assert(dev@ =~= Seq::<char>::empty());
        let e = OutputEntry { device_id: dev, mode: ChainOutputMode::Stereo, channels: chans };
        assert(e@ =~= fallback_output());
        out.push(e);
        assert(output_views(out@) =~= seq![fallback_output()]);
    } else {
        let mut i: usize = 0;
        while i < resolved.len()
            invariant
                i <= resolved@.len(),
                output_views(out@) =~= output_views(resolved@).take(i as int),
            decreases resolved@.len() - i,
        {
            let c = copy_output(&resolved[i]);
            let ghost prev = out@;
            out.push(c);
            proof {
                assert(output_views(out@) =~= output_views(prev).push(c@));
                assert(output_views(resolved@).take(i + 1) =~= output_views(resolved@).take(i as int).push(resolved@[i as int]@));
            }
            i = i + 1;
        }
        assert(output_views(resolved@).take(resolved@.len() as int) =~= output_views(resolved@));
    }
    let ghost regular = output_views(out@);
    let blocks = &chain.blocks;
    let mut k: usize = 0;
    while k < blocks.len()
        invariant
            k <= blocks@.len(),
            output_views(out@) + insert_sends_from(blocks@, registry@, k as int)
                =~= regular + insert_sends_from(blocks@, registry@, 0),
        decreases blocks@.len() - k,
    {
        let b = &blocks[k];
        let ghost before = output_views(out@);
        let ghost rest = insert_sends_from(blocks@, registry@, k + 1);
        if b.enabled {
            if let BlockKind::Insert(ins) = &b.kind {
                match insert_send_as_output_entry(ins, registry) {
                    Some(e) => {
                        let ghost prev = out@;
                        out.push(e);
                        proof {
                            assert(output_views(out@) =~= output_views(prev).push(e@));
                            assert(before + (seq![e@] + rest) =~= before.push(e@) + rest);
                        }
                    },
                    None => {},
                }
            }
        }
        k = k + 1;
    }
    out
}

/// The first index at or after `i` at which `s` holds `k`, or -1.
pub open spec fn pos_from<K>(s: Seq<K>, k: K, i: int) -> int
    decreases s.len() - i,
{
    if i < 0 || i >= s.len() {
        -1
    } else if s[i] == k {
        i
    } else {
        pos_from(s, k, i + 1)
    }
}

/// Numbering by first appearance: `.0` lists the distinct keys in the order
/// they first occur, `.1[i]` is the number of `keys[i]` in that list.
pub open spec fn first_seen<K>(keys: Seq<K>) -> (Seq<K>, Seq<int>)
    decreases keys.len(),
{
    if keys.len() == 0 {
        (Seq::empty(), Seq::empty())
    } else {
        let prev = first_seen(keys.drop_last());
        let p = pos_from(prev.0, keys.last(), 0);
        if p >= 0 {
            (prev.0, prev.1.push(p))
        } else {
            (prev.0.push(keys.last()), prev.1.push(prev.0.len() as int))
        }
    }
}

/// One effective input: the entry, the block position its segment starts
/// at, and the raw entry it comes from.
#[verifier::ext_equal]
pub struct EffInput {
    pub entry: InputView,
    pub split: int,
    pub group: int,
}

/// A raw head entry as effective inputs: a mono entry over several
/// channels becomes one mono entry per channel, all of raw entry `g`.
pub open spec fn split_raw(e: InputView, g: int) -> Seq<EffInput> {
    if e.mode == ChainInputMode::Mono && e.channels.len() > 1 {
        Seq::new(
            e.channels.len(),
            |c: int|
                EffInput {
                    entry: InputView {
                        device: e.device,
                        mode: ChainInputMode::Mono,
                        channels: seq![e.channels[c]],
                    },
                    split: 0,
                    group: g,
                },
        )
    } else {
        seq![EffInput { entry: e, split: 0, group: g }]
    }
}

/// The effective inputs of the raw head entries `resolved[i..]`.
pub open spec fn heads_from(resolved: Seq<InputView>, i: int) -> Seq<EffInput>
    decreases resolved.len() - i,
{
    if i < 0 || i >= resolved.len() {
        Seq::empty()
    } else {
        split_raw(resolved[i], i) + heads_from(resolved, i + 1)
    }
}

/// The return entries of the enabled inserts among `blocks[k..]`; each
/// starts its segment right after its insert and is raw entry `group`,
/// `group + 1`, ... in block order.
pub open spec fn returns_from(blocks: Seq<ChainBlock>, reg: Seq<IoBinding>, k: int, group: int) -> Seq<
    EffInput,
>
    decreases blocks.len() - k,
{
    if k < 0 || k >= blocks.len() {
        Seq::empty()
    } else {
        match enabled_insert_io(blocks[k]) {
            Some(io) => match insert_return_spec(reg, io) {
                Some(ret) => seq![EffInput { entry: ret, split: k + 1, group }] + returns_from(
                    blocks,
                    reg,
                    k + 1,
                    group + 1,
                ),
                None => returns_from(blocks, reg, k + 1, group),
            },
            None => returns_from(blocks, reg, k + 1, group),
        }
    }
}

/// The input a chain falls back to when it resolves none.
pub open spec fn fallback_input() -> InputView {
    InputView { device: Seq::empty(), mode: ChainInputMode::Mono, channels: seq![0usize] }
}

/// The effective inputs of a chain: the resolved head entries (or the
/// fallback when there are none), then the insert returns.
pub open spec fn effective_inputs_spec(
    blocks: Seq<ChainBlock>,
    resolved: Seq<InputView>,
    reg: Seq<IoBinding>,
) -> Seq<EffInput> {
    if resolved.len() == 0 {
        seq![EffInput { entry: fallback_input(), split: 0, group: 0 }] + returns_from(
            blocks,
            reg,
            0,
            1,
        )
    } else {
        heads_from(resolved, 0) + returns_from(blocks, reg, 0, resolved.len() as int)
    }
}

/// Entries, split positions and raw-entry groups side by side.
pub open spec fn zip_eff(entries: Seq<InputEntry>, splits: Seq<usize>, groups: Seq<usize>) -> Seq<
    EffInput,
> {
    Seq::new(
        entries.len(),
        |i: int| EffInput { entry: entries[i]@, split: splits[i] as int, group: groups[i] as int },
    )
}

/// The devices of a list of effective inputs.
pub open spec fn eff_devices(eff: Seq<EffInput>) -> Seq<Seq<char>> {
    eff.map_values(|e: EffInput| e.entry.device)
}

pub open spec fn string_views(v: Seq<String>) -> Seq<Seq<char>> {
    v.map_values(|s: String| s@)
}

fn push_eff(
    entries: &mut Vec<InputEntry>,
    splits: &mut Vec<usize>,
    groups: &mut Vec<usize>,
    e: InputEntry,
    split: usize,
    group: usize,
)
    requires
        old(splits)@.len() == old(entries)@.len(),
        old(groups)@.len() == old(entries)@.len(),
    ensures
        final(splits)@.len() == final(entries)@.len(),
        final(groups)@.len() == final(entries)@.len(),
        zip_eff(final(entries)@, final(splits)@, final(groups)@) == zip_eff(
            old(entries)@,
            old(splits)@,
            old(groups)@,
        ).push(EffInput { entry: e@, split: split as int, group: group as int }),
{
    let ghost ev = e@;
    entries.push(e);
    splits.push(split);
    groups.push(group);
    assert(zip_eff(entries@, splits@, groups@) =~= zip_eff(old(entries)@, old(splits)@, old(groups)@).push(
        EffInput { entry: ev, split: split as int, group: group as int },
    ));
}

pub(crate) fn copy_input(e: &InputEntry) -> (r: InputEntry)
    ensures
        r@ == e@,
{
    let c = InputEntry { device_id: e.device_id.clone(), mode: e.mode, channels: copy_channels(&e.channels) };
    assert(c@ =~= e@);
    c
}

/// Add the effective inputs of raw head entry `raw` (number `g`).
fn push_head(
    raw: &InputEntry,
    g: usize,
    entries: &mut Vec<InputEntry>,
    splits: &mut Vec<usize>,
    groups: &mut Vec<usize>,
)
    requires
        old(splits)@.len() == old(entries)@.len(),
        old(groups)@.len() == old(entries)@.len(),
    ensures
        final(splits)@.len() == final(entries)@.len(),
        final(groups)@.len() == final(entries)@.len(),
        zip_eff(final(entries)@, final(splits)@, final(groups)@) == zip_eff(
            old(entries)@,
            old(splits)@,
            old(groups)@,
        ) + split_raw(raw@, g as int),
{
    let ghost start = zip_eff(entries@, splits@, groups@);
    let ghost want = split_raw(raw@, g as int);
    if raw.mode == ChainInputMode::Mono && raw.channels.len() > 1 {
        let mut c: usize = 0;
        while c < raw.channels.len()
            invariant
                c <= raw.channels@.len(),
                raw.mode == ChainInputMode::Mono,
                raw.channels@.len() > 1,
                want == split_raw(raw@, g as int),
                splits@.len() == entries@.len(),
                groups@.len() == entries@.len(),
                zip_eff(entries@, splits@, groups@) =~= start + want.take(c as int),
            decreases raw.channels@.len() - c,
        {
            let mut ch: Vec<usize> = Vec::new();
            ch.push(raw.channels[c]);
            let e = InputEntry { device_id: raw.device_id.clone(), mode: ChainInputMode::Mono, channels: ch };
            assert(e@ =~= want[c as int].entry);
            push_eff(entries, splits, groups, e, 0, g);
            assert(want.take(c + 1) =~= want.take(c as int).push(want[c as int]));
            c = c + 1;
        }
        assert(want.take(raw.channels@.len() as int) =~= want);
    } else {
        let e = copy_input(raw);
        push_eff(entries, splits, groups, e, 0, g);
        assert(zip_eff(entries@, splits@, groups@) =~= start + want);
    }
}

/// Where `d` first stands in `seen`, if it is there.
pub(crate) fn find_string(seen: &Vec<String>, d: &String) -> (r: Option<usize>)
    ensures
        match r {
            Some(j) => pos_from(string_views(seen@), d@, 0) == j as int && j < seen@.len()
                && seen@[j as int]@ == d@,
            None => pos_from(string_views(seen@), d@, 0) == -1 && forall|k: int|
                0 <= k < seen@.len() ==> seen@[k]@ != d@,
        },
{
    let mut j: usize = 0;
    while j < seen.len()
        invariant
            j <= seen@.len(),
            pos_from(string_views(seen@), d@, 0) == pos_from(string_views(seen@), d@, j as int),
            forall|k: int| 0 <= k < j ==> seen@[k]@ != d@,
        decreases seen@.len() - j,
    {
        if seen[j] == *d {
            return Some(j);
        }
        j = j + 1;
    }
    None
}

/// The device stream of each entry: devices numbered in the order they
/// first appear, so entries on one device share a stream.
fn stream_indices(entries: &Vec<InputEntry>) -> (r: Vec<usize>)
    ensures
        r@.len() == entries@.len(),
        forall|i: int|
            0 <= i < entries@.len() ==> r@[i] as int == first_seen(
                entries@.map_values(|e: InputEntry| e.device_id@),
            ).1[i],
{
    let ghost devs = entries@.map_values(|e: InputEntry| e.device_id@);
    let mut seen: Vec<String> = Vec::new();
    let mut out: Vec<usize> = Vec::new();
    let mut i: usize = 0;
    while i < entries.len()
        invariant
            i <= entries@.len(),
            devs == entries@.map_values(|e: InputEntry| e.device_id@),
            string_views(seen@) == first_seen(devs.take(i as int)).0,
            out@.len() == i,
            first_seen(devs.take(i as int)).1.len() == i,
            forall|k: int| 0 <= k < i ==> out@[k] as int == first_seen(devs.take(i as int)).1[k],
        decreases entries@.len() - i,
    {
        let d = &entries[i].device_id;
        proof {
            assert(devs.take(i + 1).drop_last() =~= devs.take(i as int));
            assert(devs.take(i + 1).last() == d@);
        }
        match find_string(&seen, d) {
            Some(j) => {
                out.push(j);
            },
            None => {
                let n = seen.len();
                let ghost prev = seen@;
                seen.push(d.clone());
                assert(string_views(seen@) =~= string_views(prev).push(d@));
                out.push(n);
            },
        }
        i = i + 1;
    }
    assert(devs.take(entries@.len() as int) =~= devs);
    out
}

/// The effective inputs of a chain, with, for each, the device stream it
/// reads, the block position its segment starts at and the raw entry it
/// comes from.
///
/// The resolved entries come first: a mono entry over several channels is
/// split into one mono entry per channel (siblings of one raw entry, on
/// one stream). With no resolved entry the chain reads a default mono
/// input on channel 0. Each enabled insert whose binding has an input then
/// adds its return, starting the segment after the insert. Streams number
/// the distinct devices in the order they first appear.
pub fn effective_inputs(chain: &Chain, resolved: &[InputEntry], registry: &[IoBinding]) -> (r: (
    Vec<InputEntry>,
    Vec<usize>,
    Vec<usize>,
    Vec<usize>,
))
    requires
        resolved@.len() + chain.blocks@.len() < usize::MAX,
    ensures
        r.1@.len() == r.0@.len(),
        r.2@.len() == r.0@.len(),
        r.3@.len() == r.0@.len(),
        zip_eff(r.0@, r.2@, r.3@) == effective_inputs_spec(
            chain.blocks@,
            input_views(resolved@),
            registry@,
        ),
        forall|i: int|
            0 <= i < r.0@.len() ==> r.1@[i] as int == first_seen(
                r.0@.map_values(|e: InputEntry| e.device_id@),
            ).1[i],
{
    let ghost res = input_views(resolved@);
    let mut entries: Vec<InputEntry> = Vec::new();
    let mut splits: Vec<usize> = Vec::new();
    let mut groups: Vec<usize> = Vec::new();
    let base: usize;
    if resolved.len() == 0 {
        let mut ch: Vec<usize> = Vec::new();
        ch.push(0);
        let dev = String::new();
        assert(ch@ =~= seq![0usize]);
        assert(dev@ =~= Seq::<char>::empty());
        let e = InputEntry { device_id: dev, mode: ChainInputMode::Mono, channels: ch };
        assert(e@ =~= fallback_input());
        push_eff(&mut entries, &mut splits, &mut groups, e, 0, 0);
        base = 1;
        assert(zip_eff(entries@, splits@, groups@) =~= seq![
            EffInput { entry: fallback_input(), split: 0, group: 0 },
        ]);
    } else {
        let mut i: usize = 0;
        assert(zip_eff(entries@, splits@, groups@) =~= Seq::empty());
        while i < resolved.len()
            invariant
                i <= resolved@.len(),
                res == input_views(resolved@),
                splits@.len() == entries@.len(),
                groups@.len() == entries@.len(),
                zip_eff(entries@, splits@, groups@) + heads_from(res, i as int) =~= heads_from(res, 0),
            decreases resolved@.len() - i,
        {
            let ghost before = zip_eff(entries@, splits@, groups@);
            push_head(&resolved[i], i, &mut entries, &mut splits, &mut groups);
            proof {
                let a = split_raw(res[i as int], i as int);
                let b = heads_from(res, i + 1);
                assert(before + (a + b) =~= (before + a) + b);
            }
            i = i + 1;
        }
        base = resolved.len();
    }
    let ghost heads = zip_eff(entries@, splits@, groups@);
    let blocks = &chain.blocks;
    let mut g: usize = base;
    let mut k: usize = 0;
    while k < blocks.len()
        invariant
            k <= blocks@.len(),
            base <= resolved@.len() + 1,
            base as int == (if resolved@.len() == 0 { 1 } else { resolved@.len() as int }),
            g <= base + k,
            resolved@.len() + blocks@.len() < usize::MAX,
            splits@.len() == entries@.len(),
            groups@.len() == entries@.len(),
            zip_eff(entries@, splits@, groups@) + returns_from(blocks@, registry@, k as int, g as int)
                =~= heads + returns_from(blocks@, registry@, 0, base as int),
        decreases blocks@.len() - k,
    {
        let b = &blocks[k];
        let ghost before = zip_eff(entries@, splits@, groups@);
        if b.enabled {
            if let BlockKind::Insert(ins) = &b.kind {
                match insert_return_as_input_entry(ins, registry) {
                    Some(e) => {
                        let ghost ev = e@;
                        push_eff(&mut entries, &mut splits, &mut groups, e, k + 1, g);
                        proof {
                            let x = EffInput { entry: ev, split: k + 1, group: g as int };
                            let rest = returns_from(blocks@, registry@, k + 1, g + 1);
                            assert(before + (seq![x] + rest) =~= before.push(x) + rest);
                        }
                        g = g + 1;
                    },
                    None => {},
                }
            }
        }
        k = k + 1;
    }
    let cpal = stream_indices(&entries);
    (entries, cpal, splits, groups)
}

pub(crate) proof fn lemma_pos_from<K>(s: Seq<K>, k: K, i: int)
    requires
        0 <= i,
    ensures
        pos_from(s, k, i) == -1 ==> forall|j: int| i <= j < s.len() ==> s[j] != k,
        pos_from(s, k, i) != -1 ==> i <= pos_from(s, k, i) < s.len() && s[pos_from(s, k, i)] == k,
    decreases s.len() - i,
{
    if i < s.len() && s[i] != k {
        lemma_pos_from(s, k, i + 1);
    }
}

pub(crate) proof fn lemma_first_seen<K>(keys: Seq<K>)
    ensures
        first_seen(keys).1.len() == keys.len(),
        forall|i: int|
            0 <= i < keys.len() ==> 0 <= #[trigger] first_seen(keys).1[i] < first_seen(keys).0.len()
                && first_seen(keys).0[first_seen(keys).1[i]] == keys[i],
        forall|a: int, b: int|
            0 <= a < b < first_seen(keys).0.len() ==> first_seen(keys).0[a] != first_seen(keys).0[b],
    decreases keys.len(),
{
    if keys.len() > 0 {
        let prev = first_seen(keys.drop_last());
        lemma_first_seen(keys.drop_last());
        lemma_pos_from(prev.0, keys.last(), 0);
        assert forall|i: int| 0 <= i < keys.len() implies 0 <= #[trigger] first_seen(keys).1[i] < first_seen(
            keys,
        ).0.len() && first_seen(keys).0[first_seen(keys).1[i]] == keys[i] by {
            if i < keys.len() - 1 {
                assert(keys.drop_last()[i] == keys[i]);
            }
        }
    }
}

/// Numbering keys by first appearance gives two keys the same number
/// exactly when they are equal; in particular two effective inputs share a
/// device stream exactly when they read the same device.
pub proof fn law_same_number_iff_same_key<K>(keys: Seq<K>, i: int, j: int)
    requires
        0 <= i < keys.len(),
        0 <= j < keys.len(),
    ensures
        (first_seen(keys).1[i] == first_seen(keys).1[j]) <==> (keys[i] == keys[j]),
{
    lemma_first_seen(keys);
    let seen = first_seen(keys).0;
    let idx = first_seen(keys).1;
    assert(seen[idx[i]] == keys[i]);
    assert(seen[idx[j]] == keys[j]);
    if keys[i] == keys[j] && idx[i] != idx[j] {
        if idx[i] < idx[j] {
            assert(seen[idx[i]] != seen[idx[j]]);
        } else {
            assert(seen[idx[j]] != seen[idx[i]]);
        }
    }
}

/// Numbers start at 0 and the number of key `i` is at most `i`: the first
/// input always reads stream 0, and no stream number is larger than the
/// count of inputs before it.
pub proof fn law_numbers_start_at_zero<K>(keys: Seq<K>, i: int)
    requires
        0 <= i < keys.len(),
    ensures
        0 <= first_seen(keys).1[i] <= i,
        first_seen(keys).1[0] == 0,
    decreases keys.len(),
{
    lemma_first_seen(keys);
    lemma_seen_len(keys);
}

proof fn lemma_seen_len<K>(keys: Seq<K>)
    ensures
        first_seen(keys).0.len() <= keys.len(),
        forall|i: int| 0 <= i < keys.len() ==> #[trigger] first_seen(keys).1[i] <= i,
    decreases keys.len(),
{
    if keys.len() > 0 {
        let prev = first_seen(keys.drop_last());
        lemma_seen_len(keys.drop_last());
        lemma_first_seen(keys.drop_last());
        lemma_pos_from(prev.0, keys.last(), 0);
        assert forall|i: int| 0 <= i < keys.len() implies #[trigger] first_seen(keys).1[i] <= i by {
            if i < keys.len() - 1 {
                assert(keys.drop_last()[i] == keys[i]);
                assert(first_seen(keys).1[i] == prev.1[i]);
            }
        }
    }
}

} // verus!
