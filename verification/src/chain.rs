//! The part of a chain and of the I/O binding registry that the runtime
//! reads when it resolves endpoints and splits a chain into segments.
use vstd::prelude::*;

verus! {

/// How an input entry reads its channels.
#[derive(Debug, Clone, Copy, PartialEq, Eq, Structural)]
pub enum ChainInputMode {
    Mono,
    Stereo,
    DualMono,
}

/// How an output entry writes its channels.
#[derive(Debug, Clone, Copy, PartialEq, Eq, Structural)]
pub enum ChainOutputMode {
    Mono,
    Stereo,
}

/// How a registry endpoint carries its channels.
#[derive(Debug, Clone, Copy, PartialEq, Eq, Structural)]
pub enum ChannelMode {
    Mono,
    Stereo,
    DualMono,
}

/// One capture endpoint of a binding: a device and the channels it reads.
pub struct IoEndpoint {
    pub name: String,
    pub device_id: String,
    pub mode: ChannelMode,
    pub channels: Vec<usize>,
}

/// A named group of device endpoints in the per-machine registry.
pub struct IoBinding {
    pub id: String,
    pub name: String,
    pub inputs: Vec<IoEndpoint>,
    pub outputs: Vec<IoEndpoint>,
}

/// A resolved input the chain reads.
pub struct InputEntry {
    pub device_id: String,
    pub mode: ChainInputMode,
    pub channels: Vec<usize>,
}

/// A resolved output the chain writes.
pub struct OutputEntry {
    pub device_id: String,
    pub mode: ChainOutputMode,
    pub channels: Vec<usize>,
}

/// An input entry as a value: its device, mode and channels.
#[verifier::ext_equal]
pub struct InputView {
    pub device: Seq<char>,
    pub mode: ChainInputMode,
    pub channels: Seq<usize>,
}

/// An output entry as a value.
#[verifier::ext_equal]
pub struct OutputView {
    pub device: Seq<char>,
    pub mode: ChainOutputMode,
    pub channels: Seq<usize>,
}

impl View for InputEntry {
    type V = InputView;

    open spec fn view(&self) -> InputView {
        InputView { device: self.device_id@, mode: self.mode, channels: self.channels@ }
    }
}

impl View for OutputEntry {
    type V = OutputView;

    open spec fn view(&self) -> OutputView {
        OutputView { device: self.device_id@, mode: self.mode, channels: self.channels@ }
    }
}

/// The values of a list of input entries.
pub open spec fn input_views(v: Seq<InputEntry>) -> Seq<InputView> {
    v.map_values(|e: InputEntry| e@)
}

/// The values of a list of output entries.
pub open spec fn output_views(v: Seq<OutputEntry>) -> Seq<OutputView> {
    v.map_values(|e: OutputEntry| e@)
}

/// An external effects loop through binding `io`: the chain sends to the
/// binding's first output and returns from its first input.
pub struct InsertBlock {
    pub model: String,
    pub io: String,
}

/// A built-in processing block.
pub struct CoreBlock {
    pub effect_type: String,
    pub model: String,
}

/// A neural amp model (or an impulse response loaded through it).
pub struct NamBlock {
    pub model: String,
}

/// What a block of a chain is, as far as routing is concerned.
pub enum BlockKind {
    /// Where the chain reads its input (routing metadata).
    Input,
    /// Where the chain writes its output (routing metadata).
    Output,
    Insert(InsertBlock),
    Core(CoreBlock),
    Nam(NamBlock),
}

pub struct ChainBlock {
    pub id: String,
    pub enabled: bool,
    pub kind: BlockKind,
}

pub struct Chain {
    pub id: String,
    /// The chain's title, when it has one.
    pub description: Option<String>,
    pub enabled: bool,
    /// The registry bindings the chain's head and tail I/O come from.
    pub io_binding_ids: Vec<String>,
    pub blocks: Vec<ChainBlock>,
}

/// Whether block kind `k` is routing metadata rather than processing.
pub open spec fn is_routing(k: BlockKind) -> bool {
    match k {
        BlockKind::Input | BlockKind::Output | BlockKind::Insert(_) => true,
        _ => false,
    }
}

/// Whether block `b` is an enabled insert.
pub open spec fn is_enabled_insert(b: ChainBlock) -> bool {
    b.enabled && b.kind is Insert
}

pub fn copy_channels(v: &Vec<usize>) -> (r: Vec<usize>)
    ensures
        r@ == v@,
{
    let mut out: Vec<usize> = Vec::new();
    let mut i: usize = 0;
    while i < v.len()
        invariant
            i <= v@.len(),
            out@ == v@.take(i as int),
        decreases v@.len() - i,
    {
        proof {
            assert(v@.take(i + 1) =~= v@.take(i as int).push(v@[i as int]));
        }
        out.push(v[i]);
        i = i + 1;
    }
    proof {
        assert(v@.take(v@.len() as int) =~= v@);
    }
    out
}

/// Whether the chain has at least one enabled insert. Insert chains form a
/// cross-stream pipeline (input, send, return, output) and are never split
/// into per-input runtimes.
pub fn chain_has_enabled_insert(chain: &Chain) -> (r: bool)
    ensures
        r == exists|i: int| 0 <= i < chain.blocks@.len() && is_enabled_insert(chain.blocks@[i]),
{
    let mut i: usize = 0;
    while i < chain.blocks.len()
        invariant
            i <= chain.blocks@.len(),
            forall|k: int| 0 <= k < i ==> !is_enabled_insert(#[trigger] chain.blocks@[k]),
        decreases chain.blocks@.len() - i,
    {
        let b = &chain.blocks[i];
        if b.enabled {
            if let BlockKind::Insert(_) = &b.kind {
                assert(is_enabled_insert(chain.blocks@[i as int]));
                return true;
            }
        }
        i = i + 1;
    }
    false
}

} // verus!
