use engine::audio_frame::{AudioChannelLayout, AudioFrame};
use engine::block_nodes::{
    build_audio_processor_for_model, build_block_nodes, expect_mono_processor, plan_fade, plan_select_node, rebuild_block_nodes, BlockFacts, BlockPlan, BlockSerials, ExistingNode, NodeStep, PlanKind, ReuseDecision, expect_stereo_processor,
    processor_plan, select_fade, select_output_layout, AudioProcessor, BlockProcessor,
    ModelAudioMode, ProcessorBuildError, ProcessorKind, SelectError,
};
use engine::block_toggle::{FadeState, FADE_IN_FRAMES};
use engine::chain::{
    BlockKind, Chain, ChainBlock, ChainInputMode, ChainOutputMode, ChannelMode, InputEntry,
    InsertBlock, IoBinding, IoEndpoint, OutputEntry,
};
use engine::endpoints::{effective_inputs, effective_outputs, resolve_chain_io};
use engine::offline::{
    apply_block_offline, collect_bypass_block_ids, panic_message, render_nodes, BlockRuntimeNode, BufferProcessor,
    RenderError, RuntimeProcessor, SelectRuntimeState,
};
use engine::runtime_assembly::{
    bus_layout, extract_blocks, input_group_ids, input_read_layout, input_to_segments, plan_input_processing,
    restore_blocks, output_entry_layout, processing_layout,
    rebuild_mode, route_reusable, segment_fade_in, segment_output_channels,
    select_owned_segments, ProcessingLayout, RebuildError, RebuildMode,
};
use engine::port_groups::{group_streams_by_port, PortStream};
use engine::segments::{split_chain_into_segments, ChainSegment};

fn output(dev: &str, mode: ChainOutputMode, channels: &[usize]) -> OutputEntry {
    OutputEntry { device_id: dev.into(), mode, channels: channels.to_vec() }
}

fn segment(cpal: usize, group: usize) -> ChainSegment {
    ChainSegment {
        input: InputEntry { device_id: "dev".into(), mode: ChainInputMode::Mono, channels: vec![0] },
        cpal_input_index: cpal,
        block_indices: vec![],
        output_route_indices: vec![0],
        split_mono_sibling_count: None,
        entry_group: group,
    }
}

#[test]
fn mono_input_to_one_channel_stays_mono() {
    assert_eq!(processing_layout(1, ChainInputMode::Mono), ProcessingLayout::Mono);
    assert_eq!(processing_layout(0, ChainInputMode::Mono), ProcessingLayout::Mono);
}

#[test]
fn mono_input_to_a_pair_is_upmixed_once() {
    assert_eq!(processing_layout(2, ChainInputMode::Mono), ProcessingLayout::Stereo);
}

#[test]
fn stereo_and_dual_mono_inputs_keep_their_bus() {
    assert_eq!(processing_layout(1, ChainInputMode::Stereo), ProcessingLayout::Stereo);
    assert_eq!(processing_layout(2, ChainInputMode::DualMono), ProcessingLayout::DualMono);
}

#[test]
fn dual_mono_travels_as_a_stereo_pair() {
    assert_eq!(bus_layout(ProcessingLayout::Mono), AudioChannelLayout::Mono);
    assert_eq!(bus_layout(ProcessingLayout::Stereo), AudioChannelLayout::Stereo);
    assert_eq!(bus_layout(ProcessingLayout::DualMono), AudioChannelLayout::Stereo);
}

#[test]
fn inputs_are_read_mono_only_in_mono_mode() {
    assert_eq!(input_read_layout(ChainInputMode::Mono), AudioChannelLayout::Mono);
    assert_eq!(input_read_layout(ChainInputMode::Stereo), AudioChannelLayout::Stereo);
    assert_eq!(input_read_layout(ChainInputMode::DualMono), AudioChannelLayout::Stereo);
}

#[test]
fn output_layout_is_stereo_only_for_a_stereo_pair() {
    let pair = output("d", ChainOutputMode::Stereo, &[0, 1]);
    let single = output("d", ChainOutputMode::Stereo, &[0]);
    let mono_pair = output("d", ChainOutputMode::Mono, &[0, 1]);
    assert_eq!(output_entry_layout(&pair), AudioChannelLayout::Stereo);
    assert_eq!(output_entry_layout(&single), AudioChannelLayout::Mono);
    assert_eq!(output_entry_layout(&mono_pair), AudioChannelLayout::Mono);
}

#[test]
fn reused_segments_do_not_fade_in() {
    assert_eq!(segment_fade_in(true), 0);
    assert_eq!(segment_fade_in(false), FADE_IN_FRAMES);
}

#[test]
fn segment_writes_the_channels_of_its_routes_in_order() {
    let outs = vec![
        output("a", ChainOutputMode::Stereo, &[0, 1]),
        output("b", ChainOutputMode::Mono, &[4]),
    ];
    assert_eq!(segment_output_channels(&[1, 0], &outs), vec![4, 0, 1]);
    assert_eq!(segment_output_channels(&[0, 7], &outs), vec![0, 1]);
    assert_eq!(segment_output_channels(&[], &outs), Vec::<usize>::new());
}

#[test]
fn each_stream_lists_the_segments_it_drives() {
    let segs = vec![segment(0, 0), segment(2, 1), segment(0, 2)];
    let map = input_to_segments(&segs);
    assert_eq!(map, vec![vec![0, 2], vec![], vec![1]]);
}

#[test]
fn no_segments_still_map_stream_zero() {
    let map = input_to_segments(&[]);
    assert_eq!(map, vec![Vec::<usize>::new()]);
}

#[test]
fn rebuild_mode_follows_spillover_and_old_nodes() {
    assert_eq!(rebuild_mode(true, false), RebuildMode::Fresh);
    assert_eq!(rebuild_mode(false, false), RebuildMode::Fresh);
    assert_eq!(rebuild_mode(true, true), RebuildMode::FreshWithTail);
    assert_eq!(rebuild_mode(false, true), RebuildMode::Reuse);
}

#[test]
fn route_is_reused_only_when_nothing_changed() {
    let s = AudioChannelLayout::Stereo;
    let m = AudioChannelLayout::Mono;
    assert!(route_reusable(false, &[0, 1], s, 128, &[0, 1], s, 128));
    assert!(!route_reusable(true, &[0, 1], s, 128, &[0, 1], s, 128));
    assert!(!route_reusable(false, &[0, 1], s, 128, &[1, 0], s, 128));
    assert!(!route_reusable(false, &[0, 1], s, 128, &[0, 1], m, 128));
    assert!(!route_reusable(false, &[0, 1], s, 128, &[0, 1], s, 256));
    assert!(!route_reusable(false, &[0], s, 128, &[0, 1], s, 128));
}

fn ep(name: &str, dev: &str, mode: ChannelMode, channels: &[usize]) -> IoEndpoint {
    IoEndpoint { name: name.into(), device_id: dev.into(), mode, channels: channels.to_vec() }
}

fn two_input_setup() -> (Chain, Vec<ChainSegment>) {
    let reg = vec![IoBinding {
        id: "io".into(),
        name: "IO".into(),
        inputs: vec![
            ep("a", "dev", ChannelMode::Mono, &[0]),
            ep("b", "dev", ChannelMode::Mono, &[1]),
        ],
        outputs: vec![ep("out", "dev", ChannelMode::Stereo, &[0, 1])],
    }];
    let chain = Chain {
        id: "chain:two".into(),
        description: None,
        enabled: true,
        io_binding_ids: vec!["io".into()],
        blocks: vec![],
    };
    let (rin, rout) = resolve_chain_io(&chain, &reg);
    let (eff_in, cpal, splits, groups) = effective_inputs(&chain, &rin, &reg);
    let eff_out = effective_outputs(&chain, &rout, &reg);
    let segs = split_chain_into_segments(&chain, &eff_in, &cpal, &splits, &groups, &eff_out, &reg);
    (chain, segs)
}

#[test]
fn owned_group_keeps_only_its_segments() {
    let (chain, segs) = two_input_setup();
    assert_eq!(segs.len(), 2);
    let picked = select_owned_segments(&chain, segs, Some(1)).ok().unwrap();
    assert_eq!(picked.len(), 1);
    assert_eq!(picked[0].input.channels, vec![1]);
}

#[test]
fn no_owned_group_keeps_everything() {
    let (chain, segs) = two_input_setup();
    let all = select_owned_segments(&chain, segs, None).ok().unwrap();
    assert_eq!(all.len(), 2);
}

#[test]
fn a_vanished_group_is_refused() {
    let (chain, segs) = two_input_setup();
    let r = select_owned_segments(&chain, segs, Some(5));
    assert!(matches!(r, Err(RebuildError::GroupGone { group: 5 })));
}

#[test]
fn an_insert_chain_is_one_runtime_owned_as_group_zero() {
    let (mut chain, segs) = two_input_setup();
    chain.blocks = vec![ChainBlock {
        id: "insert:0".into(),
        enabled: true,
        kind: BlockKind::Insert(InsertBlock { model: "external_loop".into(), io: "fx".into() }),
    }];
    let n = segs.len();
    let all = select_owned_segments(&chain, segs, Some(0)).ok().unwrap();
    assert_eq!(all.len(), n);
    let (_, segs) = two_input_setup();
    let r = select_owned_segments(&chain, segs, Some(1));
    assert!(matches!(r, Err(RebuildError::GroupGone { group: 1 })));
}

#[test]
fn processor_plan_per_mode_and_bus() {
    let m = AudioChannelLayout::Mono;
    let s = AudioChannelLayout::Stereo;
    assert_eq!(processor_plan(ModelAudioMode::MonoOnly, s), Some(ProcessorKind::Mono));
    assert_eq!(processor_plan(ModelAudioMode::DualMono, m), Some(ProcessorKind::Mono));
    assert_eq!(processor_plan(ModelAudioMode::DualMono, s), Some(ProcessorKind::DualMono));
    assert_eq!(processor_plan(ModelAudioMode::TrueStereo, s), Some(ProcessorKind::Stereo));
    assert_eq!(processor_plan(ModelAudioMode::TrueStereo, m), None);
    assert_eq!(processor_plan(ModelAudioMode::MonoToStereo, m), Some(ProcessorKind::StereoFromMono));
    assert_eq!(processor_plan(ModelAudioMode::MonoToStereo, s), Some(ProcessorKind::Stereo));
}

fn good_builder(l: AudioChannelLayout) -> Result<BlockProcessor<u8, u16>, String> {
    match l {
        AudioChannelLayout::Mono => Ok(BlockProcessor::Mono(1)),
        AudioChannelLayout::Stereo => Ok(BlockProcessor::Stereo(2)),
    }
}

#[test]
fn dual_mono_model_on_stereo_bus_builds_two_pipelines() {
    let r = build_audio_processor_for_model(
        ModelAudioMode::DualMono,
        AudioChannelLayout::Stereo,
        Some(AudioChannelLayout::Stereo),
        good_builder,
    );
    let o = r.ok().unwrap();
    assert!(matches!(o.processor, AudioProcessor::DualMono { left: 1, right: 1 }));
    assert_eq!(o.output_layout, AudioChannelLayout::Stereo);
}

#[test]
fn mono_to_stereo_model_on_mono_bus_builds_stereo_from_mono() {
    let r = build_audio_processor_for_model(
        ModelAudioMode::MonoToStereo,
        AudioChannelLayout::Mono,
        Some(AudioChannelLayout::Stereo),
        good_builder,
    );
    assert!(matches!(r.ok().unwrap().processor, AudioProcessor::StereoFromMono(2)));
}

#[test]
fn refused_layout_and_unrunnable_mode_are_errors() {
    let r = build_audio_processor_for_model(
        ModelAudioMode::MonoOnly,
        AudioChannelLayout::Mono,
        None,
        good_builder,
    );
    assert!(matches!(r, Err(ProcessorBuildError::LayoutRefused)));
    let r = build_audio_processor_for_model(
        ModelAudioMode::TrueStereo,
        AudioChannelLayout::Mono,
        Some(AudioChannelLayout::Stereo),
        good_builder,
    );
    assert!(matches!(r, Err(ProcessorBuildError::CannotRun)));
}

#[test]
fn builder_failure_and_wrong_shape_are_reported() {
    let failing = |_l: AudioChannelLayout| -> Result<BlockProcessor<u8, u16>, String> {
        Err("no model".to_string())
    };
    let r = build_audio_processor_for_model(
        ModelAudioMode::MonoOnly,
        AudioChannelLayout::Mono,
        Some(AudioChannelLayout::Mono),
        failing,
    );
    assert!(matches!(r, Err(ProcessorBuildError::Build(ref e)) if e == "no model"));
    assert!(matches!(
        expect_mono_processor::<u8, u16, String>(Ok(BlockProcessor::Stereo(3))),
        Err(ProcessorBuildError::WrongShape { wanted_mono: true })
    ));
    assert!(matches!(
        expect_stereo_processor::<u8, u16, String>(Ok(BlockProcessor::Mono(3))),
        Err(ProcessorBuildError::WrongShape { wanted_mono: false })
    ));
    assert!(matches!(expect_stereo_processor::<u8, u16, String>(Ok(BlockProcessor::Stereo(3))), Ok(3)));
}

#[test]
fn select_layout_is_the_selected_options() {
    let ids: Vec<String> = vec!["a".into(), "b".into()];
    let s = AudioChannelLayout::Stereo;
    let m = AudioChannelLayout::Mono;
    assert_eq!(select_output_layout(&ids, &vec![s, s], &"b".to_string()), Ok(s));
    assert_eq!(
        select_output_layout(&ids, &vec![s, m], &"a".to_string()),
        Err(SelectError::MixedLayouts)
    );
    assert_eq!(
        select_output_layout(&ids, &vec![m, m], &"zzz".to_string()),
        Err(SelectError::UnknownOption)
    );
}

#[test]
fn new_select_nodes_fade_in() {
    assert_eq!(select_fade(true), FadeState::FadingIn { frames_remaining: FADE_IN_FRAMES });
    assert_eq!(select_fade(false), FadeState::Active);
}

struct Gain(f32);

impl BufferProcessor<f32> for Gain {
    fn process_buffer(&mut self, frames: &mut Vec<AudioFrame<f32>>) {
        for f in frames.iter_mut() {
            *f = match *f {
                AudioFrame::Mono(s) => AudioFrame::Mono(s * self.0),
                AudioFrame::Stereo([l, r]) => AudioFrame::Stereo([l * self.0, r * self.0]),
            };
        }
    }
}

fn audio_node(id: &str, gain: f32) -> BlockRuntimeNode<Gain> {
    BlockRuntimeNode { block_id: id.into(), faulted: false, processor: RuntimeProcessor::Audio(Gain(gain)) }
}

fn mono_values(frames: &[AudioFrame<f32>]) -> Vec<f32> {
    frames
        .iter()
        .map(|f| match f {
            AudioFrame::Mono(s) => *s,
            AudioFrame::Stereo([l, _]) => *l,
        })
        .collect()
}

#[test]
fn audio_node_runs_its_processor() {
    let mut node = audio_node("gain", 2.0);
    let mut frames = vec![AudioFrame::Mono(0.25), AudioFrame::Mono(0.5)];
    apply_block_offline(&mut node, &mut frames);
    assert_eq!(mono_values(&frames), vec![0.5, 1.0]);
}

#[test]
fn faulted_and_bypass_nodes_pass_through() {
    let mut faulted = audio_node("gain", 2.0);
    faulted.faulted = true;
    let mut frames = vec![AudioFrame::Mono(0.25)];
    apply_block_offline(&mut faulted, &mut frames);
    assert_eq!(mono_values(&frames), vec![0.25]);
    let mut bypass: BlockRuntimeNode<Gain> =
        BlockRuntimeNode { block_id: "b".into(), faulted: false, processor: RuntimeProcessor::Bypass };
    apply_block_offline(&mut bypass, &mut frames);
    assert_eq!(mono_values(&frames), vec![0.25]);
}

#[test]
fn select_node_renders_through_its_selected_option_only() {
    let mut node = BlockRuntimeNode {
        block_id: "sel".into(),
        faulted: false,
        processor: RuntimeProcessor::Select(SelectRuntimeState {
            selected_block_id: "b".into(),
            options: vec![audio_node("a", 2.0), audio_node("b", 4.0)],
        }),
    };
    let mut frames = vec![AudioFrame::Mono(0.25)];
    apply_block_offline(&mut node, &mut frames);
    assert_eq!(mono_values(&frames), vec![1.0]);
    if let RuntimeProcessor::Select(sel) = &mut node.processor {
        sel.selected_block_id = "missing".into();
    }
    apply_block_offline(&mut node, &mut frames);
    assert_eq!(mono_values(&frames), vec![1.0]);
}

fn bypass_node(id: &str) -> BlockRuntimeNode<Gain> {
    BlockRuntimeNode { block_id: id.into(), faulted: false, processor: RuntimeProcessor::Bypass }
}

#[test]
fn bypass_ids_are_collected_once_across_inputs() {
    let states = vec![
        vec![audio_node("gain", 1.0), bypass_node("nam:0"), bypass_node("ir:1")],
        vec![bypass_node("nam:0"), audio_node("eq", 1.0)],
    ];
    let ids = collect_bypass_block_ids(&states);
    assert_eq!(ids, vec!["nam:0".to_string(), "ir:1".to_string()]);
    let none: Vec<Vec<BlockRuntimeNode<Gain>>> = vec![vec![audio_node("gain", 1.0)], vec![]];
    assert!(collect_bypass_block_ids(&none).is_empty());
}

#[test]
fn each_raw_input_entry_is_its_own_runtime_group() {
    let reg = vec![IoBinding {
        id: "io".into(),
        name: "IO".into(),
        inputs: vec![
            ep("a", "dev", ChannelMode::Mono, &[0]),
            ep("b", "dev", ChannelMode::Mono, &[1, 2]),
        ],
        outputs: vec![ep("out", "dev", ChannelMode::Stereo, &[0, 1])],
    }];
    let mut chain = Chain {
        id: "chain:groups".into(),
        description: None,
        enabled: true,
        io_binding_ids: vec!["io".into()],
        blocks: vec![],
    };
    assert_eq!(input_group_ids(&chain, &reg), vec![0, 1]);
    chain.blocks = vec![ChainBlock {
        id: "insert:0".into(),
        enabled: true,
        kind: BlockKind::Insert(InsertBlock { model: "external_loop".into(), io: "fx".into() }),
    }];
    assert_eq!(input_group_ids(&chain, &reg), vec![0]);
}

fn port_stream(inb: &str, inp: &str, outb: &str, outp: &str, in_ch: usize, out_dev: &str) -> PortStream {
    PortStream {
        input_binding: inb.into(),
        input_endpoint: inp.into(),
        output_binding: outb.into(),
        output_endpoint: outp.into(),
        input_entry: InputEntry { device_id: "dev".into(), mode: ChainInputMode::Mono, channels: vec![in_ch] },
        output_entry: output(out_dev, ChainOutputMode::Stereo, &[0, 1]),
        block_indices: vec![1, 2],
    }
}

#[test]
fn each_input_port_is_one_runtime_and_each_output_port_one_route() {
    let chain = Chain { id: "c".into(), description: None, enabled: true, io_binding_ids: vec!["a".into()], blocks: vec![] };
    let streams = vec![
        port_stream("a", "in1", "a", "out", 0, "first"),
        port_stream("a", "in2", "a", "out", 1, "second"),
        port_stream("a", "in1", "b", "out", 0, "third"),
    ];
    let r = group_streams_by_port(&chain, &streams);
    assert_eq!(r.outputs.len(), 2);
    assert_eq!(r.outputs[0].device_id, "first");
    assert_eq!(r.outputs[1].device_id, "third");
    assert_eq!(r.groups.len(), 2);
    assert_eq!(r.groups[0].0, 0);
    assert_eq!(r.groups[0].1.len(), 2);
    assert_eq!(r.groups[0].1[0].output_route_indices, vec![0]);
    assert_eq!(r.groups[0].1[1].output_route_indices, vec![1]);
    assert_eq!(r.groups[1].0, 1);
    assert_eq!(r.groups[1].1[0].cpal_input_index, 1);
    assert_eq!(r.groups[1].1[0].input.channels, vec![1]);
}

#[test]
fn an_insert_keeps_every_port_in_one_runtime() {
    let chain = Chain {
        id: "c".into(),
        description: None,
        enabled: true,
        io_binding_ids: vec!["a".into()],
        blocks: vec![ChainBlock {
            id: "insert:0".into(),
            enabled: true,
            kind: BlockKind::Insert(InsertBlock { model: "external_loop".into(), io: "fx".into() }),
        }],
    };
    let streams = vec![
        port_stream("a", "in2", "a", "out", 1, "o"),
        port_stream("a", "in1", "a", "out", 0, "o"),
        port_stream("a", "in2", "a", "out", 1, "o"),
    ];
    let r = group_streams_by_port(&chain, &streams);
    assert_eq!(r.groups.len(), 1);
    assert_eq!(r.groups[0].0, 0);
    let order: Vec<usize> = r.groups[0].1.iter().map(|s| s.entry_group).collect();
    assert_eq!(order, vec![0, 0, 1], "port after port, first seen first");
}

fn layout_builder(i: usize, l: AudioChannelLayout) -> Result<(String, AudioChannelLayout), String> {
    match i {
        2 => Ok((format!("amp@{l:?}"), AudioChannelLayout::Stereo)),
        4 => Err("no model".to_string()),
        6 => Err("bad select".to_string()),
        _ => Ok((format!("node{i}"), l)),
    }
}

#[test]
fn block_nodes_thread_the_layout_and_fault_a_failed_build() {
    let steps = vec![
        NodeStep::Skip,
        NodeStep::Pass,
        NodeStep::Build,
        NodeStep::Reuse { output_layout: AudioChannelLayout::Mono },
        NodeStep::Build,
        NodeStep::Select,
    ];
    let (nodes, last) = build_block_nodes(&steps, AudioChannelLayout::Mono, layout_builder).ok().unwrap();
    let served: Vec<usize> = nodes.iter().map(|n| n.step).collect();
    assert_eq!(served, vec![1, 2, 3, 4, 5], "routing blocks get no node");
    assert_eq!(nodes[0].output_layout, AudioChannelLayout::Mono);
    assert_eq!(nodes[1].built.as_deref(), Some("amp@Mono"));
    assert_eq!(nodes[1].output_layout, AudioChannelLayout::Stereo);
    assert_eq!(nodes[2].input_layout, AudioChannelLayout::Stereo);
    assert_eq!(nodes[2].output_layout, AudioChannelLayout::Mono);
    assert!(nodes[3].faulted && nodes[3].built.is_none());
    assert_eq!(nodes[3].output_layout, AudioChannelLayout::Mono);
    assert_eq!(nodes[4].built.as_deref(), Some("node5"));
    assert_eq!(last, AudioChannelLayout::Mono);
}

#[test]
fn a_select_block_that_fails_fails_the_rebuild() {
    let steps = vec![NodeStep::Pass, NodeStep::Build, NodeStep::Skip, NodeStep::Skip, NodeStep::Skip, NodeStep::Skip, NodeStep::Select];
    let r = build_block_nodes(&steps, AudioChannelLayout::Stereo, layout_builder);
    let f = r.err().unwrap();
    assert_eq!(f.step, 6);
    assert_eq!(f.layout, AudioChannelLayout::Stereo);
    assert_eq!(f.error, "bad select");
}

#[test]
fn a_new_select_node_takes_a_fresh_serial_and_fades_in() {
    let ids: Vec<String> = vec!["a".into(), "b".into()];
    let st = AudioChannelLayout::Stereo;
    let mut serials = BlockSerials::new();
    let p = plan_select_node(&ids, &vec![st, st], &"b".to_string(), AudioChannelLayout::Mono, None, &mut serials).ok().unwrap();
    assert_eq!(p.instance_serial, 1);
    assert_eq!(p.input_layout, AudioChannelLayout::Mono);
    assert_eq!(p.output_layout, st);
    assert_eq!(p.fade, FadeState::FadingIn { frames_remaining: FADE_IN_FRAMES });
    let q = plan_select_node(&ids, &vec![st, st], &"a".to_string(), st, Some(7), &mut serials).ok().unwrap();
    assert_eq!(q.instance_serial, 7);
    assert_eq!(q.fade, FadeState::Active);
    assert_eq!(serials.next_block_instance_serial(), 2, "a rebuilt select node takes no serial");
}

#[test]
fn a_refused_select_node_still_uses_up_a_serial() {
    let ids: Vec<String> = vec!["a".into()];
    let mut serials = BlockSerials::new();
    let r = plan_select_node(&ids, &vec![AudioChannelLayout::Mono], &"zzz".to_string(), AudioChannelLayout::Mono, None, &mut serials);
    assert_eq!(r, Err(SelectError::UnknownOption));
    assert_eq!(serials.next_block_instance_serial(), 2);
}

fn existing(input: AudioChannelLayout, output: AudioChannelLayout) -> Option<ExistingNode> {
    Some(ExistingNode {
        input_layout: input,
        output_layout: output,
        snapshot_equal: true,
        equal_but_enabled: true,
        node_is_bypass: false,
        node_was_enabled: true,
    })
}

#[test]
fn a_node_is_reused_only_on_the_layout_it_was_built_for() {
    let m = AudioChannelLayout::Mono;
    let st = AudioChannelLayout::Stereo;
    let blocks = vec![
        BlockFacts { enabled: true, kind: PlanKind::Processing, existing: existing(m, st) },
        BlockFacts { enabled: true, kind: PlanKind::Processing, existing: existing(m, m) },
        BlockFacts { enabled: true, kind: PlanKind::Routing, existing: None },
        BlockFacts { enabled: false, kind: PlanKind::Processing, existing: None },
    ];
    let builder = |i: usize, l: AudioChannelLayout| -> Result<(String, AudioChannelLayout), String> {
        Ok((format!("built{i}"), l))
    };
    let (nodes, last, plans) = rebuild_block_nodes(&blocks, m, builder).ok().unwrap();
    assert_eq!(plans[0], BlockPlan::Process(ReuseDecision::ReuseAsIs));
    assert_eq!(plans[1], BlockPlan::Process(ReuseDecision::Rebuild), "block 1 now receives stereo");
    assert_eq!(plans[2], BlockPlan::Skip);
    assert_eq!(plans[3], BlockPlan::NewBypass);
    assert_eq!(nodes.len(), 3);
    assert!(nodes[0].built.is_none());
    assert_eq!(nodes[1].built.as_deref(), Some("built1"));
    assert_eq!(nodes[1].input_layout, st);
    assert_eq!(nodes[2].step, 3);
    assert_eq!(last, st);
}

#[test]
fn an_input_plan_reads_processes_and_fades_by_its_rules() {
    let input = InputEntry { device_id: "dev".into(), mode: ChainInputMode::Mono, channels: vec![3] };
    let p = plan_input_processing(&input, 2, false, vec![0, 1], Some(2));
    assert_eq!(p.input_read_layout, AudioChannelLayout::Mono);
    assert_eq!(p.processing_layout, AudioChannelLayout::Stereo);
    assert!(p.source_is_mono);
    assert_eq!(p.input_channels, vec![3]);
    assert_eq!(p.fade_in_remaining, FADE_IN_FRAMES);
    assert_eq!(p.output_route_indices, vec![0, 1]);
    assert_eq!(p.split_mono_sibling_count, Some(2));
    let dual = InputEntry { device_id: "dev".into(), mode: ChainInputMode::DualMono, channels: vec![0, 1] };
    let q = plan_input_processing(&dual, 1, true, vec![], None);
    assert_eq!(q.input_read_layout, AudioChannelLayout::Stereo);
    assert_eq!(q.processing_layout, AudioChannelLayout::Stereo);
    assert!(!q.source_is_mono);
    assert_eq!(q.fade_in_remaining, 0);
}

#[test]
fn a_panic_message_prefers_the_str_payload() {
    let owned = "owned".to_string();
    assert_eq!(panic_message(Some("slice"), Some(&owned)), "slice");
    assert_eq!(panic_message(None, Some(&owned)), "owned");
    assert_eq!(panic_message(None, None), "unknown panic");
}

#[test]
fn a_failed_rebuild_gives_emptied_inputs_their_nodes_back() {
    let mut states = vec![vec![1, 2], vec![3], vec![4, 5]];
    let mut held = extract_blocks(&mut states);
    assert_eq!(held, vec![vec![1, 2], vec![3], vec![4, 5]]);
    assert!(states.iter().all(|b| b.is_empty()));
    // The rebuild consumed input 0's nodes, then failed on input 1.
    held[0] = vec![];
    held[1] = vec![];
    states[0] = vec![9];
    restore_blocks(&mut states, held);
    assert_eq!(states, vec![vec![9], vec![], vec![4, 5]]);
}

#[test]
fn a_render_is_input_plus_tail_and_passes_through_when_nothing_runs() {
    let input = vec![[0.5f32, 0.25], [1.0, 0.0], [0.0, 1.0]];
    let mut nodes = vec![audio_node("gain", 2.0), bypass_node("off")];
    let quiet = render_nodes(&mut nodes, &vec![false, true], &input, 2, 2, 0.0).ok().unwrap();
    assert_eq!(quiet, vec![[0.5, 0.25], [1.0, 0.0], [0.0, 1.0], [0.0, 0.0], [0.0, 0.0]]);
    let loud = render_nodes(&mut nodes, &vec![true, true], &input, 2, 1, 0.0).ok().unwrap();
    assert_eq!(loud, vec![[1.0, 0.5], [2.0, 0.0], [0.0, 2.0], [0.0, 0.0]]);
    assert_eq!(render_nodes(&mut nodes, &vec![true, true], &input, 0, 1, 0.0), Err(RenderError::ZeroBlockSize));
}

#[test]
fn rebuilt_nodes_start_in_the_fade_their_plan_gives() {
    let full = FadeState::FadingIn { frames_remaining: FADE_IN_FRAMES };
    assert_eq!(plan_fade(BlockPlan::NewBypass, false), Some(FadeState::Bypassed));
    assert_eq!(plan_fade(BlockPlan::Process(ReuseDecision::Rebuild), false), Some(full));
    assert_eq!(plan_fade(BlockPlan::Process(ReuseDecision::Rebuild), true), Some(FadeState::Bypassed));
    assert_eq!(
        plan_fade(BlockPlan::KeepDisabled { fade_out: true }, false),
        Some(FadeState::FadingOut { frames_remaining: FADE_IN_FRAMES })
    );
    assert_eq!(plan_fade(BlockPlan::KeepDisabled { fade_out: false }, false), None);
    assert_eq!(plan_fade(BlockPlan::Process(ReuseDecision::ReuseWithSnapshot { fade_in: true }), false), Some(full));
    assert_eq!(plan_fade(BlockPlan::Process(ReuseDecision::ReuseAsIs), false), None);
}
