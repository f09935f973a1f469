use engine::chain::{
    chain_has_enabled_insert, BlockKind, Chain, ChainBlock, ChainInputMode, ChainOutputMode,
    ChannelMode, CoreBlock, InputEntry, InsertBlock, IoBinding, IoEndpoint, NamBlock,
};
use engine::endpoints::{
    effective_inputs, effective_outputs, insert_return_as_input_entry,
    insert_send_as_output_entry, resolve_chain_io,
};
use engine::segments::{
    block_is_convolution, group_segments_by_input, route_has_convolution,
    route_on_producer_clock, split_chain_into_segments, ChainSegment, EFFECT_TYPE_CAB,
};

fn endpoint(name: &str, dev: &str, mode: ChannelMode, channels: &[usize]) -> IoEndpoint {
    IoEndpoint {
        name: name.into(),
        device_id: dev.into(),
        mode,
        channels: channels.to_vec(),
    }
}

fn block(id: &str, kind: BlockKind) -> ChainBlock {
    ChainBlock { id: id.into(), enabled: true, kind }
}

fn core_block(id: &str, effect_type: &str, model: &str) -> ChainBlock {
    block(
        id,
        BlockKind::Core(CoreBlock { effect_type: effect_type.into(), model: model.into() }),
    )
}

fn empty_chain(id: &str) -> Chain {
    Chain { id: id.into(), description: None, enabled: true, io_binding_ids: vec![], blocks: vec![] }
}

/// `input → comp → insert(fx) → delay → output`, bound to `main`.
fn insert_chain() -> Chain {
    Chain {
        id: "chain:insert".into(),
        description: None,
        enabled: true,
        io_binding_ids: vec!["main".into()],
        blocks: vec![
            block("in:0", BlockKind::Input),
            core_block("comp:0", "dynamics", "compressor"),
            block(
                "insert:0",
                BlockKind::Insert(InsertBlock { model: "external_loop".into(), io: "fx".into() }),
            ),
            core_block("delay:0", "delay", "digital"),
            block("out:0", BlockKind::Output),
        ],
    }
}

fn insert_registry() -> Vec<IoBinding> {
    vec![
        IoBinding {
            id: "main".into(),
            name: "Main".into(),
            inputs: vec![endpoint("in", "dev", ChannelMode::Mono, &[0])],
            outputs: vec![endpoint("out", "dev", ChannelMode::Stereo, &[0, 1])],
        },
        IoBinding {
            id: "fx".into(),
            name: "FX".into(),
            inputs: vec![endpoint("ret", "dev", ChannelMode::Stereo, &[2, 3])],
            outputs: vec![endpoint("snd", "dev", ChannelMode::Stereo, &[2, 3])],
        },
    ]
}

fn fx_registry(
    send_mode: ChannelMode,
    send_channels: Vec<usize>,
    return_mode: ChannelMode,
    return_channels: Vec<usize>,
) -> Vec<IoBinding> {
    vec![IoBinding {
        id: "fx".into(),
        name: "FX".into(),
        inputs: vec![IoEndpoint {
            name: "return".into(),
            device_id: "return_dev".into(),
            mode: return_mode,
            channels: return_channels,
        }],
        outputs: vec![IoEndpoint {
            name: "send".into(),
            device_id: "send_dev".into(),
            mode: send_mode,
            channels: send_channels,
        }],
    }]
}

fn fx_insert() -> InsertBlock {
    InsertBlock { model: "external_loop".into(), io: "fx".into() }
}

fn segments_of(chain: &Chain, reg: &[IoBinding]) -> Vec<ChainSegment> {
    let (rin, rout) = resolve_chain_io(chain, reg);
    let (eff_in, cpal, splits, groups) = effective_inputs(chain, &rin, reg);
    let eff_out = effective_outputs(chain, &rout, reg);
    split_chain_into_segments(chain, &eff_in, &cpal, &splits, &groups, &eff_out, reg)
}

#[test]
fn effective_inputs_includes_insert_return() {
    let chain = insert_chain();
    let (resolved_in, _resolved_out) = resolve_chain_io(&chain, &insert_registry());
    let (eff_inputs, cpal_indices, _split_positions, _entry_groups) =
        effective_inputs(&chain, &resolved_in, &insert_registry());
    // Should have: 1 regular input + 1 insert return = 2
    assert_eq!(eff_inputs.len(), 2);
    assert_eq!(cpal_indices.len(), 2);
}

#[test]
fn effective_outputs_includes_insert_send() {
    let chain = insert_chain();
    let (_resolved_in, resolved_out) = resolve_chain_io(&chain, &insert_registry());
    let eff_outputs = effective_outputs(&chain, &resolved_out, &insert_registry());
    // Should have: 1 regular output + 1 insert send = 2
    assert_eq!(eff_outputs.len(), 2);
}

#[test]
fn effective_inputs_splits_mono_multichannel_entry() {
    let chain = empty_chain("chain:split");
    // A single mono endpoint spanning 3 channels (as resolved from a binding).
    let resolved = vec![InputEntry {
        device_id: "dev".into(),
        mode: ChainInputMode::Mono,
        channels: vec![0, 1, 2],
    }];
    let (eff_inputs, cpal_indices, _split_positions, _entry_groups) =
        effective_inputs(&chain, &resolved, &[]);
    assert_eq!(eff_inputs.len(), 3, "mono entry with 3 channels should split into 3 entries");
    assert_eq!(eff_inputs[0].channels, vec![0]);
    assert_eq!(eff_inputs[1].channels, vec![1]);
    assert_eq!(eff_inputs[2].channels, vec![2]);
    // All should share the same CPAL stream index
    assert_eq!(cpal_indices[0], cpal_indices[1]);
    assert_eq!(cpal_indices[1], cpal_indices[2]);
}

#[test]
fn effective_inputs_fallback_when_no_input_blocks() {
    let chain = empty_chain("chain:fallback");
    // No resolved inputs (no binding selected) → fallback.
    let (eff_inputs, cpal_indices, _split_positions, _entry_groups) =
        effective_inputs(&chain, &[], &[]);
    assert_eq!(eff_inputs.len(), 1, "fallback should produce exactly 1 input");
    assert_eq!(cpal_indices, vec![0]);
}

#[test]
fn effective_outputs_fallback_when_no_output_blocks() {
    let chain = empty_chain("chain:fallback");
    // No resolved outputs (no binding selected) → fallback.
    let eff_outputs = effective_outputs(&chain, &[], &[]);
    assert_eq!(eff_outputs.len(), 1, "fallback should produce exactly 1 output");
    assert_eq!(eff_outputs[0].channels, vec![0, 1]);
    assert!(matches!(eff_outputs[0].mode, ChainOutputMode::Stereo));
}

#[test]
fn insert_return_as_input_entry_copies_return_endpoint() {
    let reg = fx_registry(ChannelMode::Stereo, vec![0, 1], ChannelMode::Mono, vec![2]);
    let entry = insert_return_as_input_entry(&fx_insert(), &reg).expect("return resolves");
    assert_eq!(entry.device_id, "return_dev");
    assert_eq!(entry.channels, vec![2]);
    assert!(matches!(entry.mode, ChainInputMode::Mono));
}

#[test]
fn insert_send_as_output_entry_mono_mode() {
    let reg = fx_registry(ChannelMode::Mono, vec![0], ChannelMode::Stereo, vec![0, 1]);
    let entry = insert_send_as_output_entry(&fx_insert(), &reg).expect("send resolves");
    assert_eq!(entry.device_id, "send_dev");
    assert_eq!(entry.channels, vec![0]);
    assert!(matches!(entry.mode, ChainOutputMode::Mono));
}

#[test]
fn insert_send_as_output_entry_stereo_mode() {
    let reg = fx_registry(ChannelMode::Stereo, vec![0, 1], ChannelMode::Mono, vec![0]);
    let entry = insert_send_as_output_entry(&fx_insert(), &reg).expect("send resolves");
    assert!(matches!(entry.mode, ChainOutputMode::Stereo));
}

#[test]
fn insert_send_as_output_entry_dual_mono_becomes_stereo() {
    let reg = fx_registry(ChannelMode::DualMono, vec![0, 1], ChannelMode::Mono, vec![0]);
    let entry = insert_send_as_output_entry(&fx_insert(), &reg).expect("send resolves");
    assert!(matches!(entry.mode, ChainOutputMode::Stereo));
}

fn fx_binding() -> Vec<IoBinding> {
    vec![IoBinding {
        id: "fx".into(),
        name: "FX".into(),
        inputs: vec![endpoint("ret", "dev", ChannelMode::Mono, &[2])],
        outputs: vec![endpoint("snd", "dev", ChannelMode::Stereo, &[0, 1])],
    }]
}

#[test]
fn insert_send_and_return_resolve_from_its_binding() {
    let insert = InsertBlock { model: "external_loop".into(), io: "fx".into() };
    let reg = fx_binding();
    let snd = insert_send_as_output_entry(&insert, &reg).expect("send resolves");
    assert_eq!(snd.device_id, "dev");
    assert_eq!(snd.channels, vec![0, 1]);
    let ret = insert_return_as_input_entry(&insert, &reg).expect("return resolves");
    assert_eq!(ret.device_id, "dev");
    assert_eq!(ret.channels, vec![2]);
}

#[test]
fn insert_with_unknown_binding_resolves_to_nothing() {
    let insert = InsertBlock { model: "external_loop".into(), io: "ghost".into() };
    assert!(insert_send_as_output_entry(&insert, &fx_binding()).is_none());
    assert!(insert_return_as_input_entry(&insert, &fx_binding()).is_none());
}

#[test]
fn effective_inputs_stereo_entry_not_split() {
    let chain = empty_chain("chain:stereo");
    let resolved = vec![InputEntry {
        device_id: "dev".into(),
        mode: ChainInputMode::Stereo,
        channels: vec![0, 1],
    }];
    let (eff_inputs, _, _, _) = effective_inputs(&chain, &resolved, &[]);
    assert_eq!(eff_inputs.len(), 1, "stereo entry should not be split");
    assert_eq!(eff_inputs[0].channels, vec![0, 1]);
}

#[test]
fn effective_inputs_multiple_input_blocks() {
    let chain = empty_chain("chain:multi-in");
    // Two distinct-device mono endpoints (as resolved from a binding).
    let resolved = vec![
        InputEntry { device_id: "dev1".into(), mode: ChainInputMode::Mono, channels: vec![0] },
        InputEntry { device_id: "dev2".into(), mode: ChainInputMode::Mono, channels: vec![0] },
    ];
    let (eff_inputs, cpal_indices, _split_positions, _entry_groups) =
        effective_inputs(&chain, &resolved, &[]);
    assert_eq!(eff_inputs.len(), 2);
    assert_eq!(eff_inputs[0].device_id, "dev1");
    assert_eq!(eff_inputs[1].device_id, "dev2");
    // Different devices should have different CPAL indices
    assert_ne!(cpal_indices[0], cpal_indices[1]);
}

#[test]
fn effective_inputs_same_device_shares_cpal_index() {
    let chain = empty_chain("chain:same-dev");
    // Two same-device mono endpoints (as resolved from a binding).
    let resolved = vec![
        InputEntry { device_id: "same_dev".into(), mode: ChainInputMode::Mono, channels: vec![0] },
        InputEntry { device_id: "same_dev".into(), mode: ChainInputMode::Mono, channels: vec![1] },
    ];
    let (eff_inputs, cpal_indices, _split_positions, _entry_groups) =
        effective_inputs(&chain, &resolved, &[]);
    assert_eq!(eff_inputs.len(), 2);
    assert_eq!(cpal_indices[0], cpal_indices[1], "same device should share CPAL index");
}

#[test]
fn streams_are_numbered_in_first_seen_order() {
    let chain = empty_chain("chain:streams");
    let resolved = vec![
        InputEntry { device_id: "b".into(), mode: ChainInputMode::Mono, channels: vec![0] },
        InputEntry { device_id: "a".into(), mode: ChainInputMode::Mono, channels: vec![0] },
        InputEntry { device_id: "b".into(), mode: ChainInputMode::Stereo, channels: vec![2, 3] },
    ];
    let (_, cpal, splits, groups) = effective_inputs(&chain, &resolved, &[]);
    assert_eq!(cpal, vec![0, 1, 0]);
    assert_eq!(splits, vec![0, 0, 0]);
    assert_eq!(groups, vec![0, 1, 2]);
}

#[test]
fn resolve_chain_io_concatenates_bindings_in_chain_order() {
    let mut chain = empty_chain("chain:io");
    chain.io_binding_ids = vec!["fx".into(), "unknown".into(), "main".into()];
    let (ins, outs) = resolve_chain_io(&chain, &insert_registry());
    assert_eq!(ins.len(), 2);
    assert_eq!(ins[0].channels, vec![2, 3]);
    assert!(matches!(ins[0].mode, ChainInputMode::Stereo));
    assert_eq!(ins[1].channels, vec![0]);
    assert_eq!(outs.len(), 2);
    assert_eq!(outs[1].channels, vec![0, 1]);
}

#[test]
fn split_chain_with_insert_produces_two_segments() {
    let chain = insert_chain();
    let (resolved_in, resolved_out) = resolve_chain_io(&chain, &insert_registry());
    let (eff_inputs, cpal_indices, split_positions, entry_groups) =
        effective_inputs(&chain, &resolved_in, &insert_registry());
    let eff_outputs = effective_outputs(&chain, &resolved_out, &insert_registry());
    let segments = split_chain_into_segments(
        &chain,
        &eff_inputs,
        &cpal_indices,
        &split_positions,
        &entry_groups,
        &eff_outputs,
        &insert_registry(),
    );

    // Should have 2 segments: before insert and after insert
    assert_eq!(segments.len(), 2, "insert should split chain into 2 segments");

    // Segment 0: input → [comp:0] → insert send
    assert_eq!(
        segments[0].block_indices,
        vec![1],
        "first segment should contain only effect blocks before insert"
    );

    // Segment 1: insert return → [delay:0] → output
    assert_eq!(
        segments[1].block_indices,
        vec![3],
        "second segment should contain only effect blocks after insert"
    );
    // The first segment feeds the send, the second the chain's output.
    assert_eq!(segments[0].output_route_indices, vec![1]);
    assert_eq!(segments[1].output_route_indices, vec![0]);
}

#[test]
fn split_chain_with_disabled_insert_produces_one_segment() {
    let mut chain = insert_chain();
    // Disable the insert block
    chain.blocks[2].enabled = false;
    let (resolved_in, resolved_out) = resolve_chain_io(&chain, &insert_registry());
    let (eff_inputs, cpal_indices, split_positions, entry_groups) =
        effective_inputs(&chain, &resolved_in, &insert_registry());
    let eff_outputs = effective_outputs(&chain, &resolved_out, &insert_registry());
    let segments = split_chain_into_segments(
        &chain,
        &eff_inputs,
        &cpal_indices,
        &split_positions,
        &entry_groups,
        &eff_outputs,
        &insert_registry(),
    );

    // Disabled insert should not split the chain
    assert_eq!(segments.len(), 1, "disabled insert should not split the chain");
    assert_eq!(segments[0].block_indices, vec![1, 3]);
}

#[test]
fn split_two_bindings_pairs_each_input_with_its_own_binding_output() {
    fn b(id: &str, dev: &str) -> IoBinding {
        IoBinding {
            id: id.into(),
            name: id.into(),
            inputs: vec![IoEndpoint {
                name: "In".into(),
                device_id: format!("{dev}-in"),
                mode: ChannelMode::Mono,
                channels: vec![0],
            }],
            outputs: vec![IoEndpoint {
                name: "Out".into(),
                device_id: format!("{dev}-out"),
                mode: ChannelMode::Stereo,
                channels: vec![0, 1],
            }],
        }
    }
    let reg = vec![b("scarlet", "scarlett"), b("teyun", "teyun")];
    let mut chain = empty_chain("rig:input-1");
    chain.io_binding_ids = vec!["scarlet".into(), "teyun".into()];

    let (rin, rout) = resolve_chain_io(&chain, &reg);
    let (eff_in, cpal, splits, groups) = effective_inputs(&chain, &rin, &reg);
    let eff_out = effective_outputs(&chain, &rout, &reg);
    let segments =
        split_chain_into_segments(&chain, &eff_in, &cpal, &splits, &groups, &eff_out, &reg);

    let scarlet_out = eff_out.iter().position(|o| o.device_id == "scarlett-out").unwrap();

    // No cross-routing: the TEYUN input must never reach the SCARLET output.
    assert!(
        !segments
            .iter()
            .any(|s| s.input.device_id == "teyun-in"
                && s.output_route_indices.contains(&scarlet_out)),
        "cross-binding routing: TEYUN input reached the SCARLET output"
    );
    // Sanity: the TEYUN input still routes somewhere (to its own output).
    assert!(
        segments.iter().any(|s| s.input.device_id == "teyun-in"),
        "the TEYUN input must still produce a segment"
    );
    assert_eq!(segments[0].output_route_indices, vec![0]);
    assert_eq!(segments[1].output_route_indices, vec![1]);
}

#[test]
fn split_mono_siblings_share_a_group_and_count_each_other() {
    let reg = vec![IoBinding {
        id: "io".into(),
        name: "IO".into(),
        inputs: vec![endpoint("in", "dev", ChannelMode::Mono, &[0, 1])],
        outputs: vec![endpoint("out", "dev", ChannelMode::Stereo, &[0, 1])],
    }];
    let mut chain = empty_chain("chain:siblings");
    chain.io_binding_ids = vec!["io".into()];
    let segments = segments_of(&chain, &reg);
    assert_eq!(segments.len(), 2);
    assert_eq!(segments[0].split_mono_sibling_count, Some(2));
    assert_eq!(segments[1].entry_group, segments[0].entry_group);
    let groups = group_segments_by_input(&chain, segments);
    assert_eq!(groups.len(), 1, "siblings of one raw entry are one runtime");
    assert_eq!(groups[0].1.len(), 2);
}

#[test]
fn two_inputs_become_two_isolated_groups_in_first_seen_order() {
    let reg = vec![IoBinding {
        id: "io".into(),
        name: "IO".into(),
        inputs: vec![
            endpoint("a", "dev", ChannelMode::Mono, &[0]),
            endpoint("b", "dev", ChannelMode::Mono, &[1]),
        ],
        outputs: vec![endpoint("out", "dev", ChannelMode::Stereo, &[0, 1])],
    }];
    let mut chain = empty_chain("chain:two");
    chain.io_binding_ids = vec!["io".into()];
    let segments = segments_of(&chain, &reg);
    let groups = group_segments_by_input(&chain, segments);
    assert_eq!(groups.len(), 2);
    assert_eq!(groups[0].0, 0);
    assert_eq!(groups[1].0, 1);
    assert_eq!(groups[1].1[0].input.channels, vec![1]);
}

#[test]
fn an_insert_chain_stays_one_group() {
    let chain = insert_chain();
    assert!(chain_has_enabled_insert(&chain));
    let segments = segments_of(&chain, &insert_registry());
    let groups = group_segments_by_input(&chain, segments);
    assert_eq!(groups.len(), 1);
    assert_eq!(groups[0].0, 0);
    assert_eq!(groups[0].1.len(), 2);
}

#[test]
fn the_tail_after_an_insert_is_fed_by_the_return_and_the_send_by_the_guitar() {
    let registry = vec![
        IoBinding {
            id: "g".into(),
            name: "G".into(),
            inputs: vec![endpoint("in", "a", ChannelMode::Mono, &[0])],
            outputs: vec![endpoint("main", "a", ChannelMode::Stereo, &[0, 1])],
        },
        IoBinding {
            id: "loop".into(),
            name: "LOOP".into(),
            inputs: vec![endpoint("ret", "b", ChannelMode::Stereo, &[0, 1])],
            outputs: vec![endpoint("snd", "b", ChannelMode::Mono, &[2])],
        },
    ];
    let chain = Chain {
        id: "c".into(),
        description: None,
        enabled: true,
        io_binding_ids: vec!["g".into()],
        blocks: vec![block(
            "insert",
            BlockKind::Insert(InsertBlock { model: "standard".into(), io: "loop".into() }),
        )],
    };
    let segments = segments_of(&chain, &registry);
    // Route 0 is the main output, written by the tail fed from the return.
    assert!(route_on_producer_clock(&segments, 0, &"b".to_string()));
    assert!(!route_on_producer_clock(&segments, 0, &"a".to_string()));
    // Route 1 is the send, written by the head fed from the guitar.
    assert!(route_on_producer_clock(&segments, 1, &"a".to_string()));
    // Nothing writes route 2.
    assert!(!route_on_producer_clock(&segments, 2, &"a".to_string()));
}

#[test]
fn detects_cab_block_as_convolution() {
    assert!(block_is_convolution(&core_block("m", EFFECT_TYPE_CAB, "ir_marshall_4x12_v30")));
}

#[test]
fn detects_ir_prefixed_model_as_convolution() {
    assert!(block_is_convolution(&core_block("m", "gain", "ir_weird")));
}

#[test]
fn plain_gain_chain_is_not_convolution() {
    assert!(!block_is_convolution(&core_block("m", "gain", "fuzz_ge")));
}

#[test]
fn disabled_cab_does_not_count() {
    let mut cab = core_block("m", EFFECT_TYPE_CAB, "ir_x");
    cab.enabled = false;
    assert!(!block_is_convolution(&cab));
}

#[test]
fn nam_amp_is_not_convolution() {
    let nam = block("m", BlockKind::Nam(NamBlock { model: "nam_marshall_plexi".into() }));
    assert!(!block_is_convolution(&nam));
    let ir = block("m", BlockKind::Nam(NamBlock { model: "ir_room".into() }));
    assert!(block_is_convolution(&ir));
}

#[test]
fn only_the_route_behind_the_cab_is_fed_by_the_convolver() {
    // input → insert(fx) → cab → output: the send is written before the cab.
    let chain = Chain {
        id: "c".into(),
        description: None,
        enabled: true,
        io_binding_ids: vec!["main".into()],
        blocks: vec![
            block(
                "insert",
                BlockKind::Insert(InsertBlock { model: "standard".into(), io: "fx".into() }),
            ),
            core_block("cab", EFFECT_TYPE_CAB, "ir_test"),
        ],
    };
    let segments = segments_of(&chain, &insert_registry());
    assert!(route_has_convolution(&chain, &segments, 0), "the tail is behind the cab");
    assert!(!route_has_convolution(&chain, &segments, 1), "the send is before the cab");
}
