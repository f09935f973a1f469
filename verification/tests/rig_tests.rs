use engine::chain::{BlockKind, ChainBlock, ChannelMode, CoreBlock, IoBinding, IoEndpoint};
use engine::rig_projection::{rig_to_chains, RigChainSource};
use engine::rig::{input_taps, ordered_input_names, RigActivation, RigError, RigInput, RigInputEntry};

fn in_ep(name: &str, dev: &str, ch: Vec<usize>) -> IoEndpoint {
    IoEndpoint { name: name.into(), device_id: dev.into(), mode: ChannelMode::Mono, channels: ch }
}

fn binding(id: &str, inputs: Vec<IoEndpoint>, outputs: Vec<IoEndpoint>) -> IoBinding {
    IoBinding { id: id.into(), name: id.to_uppercase(), inputs, outputs }
}

fn input(binding_id: &str, bank: &[usize], active: usize) -> RigInput {
    RigInput {
        io_binding_ids: vec![binding_id.to_string()],
        io: String::new(),
        endpoint: String::new(),
        bank_slots: bank.to_vec(),
        active_preset: active,
        active_scene: 1,
    }
}

fn entry(name: &str, input: RigInput) -> RigInputEntry {
    RigInputEntry { name: name.into(), input, buildable: true }
}

fn s(x: &str) -> String {
    x.to_string()
}

fn two_on_one_tap() -> RigActivation {
    let registry = vec![
        binding("io1", vec![in_ep("in0", "sc", vec![0])], vec![]),
        binding("io2", vec![in_ep("in0", "sc", vec![0])], vec![]),
    ];
    RigActivation::new(
        vec![entry("input-1", input("io1", &[1], 1)), entry("input-2", input("io2", &[1], 1))],
        &registry,
    )
}

#[test]
fn input_taps_lists_every_selected_endpoint_channel() {
    let registry = vec![
        binding("io1", vec![in_ep("a", "sc", vec![0, 1]), in_ep("b", "sc", vec![4])], vec![]),
        binding("io2", vec![in_ep("x", "usb", vec![2])], vec![]),
    ];
    let mut inp = input("io1", &[1], 1);
    inp.io = s("io2");
    let taps = input_taps(&inp, &registry);
    assert_eq!(taps, vec![(s("sc"), 0), (s("sc"), 1), (s("sc"), 4), (s("usb"), 2)]);
    // A named endpoint narrows the single binding reference to it.
    inp.io = s("io1");
    inp.endpoint = s("b");
    inp.io_binding_ids.clear();
    assert_eq!(input_taps(&inp, &registry), vec![(s("sc"), 4)]);
}

#[test]
fn build_skips_second_input_conflicting_on_same_tap() {
    let rt = two_on_one_tap();
    assert!(rt.is_enabled(&s("input-1")));
    assert!(!rt.is_enabled(&s("input-2")), "conflicting input not auto-enabled");
}

#[test]
fn enable_input_rejects_tap_already_in_use() {
    let mut rt = two_on_one_tap();
    match rt.enable_input(&s("input-2")) {
        Err(RigError::TapInUse { device, channel, holder }) => {
            assert_eq!(device, "sc");
            assert_eq!(channel, 0);
            assert_eq!(holder, "input-1");
        }
        _ => panic!("expected a tap conflict"),
    }
    assert!(!rt.is_enabled(&s("input-2")));
}

#[test]
fn disable_then_enable_other_frees_the_tap() {
    let mut rt = two_on_one_tap();
    assert!(matches!(rt.disable_input(&s("input-1")), Ok(true)));
    assert!(!rt.is_enabled(&s("input-1")));
    assert!(matches!(rt.enable_input(&s("input-2")), Ok(true)), "tap now free");
    assert!(rt.is_enabled(&s("input-2")));
}

#[test]
fn enable_disable_unknown_input_errs() {
    let mut rt = two_on_one_tap();
    assert!(matches!(rt.enable_input(&s("ghost")), Err(RigError::UnknownInput)));
    assert!(matches!(rt.disable_input(&s("ghost")), Err(RigError::UnknownInput)));
}

#[test]
fn enabling_an_active_input_changes_nothing() {
    let mut rt = two_on_one_tap();
    assert!(matches!(rt.enable_input(&s("input-1")), Ok(false)));
    assert!(rt.is_enabled(&s("input-1")));
}

#[test]
fn non_conflicting_inputs_both_auto_enabled() {
    let registry = vec![
        binding("io1", vec![in_ep("in0", "sc", vec![0])], vec![]),
        binding("io2", vec![in_ep("in0", "sc", vec![1])], vec![]),
    ];
    let rt = RigActivation::new(
        vec![entry("input-1", input("io1", &[1], 1)), entry("input-2", input("io2", &[1], 1))],
        &registry,
    );
    assert!(rt.is_enabled(&s("input-1")) && rt.is_enabled(&s("input-2")));
}

#[test]
fn an_unbuildable_input_stays_off() {
    let registry = vec![binding("io1", vec![in_ep("in0", "sc", vec![0])], vec![])];
    let mut e = entry("input-1", input("io1", &[1], 1));
    e.buildable = false;
    let mut rt = RigActivation::new(vec![e], &registry);
    assert!(!rt.is_enabled(&s("input-1")));
    assert!(matches!(rt.enable_input(&s("input-1")), Err(RigError::NotBuildable)));
}

#[test]
fn switch_preset_updates_active_index() {
    let registry = vec![binding("io_a", vec![in_ep("in0", "a", vec![0])], vec![])];
    let mut rt = RigActivation::new(vec![entry("input-1", input("io_a", &[1, 2], 1))], &registry);
    rt.switch_preset(&s("input-1"), 2).ok().expect("switch ok");
    assert_eq!(rt.active_preset_of(&s("input-1")), Some(2));
}

#[test]
fn switch_preset_invalid_index_errs_and_keeps_active() {
    let registry = vec![binding("io_a", vec![in_ep("in0", "a", vec![0])], vec![])];
    let mut rt = RigActivation::new(vec![entry("input-1", input("io_a", &[1], 1))], &registry);
    assert!(matches!(rt.switch_preset(&s("input-1"), 9), Err(RigError::NoBankSlot { slot: 9 })));
    assert_eq!(rt.active_preset_of(&s("input-1")), Some(1));
}

#[test]
fn switch_preset_does_not_touch_other_input_isolation() {
    let registry = vec![
        binding("io_a", vec![in_ep("in0", "a", vec![0])], vec![]),
        binding("io_b", vec![in_ep("in0", "b", vec![0])], vec![]),
    ];
    let mut rt = RigActivation::new(
        vec![entry("input-1", input("io_a", &[1, 2], 1)), entry("input-2", input("io_b", &[1], 1))],
        &registry,
    );
    rt.switch_preset(&s("input-1"), 2).ok().expect("switch");
    assert_eq!(rt.active_preset_of(&s("input-2")), Some(1), "switching input-1 must not touch input-2");
    assert_eq!(rt.active_scene_of(&s("input-2")), Some(1));
    assert!(rt.is_enabled(&s("input-2")));
}

#[test]
fn switch_preset_needs_an_active_input() {
    let mut rt = two_on_one_tap();
    assert!(matches!(rt.switch_preset(&s("input-2"), 1), Err(RigError::NotActive)));
    assert!(matches!(rt.switch_preset(&s("ghost"), 1), Err(RigError::NotActive)));
}

#[test]
fn switch_scene_updates_active_and_rebuilds_only_that_input() {
    let registry = vec![
        binding("io_a", vec![in_ep("in0", "a", vec![0])], vec![]),
        binding("io_b", vec![in_ep("in0", "b", vec![0])], vec![]),
    ];
    let mut rt = RigActivation::new(
        vec![entry("input-1", input("io_a", &[1], 1)), entry("input-2", input("io_b", &[1], 1))],
        &registry,
    );
    rt.switch_scene(&s("input-1"), 3).ok().expect("switch scene");
    assert_eq!(rt.active_scene_of(&s("input-1")), Some(3));
    assert_eq!(rt.active_scene_of(&s("input-2")), Some(1), "the other input is untouched");
}

#[test]
fn switch_scene_invalid_index_errs_and_keeps_active() {
    let registry = vec![binding("io_a", vec![in_ep("in0", "a", vec![0])], vec![])];
    let mut rt = RigActivation::new(vec![entry("input-1", input("io_a", &[1], 1))], &registry);
    assert!(matches!(rt.switch_scene(&s("input-1"), 9), Err(RigError::SceneOutOfRange { scene: 9 })));
    assert!(matches!(rt.switch_scene(&s("input-1"), 0), Err(RigError::SceneOutOfRange { scene: 0 })));
    assert_eq!(rt.active_scene_of(&s("input-1")), Some(1));
}

fn names(v: &[&str]) -> Vec<String> {
    v.iter().map(|x| x.to_string()).collect()
}

#[test]
fn rig_to_chains_falls_back_to_alphabetical_when_chain_order_empty() {
    assert_eq!(ordered_input_names(&vec![], &names(&["a", "b"])), names(&["a", "b"]));
}

#[test]
fn rig_to_chains_honours_chain_order_when_set() {
    assert_eq!(ordered_input_names(&names(&["b", "a"]), &names(&["a", "b"])), names(&["b", "a"]));
}

#[test]
fn rig_to_chains_appends_missing_inputs_alphabetically_after_chain_order() {
    assert_eq!(
        ordered_input_names(&names(&["b", "a"]), &names(&["a", "b", "c"])),
        names(&["b", "a", "c"])
    );
}

#[test]
fn rig_to_chains_ignores_stale_chain_order_entries() {
    assert_eq!(
        ordered_input_names(&names(&["ghost", "b", "a"]), &names(&["a", "b"])),
        names(&["b", "a"])
    );
}

#[test]
fn rig_to_chains_drops_duplicate_chain_order_entries() {
    assert_eq!(
        ordered_input_names(&names(&["a", "a", "b"]), &names(&["a", "b"])),
        names(&["a", "b"])
    );
}

fn proc_block(id: &str) -> ChainBlock {
    ChainBlock {
        id: id.into(),
        enabled: true,
        kind: BlockKind::Core(CoreBlock { effect_type: "gain".into(), model: "od".into() }),
    }
}

fn plain_io(kind: BlockKind, id: &str) -> ChainBlock {
    ChainBlock { id: id.into(), enabled: true, kind }
}

#[test]
fn rig_to_chains_projects_each_input_in_chain_order() {
    let sources = vec![
        RigChainSource {
            name: s("a"),
            io_binding_ids: vec![],
            blocks: Some(vec![(proc_block("od"), false)]),
            routed_output: true,
            label: None,
            preset_name: None,
            preset_title: s("Clean"),
        },
        RigChainSource {
            name: s("b"),
            io_binding_ids: vec![s("io_b")],
            blocks: None,
            routed_output: false,
            label: None,
            preset_name: None,
            preset_title: s("B"),
        },
        RigChainSource {
            name: s("c"),
            io_binding_ids: vec![s("io_c")],
            blocks: Some(vec![(plain_io(BlockKind::Input, "legacy-in"), true), (proc_block("eq"), false)]),
            routed_output: true,
            label: Some(s("Guitar")),
            preset_name: Some(s("Crunch")),
            preset_title: s("Crunch"),
        },
    ];
    let chains = rig_to_chains(&vec![s("c")], sources);
    let ids: Vec<String> = chains.iter().map(|c| c.id.clone()).collect();
    assert_eq!(ids, vec![s("rig:c"), s("rig:a")], "chain order first; an input with no preset is skipped");
    assert_eq!(chains[0].description, Some(s("Guitar")), "the input's label titles its chain");
    assert_eq!(chains[1].description, Some(s("Clean")));
    let c = &chains[0];
    assert_eq!(c.io_binding_ids, vec![s("io_c")]);
    let c_blocks: Vec<String> = c.blocks.iter().map(|b| b.id.clone()).collect();
    assert_eq!(c_blocks, vec![s("eq")], "a bound input drops what repeats its binding I/O");
    let a_blocks: Vec<String> = chains[1].blocks.iter().map(|b| b.id.clone()).collect();
    assert_eq!(a_blocks, vec![s("rig:a:in"), s("od"), s("rig:a:out")]);
    assert!(matches!(chains[1].blocks[0].kind, BlockKind::Input));
    assert!(matches!(chains[1].blocks[2].kind, BlockKind::Output));
}

#[test]
fn an_unbound_input_with_no_routed_output_gets_no_output_block() {
    let sources = vec![RigChainSource {
        name: s("solo"),
        io_binding_ids: vec![],
        blocks: Some(vec![]),
        routed_output: false,
        label: None,
        preset_name: Some(s("Lead")),
        preset_title: s("Lead 1"),
    }];
    let chains = rig_to_chains(&vec![], sources);
    assert_eq!(chains.len(), 1);
    let ids: Vec<String> = chains[0].blocks.iter().map(|b| b.id.clone()).collect();
    assert_eq!(ids, vec![s("rig:solo:in")]);
    assert_eq!(chains[0].description, Some(s("Lead")), "with no label, the preset's name");
}
