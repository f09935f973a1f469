use engine::block_nodes::{
    plan_block, processor_scratch, try_reuse_decision, AudioProcessor, BlockPlan, BlockSerials,
    PlanKind, ProcessorScratch, ReuseDecision, ReuseFacts,
};
use engine::block_toggle::{
    advance_fade, apply_block_toggle, BlockToggles, FadeState, ToggleError, ToggleNode,
    ToggleRefusal, FADE_IN_FRAMES,
};

struct NoopMono;
struct NoopStereo;

#[test]
fn next_block_instance_serial_increments() {
    let mut serials = BlockSerials::new();
    let a = serials.next_block_instance_serial();
    let b = serials.next_block_instance_serial();
    assert!(b > a, "serial should increment monotonically");
    assert_eq!(a, 1);
    assert_eq!(b, 2);
}

#[test]
fn processor_scratch_mono_creates_mono_scratch() {
    let proc: AudioProcessor<NoopMono, NoopStereo> = AudioProcessor::Mono(NoopMono);
    let scratch: ProcessorScratch<f32> = processor_scratch(&proc);
    assert!(matches!(scratch, ProcessorScratch::Mono(_)));
}

#[test]
fn processor_scratch_stereo_creates_stereo_scratch() {
    let proc: AudioProcessor<NoopMono, NoopStereo> = AudioProcessor::Stereo(NoopStereo);
    let scratch: ProcessorScratch<f32> = processor_scratch(&proc);
    assert!(matches!(scratch, ProcessorScratch::Stereo(_)));
}

#[test]
fn processor_scratch_dual_mono_creates_dual_mono_scratch() {
    let proc: AudioProcessor<NoopMono, NoopStereo> =
        AudioProcessor::DualMono { left: NoopMono, right: NoopMono };
    let scratch: ProcessorScratch<f32> = processor_scratch(&proc);
    assert!(matches!(scratch, ProcessorScratch::DualMono { .. }));
}

#[test]
fn processor_scratch_stereo_from_mono_is_stereo() {
    let proc: AudioProcessor<NoopMono, NoopStereo> = AudioProcessor::StereoFromMono(NoopStereo);
    let scratch: ProcessorScratch<f32> = processor_scratch(&proc);
    assert!(matches!(scratch, ProcessorScratch::Stereo(_)));
}

fn facts(layout: bool, equal: bool, but_enabled: bool, bypass: bool, was: bool) -> ReuseFacts {
    ReuseFacts {
        layout_matches: layout,
        snapshot_equal: equal,
        equal_but_enabled: but_enabled,
        node_is_bypass: bypass,
        node_was_enabled: was,
    }
}

#[test]
fn a_node_built_for_another_layout_is_rebuilt() {
    assert_eq!(try_reuse_decision(facts(false, true, true, false, true), true), ReuseDecision::Rebuild);
}

#[test]
fn an_unchanged_block_reuses_its_node() {
    assert_eq!(try_reuse_decision(facts(true, true, true, false, true), true), ReuseDecision::ReuseAsIs);
}

#[test]
fn enabling_a_live_node_reuses_it_with_a_fade_in() {
    assert_eq!(
        try_reuse_decision(facts(true, false, true, false, false), true),
        ReuseDecision::ReuseWithSnapshot { fade_in: true }
    );
}

#[test]
fn enabling_a_bypass_node_forces_a_rebuild() {
    assert_eq!(try_reuse_decision(facts(true, false, true, true, false), true), ReuseDecision::Rebuild);
}

#[test]
fn changed_parameters_force_a_rebuild() {
    assert_eq!(try_reuse_decision(facts(true, false, false, false, true), true), ReuseDecision::Rebuild);
}

#[test]
fn plan_covers_every_kind_of_block() {
    assert_eq!(plan_block(false, PlanKind::Processing, None), BlockPlan::NewBypass);
    assert_eq!(
        plan_block(false, PlanKind::Processing, Some(facts(true, false, true, false, true))),
        BlockPlan::KeepDisabled { fade_out: true }
    );
    assert_eq!(
        plan_block(false, PlanKind::Processing, Some(facts(true, false, true, true, true))),
        BlockPlan::KeepDisabled { fade_out: false }
    );
    assert_eq!(plan_block(true, PlanKind::Routing, None), BlockPlan::Skip);
    assert_eq!(plan_block(true, PlanKind::Select, None), BlockPlan::Select);
    assert_eq!(
        plan_block(true, PlanKind::Processing, None),
        BlockPlan::Process(ReuseDecision::Rebuild)
    );
}

#[test]
fn fade_in_completes_to_active_after_enough_frames() {
    let s = advance_fade(FadeState::FadingIn { frames_remaining: 16 }, 16);
    assert_eq!(s, FadeState::Active, "fade-in should complete to Active when frames_remaining reaches 0");
}

#[test]
fn fade_in_partial_keeps_fading_in() {
    let s = advance_fade(FadeState::FadingIn { frames_remaining: 64 }, 16);
    assert_eq!(s, FadeState::FadingIn { frames_remaining: 48 }, "should have consumed 16 frames of fade");
}

#[test]
fn fade_out_completes_to_bypassed_after_enough_frames() {
    let s = advance_fade(FadeState::FadingOut { frames_remaining: 16 }, 16);
    assert_eq!(s, FadeState::Bypassed);
}

#[test]
fn fade_out_partial_keeps_fading_out() {
    let s = advance_fade(FadeState::FadingOut { frames_remaining: 64 }, 16);
    assert_eq!(s, FadeState::FadingOut { frames_remaining: 48 });
}

#[test]
fn steady_states_do_not_move() {
    assert_eq!(advance_fade(FadeState::Active, 1000), FadeState::Active);
    assert_eq!(advance_fade(FadeState::Bypassed, 1000), FadeState::Bypassed);
}

#[test]
fn two_buffers_advance_a_fade_as_one() {
    let s = FadeState::FadingIn { frames_remaining: 100 };
    assert_eq!(advance_fade(advance_fade(s, 30), 50), advance_fade(s, 80));
}

fn node(id: &str, enabled: bool, live: bool) -> ToggleNode {
    ToggleNode {
        block_id: id.into(),
        enabled,
        live,
        fade_state: if enabled { FadeState::Active } else { FadeState::Bypassed },
    }
}

#[test]
fn disabling_a_block_fades_it_out_everywhere() {
    let mut states = vec![vec![node("a", true, true), node("b", true, true)], vec![node("a", true, true)]];
    let errors = apply_block_toggle(&mut states, &"a".to_string(), false);
    assert!(errors.is_empty());
    assert!(!states[0][0].enabled);
    assert_eq!(states[0][0].fade_state, FadeState::FadingOut { frames_remaining: FADE_IN_FRAMES });
    assert!(!states[1][0].enabled);
    assert!(states[0][1].enabled, "another block is untouched");
    assert_eq!(states[0][1].fade_state, FadeState::Active);
}

#[test]
fn re_enabling_a_bypass_node_reports_a_rebuild() {
    let mut states = vec![vec![node("a", false, false)]];
    let errors = apply_block_toggle(&mut states, &"a".to_string(), true);
    assert_eq!(errors.len(), 2);
    assert!(matches!(&errors[0], ToggleError::NeedsRebuild { block_id } if block_id == "a"));
    assert!(matches!(&errors[1], ToggleError::NotFound { block_id } if block_id == "a"));
    assert!(!states[0][0].enabled, "a refused node keeps its flag");
}

#[test]
fn toggling_an_unknown_block_reports_not_found() {
    let mut states = vec![vec![node("a", true, true)]];
    let errors = apply_block_toggle(&mut states, &"zzz".to_string(), false);
    assert_eq!(errors.len(), 1);
    assert!(matches!(&errors[0], ToggleError::NotFound { block_id } if block_id == "zzz"));
    assert!(states[0][0].enabled);
}

#[test]
fn a_repeated_toggle_does_not_restart_the_fade() {
    let mut states = vec![vec![node("a", true, true)]];
    let _ = apply_block_toggle(&mut states, &"a".to_string(), false);
    states[0][0].fade_state = advance_fade(states[0][0].fade_state, 10);
    let before = states[0][0].fade_state;
    let errors = apply_block_toggle(&mut states, &"a".to_string(), false);
    assert!(errors.is_empty());
    assert_eq!(states[0][0].fade_state, before);
}

#[test]
fn the_control_thread_refuses_to_queue_a_dead_re_enable() {
    let toggles = BlockToggles::new(vec!["dead".to_string()]);
    assert_eq!(toggles.set_block_enabled(&"dead".to_string(), true), Err(ToggleRefusal::NoLiveProcessor));
    assert_eq!(toggles.set_block_enabled(&"dead".to_string(), false), Ok(()));
}

#[test]
fn queued_toggles_reach_the_nodes_on_drain() {
    let toggles = BlockToggles::new(vec![]);
    toggles.set_block_enabled(&"a".to_string(), false).unwrap();
    toggles.set_block_enabled(&"b".to_string(), false).unwrap();
    let mut states = vec![vec![node("a", true, true), node("b", true, true)]];
    let (applied, errors) = toggles.drain_pending_block_toggles(&mut states);
    assert_eq!(applied, 2);
    assert!(errors.is_empty());
    assert!(!states[0][0].enabled && !states[0][1].enabled);
    let (applied, _) = toggles.drain_pending_block_toggles(&mut states);
    assert_eq!(applied, 0, "the queue is empty once drained");
}

#[test]
fn a_full_toggle_queue_is_reported() {
    let toggles = BlockToggles::new(vec![]);
    let mut full = false;
    for _ in 0..100 {
        if toggles.set_block_enabled(&"a".to_string(), true) == Err(ToggleRefusal::QueueFull) {
            full = true;
            break;
        }
    }
    assert!(full);
}
