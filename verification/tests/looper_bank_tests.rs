use engine::audio_frame::AudioFrame;
use engine::looper::LooperState;
use engine::looper_bank::LooperBank;
use engine::looper_op::LooperOp;
use engine::looper_status::{state_code, state_from_code, LooperShared};

const UID: u64 = 42;

fn shared() -> LooperShared<f32> {
    LooperShared::new(8)
}

fn bank() -> LooperBank<f32> {
    // A short buffer keeps the tests cheap; the real bank is sized from the
    // live sample rate.
    LooperBank::new(8, 1.0)
}

fn layer() -> Vec<f32> {
    vec![0.0f32; 8 * 2]
}

fn stereo(frames: &[[f32; 2]]) -> Vec<AudioFrame<f32>> {
    frames.iter().map(|f| AudioFrame::Stereo(*f)).collect()
}

fn lr(frame: AudioFrame<f32>) -> [f32; 2] {
    match frame {
        AudioFrame::Stereo(v) => v,
        AudioFrame::Mono(s) => [s, s],
    }
}

fn first_layer(b: &LooperBank<f32>, uid: u64, frames: usize) -> Vec<f32> {
    b.slot(uid).expect("the looper exists").layers()[0][..frames * 2].to_vec()
}

#[test]
fn create_claims_a_slot_and_publishes_an_empty_status() {
    let sh = shared();
    let mut b = bank();
    sh.push(LooperOp::Create { uid: UID, seg: 0 }).unwrap();

    b.drain_ops(&sh);
    b.publish(&sh);

    let st = sh.status(UID).expect("the looper exists");
    assert_eq!(st.state, LooperState::Empty);
    assert_eq!(st.layers, 0);
    assert!(!b.is_idle(), "a claimed slot takes the bank out of idle");
}

#[test]
fn an_empty_bank_is_idle_and_leaves_the_frames_untouched() {
    let mut b = bank();
    assert!(b.is_idle());

    let frames = stereo(&[[0.25, -0.25]]);
    b.process(0, &frames);
    assert_eq!(lr(frames[0]), [0.25, -0.25]);
}

#[test]
fn recorded_material_is_summed_back_into_the_chain_input() {
    // The bank records the dry input; what the loop plays is read from the
    // looper (the bank never writes into the chain's frames).
    let sh = shared();
    let mut b = bank();
    sh.push(LooperOp::Create { uid: UID, seg: 0 }).unwrap();
    sh.push(LooperOp::TapRecord { uid: UID, buffer: Some(layer()) }).unwrap();
    b.drain_ops(&sh);

    let rec = stereo(&[[0.5, 0.5], [0.25, 0.25]]);
    b.process(0, &rec);
    assert_eq!(lr(rec[0]), [0.5, 0.5], "dry passes through untouched");

    sh.push(LooperOp::TapRecord { uid: UID, buffer: None }).unwrap();
    b.drain_ops(&sh);

    let s = b.slot(UID).expect("the looper exists");
    assert_eq!(s.state(), LooperState::Playing);
    assert_eq!(s.len_frames(), 2);
    assert_eq!(first_layer(&b, UID, 2), vec![0.5, 0.5, 0.25, 0.25]);
}

#[test]
fn two_loopers_record_the_same_dry_signal_not_each_other() {
    let sh = shared();
    let mut b = bank();
    for uid in [1u64, 2] {
        sh.push(LooperOp::Create { uid, seg: 0 }).unwrap();
        sh.push(LooperOp::TapRecord { uid, buffer: Some(layer()) }).unwrap();
    }
    b.drain_ops(&sh);

    b.process(0, &stereo(&[[1.0, 1.0]]));
    for uid in [1u64, 2] {
        sh.push(LooperOp::TapRecord { uid, buffer: None }).unwrap();
    }
    b.drain_ops(&sh);

    for uid in [1u64, 2] {
        assert_eq!(
            first_layer(&b, uid, 1),
            vec![1.0, 1.0],
            "each looper captured the dry 1.0 — neither recorded the other's playback"
        );
    }
}

#[test]
fn a_mono_chain_gets_the_loop_mixed_down_at_unity() {
    let sh = shared();
    let mut b = bank();
    sh.push(LooperOp::Create { uid: UID, seg: 0 }).unwrap();
    sh.push(LooperOp::TapRecord { uid: UID, buffer: Some(layer()) }).unwrap();
    b.drain_ops(&sh);

    let rec = vec![AudioFrame::Mono(0.5f32)];
    b.process(0, &rec);
    assert_eq!(lr(rec[0]), [0.5, 0.5]);

    sh.push(LooperOp::TapRecord { uid: UID, buffer: None }).unwrap();
    b.drain_ops(&sh);
    // A mono sample is recorded on both sides.
    assert_eq!(first_layer(&b, UID, 1), vec![0.5, 0.5]);
}

#[test]
fn a_looper_only_records_its_own_segment() {
    let sh = shared();
    let mut b = bank();
    sh.push(LooperOp::Create { uid: UID, seg: 1 }).unwrap();
    sh.push(LooperOp::TapRecord { uid: UID, buffer: Some(layer()) }).unwrap();
    b.drain_ops(&sh);
    assert!(b.has_segment(1));
    assert!(!b.has_segment(0));

    b.process(0, &stereo(&[[9.0, 9.0]]));
    b.process(1, &stereo(&[[0.5, 0.5]]));
    sh.push(LooperOp::TapRecord { uid: UID, buffer: None }).unwrap();
    b.drain_ops(&sh);
    assert_eq!(b.slot(UID).unwrap().len_frames(), 1);
    assert_eq!(first_layer(&b, UID, 1), vec![0.5, 0.5]);
}

#[test]
fn an_op_for_an_unclaimed_uid_hands_its_buffer_back() {
    let sh = shared();
    let mut b = bank();
    sh.push(LooperOp::TapRecord { uid: 999, buffer: Some(layer()) }).unwrap();

    b.drain_ops(&sh);
    b.publish(&sh);

    assert_eq!(sh.drain_retired().len(), 1);
    assert!(sh.status(999).is_none());
}

#[test]
fn remove_frees_the_slot_and_returns_its_layers() {
    let sh = shared();
    let mut b = bank();
    sh.push(LooperOp::Create { uid: UID, seg: 0 }).unwrap();
    sh.push(LooperOp::TapRecord { uid: UID, buffer: Some(layer()) }).unwrap();
    b.drain_ops(&sh);
    b.process(0, &stereo(&[[1.0, 1.0]]));

    sh.push(LooperOp::Remove { uid: UID }).unwrap();
    b.drain_ops(&sh);
    b.publish(&sh);

    assert!(sh.status(UID).is_none(), "the slot is free again");
    assert!(b.is_idle());
    assert_eq!(sh.drain_retired().len(), 1);
}

#[test]
fn statuses_lists_every_live_looper_in_slot_order() {
    let sh = shared();
    let mut b = bank();
    sh.push(LooperOp::Create { uid: 5, seg: 0 }).unwrap();
    sh.push(LooperOp::Create { uid: 9, seg: 0 }).unwrap();
    b.drain_ops(&sh);
    b.publish(&sh);

    let uids: Vec<u64> = sh.statuses().iter().map(|s| s.uid).collect();
    assert_eq!(uids, vec![5, 9]);
}

#[test]
fn params_reach_the_slot() {
    let sh = shared();
    let mut b = bank();
    sh.push(LooperOp::Create { uid: UID, seg: 0 }).unwrap();
    sh.push(LooperOp::TapRecord { uid: UID, buffer: Some(layer()) }).unwrap();
    b.drain_ops(&sh);
    b.process(0, &stereo(&[[1.0, 1.0]]));
    sh.push(LooperOp::TapRecord { uid: UID, buffer: None }).unwrap();
    sh.push(LooperOp::SetMix { uid: UID, value: 0.5 }).unwrap();
    b.drain_ops(&sh);

    assert_eq!(b.slot(UID).unwrap().mix(), 0.5);
}

#[test]
fn a_restored_layer_lands_stopped_and_plays_on_demand() {
    let sh = shared();
    let mut b = bank();
    sh.push(LooperOp::Create { uid: UID, seg: 0 }).unwrap();
    let mut buf = layer();
    buf[0] = 0.75;
    buf[1] = 0.75;
    sh.push(LooperOp::LoadLayer { uid: UID, buffer: buf, len_frames: 1 }).unwrap();
    b.drain_ops(&sh);
    b.publish(&sh);
    assert_eq!(sh.status(UID).unwrap().state, LooperState::Stopped);

    sh.push(LooperOp::Play { uid: UID }).unwrap();
    b.drain_ops(&sh);
    b.publish(&sh);
    assert_eq!(sh.status(UID).unwrap().state, LooperState::Playing);
    assert_eq!(first_layer(&b, UID, 1), vec![0.75, 0.75]);
}

#[test]
fn recreating_a_looper_keeps_its_material_and_moves_its_segment() {
    let sh = shared();
    let mut b = bank();
    sh.push(LooperOp::Create { uid: UID, seg: 0 }).unwrap();
    sh.push(LooperOp::TapRecord { uid: UID, buffer: Some(layer()) }).unwrap();
    b.drain_ops(&sh);
    b.process(0, &stereo(&[[0.5, 0.5]]));
    sh.push(LooperOp::TapRecord { uid: UID, buffer: None }).unwrap();
    sh.push(LooperOp::Create { uid: UID, seg: 2 }).unwrap();
    b.drain_ops(&sh);
    assert!(b.has_segment(2));
    assert_eq!(b.slot(UID).unwrap().len_frames(), 1);
}

#[test]
fn state_codes_round_trip() {
    for st in [
        LooperState::Empty,
        LooperState::Recording,
        LooperState::Playing,
        LooperState::Overdubbing,
        LooperState::Stopped,
    ] {
        assert_eq!(state_from_code(state_code(st)), st);
    }
    assert_eq!(state_from_code(200), LooperState::Empty);
}
