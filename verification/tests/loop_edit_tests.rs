use engine::loop_edit::{
    content_run_bounds, join_source, peak_bucket, plan_edit, seam_len, seam_source, EditRegion,
    FrameSource, LoopEditError, LoopEditOp, CONTENT_MARGIN_FRAMES, CONTENT_RUN_FRAMES,
    MIN_LOOP_FRAMES, SEAM_FRAMES,
};

/// The interleaved sample count of a ramp of `frames` frames.
fn ramp(frames: usize) -> usize {
    frames * 2
}

#[test]
fn trim_keeps_only_the_selected_frames() {
    let region = plan_edit(ramp(1024), LoopEditOp::Keep, 64, 704, None).unwrap();
    assert_eq!(region, EditRegion::Keep { start: 64, end: 704 });
    // The overlap is folded in, not kept.
    assert_eq!(seam_len(640, SEAM_FRAMES), 640 - SEAM_FRAMES, "the overlap is folded in, not kept");
    // Past the seam the body is the source, frame for frame.
    assert_eq!(seam_source(640, SEAM_FRAMES, SEAM_FRAMES), FrameSource::Copy(SEAM_FRAMES));
}

#[test]
fn crop_is_the_same_transform_as_trim() {
    let trimmed = plan_edit(ramp(1024), LoopEditOp::Keep, 64, 704, None);
    let cropped = plan_edit(ramp(1024), LoopEditOp::Keep, 64, 704, None);
    assert_eq!(trimmed, cropped, "crop and trim differ in intent, not in audio");
}

#[test]
fn cut_removes_the_region_and_joins_the_halves() {
    let region = plan_edit(ramp(400), LoopEditOp::Cut, 100, 200, None).unwrap();
    assert_eq!(region, EditRegion::Cut { start: 100, end: 200 });
    // Two seams: the join between the halves, and the loop's own wrap.
    let joined = 100 + 200 - SEAM_FRAMES;
    assert_eq!(seam_len(joined, SEAM_FRAMES), 300 - SEAM_FRAMES * 2, "the removed region is gone");
    // The join never reads the cut region.
    for k in 0..joined {
        match join_source(100, 200, 200, SEAM_FRAMES, k) {
            FrameSource::Copy(f) => assert!(f < 100 || f >= 200),
            FrameSource::Blend { fade_in, fade_out, .. } => {
                assert!(fade_in >= 200 && fade_out < 100, "the cut region is gone, not merely faded")
            }
        }
    }
    // Past the join's overlap the second half resumes at `end + SEAM_FRAMES`.
    assert_eq!(join_source(100, 200, 200, SEAM_FRAMES, 110), FrameSource::Copy(200 + SEAM_FRAMES + 10));
}

#[test]
fn the_seam_is_a_blend_not_a_step() {
    let joined = 100 + 200 - SEAM_FRAMES;
    // Frame 100 of the result sits in the join's overlap: a blend.
    assert!(matches!(
        join_source(100, 200, 200, SEAM_FRAMES, 100 - SEAM_FRAMES / 2),
        FrameSource::Blend { .. }
    ), "the join is blended");
    // The wrap seam blends the head with the frames that follow the end.
    assert_eq!(
        seam_source(joined, SEAM_FRAMES, 0),
        FrameSource::Blend { fade_in: 0, fade_out: joined - SEAM_FRAMES, step: 0 }
    );
}

#[test]
fn an_out_of_range_or_empty_region_is_an_error_not_a_panic() {
    let pcm = ramp(256);
    assert_eq!(plan_edit(pcm, LoopEditOp::Keep, 0, 999, None), Err(LoopEditError::OutOfRange));
    assert_eq!(plan_edit(pcm, LoopEditOp::Keep, 100, 100, None), Err(LoopEditError::EmptyRegion));
    assert_eq!(plan_edit(pcm, LoopEditOp::Keep, 200, 100, None), Err(LoopEditError::EmptyRegion));
}

#[test]
fn an_edit_that_would_leave_almost_nothing_is_refused() {
    let pcm = ramp(256);
    assert_eq!(plan_edit(pcm, LoopEditOp::Keep, 0, 8, None), Err(LoopEditError::ResultTooShort));
    assert_eq!(plan_edit(pcm, LoopEditOp::Cut, 8, 250, None), Err(LoopEditError::ResultTooShort));
}

#[test]
fn fit_keeps_where_the_playing_is_and_silence_is_an_empty_region() {
    let pcm = ramp(1024);
    assert_eq!(
        plan_edit(pcm, LoopEditOp::Fit, 0, 0, Some((100, 600))),
        Ok(EditRegion::Keep { start: 100, end: 600 })
    );
    assert_eq!(plan_edit(pcm, LoopEditOp::Fit, 0, 1024, None), Err(LoopEditError::EmptyRegion));
}

#[test]
fn a_short_burst_is_not_playing() {
    let mut loud = vec![false; 400];
    for l in loud.iter_mut().skip(10).take(CONTENT_RUN_FRAMES - 1) {
        *l = true;
    }
    assert_eq!(content_run_bounds(&loud), None);
}

#[test]
fn content_bounds_keep_a_margin_round_the_playing() {
    let mut loud = vec![false; 400];
    for l in loud.iter_mut().skip(100).take(200) {
        *l = true;
    }
    assert_eq!(
        content_run_bounds(&loud),
        Some((100 - CONTENT_MARGIN_FRAMES, 300 + CONTENT_MARGIN_FRAMES))
    );
}

#[test]
fn peaks_buckets_split_the_loop_evenly() {
    assert_eq!(peak_bucket(256, 4, 0), (0, 64));
    assert_eq!(peak_bucket(256, 4, 3), (192, 256));
    // Fewer frames than buckets: every bucket still reads one frame.
    assert_eq!(peak_bucket(3, 8, 7), (2, 3));
}

#[test]
fn edit_errors_say_what_went_wrong() {
    assert_eq!(LoopEditError::OutOfRange.message(), "the edit region is outside the loop");
    assert_eq!(LoopEditError::EmptyRegion.message(), "the edit region is empty");
    assert!(MIN_LOOP_FRAMES >= 2 * SEAM_FRAMES);
}
