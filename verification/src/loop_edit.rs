//! Reshaping a recorded loop: trim / crop / cut / fit.
//!
//! Pure decisions over an interleaved-stereo loop measured in frames: which
//! region an edit keeps, when an edit is refused, and for every frame of the
//! result which source frames it is made of. Every result is seam-blended so
//! playback wraps (and a cut joins) without a step: the last [`SEAM_FRAMES`]
//! are folded into the head, so the result is `SEAM_FRAMES` shorter than the
//! naive selection. The blend arithmetic itself is left to the caller, which
//! reads the source samples these maps point at.
use vstd::prelude::*;

verus! {

/// Frames blended at a seam.
pub const SEAM_FRAMES: usize = 64;

/// Shortest loop an edit may leave behind: two seams' worth.
pub const MIN_LOOP_FRAMES: usize = 128;

/// How long the signal must stay loud before it counts as playing (and
/// stay loud, read backwards, before it counts as over).
pub const CONTENT_RUN_FRAMES: usize = 48;

/// A little air kept on each side of the music, so `Fit` never eats the
/// very start of an attack or the tail of a ring-out.
pub const CONTENT_MARGIN_FRAMES: usize = 16;

/// What a reshaping does to the region it is handed.
#[derive(Debug, Clone, Copy, PartialEq, Eq, Structural)]
pub enum LoopEditOp {
    /// Keep the region: the loop bounds move inward (trim and crop).
    Keep,
    /// Drop the region and join the two halves.
    Cut,
    /// Keep where the playing actually starts and ends; the region argument
    /// is ignored.
    Fit,
}

#[derive(Debug, Clone, Copy, PartialEq, Eq, Structural)]
pub enum LoopEditError {
    /// A bound lies outside the loop.
    OutOfRange,
    /// `start >= end`.
    EmptyRegion,
    /// The result would be shorter than [`MIN_LOOP_FRAMES`].
    ResultTooShort,
}

impl LoopEditError {
    /// What the error tells the user.
    pub fn message(&self) -> (r: &'static str)
        ensures
            *self == LoopEditError::OutOfRange ==> r@ == "the edit region is outside the loop"@,
            *self == LoopEditError::EmptyRegion ==> r@ == "the edit region is empty"@,
            *self == LoopEditError::ResultTooShort ==> r@ == "the edit would leave too little audio"@,
    {
        match self {
            LoopEditError::OutOfRange => "the edit region is outside the loop",
            LoopEditError::EmptyRegion => "the edit region is empty",
            LoopEditError::ResultTooShort => "the edit would leave too little audio",
        }
    }
}

/// A run of [`CONTENT_RUN_FRAMES`] loud frames starts at `f`.
pub open spec fn loud_run(loud: Seq<bool>, f: int) -> bool {
    &&& 0 <= f
    &&& f + CONTENT_RUN_FRAMES <= loud.len()
    &&& forall|k: int| f <= k < f + CONTENT_RUN_FRAMES ==> #[trigger] loud[k]
}

/// Where the playing starts and ends in a take whose frames are `loud` or
/// not: from the first loud run to the end of the last one, widened by the
/// margin and kept inside the take. `None` when no run is loud enough.
pub open spec fn content_bounds_spec(loud: Seq<bool>, start: int, last: int) -> (int, int) {
    (
        if start >= CONTENT_MARGIN_FRAMES { start - CONTENT_MARGIN_FRAMES } else { 0 },
        if last + CONTENT_RUN_FRAMES + CONTENT_MARGIN_FRAMES <= loud.len() {
            last + CONTENT_RUN_FRAMES + CONTENT_MARGIN_FRAMES
        } else {
            loud.len() as int
        },
    )
}

/// `start` is the first loud run, `last` the last one, and `b` the bounds
/// they give.
pub open spec fn content_bounds_witness(loud: Seq<bool>, start: int, last: int, b: (usize, usize)) -> bool {
    &&& loud_run(loud, start)
    &&& loud_run(loud, last)
    &&& (forall|f: int| f < start ==> !loud_run(loud, f))
    &&& (forall|f: int| f > last ==> !loud_run(loud, f))
    &&& b.0 == content_bounds_spec(loud, start, last).0
    &&& b.1 == content_bounds_spec(loud, start, last).1
}

/// Where the playing actually starts and ends, in frames, given which
/// frames are loud. A run-length rule, not a single-sample one: a lone tick
/// of noise is not the take starting, and a single quiet frame is not it
/// ending. `None` when the take is silence all the way through.
pub fn content_run_bounds(loud: &[bool]) -> (r: Option<(usize, usize)>)
    ensures
        r is None <==> (forall|f: int| !loud_run(loud@, f)),
        r is Some ==> exists|a: int, c: int| #[trigger]
            content_bounds_witness(loud@, a, c, r.unwrap()),
{
    let frames = loud.len();
    // Forwards: the first run of loud frames long enough to be playing.
    let mut run: usize = 0;
    let mut found_start = false;
    let mut start: usize = 0;
    let mut f: usize = 0;
    while f < frames && !found_start
        invariant
            frames == loud@.len(),
            f <= frames,
            !found_start ==> {
                &&& run <= f
                &&& run < CONTENT_RUN_FRAMES
                &&& forall|k: int| f - run <= k < f ==> #[trigger] loud@[k]
                &&& f >= run + 1 ==> !loud@[f - run - 1]
                &&& forall|h: int| h + CONTENT_RUN_FRAMES <= f ==> !loud_run(loud@, h)
            },
            found_start ==> loud_run(loud@, start as int) && forall|h: int|
                h < start ==> !loud_run(loud@, h),
        decreases frames - f,
    {
        if loud[f] {
            run = run + 1;
            if run >= CONTENT_RUN_FRAMES {
                start = f + 1 - run;
                found_start = true;
                proof {
                    assert forall|h: int| h < start implies !loud_run(loud@, h) by {
                        if loud_run(loud@, h) && h + CONTENT_RUN_FRAMES > f {
                            assert(loud@[f - run as int]);
                        }
                    }
                }
            }
        } else {
            proof {
                assert forall|h: int| h + CONTENT_RUN_FRAMES <= f + 1 implies !loud_run(loud@, h) by {
                    if h + CONTENT_RUN_FRAMES == f + 1 && loud_run(loud@, h) {
                        assert(loud@[f as int]);
                    }
                }
            }
            run = 0;
        }
        f = f + 1;
    }
    if !found_start {
        proof {
            assert forall|h: int| !loud_run(loud@, h) by {
                if loud_run(loud@, h) {
                    assert(h + CONTENT_RUN_FRAMES <= frames);
                }
            }
        }
        return None;
    }
    // Backwards: the last such run, read from the end of the take.
    let mut run: usize = 0;
    let mut last: usize = start;
    let mut g: usize = frames;
    let mut found_last = false;
    while g > start && !found_last
        invariant
            frames == loud@.len(),
            start <= g <= frames,
            loud_run(loud@, start as int),
            !found_last ==> {
                &&& run < CONTENT_RUN_FRAMES
                &&& g + run <= frames
                &&& forall|k: int| g <= k < g + run ==> #[trigger] loud@[k]
                &&& g + run < frames ==> !loud@[g + run]
                &&& forall|h: int| h >= g ==> !loud_run(loud@, h)
            },
            found_last ==> loud_run(loud@, last as int) && forall|h: int|
                h > last ==> !loud_run(loud@, h),
        decreases g - start,
    {
        g = g - 1;
        if loud[g] {
            run = run + 1;
            if run >= CONTENT_RUN_FRAMES {
                last = g;
                found_last = true;
                proof {
                    assert(loud_run(loud@, g as int));
                }
            } else {
                proof {
                    assert forall|h: int| h >= g implies !loud_run(loud@, h) by {
                        if h == g && loud_run(loud@, h) {
                            if g + run < frames {
                                assert(loud@[g + run]);
                            }
                        }
                    }
                }
            }
        } else {
            run = 0;
        }
    }
    proof {
        if !found_last {
            assert(!loud_run(loud@, start as int));
        }
    }
    let from = start.saturating_sub(CONTENT_MARGIN_FRAMES);
    let end = last + CONTENT_RUN_FRAMES;
    let to = if frames - end >= CONTENT_MARGIN_FRAMES {
        end + CONTENT_MARGIN_FRAMES
    } else {
        frames
    };
    proof {
        assert(content_bounds_witness(loud@, start as int, last as int, (from, to)));
    }
    let r = Some((from, to));
    proof {
        assert(content_bounds_witness(loud@, start as int, last as int, r.unwrap()));
    }
    r
}

/// The region an accepted edit works on, in frames of the source loop.
#[derive(Debug, Clone, Copy, PartialEq, Eq, Structural)]
pub enum EditRegion {
    /// Keep frames `start..end`.
    Keep { start: usize, end: usize },
    /// Drop frames `start..end` and join what is left.
    Cut { start: usize, end: usize },
}

/// Where one frame of a blended buffer comes from.
#[derive(Debug, Clone, Copy, PartialEq, Eq, Structural)]
pub enum FrameSource {
    /// A copy of this source frame.
    Copy(usize),
    /// An equal-gain overlap of two source frames: `fade_in` rises and
    /// `fade_out` falls, at crossfade position `step` of the seam.
    Blend { fade_in: usize, fade_out: usize, step: usize },
}

/// Which region an edit of a loop of `len` frames works on, or why it is
/// refused. `fit` is where the playing starts and ends (`None`: silence
/// throughout), used by `Fit` in place of the region it is handed.
pub open spec fn plan_edit_spec(
    len: int,
    op: LoopEditOp,
    start: int,
    end: int,
    fit: Option<(usize, usize)>,
) -> Result<EditRegion, LoopEditError> {
    if op == LoopEditOp::Fit && fit is None {
        Err(LoopEditError::EmptyRegion)
    } else {
        let s = if op == LoopEditOp::Fit { fit.unwrap().0 as int } else { start };
        let e = if op == LoopEditOp::Fit { fit.unwrap().1 as int } else { end };
        if s >= e {
            Err(LoopEditError::EmptyRegion)
        } else if e > len {
            Err(LoopEditError::OutOfRange)
        } else if op == LoopEditOp::Cut {
            if s <= SEAM_FRAMES || len - e <= SEAM_FRAMES || s + (len - e) < MIN_LOOP_FRAMES + 2
                * SEAM_FRAMES {
                Err(LoopEditError::ResultTooShort)
            } else {
                Ok(EditRegion::Cut { start: s as usize, end: e as usize })
            }
        } else if e - s < MIN_LOOP_FRAMES + SEAM_FRAMES {
            Err(LoopEditError::ResultTooShort)
        } else {
            Ok(EditRegion::Keep { start: s as usize, end: e as usize })
        }
    }
}

/// Decide an edit of an interleaved-stereo loop of `samples` samples
/// (`samples / 2` frames). `Trim` and `Crop` both resolve to `Keep`; `Fit`
/// keeps `fit`, the bounds of the playing, and is an empty region when the
/// take is silence.
pub fn plan_edit(
    samples: usize,
    op: LoopEditOp,
    start: usize,
    end: usize,
    fit: Option<(usize, usize)>,
) -> (r: Result<EditRegion, LoopEditError>)
    ensures
        r == plan_edit_spec((samples / 2) as int, op, start as int, end as int, fit),
        op != LoopEditOp::Fit ==> (r == Err::<EditRegion, LoopEditError>(LoopEditError::OutOfRange)
            <==> start < end && end > samples / 2),
{
    let len = samples / 2;
    let (s, e) = if op == LoopEditOp::Fit {
        match fit {
            Some(b) => b,
            None => return Err(LoopEditError::EmptyRegion),
        }
    } else {
        (start, end)
    };
    if s >= e {
        return Err(LoopEditError::EmptyRegion);
    }
    if e > len {
        return Err(LoopEditError::OutOfRange);
    }
    if op == LoopEditOp::Cut {
        if s <= SEAM_FRAMES || len - e <= SEAM_FRAMES || s + (len - e) < MIN_LOOP_FRAMES + 2
            * SEAM_FRAMES {
            return Err(LoopEditError::ResultTooShort);
        }
        Ok(EditRegion::Cut { start: s, end: e })
    } else {
        if e - s < MIN_LOOP_FRAMES + SEAM_FRAMES {
            return Err(LoopEditError::ResultTooShort);
        }
        Ok(EditRegion::Keep { start: s, end: e })
    }
}

/// Frames left after the last `xfade` frames of an `n`-frame buffer are
/// folded into its head (a buffer too short to spare them stays as it is).
pub open spec fn seam_len_spec(n: int, xfade: int) -> int {
    if xfade == 0 || n < 2 * xfade + 1 { n } else { n - xfade }
}

pub open spec fn seam_source_spec(n: int, xfade: int, k: int) -> FrameSource {
    if xfade == 0 || n < 2 * xfade + 1 || k >= xfade {
        FrameSource::Copy(k as usize)
    } else {
        FrameSource::Blend { fade_in: k as usize, fade_out: (n - xfade + k) as usize, step: k as usize }
    }
}

/// How long an `n`-frame buffer is once seam-blended.
pub fn seam_len(n: usize, xfade: usize) -> (r: usize)
    ensures
        r == seam_len_spec(n as int, xfade as int),
{
    if xfade == 0 || n < xfade || n - xfade <= xfade {
        n
    } else {
        n - xfade
    }
}

/// Frame `k` of the seam-blended buffer: the last `xfade` frames overlap
/// the first `xfade`, so the new first frame is about the source frame that
/// followed the new last frame and the loop wraps continuously; every other
/// frame is copied.
pub fn seam_source(n: usize, xfade: usize, k: usize) -> (r: FrameSource)
    requires
        k < seam_len_spec(n as int, xfade as int),
    ensures
        r == seam_source_spec(n as int, xfade as int, k as int),
{
    if xfade == 0 || n < xfade || n - xfade <= xfade || k >= xfade {
        FrameSource::Copy(k)
    } else {
        FrameSource::Blend { fade_in: k, fade_out: n - xfade + k, step: k }
    }
}

/// Frames left when a head of `head` frames and a tail of `tail` frames
/// are joined with an overlap of `xfade` frames.
pub open spec fn join_len_spec(head: int, tail: int, xfade: int) -> int {
    head + tail - xfade
}

/// How many frames joining `head` frames to `tail` frames over an
/// `xfade`-frame crossfade leaves.
pub fn join_len(head: usize, tail: usize, xfade: usize) -> (r: usize)
    requires
        xfade <= head,
        head + tail - xfade <= usize::MAX,
    ensures
        r == join_len_spec(head as int, tail as int, xfade as int),
{
    (head - xfade) + tail
}

/// Frame `k` of the join of source frames `0..head` with source frames
/// `tail_start..tail_start + tail`: the head's last `xfade` frames fade out
/// while the tail's first `xfade` frames fade in, so a cut never steps.
pub open spec fn join_source_spec(head: int, tail_start: int, xfade: int, k: int) -> FrameSource {
    if k < head - xfade {
        FrameSource::Copy(k as usize)
    } else if k < head {
        FrameSource::Blend {
            fade_in: (tail_start + (k - (head - xfade))) as usize,
            fade_out: k as usize,
            step: (k - (head - xfade)) as usize,
        }
    } else {
        FrameSource::Copy((tail_start + xfade + (k - head)) as usize)
    }
}

pub fn join_source(head: usize, tail_start: usize, tail: usize, xfade: usize, k: usize) -> (r:
    FrameSource)
    requires
        xfade <= head,
        xfade <= tail,
        tail_start + tail <= usize::MAX,
        k < join_len_spec(head as int, tail as int, xfade as int),
    ensures
        r == join_source_spec(head as int, tail_start as int, xfade as int, k as int),
{
    let keep = head - xfade;
    if k < keep {
        FrameSource::Copy(k)
    } else if k < head {
        FrameSource::Blend { fade_in: tail_start + (k - keep), fade_out: k, step: k - keep }
    } else {
        FrameSource::Copy(tail_start + xfade + (k - head))
    }
}

/// The frames of bucket `b` of a peak envelope of `buckets` buckets over
/// `frames` frames: an even split, never empty, never past the end.
pub open spec fn peak_bucket_spec(frames: int, buckets: int, b: int) -> (int, int) {
    let from0 = b * frames / buckets;
    let from = if from0 <= frames - 1 { from0 } else { frames - 1 };
    let to0 = (b + 1) * frames / buckets;
    let to1 = if to0 >= from + 1 { to0 } else { from + 1 };
    (from, if to1 <= frames { to1 } else { frames })
}

pub fn peak_bucket(frames: usize, buckets: usize, b: usize) -> (r: (usize, usize))
    requires
        frames > 0,
        b < buckets,
        buckets * frames <= usize::MAX,
    ensures
        r.0 == peak_bucket_spec(frames as int, buckets as int, b as int).0,
        r.1 == peak_bucket_spec(frames as int, buckets as int, b as int).1,
        r.0 < r.1 <= frames,
{
    proof {
        vstd::arithmetic::mul::lemma_mul_inequality((b + 1) as int, buckets as int, frames as int);
        vstd::arithmetic::mul::lemma_mul_inequality(b as int, (b + 1) as int, frames as int);
    }
    let from0 = b * frames / buckets;
    let from = if from0 <= frames - 1 { from0 } else { frames - 1 };
    let to0 = (b + 1) * frames / buckets;
    let to1 = if to0 >= from + 1 { to0 } else { from + 1 };
    (from, if to1 <= frames { to1 } else { frames })
}

/// The frames an accepted edit's result is made of: a keep over its region,
/// or a cut's join of the two halves, seam-blended.
pub open spec fn edit_result_len(len: int, region: EditRegion) -> int {
    match region {
        EditRegion::Keep { start, end } => seam_len_spec(end - start, SEAM_FRAMES as int),
        EditRegion::Cut { start, end } => seam_len_spec(
            join_len_spec(start as int, len - end, SEAM_FRAMES as int),
            SEAM_FRAMES as int,
        ),
    }
}

/// Every accepted edit leaves a loop of at least [`MIN_LOOP_FRAMES`], folds
/// exactly one seam into a keep and two into a cut.
/// A region is refused as out of range exactly when it is a real region
/// (`start < end`) whose end lies past the loop; one that ends at the loop's
/// last frame or before never is. A keep of a region inside the loop long
/// enough for a loop and its seam is accepted as that very region, and a
/// cut of a region with more than a seam on each side and enough left over
/// is accepted as that region.
pub proof fn law_region_in_range(len: int, op: LoopEditOp, start: usize, end: usize)
    requires
        op != LoopEditOp::Fit,
    ensures
        plan_edit_spec(len, op, start as int, end as int, None) == Err::<EditRegion, LoopEditError>(
            LoopEditError::OutOfRange,
        ) <==> start < end && end > len,
        start < end <= len ==> plan_edit_spec(len, op, start as int, end as int, None)
            != Err::<EditRegion, LoopEditError>(LoopEditError::OutOfRange),
        op == LoopEditOp::Keep && start < end <= len && end - start >= MIN_LOOP_FRAMES + SEAM_FRAMES
            ==> plan_edit_spec(len, op, start as int, end as int, None) == Ok::<EditRegion, LoopEditError>(
            EditRegion::Keep { start, end },
        ),
        op == LoopEditOp::Cut && start < end <= len && start > SEAM_FRAMES && len - end > SEAM_FRAMES
            && start + (len - end) >= MIN_LOOP_FRAMES + 2 * SEAM_FRAMES ==> plan_edit_spec(
            len,
            op,
            start as int,
            end as int,
            None,
        ) == Ok::<EditRegion, LoopEditError>(EditRegion::Cut { start, end }),
{
}

/// `Fit` works on the bounds of the playing: they are refused as out of
/// range exactly when they form a region ending past the loop.
pub proof fn law_fit_in_range(len: int, start: usize, end: usize, s: usize, e: usize)
    ensures
        plan_edit_spec(len, LoopEditOp::Fit, start as int, end as int, Some((s, e)))
            == Err::<EditRegion, LoopEditError>(LoopEditError::OutOfRange) <==> s < e && e > len,
        s < e <= len && e - s >= MIN_LOOP_FRAMES + SEAM_FRAMES ==> plan_edit_spec(
            len,
            LoopEditOp::Fit,
            start as int,
            end as int,
            Some((s, e)),
        ) == Ok::<EditRegion, LoopEditError>(EditRegion::Keep { start: s, end: e }),
{
}

pub proof fn law_accepted_edit_lengths(
    len: int,
    op: LoopEditOp,
    start: int,
    end: int,
    fit: Option<(usize, usize)>,
)
    requires
        0 <= start,
        0 <= end,
        0 <= len <= usize::MAX,
        plan_edit_spec(len, op, start, end, fit) is Ok,
    ensures
        ({
            let region = plan_edit_spec(len, op, start, end, fit).unwrap();
            &&& edit_result_len(len, region) >= MIN_LOOP_FRAMES
            &&& match region {
                EditRegion::Keep { start: s, end: e } => edit_result_len(len, region) == e - s
                    - SEAM_FRAMES,
                EditRegion::Cut { start: s, end: e } => edit_result_len(len, region) == len - (e
                    - s) - 2 * SEAM_FRAMES,
            }
        }),
{
}

/// A cut removes its region for good: no frame of the join, copied or
/// blended, reads a source frame inside the cut.
pub proof fn law_cut_never_reads_the_region(len: int, start: int, end: int, k: int)
    requires
        SEAM_FRAMES < start < end <= len <= usize::MAX,
        len - end > SEAM_FRAMES,
        0 <= k < join_len_spec(start, len - end, SEAM_FRAMES as int),
    ensures
        match join_source_spec(start, end, SEAM_FRAMES as int, k) {
            FrameSource::Copy(f) => f < start || (end <= f < len),
            FrameSource::Blend { fade_in, fade_out, .. } => fade_out < start && end <= fade_in < len,
        },
{
}

/// Past the seam, a blended buffer is its source frame for frame.
pub proof fn law_body_is_the_source(n: int, xfade: int, k: int)
    requires
        xfade <= k < seam_len_spec(n, xfade),
    ensures
        seam_source_spec(n, xfade, k) == FrameSource::Copy(k as usize),
{
}

} // verus!
