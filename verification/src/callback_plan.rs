//! What one input callback of a chain runtime does: which segments run,
//! what each reads, and where the virtual DI loop's cursor moves.
//!
//! A published DI loop replaces all live input of the chain and plays once:
//! only the segment marked as its player reads the loop, every other
//! segment reads silence, and only the callback that runs segment 0 moves
//! the cursor on.
use vstd::prelude::*;

verus! {

/// What a segment reads this callback.
#[derive(Clone, Copy, Debug, PartialEq, Eq, Structural)]
pub enum SegmentFeed {
    /// The device frames.
    Live,
    /// The DI loop, from frame `start`.
    Loop { start: usize },
    /// Nothing: the loop plays elsewhere.
    Silence,
}

/// A published DI loop: its length in frames and the cursor where this
/// callback starts reading.
#[derive(Clone, Copy, Debug, PartialEq, Eq, Structural)]
pub struct DiLoopCursor {
    pub len: usize,
    pub start: usize,
}

/// The plan of one callback.
pub struct CallbackPlan {
    /// The segments to run, in order, each with what it reads.
    pub segments: Vec<(usize, SegmentFeed)>,
    /// Where the DI cursor moves after the callback, when it moves.
    pub advance_di_to: Option<usize>,
}

/// How many whole frames an interleaved buffer holds.
pub fn callback_frames(data_len: usize, channels: usize) -> (r: usize)
    requires
        channels > 0,
    ensures
        r == data_len / channels,
{
    data_len / channels
}

/// The segments the callback of input `input_index` runs: those the
/// runtime maps to it, or, for an input with no mapping, the segment of
/// the same number when there is one.
pub open spec fn segments_for_spec(mapping: Seq<Vec<usize>>, n_states: int, input_index: int) -> Seq<usize> {
    if input_index < mapping.len() {
        mapping[input_index]@
    } else if input_index < n_states {
        seq![input_index as usize]
    } else {
        Seq::empty()
    }
}

/// What segment `seg` reads given the published loop, if any.
pub open spec fn feed_spec(di: Option<DiLoopCursor>, plays_di: bool) -> SegmentFeed {
    match di {
        Some(d) => if plays_di {
            SegmentFeed::Loop { start: d.start }
        } else {
            SegmentFeed::Silence
        },
        None => SegmentFeed::Live,
    }
}

/// Whether segment `seg` is the one that plays the loop.
pub open spec fn plays_spec(plays_di: Seq<bool>, seg: int) -> bool {
    0 <= seg < plays_di.len() && plays_di[seg]
}

/// The cursor after `frames` frames of a loop of `len` frames, wrapping.
pub open spec fn next_di_spec(start: int, frames: int, len: int) -> int {
    let sum = if start + frames > usize::MAX {
        start + frames - (usize::MAX + 1)
    } else {
        start + frames
    };
    let l = if len > 0 { len } else { 1 };
    sum % l
}

/// Where the DI cursor lands after `frames` frames, for a loop of `len`
/// frames (an empty loop counts as one frame long).
pub fn next_di_position(start: usize, frames: usize, len: usize) -> (r: usize)
    ensures
        r as int == next_di_spec(start as int, frames as int, len as int),
{
    let l = if len > 0 { len } else { 1 };
    let sum = start.wrapping_add(frames);
    sum % l
}

/// Plan the callback of input `input_index` over `frames` frames. A
/// draining runtime (being torn down or rebuilt) runs nothing.
/// `mapping` lists each input's segments, `plays_di` marks the segment
/// that plays the DI loop, `n_states` is how many segments the runtime has.
pub fn plan_callback(
    draining: bool,
    mapping: &Vec<Vec<usize>>,
    n_states: usize,
    plays_di: &Vec<bool>,
    input_index: usize,
    frames: usize,
    di: Option<DiLoopCursor>,
) -> (r: CallbackPlan)
    ensures
        draining ==> r.segments@.len() == 0 && r.advance_di_to is None,
        !draining ==> ({
            &&& r.segments@.len() == segments_for_spec(mapping@, n_states as int, input_index as int).len()
            &&& forall|i: int|
                0 <= i < r.segments@.len() ==> r.segments@[i].0 == segments_for_spec(
                    mapping@,
                    n_states as int,
                    input_index as int,
                )[i] && r.segments@[i].1 == feed_spec(di, plays_spec(plays_di@, r.segments@[i].0 as int))
            &&& r.advance_di_to == (match di {
                Some(d) => if segments_for_spec(mapping@, n_states as int, input_index as int).contains(0) {
                    Some(next_di_spec(d.start as int, frames as int, d.len as int) as usize)
                } else {
                    None
                },
                None => None,
            })
        }),
{
    if draining {
        return CallbackPlan { segments: Vec::new(), advance_di_to: None };
    }
    let ghost want = segments_for_spec(mapping@, n_states as int, input_index as int);
    let mut ids: Vec<usize> = Vec::new();
    if input_index < mapping.len() {
        let m = &mapping[input_index];
        let mut k: usize = 0;
        while k < m.len()
            invariant
                k <= m@.len(),
                ids@ =~= m@.take(k as int),
            decreases m@.len() - k,
        {
            ids.push(m[k]);
            k = k + 1;
        }
        assert(m@.take(m@.len() as int) =~= m@);
    } else if input_index < n_states {
        ids.push(input_index);
        assert(ids@ =~= seq![input_index]);
    }
    assert(ids@ == want);
    let mut segments: Vec<(usize, SegmentFeed)> = Vec::new();
    let mut has_zero = false;
    let mut i: usize = 0;
    while i < ids.len()
        invariant
            i <= ids@.len(),
            ids@ == want,
            segments@.len() == i,
            has_zero == exists|k: int| 0 <= k < i && ids@[k] == 0,
            forall|k: int|
                0 <= k < i ==> segments@[k].0 == ids@[k] && segments@[k].1 == feed_spec(
                    di,
                    plays_spec(plays_di@, ids@[k] as int),
                ),
        decreases ids@.len() - i,
    {
        let seg = ids[i];
        let plays = seg < plays_di.len() && plays_di[seg];
        let feed = match di {
            Some(d) => if plays {
                SegmentFeed::Loop { start: d.start }
            } else {
                SegmentFeed::Silence
            },
            None => SegmentFeed::Live,
        };
        segments.push((seg, feed));
        if seg == 0 {
            has_zero = true;
        }
        i = i + 1;
    }
    assert(has_zero == want.contains(0)) by {
        if has_zero {
            let k = choose|k: int| 0 <= k < ids@.len() && ids@[k] == 0;
            assert(want[k] == 0);
        }
    }
    let advance_di_to = match di {
        Some(d) => if has_zero {
            Some(next_di_position(d.start, frames, d.len))
        } else {
            None
        },
        None => None,
    };
    CallbackPlan { segments, advance_di_to }
}

} // verus!
