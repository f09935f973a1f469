//! The audio primitives every block and route works on: one frame of a
//! mono or stereo bus, and reading such a frame out of an interleaved
//! device buffer.
//!
//! Generic over the sample type `S`: reading a channel is indexing with a
//! silent fallback, never arithmetic.
use vstd::prelude::*;
use vstd::std_specs::ops::AddSpec;

verus! {

/// Channel layout of a processing bus.
#[derive(Clone, Copy, Debug, PartialEq, Eq, Structural)]
pub enum AudioChannelLayout {
    Mono,
    Stereo,
}

/// One frame of a bus.
#[derive(Clone, Copy, Debug)]
pub enum AudioFrame<S> {
    Mono(S),
    Stereo([S; 2]),
}

/// Whether `v` is what reading interleaved position `index` of `data`
/// gives: the sample there, or silence (`S::default()`) past the end.
pub open spec fn reads_channel<S: Default>(data: Seq<S>, index: int, v: S) -> bool {
    if 0 <= index < data.len() {
        v == data[index]
    } else {
        call_ensures(S::default, (), v)
    }
}

/// Sample `index` of an interleaved frame; a channel the device does not
/// have reads as silence (`S::default()`).
pub fn read_channel<S: Copy + Default>(data: &[S], index: usize) -> (r: S)
    ensures
        reads_channel(data@, index as int, r),
{
    if index < data.len() {
        data[index]
    } else {
        S::default()
    }
}

/// Read one frame of `layout` from an interleaved device frame: a mono bus
/// reads its first channel, a stereo bus its first two (a single listed
/// channel feeds both sides). A channel that is not there reads as silence.
pub fn read_input_frame<S: Copy + Default>(
    layout: AudioChannelLayout,
    channels: &[usize],
    data: &[S],
) -> (r: AudioFrame<S>)
    ensures
        layout == AudioChannelLayout::Mono ==> r is Mono,
        layout == AudioChannelLayout::Stereo ==> r is Stereo,
        r matches AudioFrame::Mono(s) ==> if channels@.len() > 0 {
            reads_channel(data@, channels@[0] as int, s)
        } else {
            call_ensures(S::default, (), s)
        },
        r matches AudioFrame::Stereo(lr) ==> {
            &&& if channels@.len() > 0 {
                reads_channel(data@, channels@[0] as int, lr[0])
            } else {
                call_ensures(S::default, (), lr[0])
            }
            &&& if channels@.len() > 1 {
                reads_channel(data@, channels@[1] as int, lr[1])
            } else {
                lr[1] == lr[0]
            }
        },
{
    let silent = S::default();
    let first = if channels.len() > 0 {
        read_channel(data, channels[0])
    } else {
        silent
    };
    match layout {
        AudioChannelLayout::Mono => AudioFrame::Mono(first),
        AudioChannelLayout::Stereo => {
            let second = if channels.len() > 1 {
                read_channel(data, channels[1])
            } else if channels.len() == 1 {
                first
            } else {
                silent
            };
            AudioFrame::Stereo([first, second])
        },
    }
}

/// A silent frame of `layout`.
pub fn silent_frame<S: Copy + Default>(layout: AudioChannelLayout) -> (r: AudioFrame<S>)
    ensures
        layout == AudioChannelLayout::Mono ==> (r matches AudioFrame::Mono(z) && call_ensures(S::default, (), z)),
        layout == AudioChannelLayout::Stereo ==> (r matches AudioFrame::Stereo(lr) && lr[0] == lr[1]
            && call_ensures(S::default, (), lr[0])),
{
    let z = S::default();
    match layout {
        AudioChannelLayout::Mono => AudioFrame::Mono(z),
        AudioChannelLayout::Stereo => AudioFrame::Stereo([z, z]),
    }
}

/// The left/right pair a frame contributes to a stereo recorder: a mono
/// sample feeds both sides.
pub fn frame_pair<S: Copy>(frame: &AudioFrame<S>) -> (r: [S; 2])
    ensures
        r == frame_pair_spec(*frame),
{
    match frame {
        AudioFrame::Stereo(lr) => *lr,
        AudioFrame::Mono(s) => [*s, *s],
    }
}

pub open spec fn frame_pair_spec<S>(frame: AudioFrame<S>) -> [S; 2] {
    match frame {
        AudioFrame::Stereo(lr) => lr,
        AudioFrame::Mono(s) => [s, s],
    }
}

/// A channel count no bus layout has.
#[derive(Clone, Copy, Debug, PartialEq, Eq, Structural)]
pub struct UnsupportedChannelCount {
    pub channels: usize,
}

/// The layout a device entry of `channel_count` channels feeds: mono or
/// stereo, nothing else is supported.
pub fn layout_from_channels(channel_count: usize) -> (r: Result<AudioChannelLayout, UnsupportedChannelCount>)
    ensures
        channel_count == 1 ==> r == Ok::<AudioChannelLayout, UnsupportedChannelCount>(AudioChannelLayout::Mono),
        channel_count == 2 ==> r == Ok::<AudioChannelLayout, UnsupportedChannelCount>(AudioChannelLayout::Stereo),
        channel_count != 1 && channel_count != 2 ==> r == Err::<AudioChannelLayout, UnsupportedChannelCount>(
            UnsupportedChannelCount { channels: channel_count },
        ),
{
    match channel_count {
        1 => Ok(AudioChannelLayout::Mono),
        2 => Ok(AudioChannelLayout::Stereo),
        _ => Err(UnsupportedChannelCount { channels: channel_count }),
    }
}

/// A short name for a layout, for diagnostics.
pub fn layout_label(layout: AudioChannelLayout) -> (r: &'static str)
    ensures
        layout == AudioChannelLayout::Mono ==> r@ == "mono"@,
        layout == AudioChannelLayout::Stereo ==> r@ == "stereo"@,
{
    match layout {
        AudioChannelLayout::Mono => "mono",
        AudioChannelLayout::Stereo => "stereo",
    }
}

} // verus!

verus! {

/// Whether every sample sum that mixing `a` into `b` makes may be taken:
/// a mono sample is added to each side of a stereo frame.
pub open spec fn mix_allowed<S: core::ops::Add<Output = S>>(a: AudioFrame<S>, b: AudioFrame<S>) -> bool {
    match (a, b) {
        (AudioFrame::Mono(x), AudioFrame::Mono(y)) => x.add_req(y),
        (AudioFrame::Stereo(p), AudioFrame::Stereo(q)) => p[0].add_req(q[0]) && p[1].add_req(q[1]),
        (AudioFrame::Mono(x), AudioFrame::Stereo(q)) => x.add_req(q[0]) && x.add_req(q[1]),
        (AudioFrame::Stereo(p), AudioFrame::Mono(y)) => p[0].add_req(y) && p[1].add_req(y),
    }
}

/// The frame that mixing `a` with `b` gives, for sample types whose `+`
/// has a specification: two mono frames stay mono, anything else is
/// stereo, a mono sample joining each side.
pub open spec fn mix_spec<S: core::ops::Add<Output = S>>(a: AudioFrame<S>, b: AudioFrame<S>) -> AudioFrame<S> {
    match (a, b) {
        (AudioFrame::Mono(x), AudioFrame::Mono(y)) => AudioFrame::Mono(x.add_spec(y)),
        (AudioFrame::Stereo(p), AudioFrame::Stereo(q)) => AudioFrame::Stereo([p[0].add_spec(q[0]), p[1].add_spec(q[1])]),
        (AudioFrame::Mono(x), AudioFrame::Stereo(q)) => AudioFrame::Stereo([x.add_spec(q[0]), x.add_spec(q[1])]),
        (AudioFrame::Stereo(p), AudioFrame::Mono(y)) => AudioFrame::Stereo([p[0].add_spec(y), p[1].add_spec(y)]),
    }
}

/// Sum two frames; a mono frame mixed with a stereo one is widened first.
/// The result is mono exactly when both frames are.
pub fn mix_frames<S: Copy + core::ops::Add<Output = S>>(a: AudioFrame<S>, b: AudioFrame<S>) -> (r: AudioFrame<S>)
    requires
        mix_allowed(a, b),
    ensures
        (r is Mono) == (a is Mono && b is Mono),
        S::obeys_add_spec() ==> r == mix_spec(a, b),
{
    match (a, b) {
        (AudioFrame::Mono(x), AudioFrame::Mono(y)) => AudioFrame::Mono(x + y),
        (AudioFrame::Stereo(p), AudioFrame::Stereo(q)) => AudioFrame::Stereo([p[0] + q[0], p[1] + q[1]]),
        (AudioFrame::Mono(x), AudioFrame::Stereo(q)) => AudioFrame::Stereo([x + q[0], x + q[1]]),
        (AudioFrame::Stereo(p), AudioFrame::Mono(y)) => AudioFrame::Stereo([p[0] + y, p[1] + y]),
    }
}

} // verus!

verus! {

/// Whether one of `channels[..upto]` is channel `j`.
pub open spec fn names_channel(channels: Seq<usize>, upto: int, j: int) -> bool {
    exists|k: int| 0 <= k < upto && k < channels.len() && channels[k] == j
}

/// `frame` with sample `v` on every channel that one of `channels[..upto]`
/// names; channels past the end of the frame are skipped.
pub open spec fn fill_channels<S>(frame: Seq<S>, channels: Seq<usize>, upto: int, v: S) -> Seq<S> {
    Seq::new(frame.len(), |j: int| if names_channel(channels, upto, j) { v } else { frame[j] })
}

/// `frame` with `v` on channel `c`, if the frame has it.
pub open spec fn put_channel<S>(frame: Seq<S>, c: int, v: S) -> Seq<S> {
    if 0 <= c < frame.len() {
        frame.update(c, v)
    } else {
        frame
    }
}

/// Write a chain frame into an interleaved device frame on
/// `output_channels`, each sample through `limit`. A mono frame goes to
/// every listed channel; a stereo frame goes to nothing with no channel,
/// to its single channel as `mixdown(left, right)`, and to the first two
/// channels as left and right otherwise. Channels the device frame lacks
/// are skipped; no other channel changes.
pub fn write_output_frame<S: Copy, L: Fn(S) -> S, M: Fn(S, S) -> S>(
    chain_frame: AudioFrame<S>,
    output_channels: &[usize],
    frame: &mut Vec<S>,
    limit: L,
    mixdown: M,
)
    requires
        forall|x: S| call_requires(limit, (x,)),
        forall|a: S, b: S| call_requires(mixdown, (a, b)),
    ensures
        final(frame)@.len() == old(frame)@.len(),
        forall|j: int|
            0 <= j < old(frame)@.len() && !output_channels@.contains(j as usize) ==> #[trigger] final(frame)@[j]
                == old(frame)@[j],
        match chain_frame {
            AudioFrame::Mono(s) => exists|v: S|
                call_ensures(limit, (s,), v) && final(frame)@ == fill_channels(
                    old(frame)@,
                    output_channels@,
                    output_channels@.len() as int,
                    v,
                ),
            AudioFrame::Stereo(p) => if output_channels@.len() == 0 {
                final(frame)@ == old(frame)@
            } else if output_channels@.len() == 1 {
                ||| output_channels@[0] >= old(frame)@.len() && final(frame)@ == old(frame)@
                ||| exists|m: S, v: S|
                    call_ensures(mixdown, (p[0], p[1]), m) && call_ensures(limit, (m,), v) && final(frame)@
                        == old(frame)@.update(output_channels@[0] as int, v)
            } else {
                exists|vl: S, vr: S|
                    (output_channels@[0] >= old(frame)@.len() || call_ensures(limit, (p[0],), vl)) && (
                    output_channels@[1] >= old(frame)@.len() || call_ensures(limit, (p[1],), vr))
                        && final(frame)@ == put_channel(
                        put_channel(old(frame)@, output_channels@[0] as int, vl),
                        output_channels@[1] as int,
                        vr,
                    )
            },
        },
{
    match chain_frame {
        AudioFrame::Mono(sample) => {
            let limited = limit(sample);
            let ghost start = frame@;
            let mut i: usize = 0;
            while i < output_channels.len()
                invariant
                    i <= output_channels@.len(),
                    frame@ == fill_channels(start, output_channels@, i as int, limited),
                decreases output_channels@.len() - i,
            {
                let c = output_channels[i];
                if c < frame.len() {
                    frame.set(c, limited);
                }
                proof {
                    assert forall|j: int| 0 <= j < start.len() implies
                        #[trigger] names_channel(output_channels@, i + 1, j)
                            == (names_channel(output_channels@, i as int, j) || j == c) by {
                        if j == c {
                            assert(output_channels@[i as int] == j);
                        }
                    }
                }
                i = i + 1;
                assert(frame@ =~= fill_channels(start, output_channels@, i as int, limited));
            }
        },
        AudioFrame::Stereo(pair) => {
            let left = pair[0];
            let right = pair[1];
            if output_channels.len() == 0 {
            } else if output_channels.len() == 1 {
                let c = output_channels[0];
                if c < frame.len() {
                    let m = mixdown(left, right);
                    let v = limit(m);
                    frame.set(c, v);
                }
            } else {
                let lc = output_channels[0];
                let rc = output_channels[1];
                let vl = limit(left);
                let vr = limit(right);
                let ghost start = frame@;
                if lc < frame.len() {
                    frame.set(lc, vl);
                }
                if rc < frame.len() {
                    frame.set(rc, vr);
                }
                assert(frame@ =~= put_channel(put_channel(start, lc as int, vl), rc as int, vr));
            }
        },
    }
}

} // verus!
