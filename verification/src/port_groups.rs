//! Grouping a binding-bound chain's streams by port: one output route per
//! distinct output port and one isolated runtime per distinct input port,
//! both numbered in the order they first appear. A chain with an enabled
//! insert keeps a single runtime, group 0, holding every segment, so its
//! send/return pipeline is never split.
use vstd::prelude::*;
use crate::chain::{chain_has_enabled_insert, copy_channels, is_enabled_insert, Chain, InputEntry, OutputEntry};
use crate::endpoints::{copy_input, copy_output, first_seen, lemma_first_seen, lemma_pos_from, pos_from};
use crate::segments::{ChainSegment, SegmentView};

verus! {

/// One input-to-output stream of a bound chain: the ports it reads and
/// writes (binding and endpoint names), their entries, and the blocks it
/// runs through.
pub struct PortStream {
    pub input_binding: String,
    pub input_endpoint: String,
    pub output_binding: String,
    pub output_endpoint: String,
    pub input_entry: InputEntry,
    pub output_entry: OutputEntry,
    pub block_indices: Vec<usize>,
}

/// A port as a value: binding and endpoint names.
pub type PortKey = (Seq<char>, Seq<char>);

/// The input (`output == false`) or output port of each stream.
pub open spec fn port_keys(s: Seq<PortStream>, output: bool) -> Seq<PortKey> {
    s.map_values(
        |x: PortStream|
            if output {
                (x.output_binding@, x.output_endpoint@)
            } else {
                (x.input_binding@, x.input_endpoint@)
            },
    )
}

pub open spec fn pair_views(v: Seq<(String, String)>) -> Seq<PortKey> {
    v.map_values(|p: (String, String)| (p.0@, p.1@))
}

proof fn lemma_pos_from_at<K>(s: Seq<K>, k: K, j: int, i: int)
    requires
        0 <= j <= i < s.len(),
        s[i] == k,
        forall|m: int| j <= m < i ==> s[m] != k,
    ensures
        pos_from(s, k, j) == i,
    decreases i - j,
{
    if j < i {
        lemma_pos_from_at(s, k, j + 1, i);
    }
}

fn find_pair(seen: &Vec<(String, String)>, a: &String, b: &String) -> (r: Option<usize>)
    ensures
        match r {
            Some(j) => j < seen@.len() && pos_from(pair_views(seen@), (a@, b@), 0) == j as int,
            None => forall|k: int| 0 <= k < seen@.len() ==> pair_views(seen@)[k] != (a@, b@),
        },
{
    let ghost v = pair_views(seen@);
    let mut j: usize = 0;
    while j < seen.len()
        invariant
            j <= seen@.len(),
            v == pair_views(seen@),
            forall|k: int| 0 <= k < j ==> v[k] != (a@, b@),
        decreases seen@.len() - j,
    {
        if seen[j].0 == *a && seen[j].1 == *b {
            proof {
                lemma_pos_from_at(v, (a@, b@), 0, j as int);
            }
            return Some(j);
        }
        j = j + 1;
    }
    None
}

/// Number the input (or output) ports of `streams` by first appearance:
/// `.0` holds each stream's port number, `.1` the first stream of each
/// distinct port.
fn port_numbers(streams: &Vec<PortStream>, output: bool) -> (r: (Vec<usize>, Vec<usize>))
    ensures
        r.0@.len() == streams@.len(),
        forall|i: int| 0 <= i < streams@.len() ==> r.0@[i] as int == first_seen(port_keys(streams@, output)).1[i],
        r.1@.len() == first_seen(port_keys(streams@, output)).0.len(),
        forall|m: int|
            0 <= m < r.1@.len() ==> r.1@[m] < streams@.len() && r.1@[m] as int == pos_from(
                port_keys(streams@, output),
                first_seen(port_keys(streams@, output)).0[m],
                0,
            ),
{
    let ghost keys = port_keys(streams@, output);
    let mut seen: Vec<(String, String)> = Vec::new();
    let mut nums: Vec<usize> = Vec::new();
    let mut firsts: Vec<usize> = Vec::new();
    let mut i: usize = 0;
    while i < streams.len()
        invariant
            i <= streams@.len(),
            keys == port_keys(streams@, output),
            pair_views(seen@) == first_seen(keys.take(i as int)).0,
            nums@.len() == i,
            first_seen(keys.take(i as int)).1.len() == i,
            forall|k: int| 0 <= k < i ==> nums@[k] as int == first_seen(keys.take(i as int)).1[k],
            firsts@.len() == seen@.len(),
            forall|m: int|
                0 <= m < firsts@.len() ==> firsts@[m] < i && firsts@[m] as int == pos_from(
                    keys,
                    first_seen(keys.take(i as int)).0[m],
                    0,
                ),
        decreases streams@.len() - i,
    {
        let (a, b) = if output {
            (&streams[i].output_binding, &streams[i].output_endpoint)
        } else {
            (&streams[i].input_binding, &streams[i].input_endpoint)
        };
        proof {
            assert(keys.take(i + 1).drop_last() =~= keys.take(i as int));
            assert(keys.take(i + 1).last() == (a@, b@));
            assert(keys[i as int] == (a@, b@));
        }
        match find_pair(&seen, a, b) {
            Some(j) => {
                proof {
                    let t = keys.take(i as int);
                    assert(first_seen(keys.take(i + 1)).0 == first_seen(t).0);
                    assert(first_seen(keys.take(i + 1)).1 == first_seen(t).1.push(j as int));
                }
                nums.push(j);
            },
            None => {
                let n = seen.len();
                let ghost prev = seen@;
                proof {
                    lemma_first_seen(keys.take(i as int));
                    assert forall|m: int| 0 <= m < i implies keys[m] != (a@, b@) by {
                        let t = keys.take(i as int);
                        let id = first_seen(t).1[m];
                        assert(first_seen(t).0[id] == t[m]);
                        assert(pair_views(seen@)[id] == keys[m]);
                    }
                    lemma_pos_from_at(keys, (a@, b@), 0, i as int);
                }
                seen.push((a.clone(), b.clone()));
                assert(pair_views(seen@) =~= pair_views(prev).push((a@, b@)));
                nums.push(n);
                firsts.push(i);
                proof {
                    let t = keys.take(i as int);
                    assert(pos_from(first_seen(t).0, (a@, b@), 0) == -1) by {
                        lemma_pos_from(first_seen(t).0, (a@, b@), 0);
                    }
                    assert(first_seen(keys.take(i + 1)).0 == first_seen(t).0.push((a@, b@)));
                    assert(first_seen(keys.take(i + 1)).1 == first_seen(t).1.push(n as int));
                }
            },
        }
        i = i + 1;
    }
    assert(keys.take(streams@.len() as int) =~= keys);
    (nums, firsts)
}

/// The segment stream `i` becomes: it reads on the stream of its input
/// port, whose number is also its group, and writes the route of its
/// output port.
pub open spec fn port_segment(s: Seq<PortStream>, i: int) -> SegmentView {
    let g = first_seen(port_keys(s, false)).1[i];
    SegmentView {
        input: s[i].input_entry@,
        stream: g as usize,
        blocks: s[i].block_indices@,
        routes: seq![first_seen(port_keys(s, true)).1[i] as usize],
        siblings: None,
        group: g as usize,
    }
}

/// The segments of the streams `s[..upto]` on input port number `g`, in
/// stream order.
pub open spec fn port_group_segments(s: Seq<PortStream>, g: int, upto: int) -> Seq<SegmentView>
    decreases upto,
{
    if upto <= 0 {
        Seq::empty()
    } else {
        let prev = port_group_segments(s, g, upto - 1);
        if first_seen(port_keys(s, false)).1[upto - 1] == g {
            prev.push(port_segment(s, upto - 1))
        } else {
            prev
        }
    }
}

/// The segments of input ports `0..n`, port after port.
pub open spec fn all_port_segments(s: Seq<PortStream>, n: int) -> Seq<SegmentView>
    decreases n,
{
    if n <= 0 {
        Seq::empty()
    } else {
        all_port_segments(s, n - 1) + port_group_segments(s, n - 1, s.len() as int)
    }
}

pub open spec fn segment_views(v: Seq<ChainSegment>) -> Seq<SegmentView> {
    v.map_values(|x: ChainSegment| x@)
}

/// The routes and runtime groups of a bound chain.
pub struct PortGroups {
    /// One output entry per distinct output port, first seen first: the
    /// entry of the first stream writing it.
    pub outputs: Vec<OutputEntry>,
    /// The runtimes to build: a group number and its segments.
    pub groups: Vec<(usize, Vec<ChainSegment>)>,
}

fn port_group(streams: &Vec<PortStream>, gid: &Vec<usize>, rid: &Vec<usize>, g: usize) -> (r: Vec<ChainSegment>)
    requires
        gid@.len() == streams@.len(),
        rid@.len() == streams@.len(),
        forall|i: int| 0 <= i < streams@.len() ==> gid@[i] as int == first_seen(port_keys(streams@, false)).1[i],
        forall|i: int| 0 <= i < streams@.len() ==> rid@[i] as int == first_seen(port_keys(streams@, true)).1[i],
    ensures
        segment_views(r@) == port_group_segments(streams@, g as int, streams@.len() as int),
{
    let mut out: Vec<ChainSegment> = Vec::new();
    let mut i: usize = 0;
    while i < streams.len()
        invariant
            i <= streams@.len(),
            gid@.len() == streams@.len(),
            rid@.len() == streams@.len(),
            forall|k: int| 0 <= k < streams@.len() ==> gid@[k] as int == first_seen(port_keys(streams@, false)).1[k],
            forall|k: int| 0 <= k < streams@.len() ==> rid@[k] as int == first_seen(port_keys(streams@, true)).1[k],
            segment_views(out@) == port_group_segments(streams@, g as int, i as int),
        decreases streams@.len() - i,
    {
        if gid[i] == g {
            let st = &streams[i];
            let seg = ChainSegment {
                input: copy_input(&st.input_entry),
                cpal_input_index: g,
                block_indices: copy_channels(&st.block_indices),
                output_route_indices: vec![rid[i]],
                split_mono_sibling_count: None,
                entry_group: g,
            };
            let ghost prev = out@;
            out.push(seg);
            proof {
                assert(seg@.routes =~= seq![first_seen(port_keys(streams@, true)).1[i as int] as usize]);
                assert(seg@ == port_segment(streams@, i as int));
                assert(segment_views(out@) =~= segment_views(prev).push(seg@));
            }
        }
        i = i + 1;
    }
    out
}

/// Group the streams of a binding-bound chain by port. Output ports become
/// routes and input ports runtime groups, both numbered by first
/// appearance; each stream becomes one segment of its input port's group
/// writing its output port's route. A chain with an enabled insert is a
/// single runtime, group 0, holding every segment, port after port.
pub fn group_streams_by_port(chain: &Chain, streams: &Vec<PortStream>) -> (r: PortGroups)
    ensures
        r.outputs@.len() == first_seen(port_keys(streams@, true)).0.len(),
        forall|m: int|
            0 <= m < r.outputs@.len() ==> #[trigger] r.outputs@[m]@ == streams@[pos_from(
                port_keys(streams@, true),
                first_seen(port_keys(streams@, true)).0[m],
                0,
            )].output_entry@,
        (exists|b: int| 0 <= b < chain.blocks@.len() && is_enabled_insert(chain.blocks@[b])) ==> {
            &&& r.groups@.len() == 1
            &&& r.groups@[0].0 == 0
            &&& segment_views(r.groups@[0].1@) == all_port_segments(
                streams@,
                first_seen(port_keys(streams@, false)).0.len() as int,
            )
        },
        !(exists|b: int| 0 <= b < chain.blocks@.len() && is_enabled_insert(chain.blocks@[b])) ==> {
            &&& r.groups@.len() == first_seen(port_keys(streams@, false)).0.len()
            &&& forall|k: int|
                #![trigger r.groups@[k]]
                0 <= k < r.groups@.len() ==> r.groups@[k].0 == k && segment_views(r.groups@[k].1@)
                    == port_group_segments(streams@, k, streams@.len() as int)
        },
{
    let (gid, fin) = port_numbers(streams, false);
    let (rid, fout) = port_numbers(streams, true);
    let mut outputs: Vec<OutputEntry> = Vec::new();
    let mut m: usize = 0;
    while m < fout.len()
        invariant
            m <= fout@.len(),
            fout@.len() == first_seen(port_keys(streams@, true)).0.len(),
            forall|q: int|
                0 <= q < fout@.len() ==> fout@[q] < streams@.len() && fout@[q] as int == pos_from(
                    port_keys(streams@, true),
                    first_seen(port_keys(streams@, true)).0[q],
                    0,
                ),
            outputs@.len() == m,
            forall|q: int| 0 <= q < m ==> #[trigger] outputs@[q]@ == streams@[fout@[q] as int].output_entry@,
        decreases fout@.len() - m,
    {
        outputs.push(copy_output(&streams[fout[m]].output_entry));
        m = m + 1;
    }
    let insert = chain_has_enabled_insert(chain);
    let mut groups: Vec<(usize, Vec<ChainSegment>)> = Vec::new();
    let mut all: Vec<ChainSegment> = Vec::new();
    let mut g: usize = 0;
    while g < fin.len()
        invariant
            g <= fin@.len(),
            gid@.len() == streams@.len(),
            rid@.len() == streams@.len(),
            forall|k: int| 0 <= k < streams@.len() ==> gid@[k] as int == first_seen(port_keys(streams@, false)).1[k],
            forall|k: int| 0 <= k < streams@.len() ==> rid@[k] as int == first_seen(port_keys(streams@, true)).1[k],
            insert == (exists|b: int| 0 <= b < chain.blocks@.len() && is_enabled_insert(chain.blocks@[b])),
            insert ==> groups@.len() == 0 && segment_views(all@) == all_port_segments(streams@, g as int),
            !insert ==> groups@.len() == g && forall|k: int|
                #![trigger groups@[k]]
                0 <= k < g ==> groups@[k].0 == k && segment_views(groups@[k].1@) == port_group_segments(
                    streams@,
                    k,
                    streams@.len() as int,
                ),
        decreases fin@.len() - g,
    {
        let mut segs = port_group(streams, &gid, &rid, g);
        if insert {
            let ghost prev = all@;
            let ghost mine = segs@;
            all.append(&mut segs);
            assert(segment_views(all@) =~= segment_views(prev) + segment_views(mine));
        } else {
            groups.push((g, segs));
        }
        g = g + 1;
    }
    if insert {
        groups.push((0, all));
    }
    PortGroups { outputs, groups }
}

/// Each runtime of a bound chain owns exactly its input port: every
/// segment of group `g` reads stream `g`, belongs to group `g`, comes from a
/// stream on the `g`-th input port, and writes that stream's output route.
pub proof fn law_port_group_owns_its_port(s: Seq<PortStream>, g: usize, upto: int)
    requires
        0 <= upto <= s.len(),
    ensures
        forall|m: int|
            0 <= m < port_group_segments(s, g as int, upto).len() ==> {
                let seg = #[trigger] port_group_segments(s, g as int, upto)[m];
                &&& seg.stream == g
                &&& seg.group == g
                &&& exists|i: int|
                    0 <= i < upto && first_seen(port_keys(s, false)).1[i] == g && seg == port_segment(s, i)
            },
    decreases upto,
{
    if upto > 0 {
        law_port_group_owns_its_port(s, g, upto - 1);
        let prev = port_group_segments(s, g as int, upto - 1);
        let cur = port_group_segments(s, g as int, upto);
        assert forall|m: int| 0 <= m < cur.len() implies {
            let seg = #[trigger] cur[m];
            &&& seg.stream == g
            &&& seg.group == g
            &&& exists|i: int|
                0 <= i < upto && first_seen(port_keys(s, false)).1[i] == g && seg == port_segment(s, i)
        } by {
            if m < prev.len() {
                assert(cur[m] == prev[m]);
                let i = choose|i: int|
                    0 <= i < upto - 1 && first_seen(port_keys(s, false)).1[i] == g && prev[m] == port_segment(s, i);
                assert(0 <= i < upto);
            } else {
                let i = upto - 1;
                assert(cur[m] == port_segment(s, i));
                assert(first_seen(port_keys(s, false)).1[i] == g);
            }
        }
    }
}

} // verus!
