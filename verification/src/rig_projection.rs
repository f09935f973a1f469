//! Projecting a rig onto the chains the engine runs: one chain per input,
//! in the rig's chain order, named after the input so each input keeps its
//! own isolated runtime.
//!
//! What a preset's blocks become under a scene, and which of them repeat
//! the input's own binding I/O, are the project's rules: the caller hands
//! them in with each input.
use vstd::prelude::*;
use vstd::pervasive::VecAdditionalExecFns;
use vstd::string::StringExecFns;
use crate::chain::{BlockKind, Chain, ChainBlock};
use crate::endpoints::{find_string, first_seen, lemma_first_seen, pos_from, string_views};
use crate::rig::{keep_known, ordered_input_names};

verus! {

/// One rig input, as the projection needs it.
pub struct RigChainSource {
    pub name: String,
    /// The bindings the input's I/O comes from; empty for an input wired
    /// through its own input and output blocks.
    pub io_binding_ids: Vec<String>,
    /// The active preset's blocks with the active scene applied, each with
    /// whether it repeats the input's own binding I/O; `None` when the
    /// input's active preset is missing.
    pub blocks: Option<Vec<(ChainBlock, bool)>>,
    /// Whether one of the outputs the input routes to exists.
    pub routed_output: bool,
    /// The input's own label, if it has one.
    pub label: Option<String>,
    /// The active preset's name, if it has one.
    pub preset_name: Option<String>,
    /// The active preset's id made readable, for a chain with neither.
    pub preset_title: String,
}

/// The title of the chain `s` projects to: the input's label, else the
/// preset's name, else the preset's readable id.
pub open spec fn chain_title(s: RigChainSource) -> String {
    match s.label {
        Some(l) => l,
        None => match s.preset_name {
            Some(n) => n,
            None => s.preset_title,
        },
    }
}

fn labelled(prefix: &str, name: &String, suffix: &str) -> (r: String)
    ensures
        r@ == prefix@ + name@ + suffix@,
{
    let mut s = prefix.to_owned();
    s.append(name.as_str());
    s.append(suffix);
    s
}

/// The blocks of `bs` that do not repeat the binding I/O, in order.
pub open spec fn kept_blocks(bs: Seq<(ChainBlock, bool)>) -> Seq<ChainBlock>
    decreases bs.len(),
{
    if bs.len() == 0 {
        Seq::empty()
    } else if bs.last().1 {
        kept_blocks(bs.drop_last())
    } else {
        kept_blocks(bs.drop_last()).push(bs.last().0)
    }
}

/// Whether `b` is the enabled input or output block `rig:<name><suffix>`.
pub open spec fn io_block(b: ChainBlock, name: Seq<char>, suffix: Seq<char>, input: bool) -> bool {
    &&& b.id@ == "rig:"@ + name + suffix
    &&& b.enabled
    &&& if input {
        b.kind is Input
    } else {
        b.kind is Output
    }
}

/// Whether `c` is the chain input `s` projects to: `rig:<name>`, titled
/// [`chain_title`], enabled, on the input's bindings. A binding-bound input keeps the scene's blocks
/// that do not repeat its binding I/O; any other input gets its own input
/// block `rig:<name>:in` before the scene's blocks and, when it routes to an
/// output that exists, an output block `rig:<name>:out` after them.
pub open spec fn chain_matches(c: Chain, s: RigChainSource) -> bool {
    &&& c.id@ == "rig:"@ + s.name@
    &&& c.description == Some(chain_title(s))
    &&& c.enabled
    &&& c.io_binding_ids == s.io_binding_ids
    &&& match s.blocks {
        None => false,
        Some(bs) => if s.io_binding_ids@.len() > 0 {
            c.blocks@ == kept_blocks(bs@)
        } else {
            let n = bs@.len() as int;
            &&& c.blocks@.len() == n + 1 + if s.routed_output {
                1int
            } else {
                0int
            }
            &&& io_block(c.blocks@[0], s.name@, ":in"@, true)
            &&& forall|k: int| 0 <= k < n ==> #[trigger] c.blocks@[k + 1] == bs@[k].0
            &&& s.routed_output ==> io_block(c.blocks@[n + 1], s.name@, ":out"@, false)
        },
    }
}

/// The chain input `src` projects to; none when its active preset is missing.
fn project_input(src: RigChainSource) -> (r: Option<Chain>)
    ensures
        match src.blocks {
            None => r is None,
            Some(_) => r matches Some(c) && chain_matches(c, src),
        },
{
    let ghost orig = src;
    let RigChainSource { name, io_binding_ids, blocks, routed_output, label, preset_name, preset_title } = src;
    let mut bs = match blocks {
        None => return None,
        Some(bs) => bs,
    };
    let ghost all = bs@;
    proof {
        assert(bs@.len() == bs.len());
    }
    let bound = io_binding_ids.len() > 0;
    let mut out: Vec<ChainBlock> = Vec::new();
    if !bound {
        out.push(ChainBlock { id: labelled("rig:", &name, ":in"), enabled: true, kind: BlockKind::Input });
    }
    let ghost head = out@;
    let mut k: usize = 0;
    while bs.len() > 0
        invariant
            k + bs@.len() == all.len(),
            all.len() <= usize::MAX,
            bs@ == all.subrange(k as int, all.len() as int),
            bound ==> out@ == kept_blocks(all.take(k as int)),
            !bound ==> out@ == head + all.take(k as int).map_values(|p: (ChainBlock, bool)| p.0),
        decreases bs@.len(),
    {
        let (b, dup) = bs.remove(0);
        proof {
            assert(all.take(k + 1).drop_last() =~= all.take(k as int));
            assert(all.take(k + 1).last() == all[k as int]);
        }
        if bound {
            if !dup {
                out.push(b);
            }
        } else {
            out.push(b);
        }
        proof {
            assert(bs@ =~= all.subrange(k + 1, all.len() as int));
            assert(all.take(k + 1).map_values(|p: (ChainBlock, bool)| p.0) =~= all.take(k as int).map_values(
                |p: (ChainBlock, bool)| p.0,
            ).push(all[k as int].0));
        }
        k = k + 1;
    }
    proof {
        assert(all.take(all.len() as int) =~= all);
    }
    if !bound && routed_output {
        out.push(ChainBlock { id: labelled("rig:", &name, ":out"), enabled: true, kind: BlockKind::Output });
    }
    let id = labelled("rig:", &name, "");
    proof {
        assert(""@ =~= Seq::<char>::empty()) by {
            reveal_strlit("");
        }
        assert(id@ =~= "rig:"@ + name@);
    }
    let description = match label {
        Some(l) => l,
        None => match preset_name {
            Some(n) => n,
            None => preset_title,
        },
    };
    Some(Chain { id, description: Some(description), enabled: true, io_binding_ids, blocks: out })
}

pub open spec fn source_names(s: Seq<RigChainSource>) -> Seq<Seq<char>> {
    s.map_values(|x: RigChainSource| x.name@)
}

/// The order inputs project in: the persisted chain order first, keeping
/// only names of existing inputs and each once, then every input it
/// leaves out, in the inputs' own order.
pub open spec fn projection_order(order: Seq<Seq<char>>, names: Seq<Seq<char>>) -> Seq<Seq<char>> {
    first_seen(keep_known(order, names) + names).0
}

/// Whether `r` is what the inputs named `ord` project to, in that order: an
/// input whose active preset is missing gives no chain.
pub open spec fn chains_ok(r: Seq<Chain>, ord: Seq<Seq<char>>, srcs: Seq<RigChainSource>) -> bool
    decreases ord.len(),
{
    if ord.len() == 0 {
        r.len() == 0
    } else {
        let s = srcs[pos_from(source_names(srcs), ord.last(), 0)];
        if s.blocks is None {
            chains_ok(r, ord.drop_last(), srcs)
        } else {
            r.len() > 0 && chain_matches(r.last(), s) && chains_ok(r.drop_last(), ord.drop_last(), srcs)
        }
    }
}

proof fn lemma_seen_are_keys<K>(keys: Seq<K>)
    ensures
        forall|m: int| 0 <= m < first_seen(keys).0.len() ==> keys.contains(#[trigger] first_seen(keys).0[m]),
    decreases keys.len(),
{
    if keys.len() > 0 {
        lemma_seen_are_keys(keys.drop_last());
        assert forall|m: int| 0 <= m < first_seen(keys).0.len() implies keys.contains(
            #[trigger] first_seen(keys).0[m],
        ) by {
            let prev = first_seen(keys.drop_last()).0;
            if m < prev.len() {
                let w = choose|w: int| 0 <= w < keys.drop_last().len() && keys.drop_last()[w] == prev[m];
                assert(keys[w] == prev[m]);
            } else {
                assert(keys[keys.len() - 1] == keys.last());
            }
        }
    }
}

proof fn lemma_known_are_names(order: Seq<Seq<char>>, names: Seq<Seq<char>>)
    ensures
        forall|m: int| 0 <= m < keep_known(order, names).len() ==> names.contains(#[trigger] keep_known(order, names)[m]),
    decreases order.len(),
{
    if order.len() > 0 {
        lemma_known_are_names(order.drop_last(), names);
        let prev = keep_known(order.drop_last(), names);
        assert forall|m: int| 0 <= m < keep_known(order, names).len() implies names.contains(
            #[trigger] keep_known(order, names)[m],
        ) by {
            if m < prev.len() {
                assert(keep_known(order, names)[m] == prev[m]);
            }
        }
    }
}

/// Project a rig onto its chains: one per input, in the rig's chain order
/// (then the inputs it leaves out), skipping inputs whose active preset is
/// missing. `sources` lists every input once.
pub fn rig_to_chains(chain_order: &Vec<String>, sources: Vec<RigChainSource>) -> (r: Vec<Chain>)
    requires
        source_names(sources@).no_duplicates(),
    ensures
        chains_ok(r@, projection_order(string_views(chain_order@), source_names(sources@)), sources@),
{
    let ghost orig = sources@;
    let ghost srcnames = source_names(orig);
    let mut names: Vec<String> = Vec::new();
    let mut opts: Vec<Option<RigChainSource>> = Vec::new();
    let mut rest = sources;
    let mut j: usize = 0;
    proof {
        assert(rest@.len() == rest.len());
    }
    while rest.len() > 0
        invariant
            j + rest@.len() == orig.len(),
            orig.len() <= usize::MAX,
            rest@ == orig.subrange(j as int, orig.len() as int),
            names@.len() == j,
            opts@.len() == j,
            forall|m: int| 0 <= m < j ==> #[trigger] names@[m]@ == orig[m].name@,
            forall|m: int| 0 <= m < j ==> #[trigger] opts@[m] == Some(orig[m]),
        decreases rest@.len(),
    {
        let s = rest.remove(0);
        names.push(s.name.clone());
        opts.push(Some(s));
        proof {
            assert(rest@ =~= orig.subrange(j + 1, orig.len() as int));
        }
        j = j + 1;
    }
    assert(string_views(names@) =~= srcnames);
    let ordered = ordered_input_names(chain_order, &names);
    let ghost ord = string_views(ordered@);
    let ghost keys = keep_known(string_views(chain_order@), srcnames) + srcnames;
    proof {
        lemma_first_seen(keys);
        lemma_seen_are_keys(keys);
        lemma_known_are_names(string_views(chain_order@), srcnames);
        assert forall|m: int| 0 <= m < ord.len() implies srcnames.contains(#[trigger] ord[m]) by {
            assert(keys.contains(ord[m]));
            let w = choose|w: int| 0 <= w < keys.len() && keys[w] == ord[m];
            let kk = keep_known(string_views(chain_order@), srcnames);
            if w < kk.len() {
                assert(kk[w] == keys[w]);
            } else {
                assert(srcnames[w - kk.len()] == keys[w]);
            }
        }
    }
    let mut out: Vec<Chain> = Vec::new();
    let mut k: usize = 0;
    while k < ordered.len()
        invariant
            k <= ordered@.len(),
            ord == string_views(ordered@),
            ord == first_seen(keys).0,
            forall|a: int, b: int| 0 <= a < b < ord.len() ==> ord[a] != ord[b],
            forall|m: int| 0 <= m < ord.len() ==> srcnames.contains(#[trigger] ord[m]),
            srcnames == source_names(orig),
            srcnames.no_duplicates(),
            string_views(names@) == srcnames,
            opts@.len() == orig.len(),
            forall|m: int|
                0 <= m < orig.len() ==> if ord.take(k as int).contains(srcnames[m]) {
                    opts@[m] is None
                } else {
                    opts@[m] == Some(orig[m])
                },
            chains_ok(out@, ord.take(k as int), orig),
        decreases ordered@.len() - k,
    {
        let ghost n = ord[k as int];
        proof {
            assert(ord.take(k + 1).drop_last() =~= ord.take(k as int));
            assert(ord.take(k + 1).last() == n);
            assert(!ord.take(k as int).contains(n));
        }
        match find_string(&names, &ordered[k]) {
            Some(jj) => {
                let ghost before = opts@;
                let mut taken: Option<RigChainSource> = None;
                opts.set_and_swap(jj, &mut taken);
                proof {
                    assert(srcnames[jj as int] == n);
                    assert(pos_from(source_names(orig), n, 0) == jj as int);
                    assert forall|m: int| 0 <= m < orig.len() implies if ord.take(k + 1).contains(srcnames[m]) {
                        opts@[m] is None
                    } else {
                        opts@[m] == Some(orig[m])
                    } by {
                        if m != jj {
                            assert(srcnames[m] != srcnames[jj as int]);
                            assert(ord.take(k + 1).contains(srcnames[m]) == ord.take(k as int).contains(srcnames[m])) by {
                                if ord.take(k + 1).contains(srcnames[m]) {
                                    let w = choose|w: int| 0 <= w < k + 1 && #[trigger] ord.take(k + 1)[w] == srcnames[m];
                                    assert(w < k);
                                    assert(ord.take(k as int)[w] == srcnames[m]);
                                }
                                if ord.take(k as int).contains(srcnames[m]) {
                                    let w = choose|w: int| 0 <= w < k && #[trigger] ord.take(k as int)[w] == srcnames[m];
                                    assert(ord.take(k + 1)[w] == srcnames[m]);
                                }
                            }
                        } else {
                            assert(ord.take(k + 1)[k as int] == n);
                        }
                    }
                }
                match taken {
                    Some(src) => {
                        match project_input(src) {
                            Some(c) => {
                                let ghost prev = out@;
                                out.push(c);
                                proof {
                                    assert(out@.drop_last() =~= prev);
                                }
                            },
                            None => {},
                        }
                    },
                    None => {},
                }
            },
            None => {
                proof {
                    let w = choose|w: int| 0 <= w < srcnames.len() && srcnames[w] == n;
                    assert(names@[w]@ == n);
                }
            },
        }
        k = k + 1;
    }
    proof {
        assert(ord.take(ord.len() as int) =~= ord);
    }
    out
}

} // verus!
