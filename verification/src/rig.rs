//! Which inputs of a rig run, and the capture taps they hold.
//!
//! Every input of a rig runs as its own isolated runtime, and two isolated
//! runtimes must never read the same physical capture point. An input's
//! taps are the `(device, channel)` pairs its bindings capture; an input
//! can only be activated while no active input holds one of its taps.
//! Activation lives in memory only.
use vstd::prelude::*;
use crate::chain::{IoBinding, IoEndpoint};
use crate::endpoints::{find_binding, find_binding_from, first_seen, find_string, string_views};

verus! {

/// One capture point: a device and a channel of it.
pub type Tap = (Seq<char>, usize);

/// The part of a rig input that activation and switching read.
pub struct RigInput {
    /// Bindings whose every input endpoint the input captures.
    pub io_binding_ids: Vec<String>,
    /// A single binding reference, with `endpoint` naming one of its input
    /// endpoints (every one when empty). Unused when empty.
    pub io: String,
    pub endpoint: String,
    /// The bank slots that hold a preset.
    pub bank_slots: Vec<usize>,
    pub active_preset: usize,
    pub active_scene: usize,
}

/// A rig input by name, with whether its active preset projects to a
/// buildable chain.
pub struct RigInputEntry {
    pub name: String,
    pub input: RigInput,
    pub buildable: bool,
}

/// Why a rig request was refused.
pub enum RigError {
    UnknownInput,
    /// One of the input's taps is held by the active input `holder`.
    TapInUse { device: String, channel: usize, holder: String },
    /// The input's active preset does not project to a chain.
    NotBuildable,
    /// Presets and scenes switch only on an active input.
    NotActive,
    NoBankSlot { slot: usize },
    SceneOutOfRange { scene: usize },
}

/// The taps of one endpoint.
pub open spec fn endpoint_taps(ep: IoEndpoint) -> Seq<Tap> {
    ep.channels@.map_values(|c: usize| (ep.device_id@, c))
}

/// The taps of the endpoints `eps[k..]` named `name` (all when empty).
pub open spec fn endpoints_taps_from(eps: Seq<IoEndpoint>, name: Seq<char>, k: int) -> Seq<Tap>
    decreases eps.len() - k,
{
    if k < 0 || k >= eps.len() {
        Seq::empty()
    } else {
        (if name.len() == 0 || eps[k].name@ == name {
            endpoint_taps(eps[k])
        } else {
            Seq::empty()
        }) + endpoints_taps_from(eps, name, k + 1)
    }
}

/// The taps of the input endpoints of binding `io` named `name`.
pub open spec fn binding_taps(reg: Seq<IoBinding>, io: Seq<char>, name: Seq<char>) -> Seq<Tap> {
    match find_binding(reg, io) {
        Some(b) => endpoints_taps_from(reg[b].inputs@, name, 0),
        None => Seq::empty(),
    }
}

/// The taps of the bindings `ids[k..]`.
pub open spec fn ids_taps_from(ids: Seq<String>, reg: Seq<IoBinding>, k: int) -> Seq<Tap>
    decreases ids.len() - k,
{
    if k < 0 || k >= ids.len() {
        Seq::empty()
    } else {
        binding_taps(reg, ids[k]@, Seq::empty()) + ids_taps_from(ids, reg, k + 1)
    }
}

/// Every tap an input occupies: those of its selected bindings, then those
/// of its single binding reference.
pub open spec fn input_taps_spec(input: RigInput, reg: Seq<IoBinding>) -> Seq<Tap> {
    ids_taps_from(input.io_binding_ids@, reg, 0) + if input.io@.len() > 0 {
        binding_taps(reg, input.io@, input.endpoint@)
    } else {
        Seq::empty()
    }
}

pub open spec fn tap_views(v: Seq<(String, usize)>) -> Seq<Tap> {
    v.map_values(|t: (String, usize)| (t.0@, t.1))
}

/// Whether two tap lists share a tap.
pub open spec fn taps_meet(a: Seq<Tap>, b: Seq<Tap>) -> bool {
    exists|x: Tap| a.contains(x) && b.contains(x)
}

/// No two distinct active inputs share a tap.
pub open spec fn isolated(taps: Seq<Seq<Tap>>, enabled: Seq<bool>) -> bool {
    forall|i: int, j: int|
        0 <= i < taps.len() && 0 <= j < taps.len() && i != j && enabled[i] && enabled[j] ==> !taps_meet(
            taps[i],
            taps[j],
        )
}

fn push_endpoint_taps(ep: &IoEndpoint, out: &mut Vec<(String, usize)>)
    ensures
        tap_views(final(out)@) == tap_views(old(out)@) + endpoint_taps(*ep),
{
    let ghost start = tap_views(out@);
    let mut c: usize = 0;
    while c < ep.channels.len()
        invariant
            c <= ep.channels@.len(),
            tap_views(out@) =~= start + endpoint_taps(*ep).take(c as int),
        decreases ep.channels@.len() - c,
    {
        let ghost prev = out@;
        out.push((ep.device_id.clone(), ep.channels[c]));
        proof {
            assert(tap_views(out@) =~= tap_views(prev).push((ep.device_id@, ep.channels@[c as int])));
            assert(endpoint_taps(*ep).take(c + 1) =~= endpoint_taps(*ep).take(c as int).push(
                (ep.device_id@, ep.channels@[c as int]),
            ));
        }
        c = c + 1;
    }
    assert(endpoint_taps(*ep).take(ep.channels@.len() as int) =~= endpoint_taps(*ep));
}

fn push_binding_taps(registry: &[IoBinding], io: &String, name: &String, out: &mut Vec<(String, usize)>)
    ensures
        tap_views(final(out)@) == tap_views(old(out)@) + binding_taps(registry@, io@, name@),
{
    let ghost start = tap_views(out@);
    let mut i: usize = 0;
    while i < registry.len()
        invariant
            i <= registry@.len(),
            find_binding_from(registry@, io@, 0) == find_binding_from(registry@, io@, i as int),
            tap_views(out@) == start,
            start == tap_views(old(out)@),
        decreases registry@.len() - i,
    {
        if registry[i].id == *io {
            assert(find_binding_from(registry@, io@, 0) == Some(i as int));
            let eps = &registry[i].inputs;
            let mut k: usize = 0;
            while k < eps.len()
                invariant
                    k <= eps@.len(),
                    i < registry@.len(),
                    find_binding_from(registry@, io@, 0) == Some(i as int),
                    start == tap_views(old(out)@),
                    eps@ == registry@[i as int].inputs@,
                    tap_views(out@) + endpoints_taps_from(eps@, name@, k as int) =~= start
                        + endpoints_taps_from(eps@, name@, 0),
                decreases eps@.len() - k,
            {
                let ghost before = tap_views(out@);
                let ghost rest = endpoints_taps_from(eps@, name@, k + 1);
                if name.as_str().is_empty() || eps[k].name == *name {
                    push_endpoint_taps(&eps[k], out);
                    proof {
                        let a = endpoint_taps(eps@[k as int]);
                        assert(before + (a + rest) =~= (before + a) + rest);
                    }
                } else {
                    proof {
                        assert(before + (Seq::<Tap>::empty() + rest) =~= before + rest);
                    }
                }
                k = k + 1;
            }
            assert(endpoints_taps_from(eps@, name@, eps@.len() as int) =~= Seq::<Tap>::empty());
            assert(tap_views(out@) =~= start + binding_taps(registry@, io@, name@));
            return;
        }
        i = i + 1;
    }
    assert(tap_views(out@) =~= start + binding_taps(registry@, io@, name@));
}

/// The `(device, channel)` capture taps an input occupies: every input
/// endpoint of every selected binding, then the endpoints of its single
/// binding reference. Two inputs conflict exactly when their taps meet.
pub fn input_taps(input: &RigInput, registry: &[IoBinding]) -> (r: Vec<(String, usize)>)
    ensures
        tap_views(r@) == input_taps_spec(*input, registry@),
{
    let mut taps: Vec<(String, usize)> = Vec::new();
    let ids = &input.io_binding_ids;
    let empty = String::new();
    assert(tap_views(taps@) =~= Seq::<Tap>::empty());
    let mut k: usize = 0;
    while k < ids.len()
        invariant
            k <= ids@.len(),
            ids@ == input.io_binding_ids@,
            empty@ == Seq::<char>::empty(),
            tap_views(taps@) + ids_taps_from(ids@, registry@, k as int) =~= ids_taps_from(
                ids@,
                registry@,
                0,
            ),
        decreases ids@.len() - k,
    {
        let ghost before = tap_views(taps@);
        push_binding_taps(registry, &ids[k], &empty, &mut taps);
        proof {
            let a = binding_taps(registry@, ids@[k as int]@, Seq::empty());
            let b = ids_taps_from(ids@, registry@, k + 1);
            assert(before + (a + b) =~= (before + a) + b);
        }
        k = k + 1;
    }
    assert(ids_taps_from(ids@, registry@, ids@.len() as int) =~= Seq::<Tap>::empty());
    if !input.io.as_str().is_empty() {
        push_binding_taps(registry, &input.io, &input.endpoint, &mut taps);
    } else {
        assert(tap_views(taps@) =~= tap_views(taps@) + Seq::<Tap>::empty());
    }
    taps
}

/// The first active input from `j` on whose taps meet `want`, or -1.
pub open spec fn first_holder_from(taps: Seq<Seq<Tap>>, enabled: Seq<bool>, want: Seq<Tap>, j: int) -> int
    decreases taps.len() - j,
{
    if j < 0 || j >= taps.len() {
        -1
    } else if enabled[j] && taps_meet(want, taps[j]) {
        j
    } else {
        first_holder_from(taps, enabled, want, j + 1)
    }
}

/// The first tap of `tj` from `t` on that `want` holds too, or -1.
pub open spec fn first_shared_from(tj: Seq<Tap>, want: Seq<Tap>, t: int) -> int
    decreases tj.len() - t,
{
    if t < 0 || t >= tj.len() {
        -1
    } else if want.contains(tj[t]) {
        t
    } else {
        first_shared_from(tj, want, t + 1)
    }
}

/// Which inputs come up when a rig is built: in order, each buildable
/// input whose taps meet no input brought up before it.
pub open spec fn greedy_activation(taps: Seq<Seq<Tap>>, buildable: Seq<bool>, enabled: Seq<bool>) -> bool {
    &&& enabled.len() == taps.len()
    &&& forall|i: int|
        0 <= i < taps.len() ==> (#[trigger] enabled[i] == (buildable[i] && forall|j: int|
            0 <= j < i ==> !(enabled[j] && taps_meet(taps[i], taps[j]))))
}

/// The activation state of a rig's inputs.
pub struct RigActivation {
    entries: Vec<RigInputEntry>,
    taps: Vec<Vec<(String, usize)>>,
    enabled: Vec<bool>,
}

impl RigActivation {
    pub closed spec fn names(&self) -> Seq<Seq<char>> {
        self.entries@.map_values(|e: RigInputEntry| e.name@)
    }

    pub closed spec fn entries_view(&self) -> Seq<RigInputEntry> {
        self.entries@
    }

    pub closed spec fn taps_view(&self) -> Seq<Seq<Tap>> {
        self.taps@.map_values(|t: Vec<(String, usize)>| tap_views(t@))
    }

    pub closed spec fn enabled_view(&self) -> Seq<bool> {
        self.enabled@
    }

    /// Lengths agree and no two active inputs share a tap.
    pub open spec fn wf(&self) -> bool {
        &&& self.names().len() == self.entries_view().len()
        &&& self.taps_view().len() == self.entries_view().len()
        &&& self.enabled_view().len() == self.entries_view().len()
        &&& isolated(self.taps_view(), self.enabled_view())
    }

    proof fn lemma_views(&self)
        ensures
            self.names().len() == self.entries@.len(),
            self.taps_view().len() == self.taps@.len(),
            forall|i: int| 0 <= i < self.entries@.len() ==> #[trigger] self.names()[i] == self.entries@[i].name@,
            forall|i: int| 0 <= i < self.taps@.len() ==> #[trigger] self.taps_view()[i] == tap_views(self.taps@[i]@),
    {
    }

    /// Bring up a rig: compute each input's taps against `registry`, then
    /// activate, in order, every buildable input whose taps meet none of an
    /// input activated before it. An input left out stays defined and can
    /// be activated once its taps are free.
    pub fn new(entries: Vec<RigInputEntry>, registry: &[IoBinding]) -> (r: Self)
        ensures
            r.wf(),
            r.entries_view() == entries@,
            forall|i: int|
                0 <= i < entries@.len() ==> #[trigger] r.taps_view()[i] == input_taps_spec(
                    entries@[i].input,
                    registry@,
                ),
            greedy_activation(
                r.taps_view(),
                entries@.map_values(|e: RigInputEntry| e.buildable),
                r.enabled_view(),
            ),
    {
        let mut taps: Vec<Vec<(String, usize)>> = Vec::new();
        let mut i: usize = 0;
        while i < entries.len()
            invariant
                i <= entries@.len(),
                taps@.len() == i,
                forall|k: int| 0 <= k < i ==> tap_views(#[trigger] taps@[k]@) == input_taps_spec(entries@[k].input, registry@),
            decreases entries@.len() - i,
        {
            let t = input_taps(&entries[i].input, registry);
            taps.push(t);
            i = i + 1;
        }
        let ghost tv = taps@.map_values(|t: Vec<(String, usize)>| tap_views(t@));
        let ghost bv = entries@.map_values(|e: RigInputEntry| e.buildable);
        let mut enabled: Vec<bool> = Vec::new();
        let mut i: usize = 0;
        while i < entries.len()
            invariant
                i <= entries@.len(),
                taps@.len() == entries@.len(),
                tv == taps@.map_values(|t: Vec<(String, usize)>| tap_views(t@)),
                bv == entries@.map_values(|e: RigInputEntry| e.buildable),
                enabled@.len() == i,
                forall|k: int|
                    0 <= k < i ==> (#[trigger] enabled@[k] == (bv[k] && forall|j: int|
                        0 <= j < k ==> !(enabled@[j] && taps_meet(tv[k], tv[j])))),
                forall|a: int, b: int|
                    0 <= a < i && 0 <= b < i && a != b && enabled@[a] && enabled@[b] ==> !taps_meet(tv[a], tv[b]),
            decreases entries@.len() - i,
        {
            let on = if entries[i].buildable {
                match first_conflict(&taps, &enabled, &taps[i]) {
                    Some((j, _)) => {
                        proof {
                            let tvp = taps@.map_values(|t: Vec<(String, usize)>| tap_views(t@)).take(i as int);
                            assert(tvp[j as int] == tv[j as int]);
                            assert(tap_views(taps@[i as int]@) == tv[i as int]);
                            assert(taps_meet(tv[i as int], tv[j as int]));
                        }
                        false
                    },
                    None => {
                        proof {
                            let tvp = taps@.map_values(|t: Vec<(String, usize)>| tap_views(t@)).take(i as int);
                            assert(tap_views(taps@[i as int]@) == tv[i as int]);
                            assert forall|j: int| 0 <= j < i implies tvp[j] == tv[j] by {}
                        }
                        true
                    },
                }
            } else {
                false
            };
            proof {
                if on {
                    assert forall|j: int| 0 <= j < i implies !(enabled@[j] && taps_meet(tv[i as int], tv[j])) by {
                        if enabled@[j] && taps_meet(tv[i as int], tv[j]) {
                            let x = choose|x: Tap| tv[i as int].contains(x) && tv[j].contains(x);
                            assert(taps_meet(tv[i as int], tv[j]));
                        }
                    }
                }
            }
            let ghost old_enabled = enabled@;
            enabled.push(on);
            proof {
                assert(bv[i as int] == entries@[i as int].buildable);
                assert(forall|k: int| 0 <= k < i ==> enabled@[k] == old_enabled[k]);
                assert(enabled@[i as int] == (bv[i as int] && forall|j: int|
                    0 <= j < i ==> !(enabled@[j] && taps_meet(tv[i as int], tv[j]))));
                assert forall|a: int, b: int|
                    0 <= a < i + 1 && 0 <= b < i + 1 && a != b && enabled@[a] && enabled@[b] implies !taps_meet(
                    tv[a],
                    tv[b],
                ) by {
                    if a == i {
                        assert(enabled@[a] == (bv[a] && forall|j: int|
                            0 <= j < a ==> !(enabled@[j] && taps_meet(tv[a], tv[j]))));
                    } else if b == i {
                        assert(enabled@[b] == (bv[b] && forall|j: int|
                            0 <= j < b ==> !(enabled@[j] && taps_meet(tv[b], tv[j]))));
                        assert(taps_meet(tv[a], tv[b]) ==> taps_meet(tv[b], tv[a]));
                    }
                }
            }
            i = i + 1;
        }
        RigActivation { entries, taps, enabled }
    }
}

/// Whether `want` holds tap `x`.
fn holds_tap(want: &Vec<(String, usize)>, x: &(String, usize)) -> (r: bool)
    ensures
        r == tap_views(want@).contains((x.0@, x.1)),
{
    let mut k: usize = 0;
    while k < want.len()
        invariant
            k <= want@.len(),
            forall|m: int| 0 <= m < k ==> tap_views(want@)[m] != (x.0@, x.1),
        decreases want@.len() - k,
    {
        if want[k].1 == x.1 && want[k].0 == x.0 {
            assert(tap_views(want@)[k as int] == (x.0@, x.1));
            return true;
        }
        k = k + 1;
    }
    false
}

/// The first active input whose taps meet `want`, with the first of its
/// taps that `want` holds.
fn first_conflict(taps: &Vec<Vec<(String, usize)>>, enabled: &Vec<bool>, want: &Vec<(String, usize)>) -> (r: Option<(usize, usize)>)
    requires
        enabled@.len() <= taps@.len(),
    ensures
        ({
            let tv = taps@.map_values(|t: Vec<(String, usize)>| tap_views(t@)).take(enabled@.len() as int);
            match r {
                Some((j, t)) => j < enabled@.len() && t < taps@[j as int]@.len() && enabled@[j as int]
                    && taps_meet(tap_views(want@), tv[j as int]) && first_holder_from(
                    tv,
                    enabled@,
                    tap_views(want@),
                    0,
                ) == j as int && first_shared_from(tv[j as int], tap_views(want@), 0) == t as int,
                None => first_holder_from(tv, enabled@, tap_views(want@), 0) == -1 && forall|j: int|
                    0 <= j < enabled@.len() ==> !(enabled@[j] && taps_meet(tap_views(want@), tv[j])),
            }
        }),
{
    let ghost tv = taps@.map_values(|t: Vec<(String, usize)>| tap_views(t@)).take(enabled@.len() as int);
    let ghost wv = tap_views(want@);
    let mut j: usize = 0;
    while j < enabled.len()
        invariant
            j <= enabled@.len(),
            enabled@.len() <= taps@.len(),
            tv == taps@.map_values(|t: Vec<(String, usize)>| tap_views(t@)).take(enabled@.len() as int),
            wv == tap_views(want@),
            first_holder_from(tv, enabled@, wv, 0) == first_holder_from(tv, enabled@, wv, j as int),
            forall|k: int| 0 <= k < j ==> !(enabled@[k] && taps_meet(wv, tv[k])),
        decreases enabled@.len() - j,
    {
        if enabled[j] {
            let tj = &taps[j];
            assert(tv[j as int] == tap_views(tj@));
            let mut t: usize = 0;
            while t < tj.len()
                invariant
                    t <= tj@.len(),
                    j < enabled@.len(),
                    enabled@[j as int],
                    enabled@.len() <= taps@.len(),
                    tj@ == taps@[j as int]@,
                    tv == taps@.map_values(|t: Vec<(String, usize)>| tap_views(t@)).take(enabled@.len() as int),
                    wv == tap_views(want@),
                    first_holder_from(tv, enabled@, wv, 0) == first_holder_from(tv, enabled@, wv, j as int),
                    forall|k: int| 0 <= k < j ==> !(enabled@[k] && taps_meet(wv, tv[k])),
                    tv[j as int] == tap_views(tj@),
                    first_shared_from(tv[j as int], wv, 0) == first_shared_from(tv[j as int], wv, t as int),
                    forall|m: int| 0 <= m < t ==> !wv.contains(tv[j as int][m]),
                decreases tj@.len() - t,
            {
                assert(tv[j as int][t as int] == (tj@[t as int].0@, tj@[t as int].1));
                if holds_tap(want, &tj[t]) {
                    proof {
                        let x = tv[j as int][t as int];
                        assert(wv.contains(x));
                        assert(0 <= t < tv[j as int].len());
                        assert(tv[j as int].contains(x));
                        assert(taps_meet(wv, tv[j as int]));
                    }
                    return Some((j, t));
                }
                t = t + 1;
            }
            proof {
                if taps_meet(wv, tv[j as int]) {
                    let x = choose|x: Tap| wv.contains(x) && tv[j as int].contains(x);
                    let m = choose|m: int| 0 <= m < tv[j as int].len() && tv[j as int][m] == x;
                    assert(!wv.contains(tv[j as int][m]));
                }
            }
        }
        j = j + 1;
    }
    None
}

/// Entry `e` with preset slot `slot` active.
pub open spec fn with_preset(e: RigInputEntry, slot: usize) -> RigInputEntry {
    RigInputEntry {
        name: e.name,
        input: RigInput {
            io_binding_ids: e.input.io_binding_ids,
            io: e.input.io,
            endpoint: e.input.endpoint,
            bank_slots: e.input.bank_slots,
            active_preset: slot,
            active_scene: e.input.active_scene,
        },
        buildable: e.buildable,
    }
}

/// Entry `e` with scene `scene` active.
pub open spec fn with_scene(e: RigInputEntry, scene: usize) -> RigInputEntry {
    RigInputEntry {
        name: e.name,
        input: RigInput {
            io_binding_ids: e.input.io_binding_ids,
            io: e.input.io,
            endpoint: e.input.endpoint,
            bank_slots: e.input.bank_slots,
            active_preset: e.input.active_preset,
            active_scene: scene,
        },
        buildable: e.buildable,
    }
}

/// The number of scenes of a preset.
pub const SCENE_COUNT: usize = 8;

fn find_entry(entries: &Vec<RigInputEntry>, name: &String) -> (r: Option<usize>)
    ensures
        match r {
            Some(i) => i < entries@.len() && pos_from_names(entries@, name@) == i as int,
            None => pos_from_names(entries@, name@) == -1,
        },
{
    let ghost names = entries@.map_values(|e: RigInputEntry| e.name@);
    let mut i: usize = 0;
    while i < entries.len()
        invariant
            i <= entries@.len(),
            names == entries@.map_values(|e: RigInputEntry| e.name@),
            crate::endpoints::pos_from(names, name@, 0) == crate::endpoints::pos_from(names, name@, i as int),
        decreases entries@.len() - i,
    {
        if entries[i].name == *name {
            return Some(i);
        }
        i = i + 1;
    }
    None
}

/// Where the input named `name` stands, or -1.
pub open spec fn pos_from_names(entries: Seq<RigInputEntry>, name: Seq<char>) -> int {
    crate::endpoints::pos_from(entries.map_values(|e: RigInputEntry| e.name@), name, 0)
}

fn slot_present(slots: &Vec<usize>, slot: usize) -> (r: bool)
    ensures
        r == slots@.contains(slot),
{
    let mut k: usize = 0;
    while k < slots.len()
        invariant
            k <= slots@.len(),
            forall|m: int| 0 <= m < k ==> slots@[m] != slot,
        decreases slots@.len() - k,
    {
        if slots[k] == slot {
            return true;
        }
        k = k + 1;
    }
    false
}

impl RigActivation {
    /// Whether the input named `name` is active.
    pub fn is_enabled(&self, name: &String) -> (r: bool)
        requires
            self.wf(),
        ensures
            r == (pos_from_names(self.entries_view(), name@) >= 0 && self.enabled_view()[pos_from_names(
                self.entries_view(),
                name@,
            )]),
    {
        match find_entry(&self.entries, name) {
            Some(i) => self.enabled[i],
            None => false,
        }
    }

    /// Activate the input named `name`. Refused when the input is unknown,
    /// when an active input holds one of its taps (the first such input,
    /// in order, and the first of its taps it holds, are reported), or when
    /// its active preset does not project to a chain. Activating an active
    /// input changes nothing. Returns whether the input was newly activated.
    pub fn enable_input(&mut self, name: &String) -> (r: Result<bool, RigError>)
        requires
            old(self).wf(),
        ensures
            final(self).wf(),
            final(self).entries_view() == old(self).entries_view(),
            final(self).taps_view() == old(self).taps_view(),
            ({
                let i = pos_from_names(old(self).entries_view(), name@);
                let tv = old(self).taps_view();
                let en = old(self).enabled_view();
                if i < 0 {
                    r matches Err(RigError::UnknownInput) && final(self).enabled_view() == en
                } else if en[i] {
                    r matches Ok(false) && final(self).enabled_view() == en
                } else if first_holder_from(tv, en, tv[i], 0) >= 0 {
                    let h = first_holder_from(tv, en, tv[i], 0);
                    let t = first_shared_from(tv[h], tv[i], 0);
                    &&& r matches Err(RigError::TapInUse { device, channel, holder })
                    &&& r->Err_0->TapInUse_device@ == tv[h][t].0
                    &&& r->Err_0->TapInUse_channel == tv[h][t].1
                    &&& r->Err_0->TapInUse_holder@ == old(self).entries_view()[h].name@
                    &&& final(self).enabled_view() == en
                } else if !old(self).entries_view()[i].buildable {
                    r matches Err(RigError::NotBuildable) && final(self).enabled_view() == en
                } else {
                    r matches Ok(true) && final(self).enabled_view() == en.update(i, true)
                }
            }),
    {
        proof {
            self.lemma_views();
        }
        let i = match find_entry(&self.entries, name) {
            None => return Err(RigError::UnknownInput),
            Some(i) => i,
        };
        if self.enabled[i] {
            return Ok(false);
        }
        let ghost tv = self.taps_view();
        let ghost en = self.enabled_view();
        proof {
            assert(self.taps@.map_values(|t: Vec<(String, usize)>| tap_views(t@)).take(
                self.enabled@.len() as int,
            ) =~= tv);
        }
        match first_conflict(&self.taps, &self.enabled, &self.taps[i]) {
            Some((j, t)) => {
                let tap = &self.taps[j][t];
                let err = RigError::TapInUse {
                    device: tap.0.clone(),
                    channel: tap.1,
                    holder: self.entries[j].name.clone(),
                };
                proof {
                    assert(tv[j as int][t as int] == (self.taps@[j as int]@[t as int].0@, self.taps@[j as int]@[t as int].1));
                }
                return Err(err);
            },
            None => {},
        }
        if !self.entries[i].buildable {
            return Err(RigError::NotBuildable);
        }
        self.enabled.set(i, true);
        proof {
            assert forall|a: int, b: int|
                0 <= a < tv.len() && 0 <= b < tv.len() && a != b && self.enabled@[a] && self.enabled@[b] implies !taps_meet(
                tv[a],
                tv[b],
            ) by {
                if a == i {
                    assert(!(en[b] && taps_meet(tv[i as int], tv[b])));
                } else if b == i {
                    assert(!(en[a] && taps_meet(tv[i as int], tv[a])));
                    assert(taps_meet(tv[a], tv[b]) ==> taps_meet(tv[b], tv[a]));
                }
            }
        }
        Ok(true)
    }

    /// Deactivate the input named `name`, freeing its taps. Refused when
    /// the input is unknown; returns whether it was active.
    pub fn disable_input(&mut self, name: &String) -> (r: Result<bool, RigError>)
        requires
            old(self).wf(),
        ensures
            final(self).wf(),
            final(self).entries_view() == old(self).entries_view(),
            final(self).taps_view() == old(self).taps_view(),
            ({
                let i = pos_from_names(old(self).entries_view(), name@);
                if i < 0 {
                    r matches Err(RigError::UnknownInput) && final(self).enabled_view() == old(self).enabled_view()
                } else {
                    r == Ok::<bool, RigError>(old(self).enabled_view()[i]) && final(self).enabled_view()
                        == old(self).enabled_view().update(i, false)
                }
            }),
    {
        proof {
            self.lemma_views();
        }
        let i = match find_entry(&self.entries, name) {
            None => return Err(RigError::UnknownInput),
            Some(i) => i,
        };
        let was = self.enabled[i];
        self.enabled.set(i, false);
        Ok(was)
    }

    /// Make bank slot `slot` the active preset of the active input `name`.
    /// Refused when the input is not active, or its bank has no such slot.
    pub fn switch_preset(&mut self, name: &String, slot: usize) -> (r: Result<(), RigError>)
        requires
            old(self).wf(),
        ensures
            final(self).wf(),
            final(self).taps_view() == old(self).taps_view(),
            final(self).enabled_view() == old(self).enabled_view(),
            ({
                let i = pos_from_names(old(self).entries_view(), name@);
                if i < 0 || !old(self).enabled_view()[i] {
                    r matches Err(RigError::NotActive) && final(self).entries_view() == old(self).entries_view()
                } else if !old(self).entries_view()[i].input.bank_slots@.contains(slot) {
                    r matches Err(RigError::NoBankSlot { slot: s }) && s == slot && final(self).entries_view()
                        == old(self).entries_view()
                } else {
                    r is Ok && final(self).entries_view() == old(self).entries_view().update(
                        i,
                        with_preset(old(self).entries_view()[i], slot),
                    )
                }
            }),
    {
        proof {
            self.lemma_views();
        }
        let i = match find_entry(&self.entries, name) {
            None => return Err(RigError::NotActive),
            Some(i) => i,
        };
        if !self.enabled[i] {
            return Err(RigError::NotActive);
        }
        if !slot_present(&self.entries[i].input.bank_slots, slot) {
            return Err(RigError::NoBankSlot { slot });
        }
        self.entries[i].input.active_preset = slot;
        proof {
            assert(self.entries@ =~= old(self).entries@.update(i as int, with_preset(old(self).entries@[i as int], slot)));
            assert(self.names() =~= old(self).names());
        }
        Ok(())
    }

    /// Make scene `scene` (1 to 8) the active scene of the active input
    /// `name`. Refused when the scene is out of range, or the input is
    /// not active.
    pub fn switch_scene(&mut self, name: &String, scene: usize) -> (r: Result<(), RigError>)
        requires
            old(self).wf(),
        ensures
            final(self).wf(),
            final(self).taps_view() == old(self).taps_view(),
            final(self).enabled_view() == old(self).enabled_view(),
            ({
                let i = pos_from_names(old(self).entries_view(), name@);
                if !(1 <= scene <= SCENE_COUNT) {
                    r matches Err(RigError::SceneOutOfRange { scene: s }) && s == scene
                        && final(self).entries_view() == old(self).entries_view()
                } else if i < 0 || !old(self).enabled_view()[i] {
                    r matches Err(RigError::NotActive) && final(self).entries_view() == old(self).entries_view()
                } else {
                    r is Ok && final(self).entries_view() == old(self).entries_view().update(
                        i,
                        with_scene(old(self).entries_view()[i], scene),
                    )
                }
            }),
    {
        proof {
            self.lemma_views();
        }
        if scene < 1 || scene > SCENE_COUNT {
            return Err(RigError::SceneOutOfRange { scene });
        }
        let i = match find_entry(&self.entries, name) {
            None => return Err(RigError::NotActive),
            Some(i) => i,
        };
        if !self.enabled[i] {
            return Err(RigError::NotActive);
        }
        self.entries[i].input.active_scene = scene;
        proof {
            assert(self.entries@ =~= old(self).entries@.update(i as int, with_scene(old(self).entries@[i as int], scene)));
            assert(self.names() =~= old(self).names());
        }
        Ok(())
    }
}

impl RigActivation {
    /// The active preset slot of the input named `name`, if it exists.
    pub fn active_preset_of(&self, name: &String) -> (r: Option<usize>)
        ensures
            ({
                let i = pos_from_names(self.entries_view(), name@);
                if i < 0 {
                    r is None
                } else {
                    r == Some(self.entries_view()[i].input.active_preset)
                }
            }),
    {
        match find_entry(&self.entries, name) {
            Some(i) => Some(self.entries[i].input.active_preset),
            None => None,
        }
    }

    /// The active scene of the input named `name`, if it exists.
    pub fn active_scene_of(&self, name: &String) -> (r: Option<usize>)
        ensures
            ({
                let i = pos_from_names(self.entries_view(), name@);
                if i < 0 {
                    r is None
                } else {
                    r == Some(self.entries_view()[i].input.active_scene)
                }
            }),
    {
        match find_entry(&self.entries, name) {
            Some(i) => Some(self.entries[i].input.active_scene),
            None => None,
        }
    }
}

/// The names of `order` that `names` holds, in order.
pub open spec fn keep_known(order: Seq<Seq<char>>, names: Seq<Seq<char>>) -> Seq<Seq<char>>
    decreases order.len(),
{
    if order.len() == 0 {
        Seq::empty()
    } else {
        let prev = keep_known(order.drop_last(), names);
        if names.contains(order.last()) {
            prev.push(order.last())
        } else {
            prev
        }
    }
}

/// The order a rig's inputs project in: the persisted `chain_order` first,
/// keeping only names of existing inputs and each once, then every input
/// it leaves out, in `input_names` order (the rig's name order), so a newly
/// added input still shows.
pub fn ordered_input_names(chain_order: &Vec<String>, input_names: &Vec<String>) -> (r: Vec<String>)
    ensures
        string_views(r@) == first_seen(
            keep_known(string_views(chain_order@), string_views(input_names@)) + string_views(input_names@),
        ).0,
{
    let ghost names = string_views(input_names@);
    let ghost order = string_views(chain_order@);
    let mut candidates: Vec<String> = Vec::new();
    let mut k: usize = 0;
    while k < chain_order.len()
        invariant
            k <= chain_order@.len(),
            names == string_views(input_names@),
            order == string_views(chain_order@),
            string_views(candidates@) == keep_known(order.take(k as int), names),
        decreases chain_order@.len() - k,
    {
        proof {
            assert(order.take(k + 1).drop_last() =~= order.take(k as int));
            assert(order.take(k + 1).last() == chain_order@[k as int]@);
        }
        match find_string(input_names, &chain_order[k]) {
            Some(j) => {
                assert(names[j as int] == chain_order@[k as int]@);
                let ghost prev = candidates@;
                candidates.push(chain_order[k].clone());
                assert(string_views(candidates@) =~= string_views(prev).push(chain_order@[k as int]@));
            },
            None => {
                assert(!names.contains(chain_order@[k as int]@)) by {
                    if names.contains(chain_order@[k as int]@) {
                        let j = choose|j: int| 0 <= j < names.len() && names[j] == chain_order@[k as int]@;
                        assert(input_names@[j]@ == chain_order@[k as int]@);
                    }
                }
            },
        }
        k = k + 1;
    }
    assert(order.take(chain_order@.len() as int) =~= order);
    let ghost known = string_views(candidates@);
    let mut m: usize = 0;
    while m < input_names.len()
        invariant
            m <= input_names@.len(),
            names == string_views(input_names@),
            string_views(candidates@) == known + names.take(m as int),
        decreases input_names@.len() - m,
    {
        let ghost prev = candidates@;
        candidates.push(input_names[m].clone());
        proof {
            assert(string_views(candidates@) =~= string_views(prev).push(input_names@[m as int]@));
            assert(names.take(m + 1) =~= names.take(m as int).push(names[m as int]));
        }
        m = m + 1;
    }
    assert(names.take(input_names@.len() as int) =~= names);
    let ghost all = string_views(candidates@);
    let mut seen: Vec<String> = Vec::new();
    let mut i: usize = 0;
    while i < candidates.len()
        invariant
            i <= candidates@.len(),
            all == string_views(candidates@),
            string_views(seen@) == first_seen(all.take(i as int)).0,
        decreases candidates@.len() - i,
    {
        let d = &candidates[i];
        proof {
            assert(all.take(i + 1).drop_last() =~= all.take(i as int));
            assert(all.take(i + 1).last() == d@);
        }
        match find_string(&seen, d) {
            Some(_) => {},
            None => {
                let ghost prev = seen@;
                seen.push(d.clone());
                assert(string_views(seen@) =~= string_views(prev).push(d@));
            },
        }
        i = i + 1;
    }
    assert(all.take(candidates@.len() as int) =~= all);
    seen
}

} // verus!
