//! What loading a preset into the engine consists of: the chain to build and
//! which of its stages start bypassed, the pitch shift, the cabinet IR to
//! load (embedded or from the user's folder) or clear, its gain, and the
//! input filters to install.

use vstd::prelude::*;

use super::manager::Manager;
use super::stage_config::StageConfig;
use super::Preset;
use crate::collation::{lemma_name_le_antisymmetric, name_le, names_of, sort_by_name, sorted_by_name};
use crate::preset::manager::views_of;
use crate::text::same_text;

verus! {

/// Positions, in order, of the bypassed stages of `stages`.
pub open spec fn spec_bypassed_positions(stages: Seq<StageConfig>) -> Seq<usize>
    decreases stages.len(),
{
    if stages.len() == 0 {
        Seq::empty()
    } else {
        let rest = spec_bypassed_positions(stages.drop_last());
        if stages.last().bypassed {
            rest.push((stages.len() - 1) as usize)
        } else {
            rest
        }
    }
}

/// The positions listed are exactly those of the bypassed stages, each
/// once, in increasing order.
pub proof fn law_bypassed_positions_are_the_bypassed_stages(stages: Seq<StageConfig>)
    requires
        stages.len() <= usize::MAX,
    ensures
        forall|i: int|
            0 <= i < stages.len() ==> (spec_bypassed_positions(stages).contains(i as usize)
                <==> (#[trigger] stages[i]).bypassed),
        forall|k: int|
            0 <= k < spec_bypassed_positions(stages).len() ==> (#[trigger] spec_bypassed_positions(
                stages,
            )[k]) < stages.len(),
        forall|k: int, l: int|
            0 <= k < l < spec_bypassed_positions(stages).len() ==> (#[trigger] spec_bypassed_positions(
                stages,
            )[k]) < (#[trigger] spec_bypassed_positions(stages)[l]),
    decreases stages.len(),
{
    if stages.len() > 0 {
        let init = stages.drop_last();
        law_bypassed_positions_are_the_bypassed_stages(init);
        let rest = spec_bypassed_positions(init);
        let r = spec_bypassed_positions(stages);
        let last = (stages.len() - 1) as usize;
        assert forall|i: int| 0 <= i < stages.len() implies (r.contains(i as usize) <==> (
        #[trigger] stages[i]).bypassed) by {
            if i < stages.len() - 1 {
                assert(stages[i] == init[i]);
                if r.contains(i as usize) {
                    let k = choose|k: int| 0 <= k < r.len() && r[k] == i as usize;
                    if k < rest.len() {
                        assert(r[k] == rest[k]);
                    }
                }
                if rest.contains(i as usize) {
                    let k = choose|k: int| 0 <= k < rest.len() && rest[k] == i as usize;
                    assert(r[k] == rest[k]);
                }
            } else {
                if stages.last().bypassed {
                    assert(r[r.len() - 1] == last);
                } else if r.contains(i as usize) {
                    let k = choose|k: int| 0 <= k < r.len() && r[k] == i as usize;
                    assert(r[k] == rest[k]);
                }
            }
        }
    }
}

/// The positions of the bypassed stages, to mark in a freshly built chain.
pub fn bypassed_positions(stages: &Vec<StageConfig>) -> (r: Vec<usize>)
    ensures
        r@ == spec_bypassed_positions(stages@),
{
    let mut r: Vec<usize> = Vec::new();
    let mut i: usize = 0;
    while i < stages.len()
        invariant
            i <= stages.len(),
            r@ == spec_bypassed_positions(stages@.take(i as int)),
        decreases stages.len() - i,
    {
        proof {
            assert(stages@.take(i as int + 1).drop_last() == stages@.take(i as int));
        }
        if stages[i].bypassed {
            r.push(i);
        }
        i = i + 1;
    }
    proof {
        assert(stages@.take(stages@.len() as int) == stages@);
    }
    r
}

/// A copy of a stage list.
pub fn copy_stages(stages: &Vec<StageConfig>) -> (r: Vec<StageConfig>)
    ensures
        r@ == stages@,
{
    let mut r: Vec<StageConfig> = Vec::new();
    let mut i: usize = 0;
    while i < stages.len()
        invariant
            i <= stages.len(),
            r@ == stages@.take(i as int),
        decreases stages.len() - i,
    {
        let s = &stages[i];
        r.push(StageConfig { stage_type: s.stage_type, bypassed: s.bypassed, settings: s.settings.clone() });
        proof {
            assert(stages@.take(i as int + 1) == stages@.take(i as int).push(stages@[i as int]));
        }
        i = i + 1;
    }
    proof {
        assert(stages@.take(stages@.len() as int) == stages@);
    }
    r
}

/// What happens to the cabinet when a preset loads.
#[derive(Debug, Clone, PartialEq, Eq)]
pub enum IrAction {
    /// The preset names an IR but there is no loader to read it with.
    Keep,
    /// The preset has no IR: the cabinet is cleared.
    Clear,
    /// Load the IR of this name from the plugin's embedded files.
    Embedded(String),
    /// Load the IR of this name from the user's folder.
    FromFolder(String),
}

/// Everything loading one preset sends to the engine.
#[derive(Debug, Clone)]
pub struct PresetLoadPlan {
    /// The chain, in order.
    pub stages: Vec<StageConfig>,
    /// Positions of the stages to mark bypassed once the chain is built.
    pub bypassed: Vec<usize>,
    pub pitch_shift_semitones: i32,
    pub ir: IrAction,
    /// Bit pattern of the cabinet gain (`f32`).
    pub ir_gain_bits: u32,
    /// Bit pattern of the high-pass cutoff, when the high-pass is enabled.
    pub highpass_bits: Option<u32>,
    /// Bit pattern of the low-pass cutoff, when the low-pass is enabled.
    pub lowpass_bits: Option<u32>,
}

/// The cabinet action for a preset's IR: clear without one; otherwise load
/// it, from the embedded set when it is there, else from the user's folder;
/// with no loader, leave the cabinet as it is.
pub open spec fn spec_ir_action(
    ir_name: Option<Seq<char>>,
    has_loader: bool,
    embedded: Seq<Seq<char>>,
) -> Option<(bool, Seq<char>)> {
    match ir_name {
        None => None,
        Some(n) => if !has_loader {
            None
        } else {
            Some((embedded.contains(n), n))
        },
    }
}

/// The plan's IR action, read back as `spec_ir_action` describes it.
pub open spec fn ir_action_view(a: IrAction) -> Option<(bool, Seq<char>)> {
    match a {
        IrAction::Keep => None,
        IrAction::Clear => None,
        IrAction::Embedded(n) => Some((true, n@)),
        IrAction::FromFolder(n) => Some((false, n@)),
    }
}

/// The plan a preset gives.
pub open spec fn plans(r: PresetLoadPlan, p: Preset, has_loader: bool, embedded: Seq<Seq<char>>) -> bool {
    &&& r.stages@ == p.stages@
    &&& r.bypassed@ == spec_bypassed_positions(p.stages@)
    &&& r.pitch_shift_semitones == p.pitch_shift_semitones
    &&& r.ir_gain_bits == p.ir_gain_bits
    &&& r.highpass_bits == if p.input_filters.hp_enabled {
        Some(p.input_filters.hp_cutoff_bits)
    } else {
        None
    }
    &&& r.lowpass_bits == if p.input_filters.lp_enabled {
        Some(p.input_filters.lp_cutoff_bits)
    } else {
        None
    }
    &&& (p.ir_name is None <==> r.ir == IrAction::Clear)
    &&& (p.ir_name is Some && !has_loader <==> r.ir == IrAction::Keep)
    &&& ir_action_view(r.ir) == spec_ir_action(
        match p.ir_name {
            Some(n) => Some(n@),
            None => None,
        },
        has_loader,
        embedded,
    )
}

/// The plan for loading `p`. `embedded` lists the embedded IR names.
pub fn plan_for(p: &Preset, has_loader: bool, embedded: &Vec<String>) -> (r: PresetLoadPlan)
    ensures
        plans(r, *p, has_loader, views_of(embedded@)),
{
    let ir = match &p.ir_name {
        None => IrAction::Clear,
        Some(n) => {
            if !has_loader {
                IrAction::Keep
            } else if crate::preset::manager::contains_text(embedded, n.as_str()) {
                IrAction::Embedded(n.clone())
            } else {
                IrAction::FromFolder(n.clone())
            }
        },
    };
    let stages = copy_stages(&p.stages);
    PresetLoadPlan {
        bypassed: bypassed_positions(&p.stages),
        stages,
        pitch_shift_semitones: p.pitch_shift_semitones,
        ir,
        ir_gain_bits: p.ir_gain_bits,
        highpass_bits: if p.input_filters.hp_enabled {
            Some(p.input_filters.hp_cutoff_bits)
        } else {
            None
        },
        lowpass_bits: if p.input_filters.lp_enabled {
            Some(p.input_filters.lp_cutoff_bits)
        } else {
            None
        },
    }
}

/// The plan for loading the preset called `name` from `manager`: none
/// without a manager or without such a preset; otherwise the plan of the
/// first listed preset of that name.
pub fn plan_preset_load(
    manager: Option<&Manager>,
    has_loader: bool,
    embedded: &Vec<String>,
    name: &str,
) -> (r: Option<PresetLoadPlan>)
    ensures
        match manager {
            None => r is None,
            Some(m) => match r {
                None => forall|i: int|
                    0 <= i < m.spec_presets().len() ==> (#[trigger] m.spec_presets()[i]).name@
                        != name@,
                Some(plan) => exists|i: int|
                    0 <= i < m.spec_presets().len() && (#[trigger] m.spec_presets()[i]).name@
                        == name@ && (forall|j: int|
                        0 <= j < i ==> (#[trigger] m.spec_presets()[j]).name@ != name@) && plans(
                        plan,
                        m.spec_presets()[i],
                        has_loader,
                        views_of(embedded@),
                    ),
            },
        },
{
    let m = match manager {
        Some(m) => m,
        None => return None,
    };
    match m.get_preset_by_name(name) {
        Some(p) => Some(plan_for(p, has_loader, embedded)),
        None => None,
    }
}

/// A preset without an IR clears the cabinet; with one, a plan made without
/// an IR loader leaves the cabinet alone, and otherwise loads that same IR,
/// from the embedded set exactly when it is there.
pub proof fn law_the_cabinet_follows_the_presets_ir(
    r: PresetLoadPlan,
    p: Preset,
    has_loader: bool,
    embedded: Seq<Seq<char>>,
)
    requires
        plans(r, p, has_loader, embedded),
    ensures
        p.ir_name is None ==> r.ir == IrAction::Clear,
        p.ir_name is Some && !has_loader ==> r.ir == IrAction::Keep,
        p.ir_name is Some && has_loader && embedded.contains(p.ir_name->0@) ==> (r.ir matches IrAction::Embedded(n) && n@ == p.ir_name->0@),
        p.ir_name is Some && has_loader && !embedded.contains(p.ir_name->0@) ==> (r.ir matches IrAction::FromFolder(n) && n@ == p.ir_name->0@),
        r.stages@ == p.stages@,
        r.pitch_shift_semitones == p.pitch_shift_semitones,
        r.ir_gain_bits == p.ir_gain_bits,
        r.highpass_bits is Some <==> p.input_filters.hp_enabled,
        r.lowpass_bits is Some <==> p.input_filters.lp_enabled,
        p.input_filters.hp_enabled ==> r.highpass_bits == Some(p.input_filters.hp_cutoff_bits),
        p.input_filters.lp_enabled ==> r.lowpass_bits == Some(p.input_filters.lp_cutoff_bits),
{
}

/// Some preset of `presets` uses the IR called `n`.
pub open spec fn referenced_ir(presets: Seq<Preset>, n: Seq<char>) -> bool {
    exists|i: int|
        0 <= i < presets.len() && (#[trigger] presets[i]).ir_name is Some && presets[i].ir_name->0@
            == n
}

/// Names in increasing order, none repeated.
pub open spec fn strictly_sorted(s: Seq<Seq<char>>) -> bool {
    forall|i: int, j: int| 0 <= i < j < s.len() ==> name_le(#[trigger] s[i], #[trigger] s[j]) && s[i] != s[j]
}

/// A preset list ending in `ps.last()` refers to `n` when its front does or
/// its last preset does.
proof fn lemma_referenced_ir_last(ps: Seq<Preset>, n: Seq<char>)
    requires
        ps.len() > 0,
    ensures
        referenced_ir(ps, n) <==> (referenced_ir(ps.drop_last(), n) || (ps.last().ir_name is Some
            && ps.last().ir_name->0@ == n)),
{
    let front = ps.drop_last();
    if referenced_ir(ps, n) {
        let m = choose|m: int|
            0 <= m < ps.len() && (#[trigger] ps[m]).ir_name is Some && ps[m].ir_name->0@ == n;
        if m < front.len() {
            assert(front[m] == ps[m]);
        }
    }
    if referenced_ir(front, n) {
        let m = choose|m: int|
            0 <= m < front.len() && (#[trigger] front[m]).ir_name is Some && front[m].ir_name->0@
                == n;
        assert(front[m] == ps[m]);
    }
    if ps.last().ir_name is Some && ps.last().ir_name->0@ == n {
        assert(ps[ps.len() - 1] == ps.last());
    }
}

/// `s.push(x)` contains exactly what `s` contains, and `x`.
proof fn lemma_push_contains<A>(s: Seq<A>, x: A, n: A)
    ensures
        s.push(x).contains(n) <==> (s.contains(n) || x == n),
{
    if s.push(x).contains(n) {
        let k = choose|k: int| 0 <= k < s.push(x).len() && s.push(x)[k] == n;
        if k < s.len() {
            assert(s[k] == n);
        }
    }
    if s.contains(n) {
        let k = choose|k: int| 0 <= k < s.len() && s[k] == n;
        assert(s.push(x)[k] == n);
    }
    if x == n {
        assert(s.push(x)[s.len() as int] == n);
    }
}

/// Two lists of names holding the same strings hold the same names.
pub proof fn lemma_views_contains_same(a: Seq<String>, b: Seq<String>, n: Seq<char>)
    requires
        a.to_multiset() == b.to_multiset(),
    ensures
        views_of(a).contains(n) <==> views_of(b).contains(n),
{
    broadcast use vstd::seq_lib::group_to_multiset_ensures;

    if views_of(a).contains(n) {
        let k = choose|k: int| 0 <= k < views_of(a).len() && views_of(a)[k] == n;
        assert(a.contains(a[k]));
        assert(a.to_multiset().count(a[k]) > 0);
        assert(b.to_multiset().count(a[k]) > 0);
        let m = choose|m: int| 0 <= m < b.len() && b[m] == a[k];
        assert(views_of(b)[m] == n);
    }
    if views_of(b).contains(n) {
        let k = choose|k: int| 0 <= k < views_of(b).len() && views_of(b)[k] == n;
        assert(b.contains(b[k]));
        assert(b.to_multiset().count(b[k]) > 0);
        assert(a.to_multiset().count(b[k]) > 0);
        let m = choose|m: int| 0 <= m < a.len() && a[m] == b[k];
        assert(views_of(a)[m] == n);
    }
}

/// The IRs the presets refer to, each once, in name order (the set the
/// application preloads).
pub fn referenced_irs(presets: &[Preset]) -> (r: Vec<String>)
    ensures
        strictly_sorted(views_of(r@)),
        forall|n: Seq<char>| views_of(r@).contains(n) <==> referenced_ir(presets@, n),
{
    let mut names: Vec<String> = Vec::new();
    let mut i: usize = 0;
    while i < presets.len()
        invariant
            i <= presets@.len(),
            forall|n: Seq<char>|
                views_of(names@).contains(n) <==> referenced_ir(presets@.take(i as int), n),
        decreases presets@.len() - i,
    {
        let ghost vb = views_of(names@);
        let ghost p = presets@[i as int];
        let ghost t = presets@.take(i as int + 1);
        match &presets[i].ir_name {
            Some(n) => names.push(n.clone()),
            None => {},
        }
        proof {
            assert(t.drop_last() =~= presets@.take(i as int));
            assert(t.last() == p);
            if p.ir_name is Some {
                assert(views_of(names@) =~= vb.push(p.ir_name->0@));
            } else {
                assert(views_of(names@) =~= vb);
            }
            assert forall|n: Seq<char>| views_of(names@).contains(n) <==> referenced_ir(t, n) by {
                lemma_referenced_ir_last(t, n);
                if p.ir_name is Some {
                    lemma_push_contains(vb, p.ir_name->0@, n);
                }
            }
        }
        i = i + 1;
    }
    proof {
        assert(presets@.take(presets@.len() as int) =~= presets@);
    }
    let ghost unsorted = names@;
    let sorted = sort_by_name(names);
    proof {
        assert forall|n: Seq<char>| views_of(sorted@).contains(n) <==> views_of(unsorted).contains(n) by {
            lemma_views_contains_same(sorted@, unsorted, n);
        }
    }
    let ghost sv = views_of(sorted@);
    proof {
        assert(sv =~= names_of(sorted@));
    }
    let mut out: Vec<String> = Vec::new();
    let mut j: usize = 0;
    while j < sorted.len()
        invariant
            j <= sorted@.len(),
            sv == views_of(sorted@),
            sorted_by_name(sv),
            strictly_sorted(views_of(out@)),
            forall|n: Seq<char>| views_of(out@).contains(n) <==> sv.take(j as int).contains(n),
            j > 0 ==> out@.len() > 0 && views_of(out@).last() == sv[j - 1],
            j == 0 ==> out@.len() == 0,
        decreases sorted@.len() - j,
    {
        let ghost before = views_of(out@);
        let x = &sorted[j];
        let keep = if out.len() == 0 {
            true
        } else {
            !same_text(out[out.len() - 1].as_str(), x.as_str())
        };
        proof {
            assert(sv.take(j as int + 1) =~= sv.take(j as int).push(sv[j as int]));
        }
        if keep {
            out.push(x.clone());
            proof {
                assert(views_of(out@) =~= before.push(sv[j as int]));
                assert forall|a: int, b: int| 0 <= a < b < views_of(out@).len() implies name_le(
                    #[trigger] views_of(out@)[a],
                    #[trigger] views_of(out@)[b],
                ) && views_of(out@)[a] != views_of(out@)[b] by {
                    if b == before.len() {
                        assert(before.contains(before[a]));
                        assert(sv.take(j as int).contains(before[a]));
                        let ka = choose|k: int| 0 <= k < j && #[trigger] sv.take(j as int)[k] == before[a];
                        assert(sv[ka] == before[a]);
                        assert(name_le(sv[ka], sv[j as int]));
                        if before[a] == sv[j as int] {
                            if a < before.len() - 1 {
                                assert(name_le(before[a], before[before.len() - 1]));
                            }
                            assert(name_le(sv[j - 1], sv[j as int]));
                            lemma_name_le_antisymmetric(sv[j - 1], sv[j as int]);
                        }
                    } else {
                        assert(views_of(out@)[a] == before[a]);
                        assert(views_of(out@)[b] == before[b]);
                    }
                }
                assert forall|n: Seq<char>| views_of(out@).contains(n) <==> sv.take(j as int + 1).contains(n) by {
                    lemma_push_contains(before, sv[j as int], n);
                    lemma_push_contains(sv.take(j as int), sv[j as int], n);
                }
            }
        } else {
            proof {
                assert forall|n: Seq<char>| views_of(out@).contains(n) <==> sv.take(j as int + 1).contains(n) by {
                    lemma_push_contains(sv.take(j as int), sv[j as int], n);
                    if n == sv[j as int] {
                        assert(views_of(out@)[views_of(out@).len() - 1] == n);
                    }
                }
            }
        }
        j = j + 1;
    }
    proof {
        assert(sv.take(sv.len() as int) =~= sv);
        assert forall|n: Seq<char>| views_of(out@).contains(n) <==> referenced_ir(presets@, n) by {
            assert(views_of(out@).contains(n) <==> sv.take(sv.len() as int).contains(n));
            assert(views_of(sorted@).contains(n) <==> views_of(unsorted).contains(n));
            assert(views_of(unsorted).contains(n) <==> referenced_ir(
                presets@.take(presets@.len() as int),
                n,
            ));
        }
    }
    out
}

} // verus!
