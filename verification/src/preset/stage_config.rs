use vstd::prelude::*;

verus! {

/// Where a stage sits in the signal chain: amplifier stages come first,
/// effects after them.
#[derive(Debug, Clone, Copy, PartialEq, Eq, Structural)]
pub enum StageCategory {
    Amp,
    Effect,
}

/// The kinds of processing stage a chain can hold.
#[derive(Debug, Clone, Copy, PartialEq, Eq, Structural)]
pub enum StageType {
    Preamp,
    Compressor,
    ToneStack,
    PowerAmp,
    Level,
    NoiseGate,
    MultibandSaturator,
    Nam,
    Delay,
    Reverb,
    Eq,
}

/// Every stage type, in the order the user interface lists them.
pub open spec fn all_stage_types() -> Seq<StageType> {
    seq![
        StageType::Preamp,
        StageType::Compressor,
        StageType::ToneStack,
        StageType::PowerAmp,
        StageType::Level,
        StageType::NoiseGate,
        StageType::MultibandSaturator,
        StageType::Nam,
        StageType::Delay,
        StageType::Reverb,
        StageType::Eq,
    ]
}

/// The category of a stage type: delay, reverb and EQ are effects, every
/// other stage belongs to the amplifier.
pub open spec fn spec_category(t: StageType) -> StageCategory {
    match t {
        StageType::Delay | StageType::Reverb | StageType::Eq => StageCategory::Effect,
        _ => StageCategory::Amp,
    }
}

impl StageType {
    /// Every stage type, in listing order.
    pub fn all() -> (r: Vec<StageType>)
        ensures
            r@ == all_stage_types(),
    {
        vec![
            StageType::Preamp,
            StageType::Compressor,
            StageType::ToneStack,
            StageType::PowerAmp,
            StageType::Level,
            StageType::NoiseGate,
            StageType::MultibandSaturator,
            StageType::Nam,
            StageType::Delay,
            StageType::Reverb,
            StageType::Eq,
        ]
    }

    pub fn category(self) -> (r: StageCategory)
        ensures
            r == spec_category(self),
    {
        match self {
            StageType::Preamp
            | StageType::Compressor
            | StageType::ToneStack
            | StageType::PowerAmp
            | StageType::Level
            | StageType::NoiseGate
            | StageType::MultibandSaturator
            | StageType::Nam => StageCategory::Amp,
            StageType::Delay | StageType::Reverb | StageType::Eq => StageCategory::Effect,
        }
    }

    /// The stage types of one category, in listing order.
    pub fn for_category(cat: StageCategory) -> (r: Vec<StageType>)
        ensures
            r@ == all_stage_types().filter(|t: StageType| spec_category(t) == cat),
    {
        let all = StageType::all();
        let mut out: Vec<StageType> = Vec::new();
        let mut i: usize = 0;
        while i < all.len()
            invariant
                all@ == all_stage_types(),
                i <= all.len(),
                out@ == all@.take(i as int).filter(|t: StageType| spec_category(t) == cat),
            decreases all.len() - i,
        {
            let t = all[i];
            proof {
                assert(all@.take(i as int + 1).drop_last() == all@.take(i as int));
                reveal_with_fuel(Seq::filter, 1);
            }
            if t.category() == cat {
                out.push(t);
            }
            i = i + 1;
        }
        proof {
            assert(all@.take(all@.len() as int) == all@);
        }
        out
    }
}

/// The name a stage type is shown under.
pub open spec fn spec_display_name(t: StageType) -> Seq<char> {
    match t {
        StageType::Preamp => "Preamp"@,
        StageType::Compressor => "Compressor"@,
        StageType::ToneStack => "Tone Stack"@,
        StageType::PowerAmp => "Power Amp"@,
        StageType::Level => "Level"@,
        StageType::NoiseGate => "Noise Gate"@,
        StageType::MultibandSaturator => "Multiband Saturator"@,
        StageType::Nam => "NAM"@,
        StageType::Delay => "Delay"@,
        StageType::Reverb => "Reverb"@,
        StageType::Eq => "EQ"@,
    }
}

/// Every stage type is listed, once.
pub proof fn law_every_stage_type_is_listed_once(t: StageType)
    ensures
        all_stage_types().contains(t),
        all_stage_types().len() == 11,
        forall|i: int, j: int|
            0 <= i < j < all_stage_types().len() ==> #[trigger] all_stage_types()[i] != #[trigger] all_stage_types()[j],
{
    let s = all_stage_types();
    match t {
        StageType::Preamp => assert(s[0] == t),
        StageType::Compressor => assert(s[1] == t),
        StageType::ToneStack => assert(s[2] == t),
        StageType::PowerAmp => assert(s[3] == t),
        StageType::Level => assert(s[4] == t),
        StageType::NoiseGate => assert(s[5] == t),
        StageType::MultibandSaturator => assert(s[6] == t),
        StageType::Nam => assert(s[7] == t),
        StageType::Delay => assert(s[8] == t),
        StageType::Reverb => assert(s[9] == t),
        StageType::Eq => assert(s[10] == t),
    }
}

/// Different stage types are shown under different names, none empty.
pub proof fn law_display_names_tell_types_apart(a: StageType, b: StageType)
    ensures
        spec_display_name(a).len() > 0,
        a != b ==> spec_display_name(a) != spec_display_name(b),
{
    reveal_strlit("Preamp");
    reveal_strlit("Compressor");
    reveal_strlit("Tone Stack");
    reveal_strlit("Power Amp");
    reveal_strlit("Level");
    reveal_strlit("Noise Gate");
    reveal_strlit("Multiband Saturator");
    reveal_strlit("NAM");
    reveal_strlit("Delay");
    reveal_strlit("Reverb");
    reveal_strlit("EQ");
    if a != b {
        let x = spec_display_name(a);
        let y = spec_display_name(b);
        if x.len() == y.len() {
            assert(x[0] != y[0] || x[1] != y[1] || x[x.len() - 1] != y[y.len() - 1]);
        }
    }
}

impl StageType {
    /// The name the stage type is shown under (its `Display` text).
    pub fn display_name(self) -> (r: &'static str)
        ensures
            r@ == spec_display_name(self),
    {
        match self {
            StageType::Preamp => "Preamp",
            StageType::Compressor => "Compressor",
            StageType::ToneStack => "Tone Stack",
            StageType::PowerAmp => "Power Amp",
            StageType::Level => "Level",
            StageType::NoiseGate => "Noise Gate",
            StageType::MultibandSaturator => "Multiband Saturator",
            StageType::Nam => "NAM",
            StageType::Delay => "Delay",
            StageType::Reverb => "Reverb",
            StageType::Eq => "EQ",
        }
    }
}

/// One stage of a chain: its type, whether it is bypassed, and its remaining
/// parameters, kept as the serialized text the stage was stored with. The
/// chain logic never reads the parameters; they travel with the stage.
#[derive(Debug, Clone)]
pub struct StageConfig {
    pub stage_type: StageType,
    pub bypassed: bool,
    pub settings: String,
}

impl StageConfig {
    /// A stage of the given type with its default parameters (no stored
    /// settings) and not bypassed.
    pub fn from_type(kind: StageType) -> (r: StageConfig)
        ensures
            r.stage_type == kind,
            !r.bypassed,
            r.settings@ == Seq::<char>::empty(),
    {
        StageConfig { stage_type: kind, bypassed: false, settings: String::new() }
    }

    pub fn stage_type(&self) -> (r: StageType)
        ensures
            r == self.stage_type,
    {
        self.stage_type
    }

    pub fn category(&self) -> (r: StageCategory)
        ensures
            r == spec_category(self.stage_type),
    {
        self.stage_type.category()
    }

    pub fn bypassed(&self) -> (r: bool)
        ensures
            r == self.bypassed,
    {
        self.bypassed
    }

    /// Sets the bypass flag and leaves everything else as it was.
    pub fn set_bypassed(&mut self, bypassed: bool)
        ensures
            final(self).bypassed == bypassed,
            final(self).stage_type == old(self).stage_type,
            final(self).settings == old(self).settings,
    {
        self.bypassed = bypassed;
    }
}

/// The stages of a chain reordered so that every amplifier stage comes
/// before every effect stage, each group keeping its own order.
pub open spec fn amp_then_effects(stages: Seq<StageConfig>) -> Seq<StageConfig> {
    stages.filter(|s: StageConfig| spec_category(s.stage_type) == StageCategory::Amp) + stages.filter(
        |s: StageConfig| spec_category(s.stage_type) == StageCategory::Effect,
    )
}

/// Whether a stage is an amplifier stage.
pub open spec fn is_amp_stage(s: StageConfig) -> bool {
    spec_category(s.stage_type) == StageCategory::Amp
}

proof fn lemma_category_counts(stages: Seq<StageConfig>)
    ensures
        stages.filter(|s: StageConfig| spec_category(s.stage_type) == StageCategory::Amp).len()
            + stages.filter(|s: StageConfig| spec_category(s.stage_type) == StageCategory::Effect).len()
            == stages.len(),
    decreases stages.len(),
{
    let amp = |s: StageConfig| spec_category(s.stage_type) == StageCategory::Amp;
    let eff = |s: StageConfig| spec_category(s.stage_type) == StageCategory::Effect;
    if stages.len() > 0 {
        let init = stages.drop_last();
        lemma_category_counts(init);
        assert(init.push(stages.last()) == stages);
        init.lemma_filter_len_push(amp, stages.last());
        init.lemma_filter_len_push(eff, stages.last());
    }
}

/// Chain order keeps every stage (as many as before, each one found again)
/// and puts every amplifier stage before every effect stage.
pub proof fn law_chain_order_puts_amps_first(stages: Seq<StageConfig>)
    ensures
        amp_then_effects(stages).len() == stages.len(),
        forall|i: int| 0 <= i < stages.len() ==> amp_then_effects(stages).contains(#[trigger] stages[i]),
        forall|i: int|
            0 <= i < amp_then_effects(stages).len() ==> stages.contains(#[trigger] amp_then_effects(stages)[i]),
        forall|i: int, j: int|
            0 <= i < j < amp_then_effects(stages).len() ==> !(!is_amp_stage(
                #[trigger] amp_then_effects(stages)[i],
            ) && is_amp_stage(#[trigger] amp_then_effects(stages)[j])),
{
    broadcast use vstd::seq_lib::group_filter_ensures;

    let amp = |s: StageConfig| spec_category(s.stage_type) == StageCategory::Amp;
    let eff = |s: StageConfig| spec_category(s.stage_type) == StageCategory::Effect;
    let a = stages.filter(amp);
    let e = stages.filter(eff);
    let r = amp_then_effects(stages);
    lemma_category_counts(stages);
    assert forall|i: int| 0 <= i < stages.len() implies r.contains(#[trigger] stages[i]) by {
        if amp(stages[i]) {
            assert(a.contains(stages[i]));
            let k = choose|k: int| 0 <= k < a.len() && a[k] == stages[i];
            assert(r[k] == a[k]);
        } else {
            assert(eff(stages[i]));
            assert(e.contains(stages[i]));
            let k = choose|k: int| 0 <= k < e.len() && e[k] == stages[i];
            assert(r[a.len() + k] == e[k]);
        }
    }
    assert forall|i: int| 0 <= i < r.len() implies stages.contains(#[trigger] r[i]) by {
        if i < a.len() {
            assert(r[i] == a[i]);
            stages.lemma_filter_contains_rev(amp, a[i]);
        } else {
            assert(r[i] == e[i - a.len()]);
            stages.lemma_filter_contains_rev(eff, e[i - a.len()]);
        }
    }
    assert forall|i: int, j: int| 0 <= i < j < r.len() implies !(!is_amp_stage(#[trigger] r[i])
        && is_amp_stage(#[trigger] r[j])) by {
        if i < a.len() {
            assert(r[i] == a[i]);
            assert(amp(a[i]));
        } else {
            assert(r[j] == e[j - a.len()]);
            assert(eff(e[j - a.len()]));
        }
    }
}

/// Reorders `stages` into amplifier stages followed by effect stages,
/// preserving the relative order within each category.
pub fn enforce_stage_ordering(stages: &mut Vec<StageConfig>)
    ensures
        final(stages)@ == amp_then_effects(old(stages)@),
{
    let ghost orig = stages@;
    let mut amp: Vec<StageConfig> = Vec::new();
    let mut effect: Vec<StageConfig> = Vec::new();
    let mut rest: Vec<StageConfig> = Vec::new();
    std::mem::swap(&mut rest, stages);
    let mut i: usize = 0;
    let n = rest.len();
    let ghost is_amp = |s: StageConfig| spec_category(s.stage_type) == StageCategory::Amp;
    let ghost is_effect = |s: StageConfig| spec_category(s.stage_type) == StageCategory::Effect;
    while rest.len() > 0
        invariant
            rest@ == orig.skip(i as int),
            i + rest.len() == n,
            n == orig.len(),
            is_amp == (|s: StageConfig| spec_category(s.stage_type) == StageCategory::Amp),
            is_effect == (|s: StageConfig| spec_category(s.stage_type) == StageCategory::Effect),
            amp@ == orig.take(i as int).filter(is_amp),
            effect@ == orig.take(i as int).filter(is_effect),
        decreases rest.len(),
    {
        let s = rest.remove(0);
        let ghost t = orig.take(i as int + 1);
        proof {
            assert(t.drop_last() == orig.take(i as int));
            assert(t.last() == s);
            assert(rest@ == orig.skip(i as int + 1));
            reveal_with_fuel(Seq::filter, 1);
            assert(t.filter(is_amp) == if is_amp(s) {
                orig.take(i as int).filter(is_amp).push(s)
            } else {
                orig.take(i as int).filter(is_amp)
            });
            assert(t.filter(is_effect) == if is_effect(s) {
                orig.take(i as int).filter(is_effect).push(s)
            } else {
                orig.take(i as int).filter(is_effect)
            });
        }
        let cat = s.category();
        proof {
            assert(is_amp(s) == (cat == StageCategory::Amp));
            assert(is_effect(s) == (cat == StageCategory::Effect));
        }
        if cat == StageCategory::Amp {
            amp.push(s);
        } else {
            effect.push(s);
        }
        i = i + 1;
    }
    proof {
        assert(orig.take(i as int) == orig);
    }
    amp.append(&mut effect);
    *stages = amp;
}
} // verus!
