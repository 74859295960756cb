//! Migration of presets written before the input filters moved out of the
//! stage chain: legacy `Filter` stages are dropped from the chain and the
//! first high-pass and first low-pass among them become the input filters.

use vstd::prelude::*;

use super::InputFilterConfig;
use crate::text::same_text;

verus! {

/// Bit pattern of the default high-pass cutoff, 100 Hz (`f32`).
pub const DEFAULT_HP_CUTOFF_BITS: u32 = 0x42c8_0000;

/// Bit pattern of the default low-pass cutoff, 8000 Hz (`f32`).
pub const DEFAULT_LP_CUTOFF_BITS: u32 = 0x45fa_0000;

/// One entry of a legacy stage list, as far as migration reads it.
#[derive(Debug, Clone)]
pub enum LegacyStage {
    /// A legacy filter stage: its `filter_type` text (empty when absent) and
    /// the bit pattern of its cutoff as `f32`, when it has a numeric one.
    Filter { filter_type: String, cutoff_hz_bits: Option<u32> },
    /// Any other stage, kept as it is.
    Other,
}

/// What migration reads of a stored preset: whether it already has input
/// filters, and its stage list when it has one.
#[derive(Debug, Clone)]
pub struct LegacyPreset {
    pub has_input_filters: bool,
    pub stages: Option<Vec<LegacyStage>>,
}

/// The rewrite migration performs: the positions of the stages that stay in
/// the chain, in order, and the input filters to add.
#[derive(Debug, Clone)]
pub struct MigrationPlan {
    pub kept: Vec<usize>,
    pub input_filters: InputFilterConfig,
}

/// A stage position as an integer.
pub open spec fn as_position(p: Option<usize>) -> Option<int> {
    match p {
        Some(k) => Some(k as int),
        None => None,
    }
}

/// The position of the first filter stage of the given type.
pub open spec fn first_filter(stages: Seq<LegacyStage>, kind: Seq<char>) -> Option<int>
    decreases stages.len(),
{
    if stages.len() == 0 {
        None
    } else {
        match stages.last() {
            LegacyStage::Filter { filter_type, .. } => {
                match first_filter(stages.drop_last(), kind) {
                    Some(i) => Some(i),
                    None => if filter_type@ == kind {
                        Some(stages.len() - 1)
                    } else {
                        None
                    },
                }
            },
            LegacyStage::Other => first_filter(stages.drop_last(), kind),
        }
    }
}

/// A legacy filter stage of the given type.
pub open spec fn is_filter_of(stage: LegacyStage, kind: Seq<char>) -> bool {
    match stage {
        LegacyStage::Filter { filter_type, .. } => filter_type@ == kind,
        LegacyStage::Other => false,
    }
}

/// The filter found for a type is the one of that type with the least
/// position; none is found exactly when no stage is a filter of that type.
pub proof fn law_first_filter_is_the_earliest(stages: Seq<LegacyStage>, kind: Seq<char>)
    ensures
        first_filter(stages, kind) matches Some(i) ==> {
            &&& 0 <= i < stages.len()
            &&& is_filter_of(stages[i], kind)
            &&& forall|j: int| 0 <= j < i ==> !is_filter_of(#[trigger] stages[j], kind)
        },
        first_filter(stages, kind) is None ==> forall|j: int|
            0 <= j < stages.len() ==> !is_filter_of(#[trigger] stages[j], kind),
    decreases stages.len(),
{
    if stages.len() > 0 {
        let init = stages.drop_last();
        law_first_filter_is_the_earliest(init, kind);
        assert forall|j: int| 0 <= j < init.len() implies stages[j] == #[trigger] init[j] by {}
        if let Some(i) = first_filter(init, kind) {
            assert(first_filter(stages, kind) == Some(i));
            assert forall|j: int| 0 <= j < i implies !is_filter_of(#[trigger] stages[j], kind) by {
                assert(stages[j] == init[j]);
            }
        } else {
            assert(stages.last() == stages[stages.len() - 1]);
            assert forall|j: int| 0 <= j < stages.len() - 1 implies !is_filter_of(#[trigger] stages[j], kind) by {
                assert(stages[j] == init[j]);
            }
        }
    }
}

/// The migrated input filters: each is enabled exactly when some stage is a
/// filter of its type, and then takes the cutoff of the earliest such stage
/// (the default when it records none); otherwise it keeps the default.
pub proof fn law_migrated_filters_come_from_the_earliest(stages: Seq<LegacyStage>)
    ensures
        ({
            let f = migrated_filters(stages);
            &&& f.hp_enabled <==> exists|j: int| 0 <= j < stages.len() && is_filter_of(#[trigger] stages[j], "Highpass"@)
            &&& f.lp_enabled <==> exists|j: int| 0 <= j < stages.len() && is_filter_of(#[trigger] stages[j], "Lowpass"@)
            &&& !f.hp_enabled ==> f.hp_cutoff_bits == DEFAULT_HP_CUTOFF_BITS
            &&& !f.lp_enabled ==> f.lp_cutoff_bits == DEFAULT_LP_CUTOFF_BITS
            &&& f.hp_enabled ==> exists|i: int|
                {
                    &&& 0 <= i < stages.len()
                    &&& is_filter_of(#[trigger] stages[i], "Highpass"@)
                    &&& forall|j: int| 0 <= j < i ==> !is_filter_of(#[trigger] stages[j], "Highpass"@)
                    &&& f.hp_cutoff_bits == match stages[i] {
                        LegacyStage::Filter { cutoff_hz_bits: Some(c), .. } => c,
                        _ => DEFAULT_HP_CUTOFF_BITS,
                    }
                }
            &&& f.lp_enabled ==> exists|i: int|
                {
                    &&& 0 <= i < stages.len()
                    &&& is_filter_of(#[trigger] stages[i], "Lowpass"@)
                    &&& forall|j: int| 0 <= j < i ==> !is_filter_of(#[trigger] stages[j], "Lowpass"@)
                    &&& f.lp_cutoff_bits == match stages[i] {
                        LegacyStage::Filter { cutoff_hz_bits: Some(c), .. } => c,
                        _ => DEFAULT_LP_CUTOFF_BITS,
                    }
                }
        }),
{
    law_first_filter_is_the_earliest(stages, "Highpass"@);
    law_first_filter_is_the_earliest(stages, "Lowpass"@);
    if let Some(i) = first_filter(stages, "Highpass"@) {
        assert(is_filter_of(stages[i], "Highpass"@));
    }
    if let Some(i) = first_filter(stages, "Lowpass"@) {
        assert(is_filter_of(stages[i], "Lowpass"@));
    }
}

/// The cutoff taken from the stage at `pos`, or `default` when there is
/// no such stage or it records none.
pub open spec fn cutoff_at(stages: Seq<LegacyStage>, pos: Option<int>, default: u32) -> u32 {
    match pos {
        Some(i) => match stages[i] {
            LegacyStage::Filter { cutoff_hz_bits: Some(c), .. } => c,
            _ => default,
        },
        None => default,
    }
}

/// Positions of the non-filter stages, in order.
pub open spec fn kept_positions(stages: Seq<LegacyStage>) -> Seq<usize>
    decreases stages.len(),
{
    if stages.len() == 0 {
        Seq::empty()
    } else {
        let rest = kept_positions(stages.drop_last());
        match stages.last() {
            LegacyStage::Other => rest.push((stages.len() - 1) as usize),
            LegacyStage::Filter { .. } => rest,
        }
    }
}

/// The input filters a legacy stage list describes.
pub open spec fn migrated_filters(stages: Seq<LegacyStage>) -> InputFilterConfig {
    let hp = first_filter(stages, "Highpass"@);
    let lp = first_filter(stages, "Lowpass"@);
    InputFilterConfig {
        hp_enabled: hp is Some,
        hp_cutoff_bits: cutoff_at(stages, hp, DEFAULT_HP_CUTOFF_BITS),
        lp_enabled: lp is Some,
        lp_cutoff_bits: cutoff_at(stages, lp, DEFAULT_LP_CUTOFF_BITS),
    }
}

/// Plans the migration of a stored preset. Presets that already have input
/// filters, or have no stage list, are left alone (`None`). Otherwise every
/// filter stage leaves the chain; the first high-pass and the first
/// low-pass enable the matching input filter with their cutoff (or the
/// default when they record none); further filter stages are dropped.
pub fn migrate_preset(preset: &LegacyPreset) -> (r: Option<MigrationPlan>)
    ensures
        (preset.has_input_filters || preset.stages is None) ==> r is None,
        !(preset.has_input_filters || preset.stages is None) ==> (r matches Some(plan) && plan.kept@
            == kept_positions(preset.stages->0@) && plan.input_filters == migrated_filters(
            preset.stages->0@,
        )),
{
    if preset.has_input_filters {
        return None;
    }
    let stages = match &preset.stages {
        Some(s) => s,
        None => return None,
    };
    let mut hp: Option<usize> = None;
    let mut lp: Option<usize> = None;
    let mut hp_cutoff: u32 = DEFAULT_HP_CUTOFF_BITS;
    let mut lp_cutoff: u32 = DEFAULT_LP_CUTOFF_BITS;
    let mut kept: Vec<usize> = Vec::new();
    let mut i: usize = 0;
    while i < stages.len()
        invariant
            i <= stages.len(),
            kept@ == kept_positions(stages@.take(i as int)),
            as_position(hp) == first_filter(stages@.take(i as int), "Highpass"@),
            as_position(lp) == first_filter(stages@.take(i as int), "Lowpass"@),
            hp_cutoff == cutoff_at(
                stages@,
                first_filter(stages@.take(i as int), "Highpass"@),
                DEFAULT_HP_CUTOFF_BITS,
            ),
            lp_cutoff == cutoff_at(
                stages@,
                first_filter(stages@.take(i as int), "Lowpass"@),
                DEFAULT_LP_CUTOFF_BITS,
            ),
        decreases stages.len() - i,
    {
        let ghost t = stages@.take(i as int + 1);
        proof {
            assert(t.drop_last() == stages@.take(i as int));
            assert(t.last() == stages@[i as int]);
        }
        match &stages[i] {
            LegacyStage::Filter { filter_type, cutoff_hz_bits } => {
                if hp.is_none() && same_text(filter_type.as_str(), "Highpass") {
                    hp = Some(i);
                    if let Some(c) = cutoff_hz_bits {
                        hp_cutoff = *c;
                    }
                } else if lp.is_none() && same_text(filter_type.as_str(), "Lowpass") {
                    lp = Some(i);
                    if let Some(c) = cutoff_hz_bits {
                        lp_cutoff = *c;
                    }
                }
            },
            LegacyStage::Other => {
                kept.push(i);
            },
        }
        proof {
            reveal_strlit("Highpass");
            reveal_strlit("Lowpass");
            assert("Highpass"@.len() == 8);
            assert("Lowpass"@.len() == 7);
            lemma_first_filter_in_range(stages@.take(i as int), "Highpass"@);
            lemma_first_filter_in_range(stages@.take(i as int), "Lowpass"@);
        }
        i = i + 1;
    }
    proof {
        assert(stages@.take(stages@.len() as int) == stages@);
    }
    Some(
        MigrationPlan {
            kept,
            input_filters: InputFilterConfig {
                hp_enabled: hp.is_some(),
                hp_cutoff_bits: hp_cutoff,
                lp_enabled: lp.is_some(),
                lp_cutoff_bits: lp_cutoff,
            },
        },
    )
}

proof fn lemma_first_filter_in_range(stages: Seq<LegacyStage>, kind: Seq<char>)
    ensures
        first_filter(stages, kind) matches Some(i) ==> (0 <= i < stages.len()
            && (stages[i] matches LegacyStage::Filter { filter_type, .. } && filter_type@ == kind)),
    decreases stages.len(),
{
    if stages.len() > 0 {
        lemma_first_filter_in_range(stages.drop_last(), kind);
    }
}

/// The stages a migration keeps, in order.
pub open spec fn kept_stages(stages: Seq<LegacyStage>) -> Seq<LegacyStage> {
    Seq::new(kept_positions(stages).len(), |j: int| stages[kept_positions(stages)[j] as int])
}

proof fn lemma_kept_positions(stages: Seq<LegacyStage>)
    requires
        stages.len() <= usize::MAX,
    ensures
        forall|j: int|
            0 <= j < kept_positions(stages).len() ==> #[trigger] kept_positions(stages)[j]
                < stages.len() && stages[kept_positions(stages)[j] as int] is Other,
        forall|i: int|
            0 <= i < stages.len() && (#[trigger] stages[i]) is Other ==> kept_positions(
                stages,
            ).contains(i as usize),
        forall|j: int, k: int|
            0 <= j < k < kept_positions(stages).len() ==> #[trigger] kept_positions(stages)[j]
                < #[trigger] kept_positions(stages)[k],
    decreases stages.len(),
{
    if stages.len() > 0 {
        let front = stages.drop_last();
        lemma_kept_positions(front);
        let rest = kept_positions(front);
        let kp = kept_positions(stages);
        let last = (stages.len() - 1) as usize;
        assert(last as int == stages.len() - 1);
        if stages.last() is Other {
            assert(kp == rest.push(last));
        } else {
            assert(kp == rest);
        }
        assert forall|j: int| 0 <= j < kp.len() implies #[trigger] kp[j] < stages.len()
            && stages[kp[j] as int] is Other by {
            if j < rest.len() {
                assert(kp[j] == rest[j]);
                assert(stages[rest[j] as int] == front[rest[j] as int]);
            } else {
                assert(kp[j] == last);
                assert(stages[last as int] == stages.last());
            }
        }
        assert forall|j: int, k: int| 0 <= j < k < kp.len() implies #[trigger] kp[j]
            < #[trigger] kp[k] by {
            if k < rest.len() {
                assert(kp[j] == rest[j] && kp[k] == rest[k]);
            } else {
                assert(kp[j] == rest[j]);
                assert(rest[j] < front.len());
            }
        }
        assert forall|i: int|
            0 <= i < stages.len() && (#[trigger] stages[i]) is Other implies kp.contains(
            i as usize,
        ) by {
            if i < front.len() {
                assert(front[i] == stages[i]);
                assert(rest.contains(i as usize));
                let j = choose|j: int| 0 <= j < rest.len() && rest[j] == i as usize;
                assert(kp[j] == i as usize);
            } else {
                assert(stages.last() == stages[i]);
                assert(kp[rest.len() as int] == i as usize);
            }
        }
    }
}

/// A stage list of non-filter stages only: migration keeps all of it and
/// enables no input filter.
proof fn lemma_no_filters(t: Seq<LegacyStage>)
    requires
        forall|j: int| 0 <= j < t.len() ==> (#[trigger] t[j]) is Other,
    ensures
        kept_positions(t) == Seq::new(t.len(), |j: int| j as usize),
        first_filter(t, "Highpass"@) is None,
        first_filter(t, "Lowpass"@) is None,
    decreases t.len(),
{
    if t.len() > 0 {
        let front = t.drop_last();
        assert forall|j: int| 0 <= j < front.len() implies (#[trigger] front[j]) is Other by {
            assert(front[j] == t[j]);
        }
        lemma_no_filters(front);
        assert(t.last() == t[t.len() - 1]);
        assert(kept_positions(t) =~= Seq::new(t.len(), |j: int| j as usize));
    } else {
        assert(kept_positions(t) =~= Seq::new(t.len(), |j: int| j as usize));
    }
}

/// Migration drops every filter stage and only those: it keeps exactly the
/// positions of the other stages, in increasing order. What it keeps holds no
/// filter, so a second pass over it (were it not already marked migrated)
/// would keep every stage and enable no input filter: migrating twice
/// equals migrating once.
pub proof fn law_migration_drops_every_filter(stages: Seq<LegacyStage>)
    requires
        stages.len() <= usize::MAX,
    ensures
        forall|j: int|
            0 <= j < kept_positions(stages).len() ==> #[trigger] kept_positions(stages)[j]
                < stages.len() && stages[kept_positions(stages)[j] as int] is Other,
        forall|i: int|
            0 <= i < stages.len() && (#[trigger] stages[i]) is Other ==> kept_positions(
                stages,
            ).contains(i as usize),
        forall|j: int, k: int|
            0 <= j < k < kept_positions(stages).len() ==> #[trigger] kept_positions(stages)[j]
                < #[trigger] kept_positions(stages)[k],
        kept_positions(kept_stages(stages)) == Seq::new(
            kept_stages(stages).len(),
            |j: int| j as usize,
        ),
        migrated_filters(kept_stages(stages)) == (InputFilterConfig {
            hp_enabled: false,
            hp_cutoff_bits: DEFAULT_HP_CUTOFF_BITS,
            lp_enabled: false,
            lp_cutoff_bits: DEFAULT_LP_CUTOFF_BITS,
        }),
{
    lemma_kept_positions(stages);
    let t = kept_stages(stages);
    assert forall|j: int| 0 <= j < t.len() implies (#[trigger] t[j]) is Other by {
        assert(t[j] == stages[kept_positions(stages)[j] as int]);
    }
    lemma_no_filters(t);
}

} // verus!
