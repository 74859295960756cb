use rustortion::preset::migrate::{
    migrate_preset, LegacyPreset, LegacyStage, DEFAULT_HP_CUTOFF_BITS, DEFAULT_LP_CUTOFF_BITS,
};

fn filter(kind: &str, cutoff: Option<f32>) -> LegacyStage {
    LegacyStage::Filter { filter_type: kind.to_owned(), cutoff_hz_bits: cutoff.map(f32::to_bits) }
}

#[test]
fn test_migrate_preset_extracts_filters() {
    // Highpass 150, Lowpass 7000, Preamp, Level.
    let legacy = LegacyPreset {
        has_input_filters: false,
        stages: Some(vec![
            filter("Highpass", Some(150.0)),
            filter("Lowpass", Some(7000.0)),
            LegacyStage::Other,
            LegacyStage::Other,
        ]),
    };

    let plan = migrate_preset(&legacy).expect("legacy preset must migrate");
    let filters = plan.input_filters;
    assert!(filters.hp_enabled);
    assert!((f32::from_bits(filters.hp_cutoff_bits) - 150.0).abs() < f32::EPSILON);
    assert!(filters.lp_enabled);
    assert!((f32::from_bits(filters.lp_cutoff_bits) - 7000.0).abs() < f32::EPSILON);

    // The Preamp and the Level stay, in order.
    assert_eq!(plan.kept, vec![2, 3]);
}

#[test]
fn test_migrate_preset_skips_if_already_migrated() {
    let legacy = LegacyPreset { has_input_filters: true, stages: Some(vec![LegacyStage::Other]) };
    assert!(migrate_preset(&legacy).is_none());
}

#[test]
fn test_migrate_preset_filter_without_cutoff() {
    let legacy = LegacyPreset {
        has_input_filters: false,
        stages: Some(vec![filter("Highpass", None), LegacyStage::Other]),
    };
    let plan = migrate_preset(&legacy).expect("legacy preset must migrate");
    let filters = plan.input_filters;
    assert!(filters.hp_enabled);
    assert!((f32::from_bits(filters.hp_cutoff_bits) - 100.0).abs() < f32::EPSILON);
    assert!(!filters.lp_enabled);
    assert_eq!(plan.kept, vec![1]);
}

#[test]
fn migration_defaults_are_the_documented_cutoffs() {
    assert_eq!(f32::from_bits(DEFAULT_HP_CUTOFF_BITS), 100.0);
    assert_eq!(f32::from_bits(DEFAULT_LP_CUTOFF_BITS), 8000.0);
    let legacy = LegacyPreset { has_input_filters: false, stages: Some(vec![LegacyStage::Other]) };
    let plan = migrate_preset(&legacy).expect("stage list present");
    assert!(!plan.input_filters.hp_enabled);
    assert!(!plan.input_filters.lp_enabled);
    assert_eq!(plan.input_filters.hp_cutoff_bits, DEFAULT_HP_CUTOFF_BITS);
    assert_eq!(plan.input_filters.lp_cutoff_bits, DEFAULT_LP_CUTOFF_BITS);
}

#[test]
fn only_the_first_filter_of_each_kind_counts() {
    let legacy = LegacyPreset {
        has_input_filters: false,
        stages: Some(vec![
            filter("Lowpass", Some(5000.0)),
            LegacyStage::Other,
            filter("Lowpass", Some(9000.0)),
            filter("Bandpass", Some(1.0)),
        ]),
    };
    let plan = migrate_preset(&legacy).expect("legacy preset must migrate");
    assert!(!plan.input_filters.hp_enabled);
    assert!(plan.input_filters.lp_enabled);
    assert_eq!(f32::from_bits(plan.input_filters.lp_cutoff_bits), 5000.0);
    assert_eq!(plan.kept, vec![1]);
}

#[test]
fn a_preset_without_a_stage_list_is_left_alone() {
    let legacy = LegacyPreset { has_input_filters: false, stages: None };
    assert!(migrate_preset(&legacy).is_none());
}
