use rustortion::nam::registry::available_names;
use rustortion::preset::stage_config::{
    enforce_stage_ordering, StageCategory, StageConfig, StageType,
};

#[test]
fn categories_split_amp_and_effect_stages() {
    assert_eq!(StageType::Preamp.category(), StageCategory::Amp);
    assert_eq!(StageType::Nam.category(), StageCategory::Amp);
    assert_eq!(StageType::Delay.category(), StageCategory::Effect);
    assert_eq!(StageType::Eq.category(), StageCategory::Effect);
}

#[test]
fn for_category_keeps_listing_order() {
    assert_eq!(
        StageType::for_category(StageCategory::Effect),
        vec![StageType::Delay, StageType::Reverb, StageType::Eq]
    );
    let amp = StageType::for_category(StageCategory::Amp);
    assert_eq!(amp.len(), 8);
    assert_eq!(amp[0], StageType::Preamp);
    assert_eq!(amp[7], StageType::Nam);
    assert_eq!(StageType::all().len(), 11);
}

#[test]
fn display_names_match_the_stage_list() {
    assert_eq!(StageType::ToneStack.display_name(), "Tone Stack");
    assert_eq!(StageType::Nam.display_name(), "NAM");
    assert_eq!(StageType::MultibandSaturator.display_name(), "Multiband Saturator");
}

#[test]
fn ordering_puts_amp_stages_first_and_keeps_each_group_in_order() {
    let mut stages = vec![
        StageConfig::from_type(StageType::Delay),
        StageConfig::from_type(StageType::Preamp),
        StageConfig::from_type(StageType::Reverb),
        StageConfig::from_type(StageType::Level),
    ];
    stages[2].set_bypassed(true);
    enforce_stage_ordering(&mut stages);
    let types: Vec<StageType> = stages.iter().map(|s| s.stage_type()).collect();
    assert_eq!(
        types,
        vec![StageType::Preamp, StageType::Level, StageType::Delay, StageType::Reverb]
    );
    assert!(stages[3].bypassed());
    assert!(!stages[2].bypassed());
}

#[test]
fn registered_model_names_come_back_sorted() {
    let names = available_names(vec!["b".to_owned(), "A".to_owned(), "a".to_owned()]);
    assert_eq!(names, vec!["A".to_owned(), "a".to_owned(), "b".to_owned()]);
}
