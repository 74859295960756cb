use rustortion::factory::{factory_ir_names, get_factory_ir, sort_factory_presets, FactoryFile};
use rustortion::gui::{
    filter_label, initial_ir, plan_app_persistence, preset_settings_update, restore_collapsed,
    AppMessageKind, AppPersistence, PresetGuiMessage, PresetMessage,
};
use rustortion::ir::{plugin_max_ir_samples, ConvolverType, DEFAULT_MAX_IR_MS};
use rustortion::preset::{InputFilterConfig, Preset};

fn preset(name: &str) -> Preset {
    Preset {
        name: name.to_owned(),
        stages: Vec::new(),
        ir_name: None,
        ir_gain_bits: 0,
        pitch_shift_semitones: 0,
        input_filters: InputFilterConfig {
            hp_enabled: false,
            hp_cutoff_bits: 0,
            lp_enabled: false,
            lp_cutoff_bits: 0,
        },
    }
}

#[test]
fn factory_ir_names_are_sorted() {
    let files = vec![
        FactoryFile { name: "Marshall/4x12.wav".to_owned(), data: vec![1] },
        FactoryFile { name: "Fender/2x12.wav".to_owned(), data: vec![2] },
        FactoryFile { name: "Mesa/V30.wav".to_owned(), data: vec![3] },
    ];
    let names = factory_ir_names(&files);
    assert_eq!(names, vec!["Fender/2x12.wav", "Marshall/4x12.wav", "Mesa/V30.wav"]);
    for n in &names {
        assert!(get_factory_ir(&files, n).is_some());
    }
}

#[test]
fn factory_irs_resolve_by_exact_name() {
    let files = vec![
        FactoryFile { name: "a.wav".to_owned(), data: vec![1, 2] },
        FactoryFile { name: "b.wav".to_owned(), data: vec![3] },
    ];
    assert_eq!(get_factory_ir(&files, "b.wav"), Some(vec![3]));
    assert_eq!(get_factory_ir(&files, "B.wav"), None);
    assert_eq!(get_factory_ir(&files, "c.wav"), None);
}

#[test]
fn factory_presets_are_listed_by_name() {
    let sorted = sort_factory_presets(vec![preset("Metal"), preset("Clean"), preset("Blues")]);
    let names: Vec<&str> = sorted.iter().map(|p| p.name.as_str()).collect();
    assert_eq!(names, ["Blues", "Clean", "Metal"]);
}

#[test]
fn filter_labels_name_the_enabled_filters() {
    assert_eq!(filter_label(true, true), "HP/LP");
    assert_eq!(filter_label(true, false), "HP");
    assert_eq!(filter_label(false, true), "LP");
    assert_eq!(filter_label(false, false), "-");
}

#[test]
fn collapsed_flags_are_fitted_to_the_stage_count() {
    let saved = vec![true, false, true];
    assert_eq!(restore_collapsed(Some(&saved), 2), vec![true, false]);
    assert_eq!(restore_collapsed(Some(&saved), 5), vec![true, false, true, false, false]);
    assert_eq!(restore_collapsed(None, 3), vec![false; 3]);
}

#[test]
fn preset_messages_carry_their_payloads() {
    let m = PresetMessage::Gui(PresetGuiMessage::NameChanged("Lead".to_owned()));
    assert!(matches!(m, PresetMessage::Gui(PresetGuiMessage::NameChanged(ref n)) if n == "Lead"));
    assert!(matches!(PresetMessage::Update.clone(), PresetMessage::Update));
}

#[test]
fn cabinet_defaults() {
    assert_eq!(ConvolverType::default(), ConvolverType::Fir);
    assert_eq!(DEFAULT_MAX_IR_MS, 50);
    assert_eq!(plugin_max_ir_samples(48_000), 1680);
    assert_eq!(plugin_max_ir_samples(44_100), 1543);
}

#[test]
fn preset_messages_update_the_remembered_selection() {

    let sel = |s: &str| Some(s.to_owned());

    let u = preset_settings_update(sel("A"), &PresetMessage::Select("B".to_owned()));
    assert_eq!(u.selected_preset, sel("B"));
    assert!(u.save);
    assert_eq!(u.forget_collapsed, None);

    let u = preset_settings_update(sel("A"), &PresetMessage::Delete("A".to_owned()));
    assert_eq!(u.selected_preset, None);
    assert_eq!(u.forget_collapsed, sel("A"));

    let u = preset_settings_update(sel("A"), &PresetMessage::Delete("B".to_owned()));
    assert_eq!(u.selected_preset, sel("A"));
    assert_eq!(u.forget_collapsed, sel("B"));

    let u = preset_settings_update(sel("A"), &PresetMessage::Update);
    assert_eq!(u.selected_preset, sel("A"));
    assert!(!u.save);
}

#[test]
fn presets_with_equal_names_keep_their_order() {
    let mut first = preset("Same");
    first.pitch_shift_semitones = 1;
    let mut second = preset("Same");
    second.pitch_shift_semitones = 2;
    let sorted = sort_factory_presets(vec![preset("Z"), first, preset("A"), second]);
    let keys: Vec<(&str, i32)> =
        sorted.iter().map(|p| (p.name.as_str(), p.pitch_shift_semitones)).collect();
    assert_eq!(keys, vec![("A", 0), ("Same", 1), ("Same", 2), ("Z", 0)]);
}

#[test]
fn the_initial_ir_is_the_presets_else_the_first_available() {
    let available = vec!["a.wav".to_owned(), "b.wav".to_owned()];
    assert_eq!(initial_ir(Some("b.wav".to_owned()), &available).as_deref(), Some("b.wav"));
    assert_eq!(initial_ir(None, &available).as_deref(), Some("a.wav"));
    assert_eq!(initial_ir(None, &Vec::new()), None);
}

#[test]
fn the_standalone_editor_stores_what_each_message_changed() {
    let none = AppPersistence { ignored: false, collapse: false, ir_bypassed: None, hotkeys: false };
    assert_eq!(
        plan_app_persistence(AppMessageKind::KeyPressed, true),
        AppPersistence { ignored: true, ..none }
    );
    assert_eq!(plan_app_persistence(AppMessageKind::KeyPressed, false), none);
    assert_eq!(
        plan_app_persistence(AppMessageKind::MoveStageUp, true),
        AppPersistence { collapse: true, ..none }
    );
    assert_eq!(
        plan_app_persistence(AppMessageKind::IrBypassed(true), false),
        AppPersistence { ir_bypassed: Some(true), ..none }
    );
    assert_eq!(
        plan_app_persistence(AppMessageKind::HotkeyRemoveMapping, false),
        AppPersistence { hotkeys: true, ..none }
    );
    assert_eq!(plan_app_persistence(AppMessageKind::Other, false), none);
}
