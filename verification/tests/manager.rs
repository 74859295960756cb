use rustortion::preset::manager::{LoadedPreset, Manager, PresetError};
use rustortion::preset::naming::{hashed_stem, sanitize_filename, stable_hash};
use rustortion::preset::stage_config::{StageConfig, StageType};
use rustortion::preset::{InputFilterConfig, Preset};

fn filters() -> InputFilterConfig {
    InputFilterConfig {
        hp_enabled: false,
        hp_cutoff_bits: 100.0f32.to_bits(),
        lp_enabled: false,
        lp_cutoff_bits: 8000.0f32.to_bits(),
    }
}

fn preset_named(name: &str) -> Preset {
    Preset {
        name: name.to_owned(),
        stages: vec![StageConfig::from_type(StageType::Level)],
        ir_name: Some("cab.wav".to_owned()),
        ir_gain_bits: 0.25f32.to_bits(),
        pitch_shift_semitones: -2,
        input_filters: filters(),
    }
}

fn loaded(file: &str, name: &str) -> LoadedPreset {
    LoadedPreset { file: file.to_owned(), preset: preset_named(name) }
}

fn files(list: &[&str]) -> Vec<String> {
    list.iter().map(|s| (*s).to_owned()).collect()
}

#[test]
fn in_memory_manager_lists_but_refuses_writes() {
    let m = Manager::new_from_presets(vec![preset_named("B"), preset_named("A")]);
    assert_eq!(m.get_presets().len(), 2);
    assert_eq!(m.get_presets()[0].name, "B");
    assert!(m.preset_exists("A"));
    assert!(!m.preset_exists("C"));
    assert_eq!(m.get_preset_by_name("A").map(|p| p.name.as_str()), Some("A"));
    assert!(m.get_preset_by_name("C").is_none());
    assert_eq!(m.save_target("A", &Vec::new()), Err(PresetError::ReadOnlySave));
    assert_eq!(m.delete_target("A", &Vec::new()), Err(PresetError::ReadOnlyDelete));
    assert_eq!(m.presets_dir(), "");
}

#[test]
fn loaded_presets_are_sorted_by_name_and_remember_their_files() {
    let m = Manager::from_loaded(
        "presets".to_owned(),
        vec![loaded("c.json", "Crunch"), loaded("a.json", "Ambient"), loaded("b.json", "Blues")],
    );
    let names: Vec<&str> = m.get_presets().iter().map(|p| p.name.as_str()).collect();
    assert_eq!(names, ["Ambient", "Blues", "Crunch"]);
    assert_eq!(m.file_for("Blues").as_deref(), Some("b.json"));
    assert_eq!(m.file_for("Nope"), None);
    assert_eq!(m.presets_dir(), "presets");
}

#[test]
fn the_last_file_read_under_a_name_is_remembered() {
    let m = Manager::from_loaded(
        "presets".to_owned(),
        vec![loaded("first.json", "Same"), loaded("second.json", "Same")],
    );
    assert_eq!(m.file_for("Same").as_deref(), Some("second.json"));
    assert_eq!(m.get_presets().len(), 2);
}

#[test]
fn a_legacy_filename_is_reused_for_its_preset() {
    let m = Manager::from_loaded("presets".to_owned(), vec![loaded("My_Preset.json", "My Preset")]);
    let on_disk = files(&["My_Preset.json"]);
    assert_eq!(m.path_for("My Preset", &on_disk), "My_Preset.json");
    assert_eq!(m.save_target("My Preset", &on_disk), Ok("My_Preset.json".to_owned()));
}

#[test]
fn a_name_landing_on_another_presets_file_steps_aside() {
    let m = Manager::from_loaded("presets".to_owned(), vec![loaded("High_Gain.json", "High Gain")]);
    let on_disk = files(&["High_Gain.json"]);
    let path = m.path_for("High_Gain", &on_disk);
    assert_eq!(path, format!("High_Gain-{:016x}.json", stable_hash(b"High_Gain")));
    assert_ne!(path, "High_Gain.json");
}

#[test]
fn a_long_name_and_its_digest_namesake_get_separate_files() {
    let long = "x".repeat(500);
    let namesake = sanitize_filename(&long);
    assert_eq!(sanitize_filename(&namesake), namesake);

    let empty = Manager::from_loaded("presets".to_owned(), Vec::new());
    let first = empty.path_for(&long, &Vec::new());
    assert_eq!(first, format!("{namesake}.json"));

    let after = Manager::from_loaded("presets".to_owned(), vec![loaded(&first, &long)]);
    let second = after.path_for(&namesake, &vec![first.clone()]);
    assert_ne!(second, first);
    assert_eq!(second, format!("{}.json", hashed_stem(&namesake)));
}

#[test]
fn an_unparseable_file_on_disk_is_not_overwritten() {
    let m = Manager::from_loaded("presets".to_owned(), Vec::new());
    let on_disk = files(&["Rock.json"]);
    assert_eq!(m.path_for("Rock", &on_disk), format!("{}.json", hashed_stem("Rock")));
}

#[test]
fn numbered_files_follow_when_the_digest_stem_is_taken() {
    let hashed = format!("{}.json", hashed_stem("Rock"));
    let m = Manager::from_loaded("presets".to_owned(), Vec::new());
    let on_disk = vec!["Rock.json".to_owned(), hashed.clone()];
    assert_eq!(m.path_for("Rock", &on_disk), format!("{}-1.json", hashed_stem("Rock")));
    let on_disk = vec![
        "Rock.json".to_owned(),
        hashed,
        format!("{}-1.json", hashed_stem("Rock")),
    ];
    assert_eq!(m.path_for("Rock", &on_disk), format!("{}-2.json", hashed_stem("Rock")));
}

#[test]
fn distinct_zh_cn_names_get_distinct_files() {
    let m = Manager::from_loaded("presets".to_owned(), Vec::new());
    let a = m.path_for("重金属", &Vec::new());
    let b = m.path_for("清音", &Vec::new());
    let c = m.path_for("布鲁斯", &Vec::new());
    assert_ne!(a, b);
    assert_ne!(b, c);
    assert_ne!(a, c);
    assert_eq!(a, "%E9%87%8D%E9%87%91%E5%B1%9E.json");
}

#[test]
fn deleting_never_touches_a_file_attributed_to_another_name() {
    let m = Manager::from_loaded("presets".to_owned(), vec![loaded("My_Preset.json", "My Preset")]);
    let on_disk = files(&["My_Preset.json"]);
    assert_eq!(
        m.delete_target("My_Preset", &on_disk),
        Err(PresetError::NotFound("My_Preset".to_owned()))
    );
    assert_eq!(m.delete_target("My Preset", &on_disk), Ok("My_Preset.json".to_owned()));
}

#[test]
fn deleting_a_preset_from_a_legacy_file_targets_that_file() {
    let m = Manager::from_loaded("presets".to_owned(), vec![loaded("____.json", "重金属")]);
    let on_disk = files(&["____.json"]);
    assert_eq!(m.delete_target("重金属", &on_disk), Ok("____.json".to_owned()));
    // The file vanished behind the manager's back.
    assert_eq!(
        m.delete_target("重金属", &Vec::new()),
        Err(PresetError::NotFound("重金属".to_owned()))
    );
}

#[test]
fn occupancy_counts_disk_files_and_loaded_files() {
    let m = Manager::from_loaded("presets".to_owned(), vec![loaded("a.json", "A")]);
    assert!(!m.is_unoccupied("a.json", &Vec::new()));
    assert!(!m.is_unoccupied("b.json", &files(&["b.json"])));
    assert!(m.is_unoccupied("c.json", &files(&["b.json"])));
}

#[test]
fn loaded_presets_have_their_stages_in_chain_order() {
    let mut p = preset_named("Mixed");
    p.stages = vec![
        StageConfig::from_type(StageType::Delay),
        StageConfig::from_type(StageType::Preamp),
        StageConfig::from_type(StageType::Reverb),
        StageConfig::from_type(StageType::Level),
    ];
    let m = Manager::from_loaded(
        "presets".to_owned(),
        vec![LoadedPreset { file: "mixed.json".to_owned(), preset: p }],
    );
    let kinds: Vec<StageType> =
        m.get_presets()[0].stages.iter().map(StageConfig::stage_type).collect();
    assert_eq!(
        kinds,
        vec![StageType::Preamp, StageType::Level, StageType::Delay, StageType::Reverb]
    );
    assert_eq!(m.file_for("Mixed").as_deref(), Some("mixed.json"));
}
