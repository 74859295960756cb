use nam_rs::NamModel;
use rustortion::nam::info::{meaningful, name_suggests_cab, MetadataSummary, ModelInfo};
use rustortion::nam::loader::{is_model_extension, NamLoader};
use rustortion::nam::registry::Registry;

/// Build a minimal but valid `.nam` carrying the given metadata block.
fn model_json(metadata: &str) -> String {
    format!(
        r#"{{
            "version": "0.5.4",
            "architecture": "WaveNet",
            "config": {{
                "layers": [{{
                    "input_size": 1, "condition_size": 1, "channels": 1,
                    "head_size": 1, "kernel_size": 1, "dilations": [1],
                    "activation": "ReLU", "gated": false, "head_bias": false
                }}],
                "head": null, "head_scale": 1.0
            }},
            "weights": [1.0, 2.0, 0.0, 0.0, 1.0, 0.0, 1.0, 1.0],
            "metadata": {metadata}
        }}"#
    )
}

fn model_with_metadata(metadata: &str) -> NamModel {
    NamModel::from_json_str(&model_json(metadata)).expect("fixture must parse")
}

fn loudness(info: &ModelInfo) -> Option<f32> {
    info.loudness_lufs_bits.map(f32::from_bits)
}

#[test]
fn extracts_the_displayable_fields() {
    let info = ModelInfo::from_model(
        &model_with_metadata(
            r#"{"gear_make": "Marshall", "gear_model": "JMP-50",
            "tone_type": "overdrive", "modeled_by": "somebody",
            "loudness": -19.4, "gear_type": "amp"}"#,
        ),
        "fixture",
    );
    assert_eq!(info.gear.as_deref(), Some("Marshall JMP-50"));
    assert_eq!(info.tone_type.as_deref(), Some("overdrive"));
    assert_eq!(info.modeled_by.as_deref(), Some("somebody"));
    assert_eq!(info.includes_cab, Some(false));
    assert!((loudness(&info).expect("loudness") - -19.4).abs() < 1e-4);
    assert!(!info.is_empty());
}

#[test]
fn placeholder_gear_and_tone_are_dropped() {
    let info = ModelInfo::from_model(
        &model_with_metadata(
            r#"{"gear_make": "tz-make", "gear_model": "tz-model",
            "tone_type": "T3K-Null", "loudness": -22.0}"#,
        ),
        "fixture",
    );
    assert_eq!(info.gear, None);
    assert_eq!(info.tone_type, None);
    assert!(loudness(&info).is_some());
    assert!(!info.is_empty());
}

#[test]
fn identical_make_and_model_are_not_repeated() {
    let info = ModelInfo::from_model(
        &model_with_metadata(
            r#"{"gear_make": "Marshall JMP-50 Lead 1969 Plexi",
            "gear_model": "Marshall JMP-50 Lead 1969 Plexi"}"#,
        ),
        "fixture",
    );
    assert_eq!(info.gear.as_deref(), Some("Marshall JMP-50 Lead 1969 Plexi"));
}

#[test]
fn one_sided_gear_still_shows() {
    let info = ModelInfo::from_model(
        &model_with_metadata(r#"{"gear_make": "Fender", "gear_model": "tz-model"}"#),
        "fixture",
    );
    assert_eq!(info.gear.as_deref(), Some("Fender"));
}

#[test]
fn blank_strings_count_as_absent() {
    let info = ModelInfo::from_model(
        &model_with_metadata(r#"{"gear_make": "  ", "gear_model": "", "modeled_by": " "}"#),
        "fixture",
    );
    assert_eq!(info.gear, None);
    assert_eq!(info.modeled_by, None);
    assert!(info.is_empty());
}

#[test]
fn absent_metadata_yields_an_empty_summary() {
    let info = ModelInfo::from_model(&model_with_metadata("null"), "fixture");
    assert_eq!(info, ModelInfo::default());
    assert!(info.is_empty());
    assert_eq!(info.includes_cab, None);
}

#[test]
fn name_overrides_gear_type_when_no_metadata_was_filled_in() {
    let info = ModelInfo::from_model(
        &model_with_metadata(
            r#"{"name": "Boosted-6505+-A2-Chugs-FullRig", "gear_type": "amp",
                "gear_make": "T3K-Null", "gear_model": "T3K-Null",
                "tone_type": "T3K-Null", "modeled_by": "ampspedalspickups"}"#,
        ),
        "Boosted-6505+-A2-Chugs-FullRig",
    );
    assert_eq!(info.includes_cab, Some(true));
    assert!(info.cab_from_name, "must be marked as inferred, not fact");
}

#[test]
fn real_metadata_beats_a_cab_sounding_name() {
    let info = ModelInfo::from_model(
        &model_with_metadata(
            r#"{"gear_type": "amp", "gear_make": "Mesa Boogie",
                "gear_model": "Badlander", "tone_type": "hi_gain"}"#,
        ),
        "Mesa Badlander FullRig Cab",
    );
    assert_eq!(info.includes_cab, Some(false));
    assert!(!info.cab_from_name);
}

#[test]
fn name_is_consulted_when_gear_type_is_absent() {
    let info = ModelInfo::from_model(&model_with_metadata("{}"), "Plexi 4x12 Cab");
    assert_eq!(info.includes_cab, Some(true));
    assert!(info.cab_from_name);
}

#[test]
fn name_matching_is_narrow() {
    for name in ["Cabernet Overdrive", "Scab Fuzz", "Caballero Clean"] {
        let info = ModelInfo::from_model(&model_with_metadata("{}"), name);
        assert_eq!(info.includes_cab, None, "{name} must not read as a cab");
    }
    for name in [
        "Marshall FAT CAB",
        "6505 full_rig",
        "JCM800 fullrig",
        "Twin 2x12 cabinet",
    ] {
        let info = ModelInfo::from_model(&model_with_metadata("{}"), name);
        assert_eq!(info.includes_cab, Some(true), "{name} should read as a cab");
    }
}

#[test]
fn metadata_name_is_preferred_over_the_file_stem() {
    let info = ModelInfo::from_model(
        &model_with_metadata(r#"{"name": "Plexi FullRig"}"#),
        "renamed-on-disk",
    );
    assert_eq!(info.includes_cab, Some(true));
}

#[test]
fn cab_inclusive_gear_is_flagged() {
    for gear in ["amp_cab", "full-rig", "cab"] {
        let info = ModelInfo::from_model(
            &model_with_metadata(&format!(r#"{{"gear_type": "{gear}"}}"#)),
            "fixture",
        );
        assert_eq!(info.includes_cab, Some(true), "{gear}");
    }
}

fn summary() -> MetadataSummary {
    MetadataSummary {
        name: None,
        modeled_by: None,
        gear_make: None,
        gear_model: None,
        gear_type: None,
        tone_type: None,
        loudness_bits: None,
    }
}

#[test]
fn gear_type_classification_follows_the_documented_vocabulary() {
    let cases = [
        ("amp", Some(false)),
        (" Pedal_Amp ", Some(false)),
        ("OUTBOARD", Some(false)),
        ("space", Some(false)),
        ("full-rig", Some(true)),
        ("IR", Some(true)),
        ("amp_pedal_cab", Some(true)),
        ("cable", None),
        ("studio", None),
        ("", None),
    ];
    for (gear_type, expected) in cases {
        let md = MetadataSummary { gear_type: Some(gear_type.to_owned()), ..summary() };
        let info = ModelInfo::from_metadata(md, "plain");
        assert_eq!(info.includes_cab, expected, "{gear_type:?}");
        assert!(!info.cab_from_name);
    }
}

#[test]
fn make_and_model_differing_only_in_case_are_one_name() {
    let md = MetadataSummary {
        gear_make: Some("MESA".to_owned()),
        gear_model: Some("mesa".to_owned()),
        ..summary()
    };
    assert_eq!(ModelInfo::from_metadata(md, "x").gear.as_deref(), Some("MESA"));
}

#[test]
fn an_unfilled_form_lets_the_name_upgrade_an_amp_verdict() {
    let md = MetadataSummary {
        gear_type: Some("amp".to_owned()),
        modeled_by: Some("someone".to_owned()),
        ..summary()
    };
    let info = ModelInfo::from_metadata(md, "Rig Cab");
    assert_eq!(info.includes_cab, Some(true));
    assert!(info.cab_from_name);
}

#[test]
fn meaningful_trims_and_drops_placeholders() {
    assert_eq!(meaningful(Some("  Fender  ".to_owned())).as_deref(), Some("Fender"));
    assert_eq!(meaningful(Some("TZ-MAKE".to_owned())), None);
    assert_eq!(meaningful(Some("\t\n".to_owned())), None);
    assert_eq!(meaningful(None), None);
    assert_eq!(meaningful(Some("t3k-nullish".to_owned())).as_deref(), Some("t3k-nullish"));
}

#[test]
fn cab_words_are_matched_whole_after_stripping_punctuation() {
    assert!(name_suggests_cab("(Cab)"));
    assert!(name_suggests_cab("my.full/rig"));
    assert!(name_suggests_cab("Big CABS!"));
    assert!(!name_suggests_cab("cabbage"));
    assert!(!name_suggests_cab(""));
    // "full rig" is matched anywhere, even inside a longer word.
    assert!(name_suggests_cab("full-rigging"));
    assert!(!name_suggests_cab("fullrange"));
}

#[test]
fn the_loader_keys_models_by_stem_and_lists_them_sorted() {
    assert!(is_model_extension(Some("nam")));
    assert!(!is_model_extension(Some("NAM")));
    assert!(!is_model_extension(Some("json")));
    assert!(!is_model_extension(None));

    let mut loader = NamLoader::empty();
    loader.load_model("Zeta".to_owned(), &model_json("{}")).expect("parses");
    loader
        .load_model("Alpha Cab".to_owned(), &model_json(r#"{"tone_type": "clean"}"#))
        .expect("parses");
    assert!(loader.load_model("Broken".to_owned(), "{ not json").is_err());

    assert_eq!(loader.available_names(), vec!["Alpha Cab".to_owned(), "Zeta".to_owned()]);
    assert!(loader.get("Zeta").is_some());
    assert!(loader.get("Broken").is_none());
    let info = loader.info("Alpha Cab").expect("summary kept");
    assert_eq!(info.tone_type.as_deref(), Some("clean"));
    assert_eq!(info.includes_cab, Some(true));
    assert!(info.cab_from_name);

    // Loading a stem again replaces its model.
    loader.load_model("Zeta".to_owned(), &model_json(r#"{"gear_type": "cab"}"#)).expect("parses");
    assert_eq!(loader.entries().len(), 2);
    assert_eq!(loader.info("Zeta").and_then(|i| i.includes_cab), Some(true));
}

#[test]
fn the_registry_answers_as_the_last_loader_it_was_filled_from() {
    let mut first = NamLoader::empty();
    first.load_model("Old".to_owned(), &model_json("{}")).expect("parses");
    let mut second = NamLoader::empty();
    second
        .load_model("Lead".to_owned(), &model_json(r#"{"modeled_by": "Ann", "gear_type": "amp"}"#))
        .expect("parses");
    second.load_model("Clean".to_owned(), &model_json("{}")).expect("parses");

    let mut reg = Registry::new();
    assert!(reg.available_names().is_empty());
    reg.init_from_loader(&first);
    assert!(reg.get("Old").is_some());
    reg.init_from_loader(&second);
    assert_eq!(reg.available_names(), second.available_names());
    assert_eq!(reg.available_names(), vec!["Clean".to_owned(), "Lead".to_owned()]);
    assert!(reg.get("Old").is_none());
    assert!(reg.info("Old").is_none());
    assert_eq!(reg.info("Lead"), second.info("Lead"));
    assert_eq!(reg.info("Lead").and_then(|i| i.modeled_by.as_deref()), Some("Ann"));
    assert_eq!(reg.info("Lead").and_then(|i| i.includes_cab), Some(false));
    let a = reg.get("Lead").expect("registered");
    let b = second.get("Lead").expect("loaded");
    assert!(std::sync::Arc::ptr_eq(&a, &b));
}

#[test]
fn loading_files_keeps_the_last_parsed_file_of_each_name() {
    let mut loader = NamLoader::empty();
    let outcomes = loader.load_files(vec![
        ("Lead".to_owned(), model_json(r#"{"tone_type": "crunch"}"#)),
        ("Broken".to_owned(), "{ not json".to_owned()),
        ("Lead".to_owned(), model_json(r#"{"tone_type": "hi_gain"}"#)),
        ("Lead".to_owned(), "{ also not json".to_owned()),
        ("Clean".to_owned(), model_json("{}")),
    ]);
    let ok: Vec<bool> = outcomes.iter().map(Result::is_ok).collect();
    assert_eq!(ok, vec![true, false, true, false, true]);
    assert_eq!(loader.available_names(), vec!["Clean".to_owned(), "Lead".to_owned()]);
    assert_eq!(loader.info("Lead").and_then(|i| i.tone_type.as_deref()), Some("hi_gain"));
    assert!(loader.get("Broken").is_none());
}
