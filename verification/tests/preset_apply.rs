use rustortion::audio::peak::PeakHold;
use rustortion::preset::apply::{bypassed_positions, plan_preset_load, referenced_irs, IrAction};
use rustortion::preset::manager::Manager;
use rustortion::preset::stage_config::{StageConfig, StageType};
use rustortion::preset::{InputFilterConfig, Preset};

fn preset(name: &str, ir: Option<&str>) -> Preset {
    let mut delay = StageConfig::from_type(StageType::Delay);
    delay.set_bypassed(true);
    Preset {
        name: name.to_owned(),
        stages: vec![StageConfig::from_type(StageType::Preamp), delay],
        ir_name: ir.map(str::to_owned),
        ir_gain_bits: 0.5f32.to_bits(),
        pitch_shift_semitones: 3,
        input_filters: InputFilterConfig {
            hp_enabled: true,
            hp_cutoff_bits: 80.0f32.to_bits(),
            lp_enabled: false,
            lp_cutoff_bits: 8000.0f32.to_bits(),
        },
    }
}

#[test]
fn bypassed_stages_are_listed_by_position() {
    let p = preset("x", None);
    assert_eq!(bypassed_positions(&p.stages), vec![1]);
}

#[test]
fn loading_a_preset_prefers_embedded_irs() {
    let m = Manager::new_from_presets(vec![
        preset("Embedded", Some("cabs/4x12.wav")),
        preset("User", Some("mine.wav")),
        preset("Dry", None),
    ]);
    let embedded = vec!["cabs/4x12.wav".to_owned()];

    let plan = plan_preset_load(Some(&m), true, &embedded, "Embedded").expect("known preset");
    assert_eq!(plan.ir, IrAction::Embedded("cabs/4x12.wav".to_owned()));
    assert_eq!(plan.stages.len(), 2);
    assert_eq!(plan.bypassed, vec![1]);
    assert_eq!(plan.pitch_shift_semitones, 3);
    assert_eq!(plan.ir_gain_bits, 0.5f32.to_bits());
    assert_eq!(plan.highpass_bits, Some(80.0f32.to_bits()));
    assert_eq!(plan.lowpass_bits, None);

    let user = plan_preset_load(Some(&m), true, &embedded, "User").expect("known preset");
    assert_eq!(user.ir, IrAction::FromFolder("mine.wav".to_owned()));
    let no_loader = plan_preset_load(Some(&m), false, &embedded, "User").expect("known preset");
    assert_eq!(no_loader.ir, IrAction::Keep);
    let dry = plan_preset_load(Some(&m), true, &embedded, "Dry").expect("known preset");
    assert_eq!(dry.ir, IrAction::Clear);

    assert!(plan_preset_load(Some(&m), true, &embedded, "Missing").is_none());
    assert!(plan_preset_load(None, true, &embedded, "Dry").is_none());
}

#[test]
fn a_peak_is_held_for_two_seconds() {
    let mut hold = PeakHold::new(48_000);
    assert_eq!(hold.hold_samples, 96_000);
    assert!(hold.step(true, 512));
    let mut blocks = 0;
    while !hold.step(false, 512) {
        blocks += 1;
    }
    // 187 quiet blocks reach 95,744 frames; the 188th passes the hold.
    assert_eq!(blocks, 187);
    assert_eq!(hold.samples_since_peak, 0);
    hold.step(false, 10);
    hold.reset();
    assert_eq!(hold.samples_since_peak, 0);
}

#[test]
fn referenced_irs_are_listed_once_in_order() {
    let presets = vec![
        preset("A", Some("z.wav")),
        preset("B", None),
        preset("C", Some("a.wav")),
        preset("D", Some("z.wav")),
    ];
    assert_eq!(referenced_irs(&presets), vec!["a.wav".to_owned(), "z.wav".to_owned()]);
    assert!(referenced_irs(&[]).is_empty());
}
