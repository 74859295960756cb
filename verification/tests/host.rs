use rustortion::host::{
    plan_editor_open, plan_output, plan_restore, stages_for_rebuild, EditorInit, OutputFill,
};
use rustortion::preset::apply::IrAction;
use rustortion::preset::manager::Manager;
use rustortion::preset::stage_config::{StageConfig, StageType};
use rustortion::preset::{InputFilterConfig, Preset};
use rustortion::host::{
    normalize_oversampling, saturating_u32, tail_status, EngineOutcome, HostState, ModeReport,
    ReportOnce, TailInputs, TailStatus,
};

fn outcome(latency: usize) -> EngineOutcome {
    EngineOutcome {
        failed: false,
        nonfinite: false,
        engaged_block: None,
        fast_path_block: None,
        latency_frames: latency,
    }
}

#[test]
fn report_once_claims_each_flag_once_until_reset() {
    let mut r = ReportOnce::new();
    assert!(r.claim(ReportOnce::NONFINITE));
    assert!(!r.claim(ReportOnce::NONFINITE));
    assert!(r.claim(ReportOnce::FAST_PATH));
    r.reset();
    assert!(r.claim(ReportOnce::NONFINITE));
}

#[test]
fn persisted_oversampling_rounds_down_to_a_supported_factor() {
    let cases = [(0, 1), (1, 1), (2, 2), (3, 2), (4, 4), (7, 4), (8, 8), (15, 8), (16, 16), (999, 16)];
    for (raw, want) in cases {
        assert_eq!(normalize_oversampling(raw), want, "raw {raw}");
    }
}

#[test]
fn saturation_caps_at_u32_max() {
    assert_eq!(saturating_u32(7), 7);
    assert_eq!(saturating_u32(u32::MAX as usize), u32::MAX);
    #[allow(clippy::cast_possible_truncation)]
    let huge = usize::MAX;
    assert_eq!(saturating_u32(huge), u32::MAX);
}

#[test]
fn tail_covers_ring_and_in_flight_audio() {
    assert_eq!(tail_status(None), TailStatus::Normal);
    let t = |keep_alive, ring_frames, latency_frames| {
        tail_status(Some(TailInputs { keep_alive, ring_frames, latency_frames }))
    };
    assert_eq!(t(true, 5, 5), TailStatus::KeepAlive);
    assert_eq!(t(false, 0, 0), TailStatus::Normal);
    assert_eq!(t(false, 0, 2048), TailStatus::Tail(2048));
    assert_eq!(t(false, 96_000, 2048), TailStatus::Tail(96_000));
}

#[test]
fn a_preset_change_is_loaded_once() {
    let names = vec!["Clean".to_owned(), "Lead".to_owned()];
    let mut s = HostState::new();
    let first = s.begin_block(1, &names, 1);
    assert_eq!(first.load_preset.as_deref(), Some("Lead"));
    assert!(first.change_oversampling.is_none());
    let again = s.begin_block(1, &names, 1);
    assert!(again.load_preset.is_none());
    let out_of_range = s.begin_block(5, &names, 1);
    assert!(out_of_range.load_preset.is_none());
    assert_eq!(s.last_preset_idx, 5);
}

#[test]
fn an_oversampling_request_is_clamped_and_reloads_the_current_preset() {
    let names = vec!["Clean".to_owned()];
    let mut s = HostState::new();
    s.begin_block(0, &names, 1);
    let start = s.begin_block(0, &names, 40);
    let change = start.change_oversampling.expect("factor changed");
    assert_eq!(change.factor, 16);
    assert_eq!(change.preset_name.as_deref(), Some("Clean"));
    assert_eq!(s.active_oversampling, 16);
    assert!(s.begin_block(0, &names, 16).change_oversampling.is_none());
}

#[test]
fn activation_normalizes_and_clears_reports() {
    let mut s = HostState::new();
    assert!(s.note_oversized_block());
    assert!(!s.note_oversized_block());
    assert_eq!(s.activate(6), 4);
    assert_eq!(s.active_oversampling, 4);
    assert!(s.note_oversized_block());
    assert_eq!(s.set_initial_latency(300), 300);
    assert_eq!(s.reported_latency, 300);
}

#[test]
fn a_failed_block_only_reports_the_failure_once() {
    let mut s = HostState::new();
    let failed = EngineOutcome { failed: true, nonfinite: true, ..outcome(99) };
    let first = s.end_block(failed);
    assert!(first.log_process_error);
    assert!(!first.log_nonfinite);
    assert!(first.set_latency.is_none());
    assert!(!s.end_block(failed).log_process_error);
    assert_eq!(s.reported_latency, 0);
}

#[test]
fn latency_changes_are_reported_and_the_fifo_event_quotes_the_old_figure() {
    let mut s = HostState::new();
    s.set_initial_latency(100);
    let end = s.end_block(EngineOutcome { engaged_block: Some(100), ..outcome(420) });
    assert_eq!(end.set_latency, Some(420));
    assert_eq!(
        end.mode_report,
        Some(ModeReport { engaged: true, block_len: 100, latency_before: 100, latency_after: 420 })
    );
    let again = s.end_block(EngineOutcome { engaged_block: Some(100), ..outcome(420) });
    assert_eq!(again.set_latency, None);
    assert_eq!(again.mode_report, None);
}

#[test]
fn nonfinite_output_is_reported_once() {
    let mut s = HostState::new();
    let bad = EngineOutcome { nonfinite: true, ..outcome(0) };
    assert!(s.end_block(bad).log_nonfinite);
    assert!(!s.end_block(bad).log_nonfinite);
    let fast = s.end_block(EngineOutcome { fast_path_block: Some(256), ..outcome(0) });
    assert_eq!(
        fast.mode_report,
        Some(ModeReport { engaged: false, block_len: 256, latency_before: 0, latency_after: 0 })
    );
}


fn restore_preset(name: &str, ir: Option<&str>) -> Preset {
    Preset {
        name: name.to_owned(),
        stages: vec![StageConfig::from_type(StageType::Preamp)],
        ir_name: ir.map(str::to_owned),
        ir_gain_bits: 7,
        pitch_shift_semitones: -1,
        input_filters: InputFilterConfig {
            hp_enabled: false,
            hp_cutoff_bits: 0,
            lp_enabled: false,
            lp_cutoff_bits: 0,
        },
    }
}

#[test]
fn a_persisted_chain_wins_and_only_the_presets_extras_apply() {
    let m = Manager::new_from_presets(vec![restore_preset("Dry", None), restore_preset("Cab", Some("x.wav"))]);
    let names = vec!["Dry".to_owned(), "Cab".to_owned()];
    let saved = vec![StageConfig::from_type(StageType::Delay)];
    let session = vec![StageConfig::from_type(StageType::Reverb), StageConfig::from_type(StageType::Eq)];

    let r = plan_restore(Some(session.clone()), Some(saved.clone()), &names, 0, &m, true, &Vec::new());
    assert_eq!(r.chain.as_ref().map(Vec::len), Some(2));
    assert!(!r.seed_session_stages);
    assert!(r.full.is_none());
    let extras = r.extras.expect("preset found");
    // A persisted chain never clears the cabinet.
    assert_eq!(extras.ir, IrAction::Keep);
    assert_eq!(extras.ir_gain_bits, 7);
    assert_eq!(extras.pitch_shift_semitones, -1);

    let r = plan_restore(None, Some(saved), &names, 1, &m, true, &Vec::new());
    assert!(r.seed_session_stages);
    assert_eq!(r.extras.expect("preset found").ir, IrAction::FromFolder("x.wav".to_owned()));

    let r = plan_restore(None, None, &names, 0, &m, true, &Vec::new());
    assert!(r.chain.is_none());
    assert!(!r.seed_session_stages);
    let full = r.full.expect("preset loaded in full");
    assert_eq!(full.ir, IrAction::Clear);
    assert_eq!(full.stages.len(), 1);

    let r = plan_restore(None, None, &names, 9, &m, true, &Vec::new());
    assert!(r.full.is_none() && r.extras.is_none());
}

#[test]
fn the_restored_preset_is_not_loaded_again_on_the_first_block() {
    let names = vec!["Clean".to_owned(), "Lead".to_owned()];
    let mut s = HostState::new();
    s.activate(1);
    s.set_restored_preset(1);
    assert!(s.begin_block(1, &names, 1).load_preset.is_none());
    assert_eq!(s.begin_block(0, &names, 1).load_preset.as_deref(), Some("Clean"));
}

fn stage_types(stages: &[StageConfig]) -> Vec<StageType> {
    stages.iter().map(|s| s.stage_type()).collect()
}

#[test]
fn the_editor_shows_stored_stages_and_only_marks_the_preset() {
    let names = vec!["Clean".to_owned(), "Lead".to_owned()];
    let session = vec![StageConfig::from_type(StageType::Reverb)];
    let saved = vec![StageConfig::from_type(StageType::Delay), StageConfig::from_type(StageType::Eq)];

    let r = plan_editor_open(Some(session), Some(saved.clone()), &names, 1);
    assert_eq!(r.display_preset.as_deref(), Some("Lead"));
    match r.init {
        EditorInit::SetStages(st) => assert_eq!(stage_types(&st), vec![StageType::Reverb]),
        _ => panic!("stored stages expected"),
    }

    let r = plan_editor_open(None, Some(saved), &names, -1);
    assert_eq!(r.display_preset.as_deref(), Some("Clean"));
    match r.init {
        EditorInit::SetStages(st) => {
            assert_eq!(stage_types(&st), vec![StageType::Delay, StageType::Eq])
        }
        _ => panic!("saved chain expected"),
    }
}

#[test]
fn without_stored_stages_the_editor_selects_the_initial_preset() {
    let names = vec!["Clean".to_owned(), "Lead".to_owned()];
    let r = plan_editor_open(None, None, &names, 1);
    assert!(r.display_preset.is_none());
    assert!(matches!(r.init, EditorInit::Select(ref n) if n == "Lead"));
    let r = plan_editor_open(None, None, &names, -1);
    assert!(matches!(r.init, EditorInit::Select(ref n) if n == "Clean"));
    let r = plan_editor_open(None, None, &names, 7);
    assert!(matches!(r.init, EditorInit::Nothing));
    let r = plan_editor_open(None, None, &Vec::new(), -1);
    assert!(matches!(r.init, EditorInit::Nothing));
}

#[test]
fn a_rebuild_uses_session_stages_else_the_named_preset() {
    let m = Manager::new_from_presets(vec![restore_preset("Dry", None)]);
    let session = vec![StageConfig::from_type(StageType::Reverb)];
    let r = stages_for_rebuild(Some(session), Some(&m), Some("Dry")).expect("session stages");
    assert_eq!(stage_types(&r), vec![StageType::Reverb]);
    let r = stages_for_rebuild(None, Some(&m), Some("Dry")).expect("preset stages");
    assert_eq!(stage_types(&r), vec![StageType::Preamp]);
    assert!(stages_for_rebuild(None, Some(&m), Some("Wet")).is_none());
    assert!(stages_for_rebuild(None, None, Some("Dry")).is_none());
    assert!(stages_for_rebuild(None, Some(&m), None).is_none());
}

#[test]
fn output_frames_are_engine_output_or_silence() {
    assert_eq!(
        plan_output(false, 256, 512, false),
        OutputFill { processed: 0, silence_from: 0, oversized: false }
    );
    assert_eq!(
        plan_output(true, 256, 512, false),
        OutputFill { processed: 256, silence_from: 256, oversized: false }
    );
    assert_eq!(
        plan_output(true, 1024, 512, false),
        OutputFill { processed: 512, silence_from: 512, oversized: true }
    );
    assert_eq!(
        plan_output(true, 1024, 512, true),
        OutputFill { processed: 512, silence_from: 0, oversized: true }
    );
}
