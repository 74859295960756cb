use rustortion::audio::engine::{handle_messages_step, CabinetSlot, EngineOp, EngineSlots, Retired};

fn slots(stages: Vec<bool>, capacity: usize) -> EngineSlots {
    EngineSlots {
        stage_bypassed: stages,
        capacity,
        has_highpass: true,
        has_lowpass: false,
        cabinet: Some(CabinetSlot { has_ir: true, bypassed: false }),
        tuner: None,
        recording: false,
        has_shifter: true,
    }
}

#[test]
fn an_empty_queue_changes_nothing_and_keeps_the_tail() {
    let (s, retired, recompute) = handle_messages_step(slots(vec![false, true], 4), &Vec::new());
    assert_eq!(s.stage_bypassed, vec![false, true]);
    assert!(retired.is_empty());
    assert!(!recompute);
}

#[test]
fn stage_edits_follow_bounds_and_capacity() {
    let ops = vec![
        EngineOp::SetStageBypassed { idx: 0, bypassed: true },
        EngineOp::SwapStages { a: 0, b: 2 },
        EngineOp::AddStage { idx: 1 },
        EngineOp::AddStage { idx: 9 },
        EngineOp::RemoveStage { idx: 7 },
        EngineOp::ReplaceStage { idx: 0 },
        EngineOp::SetParameter { idx: 5 },
    ];
    let (s, retired, recompute) = handle_messages_step(slots(vec![false, false, true], 4), &ops);
    // Bypass set on stage 0, stages 0 and 2 swapped, one stage added at 1;
    // the second add finds the chain full and is refused.
    assert_eq!(s.stage_bypassed, vec![true, false, false, true]);
    assert_eq!(retired, vec![Retired::Stage, Retired::Stage]);
    assert!(recompute);
}

#[test]
fn an_add_past_the_end_appends_and_a_remove_frees_the_stage() {
    let ops = vec![EngineOp::AddStage { idx: 9 }, EngineOp::RemoveStage { idx: 0 }];
    let (s, retired, _) = handle_messages_step(slots(vec![true], 8), &ops);
    assert_eq!(s.stage_bypassed, vec![false]);
    assert_eq!(retired, vec![Retired::Stage]);
}

#[test]
fn every_displaced_object_goes_to_the_drop_queue_once() {
    let ops = vec![
        EngineOp::SetChain { stage_bypassed: vec![false], capacity: 16 },
        EngineOp::SetInputFilters { hp: false, lp: true },
        EngineOp::SwapIr { has_ir: true },
        EngineOp::SetPitchShift { install: false },
        EngineOp::SetPitchShift { install: true },
        EngineOp::SetSamplers,
    ];
    let (s, retired, _) = handle_messages_step(slots(vec![false, false], 2), &ops);
    assert_eq!(
        retired,
        vec![
            Retired::Chain,
            Retired::Filter,
            Retired::PreparedIr,
            Retired::Shifter,
            Retired::Samplers
        ]
    );
    assert_eq!(s.capacity, 16);
    assert!(!s.has_highpass && s.has_lowpass);
    assert!(s.has_shifter);
}

#[test]
fn cabinet_tuner_and_recorder_messages() {
    let ops = vec![
        EngineOp::SetIrBypass { bypass: true },
        EngineOp::ClearIr,
        EngineOp::SetIrGain,
        EngineOp::SetTunerEnabled { on: true },
        EngineOp::StartRecording,
        EngineOp::StartRecording,
    ];
    let (s, retired, _) = handle_messages_step(slots(Vec::new(), 4), &ops);
    assert_eq!(s.cabinet, Some(CabinetSlot { has_ir: false, bypassed: true }));
    assert_eq!(s.tuner, None);
    assert!(s.recording);
    assert!(retired.is_empty());
    let (s, _, _) = handle_messages_step(s, &vec![EngineOp::StopRecording]);
    assert!(!s.recording);

    let mut without_cab = slots(Vec::new(), 4);
    without_cab.cabinet = None;
    without_cab.tuner = Some(false);
    let (s, retired, _) = handle_messages_step(
        without_cab,
        &vec![EngineOp::SwapIr { has_ir: true }, EngineOp::SetTunerEnabled { on: true }],
    );
    assert_eq!(s.cabinet, None);
    assert_eq!(s.tuner, Some(true));
    // The prepared IR has nowhere to go and is freed off the audio thread.
    assert_eq!(retired, vec![Retired::PreparedIr]);
}
