//! Decisions the plugin makes around each host callback: which preset or
//! oversampling change to hand to the background thread, which audio-thread
//! condition to report (once per activation), what latency to re-report, and
//! what tail to claim. The plugin shell performs the actions; everything it
//! decides is here.

use vstd::prelude::*;

use crate::nam::info::opt_text;
use crate::preset::apply::{copy_stages, plan_for, plans, IrAction, PresetLoadPlan};
use crate::preset::manager::{views_of, Manager};
use crate::preset::stage_config::StageConfig;

verus! {

/// Bitmask of conditions already reported in this activation.
#[derive(Debug, Clone, Copy, PartialEq, Eq, Structural)]
pub struct ReportOnce(pub u8);

impl ReportOnce {
    pub const PROCESS_ERROR: u8 = 1;
    pub const NONFINITE: u8 = 2;
    pub const FIFO_ENGAGED: u8 = 4;
    pub const FAST_PATH: u8 = 8;
    pub const OVERSIZED_BLOCK: u8 = 16;

    /// Nothing reported yet.
    pub fn new() -> (r: Self)
        ensures
            r.0 == 0,
    {
        ReportOnce(0)
    }

    /// True the first time `flag` is claimed, false after that until the next
    /// reset.
    pub fn claim(&mut self, flag: u8) -> (r: bool)
        ensures
            r == (old(self).0 & flag == 0),
            final(self).0 == if r {
                old(self).0 | flag
            } else {
                old(self).0
            },
    {
        if self.0 & flag == 0 {
            self.0 = self.0 | flag;
            true
        } else {
            false
        }
    }

    pub fn reset(&mut self)
        ensures
            final(self).0 == 0,
    {
        self.0 = 0;
    }
}

/// A claimed flag stays claimed, and claiming one flag leaves every flag
/// that shares no bit with it as it was.
pub proof fn law_claim_is_one_shot(bits: u8, flag: u8, other: u8)
    requires
        flag != 0,
    ensures
        (bits | flag) & flag != 0,
        flag & other == 0 ==> (bits | flag) & other == bits & other,
        0u8 & flag == 0,
{
    assert((bits | flag) & flag != 0) by (bit_vector)
        requires
            flag != 0,
    ;
    assert(flag & other == 0 ==> (bits | flag) & other == bits & other) by (bit_vector);
    assert(0u8 & flag == 0) by (bit_vector);
}

/// The persisted oversampling factor read back as one the engine supports:
/// rounded down to a power of two in 1..=16.
pub open spec fn spec_normalize_oversampling(raw: u32) -> u32 {
    if raw >= 16 {
        16
    } else if raw >= 8 {
        8
    } else if raw >= 4 {
        4
    } else if raw >= 2 {
        2
    } else {
        1
    }
}

pub fn normalize_oversampling(raw: u32) -> (r: u32)
    ensures
        r == spec_normalize_oversampling(raw),
{
    if raw >= 16 {
        16
    } else if raw >= 8 {
        8
    } else if raw >= 4 {
        4
    } else if raw >= 2 {
        2
    } else {
        1
    }
}

/// A factor requested from the editor, clamped to 1..=16.
pub open spec fn spec_clamp_oversampling(v: u32) -> u32 {
    if v < 1 {
        1
    } else if v > 16 {
        16
    } else {
        v
    }
}

/// `n` as a `u32`, saturating at `u32::MAX`.
pub open spec fn spec_saturating_u32(n: usize) -> u32 {
    if n <= u32::MAX {
        n as u32
    } else {
        u32::MAX
    }
}

pub fn saturating_u32(n: usize) -> (r: u32)
    ensures
        r == spec_saturating_u32(n),
{
    if n <= 0xffff_ffffusize {
        n as u32
    } else {
        u32::MAX
    }
}

/// The preset name at a (possibly negative) index of the preset list.
pub open spec fn preset_at(names: Seq<String>, idx: i32) -> Option<Seq<char>> {
    if 0 <= idx < names.len() {
        Some(names[idx as int]@)
    } else {
        None
    }
}

fn preset_name_at(names: &Vec<String>, idx: i32) -> (r: Option<String>)
    ensures
        opt_text(r) == preset_at(names@, idx),
{
    if idx < 0 {
        return None;
    }
    let i = idx as usize;
    if i < names.len() {
        Some(names[i].clone())
    } else {
        None
    }
}

/// A change of oversampling factor to apply off the audio thread, followed
/// by a reload of the named preset.
#[derive(Debug, Clone)]
pub struct OversamplingChange {
    pub factor: u32,
    pub preset_name: Option<String>,
}

/// Work to hand to the background thread at the start of a block.
#[derive(Debug, Clone)]
pub struct BlockStart {
    pub load_preset: Option<String>,
    pub change_oversampling: Option<OversamplingChange>,
}

/// What the engine reported about the block it just processed.
#[derive(Debug, Clone, Copy, PartialEq, Eq, Structural)]
pub struct EngineOutcome {
    pub failed: bool,
    pub nonfinite: bool,
    pub engaged_block: Option<usize>,
    pub fast_path_block: Option<usize>,
    pub latency_frames: usize,
}

/// An oversampling-path change to log: the FIFO engaging, or the first
/// direct-path block.
#[derive(Debug, Clone, Copy, PartialEq, Eq, Structural)]
pub struct ModeReport {
    pub engaged: bool,
    pub block_len: u32,
    pub latency_before: u32,
    pub latency_after: u32,
}

/// Actions for the end of a block.
#[derive(Debug, Clone, Copy, PartialEq, Eq, Structural)]
pub struct BlockEnd {
    /// Log the engine error (first time only).
    pub log_process_error: bool,
    /// Log that non-finite samples were silenced (first time only).
    pub log_nonfinite: bool,
    /// Log the oversampling path.
    pub mode_report: Option<ModeReport>,
    /// Report this latency to the host.
    pub set_latency: Option<u32>,
}

/// The plugin's per-activation bookkeeping.
#[derive(Debug, Clone, Copy, PartialEq, Eq, Structural)]
pub struct HostState {
    /// Preset index last acted on; `-1` before any.
    pub last_preset_idx: i32,
    /// Oversampling factor the engine runs at.
    pub active_oversampling: u32,
    /// Latency last reported to the host.
    pub reported_latency: u32,
    pub reported: ReportOnce,
}

/// The log entry for the oversampling path, if one is due: the FIFO engaging
/// takes precedence over the direct path, and each is reported once.
pub open spec fn spec_mode_report(
    bits: u8,
    engaged_block: Option<usize>,
    fast_path_block: Option<usize>,
    latency_before: u32,
    latency_after: u32,
) -> (Option<ModeReport>, u8) {
    match engaged_block {
        Some(len) => if bits & ReportOnce::FIFO_ENGAGED == 0 {
            (
                Some(
                    ModeReport {
                        engaged: true,
                        block_len: spec_saturating_u32(len),
                        latency_before,
                        latency_after,
                    },
                ),
                bits | ReportOnce::FIFO_ENGAGED,
            )
        } else {
            (None, bits)
        },
        None => match fast_path_block {
            Some(len) => if bits & ReportOnce::FAST_PATH == 0 {
                (
                    Some(
                        ModeReport {
                            engaged: false,
                            block_len: spec_saturating_u32(len),
                            latency_before,
                            latency_after,
                        },
                    ),
                    bits | ReportOnce::FAST_PATH,
                )
            } else {
                (None, bits)
            },
            None => (None, bits),
        },
    }
}

impl HostState {
    /// The state of a plugin that has not been activated yet.
    pub fn new() -> (r: Self)
        ensures
            r.last_preset_idx == -1,
            r.active_oversampling == 1,
            r.reported_latency == 0,
            r.reported.0 == 0,
    {
        HostState {
            last_preset_idx: -1,
            active_oversampling: 1,
            reported_latency: 0,
            reported: ReportOnce::new(),
        }
    }

    /// Starts an activation: nothing has been reported yet, and the persisted
    /// oversampling factor is normalized and becomes the active one.
    pub fn activate(&mut self, raw_oversampling: u32) -> (factor: u32)
        ensures
            factor == spec_normalize_oversampling(raw_oversampling),
            *final(self) == (HostState {
                active_oversampling: factor,
                reported: ReportOnce(0),
                ..*old(self)
            }),
    {
        self.reported.reset();
        let factor = normalize_oversampling(raw_oversampling);
        self.active_oversampling = factor;
        factor
    }

    /// Records the preset index an activation restored, so that the first
    /// block does not load that preset again over the restored chain.
    pub fn set_restored_preset(&mut self, preset_idx: i32)
        ensures
            *final(self) == (HostState { last_preset_idx: preset_idx, ..*old(self) }),
    {
        self.last_preset_idx = preset_idx;
    }

    /// Records the latency first reported after activation.
    pub fn set_initial_latency(&mut self, latency_frames: usize) -> (r: u32)
        ensures
            r == spec_saturating_u32(latency_frames),
            *final(self) == (HostState { reported_latency: r, ..*old(self) }),
    {
        let r = saturating_u32(latency_frames);
        self.reported_latency = r;
        r
    }

    /// The selected preset changed since the last block: load it (when the
    /// index names one). The requested oversampling factor differs from the
    /// active one: switch to it and reload the current preset.
    pub fn begin_block(&mut self, preset_idx: i32, names: &Vec<String>, requested: u32) -> (r:
        BlockStart)
        ensures
            opt_text(r.load_preset) == if preset_idx != old(self).last_preset_idx {
                preset_at(names@, preset_idx)
            } else {
                None
            },
            final(self).last_preset_idx == preset_idx,
            final(self).active_oversampling == spec_clamp_oversampling(requested),
            final(self).reported_latency == old(self).reported_latency,
            final(self).reported == old(self).reported,
            match r.change_oversampling {
                Some(c) => spec_clamp_oversampling(requested) != old(self).active_oversampling
                    && c.factor == spec_clamp_oversampling(requested) && opt_text(c.preset_name)
                    == preset_at(names@, preset_idx),
                None => spec_clamp_oversampling(requested) == old(self).active_oversampling,
            },
    {
        let load_preset = if preset_idx != self.last_preset_idx {
            preset_name_at(names, preset_idx)
        } else {
            None
        };
        self.last_preset_idx = preset_idx;
        let req = if requested < 1 {
            1
        } else if requested > 16 {
            16
        } else {
            requested
        };
        let change_oversampling = if req != self.active_oversampling {
            let preset_name = preset_name_at(names, self.last_preset_idx);
            Some(OversamplingChange { factor: req, preset_name })
        } else {
            None
        };
        self.active_oversampling = req;
        BlockStart { load_preset, change_oversampling }
    }

    /// A block larger than the declared maximum was clamped: report it the
    /// first time only.
    pub fn note_oversized_block(&mut self) -> (r: bool)
        ensures
            r == (old(self).reported.0 & ReportOnce::OVERSIZED_BLOCK == 0),
            *final(self) == (HostState {
                reported: ReportOnce(
                    if r {
                        old(self).reported.0 | ReportOnce::OVERSIZED_BLOCK
                    } else {
                        old(self).reported.0
                    },
                ),
                ..*old(self)
            }),
    {
        self.reported.claim(ReportOnce::OVERSIZED_BLOCK)
    }

    /// What to do once the engine has processed a block. A failed block
    /// only reports the failure (once); otherwise non-finite output is
    /// reported once, the oversampling path is logged (quoting the latency
    /// reported so far) and a changed latency is re-reported.
    pub fn end_block(&mut self, outcome: EngineOutcome) -> (r: BlockEnd)
        ensures
            final(self).last_preset_idx == old(self).last_preset_idx,
            final(self).active_oversampling == old(self).active_oversampling,
            outcome.failed ==> {
                &&& r.log_process_error == (old(self).reported.0 & ReportOnce::PROCESS_ERROR == 0)
                &&& !r.log_nonfinite
                &&& r.mode_report is None
                &&& r.set_latency is None
                &&& final(self).reported_latency == old(self).reported_latency
                &&& final(self).reported.0 == old(self).reported.0 | ReportOnce::PROCESS_ERROR
            },
            !outcome.failed ==> {
                let b0 = old(self).reported.0;
                let b1 = if outcome.nonfinite && b0 & ReportOnce::NONFINITE == 0 {
                    b0 | ReportOnce::NONFINITE
                } else {
                    b0
                };
                let after = spec_saturating_u32(outcome.latency_frames);
                let m = spec_mode_report(
                    b1,
                    outcome.engaged_block,
                    outcome.fast_path_block,
                    old(self).reported_latency,
                    after,
                );
                &&& !r.log_process_error
                &&& r.log_nonfinite == (outcome.nonfinite && b0 & ReportOnce::NONFINITE == 0)
                &&& r.mode_report == m.0
                &&& final(self).reported.0 == m.1
                &&& r.set_latency == if after != old(self).reported_latency {
                    Some(after)
                } else {
                    None
                }
                &&& final(self).reported_latency == after
            },
    {
        if outcome.failed {
            let first = self.reported.claim(ReportOnce::PROCESS_ERROR);
            proof {
                let b = old(self).reported.0;
                assert(!first ==> b == b | 1u8) by (bit_vector)
                    requires
                        !first ==> b & 1u8 != 0,
                ;
            }
            return BlockEnd {
                log_process_error: first,
                log_nonfinite: false,
                mode_report: None,
                set_latency: None,
            };
        }
        let log_nonfinite = if outcome.nonfinite {
            self.reported.claim(ReportOnce::NONFINITE)
        } else {
            false
        };
        let latency_after = saturating_u32(outcome.latency_frames);
        let latency_before = self.reported_latency;
        let mode_report = match outcome.engaged_block {
            Some(len) => {
                if self.reported.claim(ReportOnce::FIFO_ENGAGED) {
                    Some(
                        ModeReport {
                            engaged: true,
                            block_len: saturating_u32(len),
                            latency_before,
                            latency_after,
                        },
                    )
                } else {
                    None
                }
            },
            None => match outcome.fast_path_block {
                Some(len) => {
                    if self.reported.claim(ReportOnce::FAST_PATH) {
                        Some(
                            ModeReport {
                                engaged: false,
                                block_len: saturating_u32(len),
                                latency_before,
                                latency_after,
                            },
                        )
                    } else {
                        None
                    }
                },
                None => None,
            },
        };
        let set_latency = if latency_after != self.reported_latency {
            self.reported_latency = latency_after;
            Some(latency_after)
        } else {
            None
        };
        BlockEnd { log_process_error: false, log_nonfinite, mode_report, set_latency }
    }
}

/// Tail length, in whole seconds, at or above which the plugin asks to be
/// kept alive instead of reporting a finite tail.
pub const KEEP_ALIVE_THRESHOLD_SECONDS: u32 = 60;

/// What the plugin tells the host about its tail.
#[derive(Debug, Clone, Copy, PartialEq, Eq, Structural)]
pub enum TailStatus {
    /// Nothing rings and nothing is buffered: the host may idle the plugin.
    Normal,
    /// The chain rings for so long it is effectively self-sustaining.
    KeepAlive,
    /// Frames still to come out after the input goes silent.
    Tail(u32),
}

/// What the engine contributes to the tail: whether its ring reaches the
/// keep-alive threshold, its ring in frames at the host rate, and the frames
/// it holds in flight (its latency).
#[derive(Debug, Clone, Copy, PartialEq, Eq, Structural)]
pub struct TailInputs {
    pub keep_alive: bool,
    pub ring_frames: u32,
    pub latency_frames: usize,
}

/// No engine: `Normal`. A ring past the threshold: `KeepAlive`. Otherwise the
/// longer of the ring and the in-flight audio, `Normal` only when both are
/// zero.
pub open spec fn spec_tail_status(engine: Option<TailInputs>) -> TailStatus {
    match engine {
        None => TailStatus::Normal,
        Some(t) => if t.keep_alive {
            TailStatus::KeepAlive
        } else {
            let in_flight = spec_saturating_u32(t.latency_frames);
            let tail = if t.ring_frames >= in_flight {
                t.ring_frames
            } else {
                in_flight
            };
            if tail == 0 {
                TailStatus::Normal
            } else {
                TailStatus::Tail(tail)
            }
        },
    }
}

pub fn tail_status(engine: Option<TailInputs>) -> (r: TailStatus)
    ensures
        r == spec_tail_status(engine),
{
    match engine {
        None => TailStatus::Normal,
        Some(t) => {
            if t.keep_alive {
                return TailStatus::KeepAlive;
            }
            let in_flight = saturating_u32(t.latency_frames);
            let tail = if t.ring_frames >= in_flight {
                t.ring_frames
            } else {
                in_flight
            };
            if tail == 0 {
                TailStatus::Normal
            } else {
                TailStatus::Tail(tail)
            }
        },
    }
}

/// The host is never told it may idle the plugin while audio is still in
/// flight or the chain still rings: the reported tail covers both.
pub proof fn law_tail_covers_in_flight_audio(t: TailInputs)
    requires
        !t.keep_alive,
        t.latency_frames > 0 || t.ring_frames > 0,
    ensures
        spec_tail_status(Some(t)) matches TailStatus::Tail(n) && n >= t.ring_frames && n
            >= spec_saturating_u32(t.latency_frames) && n > 0,
{
}

/// What of a preset is applied on top of a chain restored from persisted
/// state: its cabinet IR (never a clear), IR gain and pitch shift.
#[derive(Debug, Clone)]
pub struct PresetExtras {
    pub ir: IrAction,
    pub ir_gain_bits: u32,
    pub pitch_shift_semitones: i32,
}

/// How an activation restores the chain.
#[derive(Debug, Clone)]
pub struct RestorePlan {
    /// The chain to rebuild from persisted state: the editor's in-session
    /// stages when it has stored any, otherwise the host's saved chain.
    pub chain: Option<Vec<StageConfig>>,
    /// With a persisted chain: the restored preset's extras.
    pub extras: Option<PresetExtras>,
    /// Without one: the restored preset, loaded in full.
    pub full: Option<PresetLoadPlan>,
    /// Seed the editor's in-session stages from the host's saved chain
    /// (only when the editor has stored none of its own).
    pub seed_session_stages: bool,
}

/// The text of an optional stage list.
pub open spec fn opt_stages(o: Option<Vec<StageConfig>>) -> Option<Seq<StageConfig>> {
    match o {
        Some(v) => Some(v@),
        None => None,
    }
}

/// Plans the chain restore of an activation. `names` is the preset list,
/// `idx` the persisted preset index, `manager` holds the presets.
pub fn plan_restore(
    session_stages: Option<Vec<StageConfig>>,
    saved_chain: Option<Vec<StageConfig>>,
    names: &Vec<String>,
    idx: i32,
    manager: &Manager,
    has_loader: bool,
    embedded: &Vec<String>,
) -> (r: RestorePlan)
    ensures
        opt_stages(r.chain) == if session_stages is Some {
            opt_stages(session_stages)
        } else {
            opt_stages(saved_chain)
        },
        r.seed_session_stages == (session_stages is None && saved_chain is Some),
        r.chain is Some ==> r.full is None,
        r.chain is None ==> r.extras is None,
        (preset_at(names@, idx) is None || !(exists|i: int|
            0 <= i < manager.spec_presets().len() && (#[trigger] manager.spec_presets()[i]).name@
                == preset_at(names@, idx)->0)) ==> r.extras is None && r.full is None,
        r.full matches Some(plan) ==> exists|i: int|
            0 <= i < manager.spec_presets().len() && (#[trigger] manager.spec_presets()[i]).name@
                == preset_at(names@, idx)->0 && (forall|j: int|
                0 <= j < i ==> (#[trigger] manager.spec_presets()[j]).name@ != preset_at(
                    names@,
                    idx,
                )->0) && plans(
                plan,
                manager.spec_presets()[i],
                has_loader,
                views_of(embedded@),
            ),
        r.extras matches Some(x) ==> exists|i: int|
            0 <= i < manager.spec_presets().len() && (#[trigger] manager.spec_presets()[i]).name@
                == preset_at(names@, idx)->0 && (forall|j: int|
                0 <= j < i ==> (#[trigger] manager.spec_presets()[j]).name@ != preset_at(
                    names@,
                    idx,
                )->0) && {
                let p = manager.spec_presets()[i];
                &&& x.ir_gain_bits == p.ir_gain_bits
                &&& x.pitch_shift_semitones == p.pitch_shift_semitones
                &&& exists|plan: PresetLoadPlan|
                    plans(plan, p, has_loader, views_of(embedded@)) && x.ir == if plan.ir
                        == IrAction::Clear {
                        IrAction::Keep
                    } else {
                        plan.ir
                    }
            },
        (r.chain is None && preset_at(names@, idx) is Some && exists|i: int|
            0 <= i < manager.spec_presets().len() && (#[trigger] manager.spec_presets()[i]).name@
                == preset_at(names@, idx)->0) ==> r.full is Some,
        (r.chain is Some && preset_at(names@, idx) is Some && exists|i: int|
            0 <= i < manager.spec_presets().len() && (#[trigger] manager.spec_presets()[i]).name@
                == preset_at(names@, idx)->0) ==> r.extras is Some,
{
    let seed_session_stages = session_stages.is_none() && saved_chain.is_some();
    let chain = match session_stages {
        Some(s) => Some(s),
        None => saved_chain,
    };
    let name = preset_name_at(names, idx);
    let plan = match &name {
        Some(n) => match manager.get_preset_by_name(n.as_str()) {
            Some(p) => Some(plan_for(p, has_loader, embedded)),
            None => None,
        },
        None => None,
    };
    if chain.is_some() {
        let extras = match plan {
            Some(pl) => {
                let ir = match pl.ir {
                    IrAction::Clear => IrAction::Keep,
                    other => other,
                };
                Some(
                    PresetExtras {
                        ir,
                        ir_gain_bits: pl.ir_gain_bits,
                        pitch_shift_semitones: pl.pitch_shift_semitones,
                    },
                )
            },
            None => None,
        };
        RestorePlan { chain, extras, full: None, seed_session_stages }
    } else {
        RestorePlan { chain, extras: None, full: plan, seed_session_stages }
    }
}

/// The preset the editor shows when it opens: the restored index when it
/// is not negative, otherwise the first preset.
pub open spec fn spec_editor_preset(names: Seq<String>, restored_idx: i32) -> Option<Seq<char>> {
    if restored_idx >= 0 {
        preset_at(names, restored_idx)
    } else if names.len() > 0 {
        Some(names[0]@)
    } else {
        None
    }
}

/// What the editor does first when it opens.
#[derive(Debug, Clone)]
pub enum EditorInit {
    /// Show these stored stages.
    SetStages(Vec<StageConfig>),
    /// Select (and so load) this preset.
    Select(String),
    /// Nothing to load.
    Nothing,
}

/// How the editor opens.
#[derive(Debug, Clone)]
pub struct EditorOpen {
    /// With stored stages, the preset to mark as selected without loading it.
    pub display_preset: Option<String>,
    pub init: EditorInit,
}

/// Plans opening the editor: stored stages (the editor's in-session stages,
/// else the host's saved chain) are shown as they are, with the initial
/// preset only marked as selected; without any, the initial preset is
/// selected and so loaded.
pub fn plan_editor_open(
    session_stages: Option<Vec<StageConfig>>,
    saved_chain: Option<Vec<StageConfig>>,
    names: &Vec<String>,
    restored_idx: i32,
) -> (r: EditorOpen)
    ensures
        match r.init {
            EditorInit::SetStages(st) => Some(st@) == if session_stages is Some {
                opt_stages(session_stages)
            } else {
                opt_stages(saved_chain)
            } && opt_text(r.display_preset) == spec_editor_preset(names@, restored_idx),
            EditorInit::Select(n) => session_stages is None && saved_chain is None && Some(n@)
                == spec_editor_preset(names@, restored_idx) && r.display_preset is None,
            EditorInit::Nothing => session_stages is None && saved_chain is None
                && spec_editor_preset(names@, restored_idx) is None && r.display_preset is None,
        },
{
    let initial = if restored_idx >= 0 {
        preset_name_at(names, restored_idx)
    } else if names.len() > 0 {
        Some(names[0].clone())
    } else {
        None
    };
    let stored = match session_stages {
        Some(s) => Some(s),
        None => saved_chain,
    };
    match stored {
        Some(st) => EditorOpen { display_preset: initial, init: EditorInit::SetStages(st) },
        None => match initial {
            Some(n) => EditorOpen { display_preset: None, init: EditorInit::Select(n) },
            None => EditorOpen { display_preset: None, init: EditorInit::Nothing },
        },
    }
}

/// The stages a change of oversampling rebuilds the chain from: the
/// editor's in-session stages, else the stages of the first preset called
/// `preset_name`; none when neither is there. The caller stores the result
/// back as the in-session stages.
pub fn stages_for_rebuild(
    session_stages: Option<Vec<StageConfig>>,
    manager: Option<&Manager>,
    preset_name: Option<&str>,
) -> (r: Option<Vec<StageConfig>>)
    ensures
        session_stages is Some ==> opt_stages(r) == opt_stages(session_stages),
        session_stages is None ==> match (manager, preset_name) {
            (Some(m), Some(n)) => match r {
                Some(st) => exists|i: int|
                    0 <= i < m.spec_presets().len() && (#[trigger] m.spec_presets()[i]).name@
                        == n@ && (forall|j: int|
                        0 <= j < i ==> (#[trigger] m.spec_presets()[j]).name@ != n@) && st@
                        == m.spec_presets()[i].stages@,
                None => forall|i: int|
                    0 <= i < m.spec_presets().len() ==> (#[trigger] m.spec_presets()[i]).name@
                        != n@,
            },
            _ => r is None,
        },
{
    if session_stages.is_some() {
        return session_stages;
    }
    match manager {
        Some(m) => match preset_name {
            Some(n) => match m.get_preset_by_name(n) {
                Some(p) => Some(copy_stages(&p.stages)),
                None => None,
            },
            None => None,
        },
        None => None,
    }
}

/// How a block's output frames are filled: frames before `silence_from`
/// carry the engine's output, the rest are silenced, so the host's dry input
/// never passes through.
#[derive(Debug, Clone, Copy, PartialEq, Eq, Structural)]
pub struct OutputFill {
    /// Frames the engine processes: the block, cut to the buffers' capacity.
    pub processed: usize,
    /// First silenced frame.
    pub silence_from: usize,
    /// The block was larger than the buffers, and its excess is silenced.
    pub oversized: bool,
}

/// Fills a block of `block_len` frames with buffers of `capacity` frames:
/// without an engine, or when the engine failed, every frame is silenced;
/// otherwise the engine's output fills what fits and the excess is silenced.
pub fn plan_output(has_engine: bool, block_len: usize, capacity: usize, failed: bool) -> (r:
    OutputFill)
    ensures
        r.processed == if !has_engine {
            0
        } else if block_len <= capacity {
            block_len
        } else {
            capacity
        },
        r.oversized == (has_engine && block_len > capacity),
        r.silence_from == if !has_engine || failed {
            0
        } else {
            r.processed
        },
        r.silence_from <= r.processed <= block_len,
{
    if !has_engine {
        return OutputFill { processed: 0, silence_from: 0, oversized: false };
    }
    let processed = if block_len <= capacity {
        block_len
    } else {
        capacity
    };
    let silence_from = if failed {
        0
    } else {
        processed
    };
    OutputFill { processed, silence_from, oversized: block_len > capacity }
}

/// A persisted factor reads back as the largest supported factor (a power
/// of two from 1 to 16) not above it, and a supported factor reads back as
/// itself.
pub proof fn law_normalized_factor_is_the_largest_supported_below(raw: u32)
    ensures
        ({
            let r = spec_normalize_oversampling(raw);
            &&& r == 1 || r == 2 || r == 4 || r == 8 || r == 16
            &&& r <= raw || r == 1
            &&& r == 16 || raw < 2 * r
            &&& (raw == 1 || raw == 2 || raw == 4 || raw == 8 || raw == 16) ==> r == raw
        }),
{
}

/// A requested factor is kept when it lies in 1..=16 and otherwise moved to
/// the nearer end of that range.
pub proof fn law_requested_factor_is_clamped(v: u32)
    ensures
        1 <= spec_clamp_oversampling(v) <= 16,
        1 <= v <= 16 ==> spec_clamp_oversampling(v) == v,
        v == 0 ==> spec_clamp_oversampling(v) == 1,
        v > 16 ==> spec_clamp_oversampling(v) == 16,
{
}

/// Saturation keeps every count that fits a `u32` and gives the largest
/// `u32` for the rest; it never decreases.
pub proof fn law_saturation_keeps_what_fits(n: usize, m: usize)
    ensures
        n <= u32::MAX ==> spec_saturating_u32(n) as int == n as int,
        n > u32::MAX ==> spec_saturating_u32(n) == u32::MAX,
        n <= m ==> spec_saturating_u32(n) <= spec_saturating_u32(m),
{
}

/// With no engine the host may idle the plugin; a self-sustaining ring keeps
/// it alive; otherwise the tail covers both the ring and the audio still in
/// flight (saturated to a `u32`), is one of them, and is reported as no tail
/// exactly when both are zero.
pub proof fn law_tail_covers_ring_and_latency(engine: Option<TailInputs>)
    ensures
        engine is None ==> spec_tail_status(engine) == TailStatus::Normal,
        (engine matches Some(t) && t.keep_alive) ==> spec_tail_status(engine) == TailStatus::KeepAlive,
        (engine matches Some(t) && !t.keep_alive) ==> {
            let t = engine->0;
            let lat = spec_saturating_u32(t.latency_frames);
            match spec_tail_status(engine) {
                TailStatus::Tail(n) => n >= t.ring_frames && n >= lat && (n == t.ring_frames || n
                    == lat) && n > 0,
                TailStatus::Normal => t.ring_frames == 0 && lat == 0,
                TailStatus::KeepAlive => false,
            }
        },
{
}

/// The oversampling path is logged at most once per kind: a report of the
/// FIFO engaging comes exactly when it engaged and had not been reported,
/// and marks it reported; a direct-path report comes only when the FIFO did
/// not just engage and the direct path had not been reported; flags are only
/// ever added, and a report quotes the block length and both latencies.
pub proof fn law_mode_reports_come_once(
    bits: u8,
    engaged_block: Option<usize>,
    fast_path_block: Option<usize>,
    before: u32,
    after: u32,
)
    ensures
        ({
            let (rep, nb) = spec_mode_report(bits, engaged_block, fast_path_block, before, after);
            &&& nb & bits == bits
            &&& ((rep is Some && rep->0.engaged) <==> (engaged_block is Some && bits
                & ReportOnce::FIFO_ENGAGED == 0))
            &&& ((rep is Some && !rep->0.engaged) <==> (engaged_block is None && fast_path_block
                is Some && bits & ReportOnce::FAST_PATH == 0))
            &&& (rep matches Some(m) ==> m.latency_before == before && m.latency_after == after)
            &&& (rep matches Some(m) ==> m.block_len == spec_saturating_u32(
                if m.engaged { engaged_block->0 } else { fast_path_block->0 },
            ))
            &&& (rep matches Some(m) ==> (m.engaged ==> nb & ReportOnce::FIFO_ENGAGED != 0))
            &&& (rep matches Some(m) ==> (!m.engaged ==> nb & ReportOnce::FAST_PATH != 0))
            &&& rep is None ==> nb == bits
        }),
{
    assert((bits | 4u8) & bits == bits) by (bit_vector);
    assert((bits | 8u8) & bits == bits) by (bit_vector);
    assert(bits & bits == bits) by (bit_vector);
    assert((bits | 4u8) & 4u8 != 0) by (bit_vector);
    assert((bits | 8u8) & 8u8 != 0) by (bit_vector);
}

/// The editor opens on the preset at the restored index when that index is
/// not negative (none when it is past the list), and on the first preset
/// when it is.
pub proof fn law_editor_opens_on_the_restored_preset(names: Seq<String>, restored_idx: i32)
    ensures
        0 <= restored_idx < names.len() ==> spec_editor_preset(names, restored_idx) == Some(
            names[restored_idx as int]@,
        ),
        restored_idx >= names.len() ==> spec_editor_preset(names, restored_idx) is None,
        restored_idx < 0 && names.len() > 0 ==> spec_editor_preset(names, restored_idx) == Some(
            names[0]@,
        ),
        restored_idx < 0 && names.len() == 0 ==> spec_editor_preset(names, restored_idx) is None,
{
}

} // verus!
