//! Which stages of the engine one block of audio goes through, and how the
//! engine applies the messages queued for it before a block.

use vstd::prelude::*;

verus! {

/// The parts of the engine present for a block, as the engine holds them.
#[derive(Debug, Clone, Copy, PartialEq, Eq, Structural)]
pub struct EngineParts {
    /// A tuner is installed and enabled.
    pub tuner_enabled: bool,
    /// The samplers oversample (their factor is not 1).
    pub oversampling: bool,
    pub has_pitch_shifter: bool,
    pub has_cabinet: bool,
    pub has_peak_meter: bool,
    /// The engine runs without tuner, meter, recorder or metronome work.
    pub lightweight: bool,
    pub recording: bool,
}

/// The route of one block through the engine.
#[derive(Debug, Clone, Copy, PartialEq, Eq, Structural)]
pub enum BlockPlan {
    /// The tuner takes the input and the output is silent.
    TunerOnly,
    /// Input filters, the amp chain (oversampled or not), then the listed
    /// stages, in this order, with the master-bus guard before the meter.
    Chain {
        oversampled: bool,
        pitch_shift: bool,
        cabinet: bool,
        peak_meter: bool,
        record: bool,
    },
}

/// Input and output buffers of different lengths.
#[derive(Debug, Clone, Copy, PartialEq, Eq, Structural)]
pub struct LengthMismatch {
    pub input: usize,
    pub output: usize,
}

/// Buffers of different lengths are refused; an enabled tuner takes the
/// block; otherwise the chain runs and every present post-stage follows, the
/// recorder only outside lightweight mode.
pub open spec fn spec_block_plan(input_len: usize, output_len: usize, parts: EngineParts) -> Result<
    BlockPlan,
    LengthMismatch,
> {
    if input_len != output_len {
        Err(LengthMismatch { input: input_len, output: output_len })
    } else if parts.tuner_enabled {
        Ok(BlockPlan::TunerOnly)
    } else {
        Ok(
            BlockPlan::Chain {
                oversampled: parts.oversampling,
                pitch_shift: parts.has_pitch_shifter,
                cabinet: parts.has_cabinet,
                peak_meter: parts.has_peak_meter,
                record: !parts.lightweight && parts.recording,
            },
        )
    }
}

pub fn plan_block(input_len: usize, output_len: usize, parts: EngineParts) -> (r: Result<
    BlockPlan,
    LengthMismatch,
>)
    ensures
        r == spec_block_plan(input_len, output_len, parts),
{
    if input_len != output_len {
        return Err(LengthMismatch { input: input_len, output: output_len });
    }
    if parts.tuner_enabled {
        return Ok(BlockPlan::TunerOnly);
    }
    Ok(
        BlockPlan::Chain {
            oversampled: parts.oversampling,
            pitch_shift: parts.has_pitch_shifter,
            cabinet: parts.has_cabinet,
            peak_meter: parts.has_peak_meter,
            record: !parts.lightweight && parts.recording,
        },
    )
}

/// The IR cabinet's switchable state.
#[derive(Debug, Clone, Copy, PartialEq, Eq, Structural)]
pub struct CabinetSlot {
    /// An impulse response is loaded; without one the cabinet passes audio
    /// through.
    pub has_ir: bool,
    pub bypassed: bool,
}

/// What the engine's message handling can change, as plain values: per
/// chain stage its bypass flag, the chain's reserved stage capacity, the
/// input filters, the cabinet, the tuner (its enabled flag), the recorder and
/// the pitch shifter. Floating-point settings (parameters, the IR gain) pass
/// straight through to the objects that hold them.
#[derive(Debug, Clone)]
pub struct EngineSlots {
    pub stage_bypassed: Vec<bool>,
    pub capacity: usize,
    pub has_highpass: bool,
    pub has_lowpass: bool,
    pub cabinet: Option<CabinetSlot>,
    pub tuner: Option<bool>,
    pub recording: bool,
    pub has_shifter: bool,
}

/// `EngineSlots` as a mathematical value.
pub struct SlotsModel {
    pub stage_bypassed: Seq<bool>,
    pub capacity: nat,
    pub has_highpass: bool,
    pub has_lowpass: bool,
    pub cabinet: Option<CabinetSlot>,
    pub tuner: Option<bool>,
    pub recording: bool,
    pub has_shifter: bool,
}

impl View for EngineSlots {
    type V = SlotsModel;

    open spec fn view(&self) -> SlotsModel {
        SlotsModel {
            stage_bypassed: self.stage_bypassed@,
            capacity: self.capacity as nat,
            has_highpass: self.has_highpass,
            has_lowpass: self.has_lowpass,
            cabinet: self.cabinet,
            tuner: self.tuner,
            recording: self.recording,
            has_shifter: self.has_shifter,
        }
    }
}

/// A message to the engine, by what its handling reads: the payload objects
/// themselves (stages, filters, convolvers, recorders, samplers) travel
/// beside it.
#[derive(Debug, Clone)]
pub enum EngineOp {
    /// A whole new chain, by its stages' bypass flags and its capacity.
    SetChain { stage_bypassed: Vec<bool>, capacity: usize },
    SetParameter { idx: usize },
    ReplaceStage { idx: usize },
    AddStage { idx: usize },
    RemoveStage { idx: usize },
    SwapStages { a: usize, b: usize },
    SetStageBypassed { idx: usize, bypassed: bool },
    /// New input filters; `false` removes one.
    SetInputFilters { hp: bool, lp: bool },
    /// A prepared convolver; `has_ir` is whether it holds an IR.
    SwapIr { has_ir: bool },
    ClearIr,
    SetIrBypass { bypass: bool },
    SetIrGain,
    SetTunerEnabled { on: bool },
    StartRecording,
    StopRecording,
    /// A new pitch shifter, or none (no shift).
    SetPitchShift { install: bool },
    SetSamplers,
}

/// An object handed to the real-time drop queue, to be freed off the audio
/// thread.
#[derive(Debug, Clone, Copy, PartialEq, Eq, Structural)]
pub enum Retired {
    Chain,
    Stage,
    Filter,
    PreparedIr,
    Shifter,
    Samplers,
}

/// The engine's state after one message. Stage indices past the chain's end
/// are ignored; an added stage is refused when the chain is at capacity and
/// otherwise goes in (not bypassed) at `idx`, or at the end for an index past
/// it; a replaced stage keeps its slot's bypass flag; swapping needs both
/// indices in range. Cabinet and tuner messages act only where the part is
/// present; a second recording is not started over a running one.
pub open spec fn op_applied(s: SlotsModel, op: EngineOp) -> SlotsModel {
    let len = s.stage_bypassed.len();
    match op {
        EngineOp::SetChain { stage_bypassed, capacity } => SlotsModel {
            stage_bypassed: stage_bypassed@,
            capacity: capacity as nat,
            ..s
        },
        EngineOp::AddStage { idx } => if len >= s.capacity {
            s
        } else {
            SlotsModel {
                stage_bypassed: s.stage_bypassed.insert(if idx <= len { idx as int } else { len as int }, false),
                ..s
            }
        },
        EngineOp::RemoveStage { idx } => if idx < len {
            SlotsModel { stage_bypassed: s.stage_bypassed.remove(idx as int), ..s }
        } else {
            s
        },
        EngineOp::SwapStages { a, b } => if a < len && b < len {
            SlotsModel {
                stage_bypassed: s.stage_bypassed.update(a as int, s.stage_bypassed[b as int]).update(
                    b as int,
                    s.stage_bypassed[a as int],
                ),
                ..s
            }
        } else {
            s
        },
        EngineOp::SetStageBypassed { idx, bypassed } => if idx < len {
            SlotsModel { stage_bypassed: s.stage_bypassed.update(idx as int, bypassed), ..s }
        } else {
            s
        },
        EngineOp::SetInputFilters { hp, lp } => SlotsModel { has_highpass: hp, has_lowpass: lp, ..s },
        EngineOp::SwapIr { has_ir } => SlotsModel {
            cabinet: match s.cabinet {
                Some(c) => Some(CabinetSlot { has_ir, bypassed: c.bypassed }),
                None => None,
            },
            ..s
        },
        EngineOp::ClearIr => SlotsModel {
            cabinet: match s.cabinet {
                Some(c) => Some(CabinetSlot { has_ir: false, bypassed: c.bypassed }),
                None => None,
            },
            ..s
        },
        EngineOp::SetIrBypass { bypass } => SlotsModel {
            cabinet: match s.cabinet {
                Some(c) => Some(CabinetSlot { has_ir: c.has_ir, bypassed: bypass }),
                None => None,
            },
            ..s
        },
        EngineOp::SetTunerEnabled { on } => SlotsModel {
            tuner: match s.tuner {
                Some(_) => Some(on),
                None => None,
            },
            ..s
        },
        EngineOp::StartRecording => SlotsModel { recording: true, ..s },
        EngineOp::StopRecording => SlotsModel { recording: false, ..s },
        EngineOp::SetPitchShift { install } => SlotsModel { has_shifter: install, ..s },
        _ => s,
    }
}

/// What one message hands to the drop queue: the old chain; a replaced or
/// removed stage, or an added one the full chain refused; each input filter
/// that is replaced; the prepared IR (holding the old convolver, or the new
/// one when there is no cabinet); the old pitch shifter; the old samplers.
pub open spec fn op_retired(s: SlotsModel, op: EngineOp) -> Seq<Retired> {
    let len = s.stage_bypassed.len();
    match op {
        EngineOp::SetChain { .. } => seq![Retired::Chain],
        EngineOp::ReplaceStage { idx } => if idx < len {
            seq![Retired::Stage]
        } else {
            seq![]
        },
        EngineOp::AddStage { .. } => if len >= s.capacity {
            seq![Retired::Stage]
        } else {
            seq![]
        },
        EngineOp::RemoveStage { idx } => if idx < len {
            seq![Retired::Stage]
        } else {
            seq![]
        },
        EngineOp::SetInputFilters { .. } => (if s.has_highpass {
            seq![Retired::Filter]
        } else {
            seq![]
        }) + (if s.has_lowpass {
            seq![Retired::Filter]
        } else {
            seq![]
        }),
        EngineOp::SwapIr { .. } => seq![Retired::PreparedIr],
        EngineOp::SetPitchShift { .. } => if s.has_shifter {
            seq![Retired::Shifter]
        } else {
            seq![]
        },
        EngineOp::SetSamplers => seq![Retired::Samplers],
        _ => seq![],
    }
}

/// The state after the messages, in queue order.
pub open spec fn spec_apply_ops(s: SlotsModel, ops: Seq<EngineOp>) -> SlotsModel
    decreases ops.len(),
{
    if ops.len() == 0 {
        s
    } else {
        op_applied(spec_apply_ops(s, ops.drop_last()), ops.last())
    }
}

/// Everything the messages hand to the drop queue, in order.
pub open spec fn spec_retired(s: SlotsModel, ops: Seq<EngineOp>) -> Seq<Retired>
    decreases ops.len(),
{
    if ops.len() == 0 {
        seq![]
    } else {
        spec_retired(s, ops.drop_last()) + op_retired(spec_apply_ops(s, ops.drop_last()), ops.last())
    }
}

fn copy_flags(v: &Vec<bool>) -> (r: Vec<bool>)
    ensures
        r@ == v@,
{
    let mut out: Vec<bool> = Vec::new();
    let mut i: usize = 0;
    while i < v.len()
        invariant
            i <= v.len(),
            out@ == v@.take(i as int),
        decreases v.len() - i,
    {
        out.push(v[i]);
        proof {
            assert(v@.take(i as int + 1) == v@.take(i as int).push(v@[i as int]));
        }
        i = i + 1;
    }
    proof {
        assert(v@.take(v@.len() as int) == v@);
    }
    out
}

impl EngineSlots {
    fn add_stage(&mut self, idx: usize, retired: &mut Vec<Retired>)
        ensures
            final(self)@ == op_applied(old(self)@, EngineOp::AddStage { idx }),
            final(retired)@ == old(retired)@ + op_retired(old(self)@, EngineOp::AddStage { idx }),
    {
        let len = self.stage_bypassed.len();
        if len >= self.capacity {
            retired.push(Retired::Stage);
        } else {
            let at = if idx <= len {
                idx
            } else {
                len
            };
            self.stage_bypassed.insert(at, false);
        }
    }

    fn remove_stage(&mut self, idx: usize, retired: &mut Vec<Retired>)
        ensures
            final(self)@ == op_applied(old(self)@, EngineOp::RemoveStage { idx }),
            final(retired)@ == old(retired)@ + op_retired(old(self)@, EngineOp::RemoveStage { idx }),
    {
        if idx < self.stage_bypassed.len() {
            self.stage_bypassed.remove(idx);
            retired.push(Retired::Stage);
        } else {
            proof {
                assert(old(retired)@ + seq![] == old(retired)@);
            }
        }
    }

    fn swap_stages(&mut self, a: usize, b: usize)
        ensures
            final(self)@ == op_applied(old(self)@, EngineOp::SwapStages { a, b }),
    {
        let len = self.stage_bypassed.len();
        if a < len && b < len {
            let fa = self.stage_bypassed[a];
            let fb = self.stage_bypassed[b];
            self.stage_bypassed.set(a, fb);
            self.stage_bypassed.set(b, fa);
        }
    }

    fn set_stage_bypassed(&mut self, idx: usize, bypassed: bool)
        ensures
            final(self)@ == op_applied(old(self)@, EngineOp::SetStageBypassed { idx, bypassed }),
    {
        if idx < self.stage_bypassed.len() {
            self.stage_bypassed.set(idx, bypassed);
        }
    }

    fn set_input_filters(&mut self, hp: bool, lp: bool, retired: &mut Vec<Retired>)
        ensures
            final(self)@ == op_applied(old(self)@, EngineOp::SetInputFilters { hp, lp }),
            final(retired)@ == old(retired)@ + op_retired(old(self)@, EngineOp::SetInputFilters { hp, lp }),
    {
        let ghost start = retired@;
        if self.has_highpass {
            retired.push(Retired::Filter);
        }
        let ghost mid = retired@;
        if self.has_lowpass {
            retired.push(Retired::Filter);
        }
        proof {
            let a: Seq<Retired> = if self.has_highpass { seq![Retired::Filter] } else { seq![] };
            let b: Seq<Retired> = if self.has_lowpass { seq![Retired::Filter] } else { seq![] };
            assert(mid == start + a);
            assert(retired@ == mid + b);
            assert(start + (a + b) == start + a + b);
        }
        self.has_highpass = hp;
        self.has_lowpass = lp;
    }

    /// Applies one message, handing what it displaces to `retired`.
    pub fn apply(&mut self, op: &EngineOp, retired: &mut Vec<Retired>)
        ensures
            final(self)@ == op_applied(old(self)@, *op),
            final(retired)@ == old(retired)@ + op_retired(old(self)@, *op),
    {
        let len = self.stage_bypassed.len();
        match op {
            EngineOp::SetChain { stage_bypassed, capacity } => {
                self.stage_bypassed = copy_flags(stage_bypassed);
                self.capacity = *capacity;
                retired.push(Retired::Chain);
            },
            EngineOp::ReplaceStage { idx } => {
                if *idx < len {
                    retired.push(Retired::Stage);
                } else {
                    proof {
                        assert(old(retired)@ + seq![] == old(retired)@);
                    }
                }
            },
            EngineOp::AddStage { idx } => self.add_stage(*idx, retired),
            EngineOp::RemoveStage { idx } => self.remove_stage(*idx, retired),
            EngineOp::SwapStages { a, b } => {
                self.swap_stages(*a, *b);
                proof {
                    assert(old(retired)@ + seq![] == old(retired)@);
                }
            },
            EngineOp::SetStageBypassed { idx, bypassed } => {
                self.set_stage_bypassed(*idx, *bypassed);
                proof {
                    assert(old(retired)@ + seq![] == old(retired)@);
                }
            },
            EngineOp::SetInputFilters { hp, lp } => self.set_input_filters(*hp, *lp, retired),
            EngineOp::SwapIr { has_ir } => {
                self.set_cabinet(Some(*has_ir), None);
                retired.push(Retired::PreparedIr);
            },
            EngineOp::SetPitchShift { install } => {
                if self.has_shifter {
                    retired.push(Retired::Shifter);
                } else {
                    proof {
                        assert(old(retired)@ + seq![] == old(retired)@);
                    }
                }
                self.has_shifter = *install;
            },
            EngineOp::SetSamplers => {
                retired.push(Retired::Samplers);
            },
            EngineOp::ClearIr => {
                self.set_cabinet(Some(false), None);
                proof {
                    assert(old(retired)@ + seq![] == old(retired)@);
                }
            },
            EngineOp::SetIrBypass { bypass } => {
                self.set_cabinet(None, Some(*bypass));
                proof {
                    assert(old(retired)@ + seq![] == old(retired)@);
                }
            },
            EngineOp::SetTunerEnabled { on } => {
                if self.tuner.is_some() {
                    self.tuner = Some(*on);
                }
                proof {
                    assert(old(retired)@ + seq![] == old(retired)@);
                }
            },
            EngineOp::StartRecording => {
                self.recording = true;
                proof {
                    assert(old(retired)@ + seq![] == old(retired)@);
                }
            },
            EngineOp::StopRecording => {
                self.recording = false;
                proof {
                    assert(old(retired)@ + seq![] == old(retired)@);
                }
            },
            EngineOp::SetParameter { .. } => {
                proof {
                    assert(old(retired)@ + seq![] == old(retired)@);
                }
            },
            EngineOp::SetIrGain => {
                proof {
                    assert(old(retired)@ + seq![] == old(retired)@);
                }
            },
        }
    }

    fn set_cabinet(&mut self, has_ir: Option<bool>, bypass: Option<bool>)
        ensures
            final(self)@ == (SlotsModel {
                cabinet: match old(self).cabinet {
                    Some(c) => Some(
                        CabinetSlot {
                            has_ir: match has_ir {
                                Some(h) => h,
                                None => c.has_ir,
                            },
                            bypassed: match bypass {
                                Some(b) => b,
                                None => c.bypassed,
                            },
                        },
                    ),
                    None => None,
                },
                ..old(self)@
            }),
    {
        if let Some(c) = self.cabinet {
            let h = match has_ir {
                Some(h) => h,
                None => c.has_ir,
            };
            let b = match bypass {
                Some(b) => b,
                None => c.bypassed,
            };
            self.cabinet = Some(CabinetSlot { has_ir: h, bypassed: b });
        }
    }
}

/// Drains a queue of messages: the engine's state after each in turn, what
/// they handed to the drop queue, and whether the tail must be recomputed
/// (whenever any message was handled).
pub fn handle_messages_step(slots: EngineSlots, ops: &Vec<EngineOp>) -> (r: (
    EngineSlots,
    Vec<Retired>,
    bool,
))
    ensures
        r.0@ == spec_apply_ops(slots@, ops@),
        r.1@ == spec_retired(slots@, ops@),
        r.2 == (ops@.len() > 0),
{
    let mut s = slots;
    let mut retired: Vec<Retired> = Vec::new();
    let mut i: usize = 0;
    while i < ops.len()
        invariant
            i <= ops.len(),
            s@ == spec_apply_ops(slots@, ops@.take(i as int)),
            retired@ == spec_retired(slots@, ops@.take(i as int)),
        decreases ops.len() - i,
    {
        s.apply(&ops[i], &mut retired);
        proof {
            let t = ops@.take(i as int + 1);
            assert(t.drop_last() == ops@.take(i as int));
            assert(t.last() == ops@[i as int]);
        }
        i = i + 1;
    }
    proof {
        assert(ops@.take(ops@.len() as int) == ops@);
    }
    (s, retired, ops.len() > 0)
}

/// A message naming a stage past the chain's end changes nothing and frees
/// nothing.
pub proof fn law_out_of_range_stage_messages_are_ignored(s: SlotsModel, op: EngineOp)
    requires
        match op {
            EngineOp::SetParameter { idx } => idx >= s.stage_bypassed.len(),
            EngineOp::ReplaceStage { idx } => idx >= s.stage_bypassed.len(),
            EngineOp::RemoveStage { idx } => idx >= s.stage_bypassed.len(),
            EngineOp::SetStageBypassed { idx, .. } => idx >= s.stage_bypassed.len(),
            EngineOp::SwapStages { a, b } => a >= s.stage_bypassed.len() || b >= s.stage_bypassed.len(),
            _ => false,
        },
    ensures
        op_applied(s, op) == s,
        op_retired(s, op) == Seq::<Retired>::empty(),
{
}

/// Once a chain is within its capacity, no message but a new chain takes it
/// past it: a full chain refuses added stages.
pub proof fn law_messages_keep_the_chain_within_capacity(s: SlotsModel, ops: Seq<EngineOp>)
    requires
        s.stage_bypassed.len() <= s.capacity,
        forall|k: int| 0 <= k < ops.len() ==> !((#[trigger] ops[k]) is SetChain),
    ensures
        spec_apply_ops(s, ops).stage_bypassed.len() <= spec_apply_ops(s, ops).capacity,
        spec_apply_ops(s, ops).capacity == s.capacity,
    decreases ops.len(),
{
    if ops.len() > 0 {
        assert forall|k: int| 0 <= k < ops.drop_last().len() implies !((#[trigger] ops.drop_last()[k]) is SetChain) by {
            assert(ops.drop_last()[k] == ops[k]);
        }
        law_messages_keep_the_chain_within_capacity(s, ops.drop_last());
        assert(!(ops[ops.len() - 1] is SetChain));
    }
}

/// Swapping two stages in range makes them trade places, bypass flags and
/// all, leaves every other stage and the chain's length as they were, and
/// frees nothing.
pub proof fn law_swapping_trades_the_two_stages(s: SlotsModel, a: usize, b: usize)
    requires
        a < s.stage_bypassed.len(),
        b < s.stage_bypassed.len(),
    ensures
        ({
            let t = op_applied(s, EngineOp::SwapStages { a, b }).stage_bypassed;
            &&& t.len() == s.stage_bypassed.len()
            &&& t[a as int] == s.stage_bypassed[b as int]
            &&& t[b as int] == s.stage_bypassed[a as int]
            &&& forall|i: int|
                0 <= i < t.len() && i != a && i != b ==> t[i] == s.stage_bypassed[i]
        }),
        op_retired(s, EngineOp::SwapStages { a, b }) == Seq::<Retired>::empty(),
{
}

/// Setting a stage's bypass flag in range changes that flag alone.
pub proof fn law_bypassing_changes_one_stage(s: SlotsModel, idx: usize, bypassed: bool)
    requires
        idx < s.stage_bypassed.len(),
    ensures
        ({
            let t = op_applied(s, EngineOp::SetStageBypassed { idx, bypassed }).stage_bypassed;
            &&& t.len() == s.stage_bypassed.len()
            &&& t[idx as int] == bypassed
            &&& forall|i: int| 0 <= i < t.len() && i != idx ==> t[i] == s.stage_bypassed[i]
        }),
        op_retired(s, EngineOp::SetStageBypassed { idx, bypassed }) == Seq::<Retired>::empty(),
{
}

/// An added stage goes in, not bypassed, at its index (at the end for an
/// index past it), shifting the later stages up by one, while the chain has
/// room; a full chain stays as it is and hands the stage to the drop queue.
pub proof fn law_adding_a_stage(s: SlotsModel, idx: usize)
    ensures
        ({
            let len = s.stage_bypassed.len();
            let t = op_applied(s, EngineOp::AddStage { idx }).stage_bypassed;
            let p: int = if idx <= len { idx as int } else { len as int };
            if len < s.capacity {
                &&& t.len() == len + 1
                &&& !t[p]
                &&& forall|i: int| 0 <= i < p ==> t[i] == s.stage_bypassed[i]
                &&& forall|i: int| p <= i < len ==> t[i + 1] == s.stage_bypassed[i]
                &&& op_retired(s, EngineOp::AddStage { idx }) == Seq::<Retired>::empty()
            } else {
                &&& t == s.stage_bypassed
                &&& op_retired(s, EngineOp::AddStage { idx }) == seq![Retired::Stage]
            }
        }),
{
}

/// Removing a stage in range drops it, shifts the later stages down by one
/// and hands it to the drop queue.
pub proof fn law_removing_a_stage(s: SlotsModel, idx: usize)
    requires
        idx < s.stage_bypassed.len(),
    ensures
        ({
            let t = op_applied(s, EngineOp::RemoveStage { idx }).stage_bypassed;
            &&& t.len() == s.stage_bypassed.len() - 1
            &&& forall|i: int| 0 <= i < idx ==> t[i] == s.stage_bypassed[i]
            &&& forall|i: int| idx <= i < t.len() ==> t[i] == s.stage_bypassed[i + 1]
        }),
        op_retired(s, EngineOp::RemoveStage { idx }) == seq![Retired::Stage],
{
}

/// A block goes through the tuner alone when it is enabled; otherwise
/// through the chain, each post-stage taken exactly when the engine has it,
/// the samplers oversampling exactly when they are set to, and the recorder
/// fed exactly when it runs outside lightweight mode. Buffers of different
/// lengths are refused with both lengths.
pub proof fn law_block_route_follows_the_engine(input_len: usize, output_len: usize, parts: EngineParts)
    ensures
        input_len != output_len ==> spec_block_plan(input_len, output_len, parts) == Err::<BlockPlan, LengthMismatch>(
            LengthMismatch { input: input_len, output: output_len },
        ),
        input_len == output_len && parts.tuner_enabled ==> spec_block_plan(input_len, output_len, parts)
            == Ok::<BlockPlan, LengthMismatch>(BlockPlan::TunerOnly),
        input_len == output_len && !parts.tuner_enabled ==> match spec_block_plan(input_len, output_len, parts) {
            Ok(BlockPlan::Chain { oversampled, pitch_shift, cabinet, peak_meter, record }) => {
                &&& oversampled == parts.oversampling
                &&& pitch_shift == parts.has_pitch_shifter
                &&& cabinet == parts.has_cabinet
                &&& peak_meter == parts.has_peak_meter
                &&& record == (parts.recording && !parts.lightweight)
            },
            _ => false,
        },
{
}

/// A message to the chain changes nothing but the chain, and frees only
/// the chain or a stage; any other message leaves the chain as it is.
pub proof fn law_messages_touch_only_their_part(s: SlotsModel, op: EngineOp)
    ensures
        ({
            let t = op_applied(s, op);
            let chain_op = op is SetChain || op is AddStage || op is RemoveStage || op is SwapStages
                || op is SetStageBypassed || op is ReplaceStage || op is SetParameter;
            &&& chain_op ==> {
                &&& t.has_highpass == s.has_highpass && t.has_lowpass == s.has_lowpass
                &&& t.cabinet == s.cabinet && t.tuner == s.tuner
                &&& t.recording == s.recording && t.has_shifter == s.has_shifter
                &&& forall|k: int|
                    0 <= k < op_retired(s, op).len() ==> (#[trigger] op_retired(s, op)[k] == Retired::Chain
                        || op_retired(s, op)[k] == Retired::Stage)
            }
            &&& !chain_op ==> t.stage_bypassed == s.stage_bypassed && t.capacity == s.capacity
        }),
{
}

/// The cabinet, tuner, recorder, pitch-shifter, filter, sampler and
/// whole-chain messages, each in terms of the state before it: a cabinet or
/// tuner message acts only on a part that is there; a swapped-in IR is
/// freed (with the old convolver) whether or not there is a cabinet; a
/// replaced pitch shifter, each replaced filter, the old samplers and the
/// old chain are freed; recording follows the last start or stop.
pub proof fn law_part_messages(s: SlotsModel, has_ir: bool, bypass: bool, on: bool, install: bool, hp: bool, lp: bool)
    ensures
        op_applied(s, EngineOp::SwapIr { has_ir }).cabinet == match s.cabinet {
            Some(c) => Some(CabinetSlot { has_ir, bypassed: c.bypassed }),
            None => None::<CabinetSlot>,
        },
        op_retired(s, EngineOp::SwapIr { has_ir }) == seq![Retired::PreparedIr],
        op_applied(s, EngineOp::ClearIr).cabinet == match s.cabinet {
            Some(c) => Some(CabinetSlot { has_ir: false, bypassed: c.bypassed }),
            None => None::<CabinetSlot>,
        },
        op_applied(s, EngineOp::SetIrBypass { bypass }).cabinet == match s.cabinet {
            Some(c) => Some(CabinetSlot { has_ir: c.has_ir, bypassed: bypass }),
            None => None::<CabinetSlot>,
        },
        op_applied(s, EngineOp::SetIrGain) == s,
        op_applied(s, EngineOp::SetTunerEnabled { on }).tuner == if s.tuner is Some {
            Some(on)
        } else {
            None::<bool>
        },
        op_applied(s, EngineOp::StartRecording).recording,
        !op_applied(s, EngineOp::StopRecording).recording,
        op_applied(s, EngineOp::SetPitchShift { install }).has_shifter == install,
        op_retired(s, EngineOp::SetPitchShift { install }) == if s.has_shifter {
            seq![Retired::Shifter]
        } else {
            Seq::<Retired>::empty()
        },
        op_applied(s, EngineOp::SetInputFilters { hp, lp }).has_highpass == hp,
        op_applied(s, EngineOp::SetInputFilters { hp, lp }).has_lowpass == lp,
        op_retired(s, EngineOp::SetInputFilters { hp, lp }).len() == (if s.has_highpass { 1int } else { 0 }) + (
        if s.has_lowpass { 1int } else { 0 }),
        forall|k: int|
            0 <= k < op_retired(s, EngineOp::SetInputFilters { hp, lp }).len() ==> #[trigger] op_retired(
                s,
                EngineOp::SetInputFilters { hp, lp },
            )[k] == Retired::Filter,
        op_applied(s, EngineOp::SetSamplers) == s,
        op_retired(s, EngineOp::SetSamplers) == seq![Retired::Samplers],
{
}

/// A new chain replaces the old one whole, with its own stages and
/// capacity, and the old chain is freed.
pub proof fn law_a_new_chain_replaces_the_old(s: SlotsModel, stage_bypassed: Vec<bool>, capacity: usize)
    ensures
        op_applied(s, EngineOp::SetChain { stage_bypassed, capacity }).stage_bypassed == stage_bypassed@,
        op_applied(s, EngineOp::SetChain { stage_bypassed, capacity }).capacity == capacity,
        op_retired(s, EngineOp::SetChain { stage_bypassed, capacity }) == seq![Retired::Chain],
{
}

/// Replacing a stage in range keeps the chain as it is (the new stage takes
/// the old one's place and bypass flag) and frees the old stage; a
/// parameter change frees nothing and keeps the chain.
pub proof fn law_replacing_a_stage(s: SlotsModel, idx: usize)
    ensures
        op_applied(s, EngineOp::ReplaceStage { idx }) == s,
        op_retired(s, EngineOp::ReplaceStage { idx }) == if idx < s.stage_bypassed.len() {
            seq![Retired::Stage]
        } else {
            Seq::<Retired>::empty()
        },
        op_applied(s, EngineOp::SetParameter { idx }) == s,
        op_retired(s, EngineOp::SetParameter { idx }) == Seq::<Retired>::empty(),
{
}

/// Swapping two stages twice restores the chain.
pub proof fn law_swapping_twice_restores_the_chain(s: SlotsModel, a: usize, b: usize)
    ensures
        op_applied(op_applied(s, EngineOp::SwapStages { a, b }), EngineOp::SwapStages { a, b }) == s,
{
    let t = op_applied(s, EngineOp::SwapStages { a, b });
    if a < s.stage_bypassed.len() && b < s.stage_bypassed.len() {
        assert(op_applied(t, EngineOp::SwapStages { a, b }).stage_bypassed =~= s.stage_bypassed);
    }
}

/// Messages are applied one after another: draining two queues in turn is
/// draining them as one, in state and in what is freed.
pub proof fn law_draining_in_parts_is_draining_at_once(
    s: SlotsModel,
    first: Seq<EngineOp>,
    second: Seq<EngineOp>,
)
    ensures
        spec_apply_ops(spec_apply_ops(s, first), second) == spec_apply_ops(s, first + second),
        spec_retired(s, first) + spec_retired(spec_apply_ops(s, first), second) == spec_retired(
            s,
            first + second,
        ),
    decreases second.len(),
{
    if second.len() == 0 {
        assert(first + second =~= first);
        assert(spec_retired(s, first) + seq![] =~= spec_retired(s, first));
    } else {
        law_draining_in_parts_is_draining_at_once(s, first, second.drop_last());
        assert((first + second).drop_last() =~= first + second.drop_last());
        assert((first + second).last() == second.last());
        let a = spec_retired(s, first);
        let b = spec_retired(spec_apply_ops(s, first), second.drop_last());
        let c = op_retired(spec_apply_ops(spec_apply_ops(s, first), second.drop_last()), second.last());
        assert(a + (b + c) =~= (a + b) + c);
    }
}

} // verus!
