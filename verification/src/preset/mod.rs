//! Presets: stage descriptions, the in-memory preset manager, preset file
//! naming and the migration of legacy preset files.

pub mod apply;
pub mod manager;
pub mod migrate;
pub mod naming;
pub mod stage_config;

use vstd::prelude::*;

use crate::collation::Named;
use self::stage_config::StageConfig;

verus! {

/// Input filters ahead of the amplifier. Cutoff frequencies are carried as
/// the bit patterns of their `f32` values; the preset logic never reads them.
#[derive(Debug, Clone, Copy, PartialEq, Eq, Structural)]
pub struct InputFilterConfig {
    pub hp_enabled: bool,
    pub hp_cutoff_bits: u32,
    pub lp_enabled: bool,
    pub lp_cutoff_bits: u32,
}

/// A named preset: the stage chain plus cabinet, pitch and input settings.
/// `ir_gain_bits` is the bit pattern of the cabinet gain (`f32`).
#[derive(Debug, Clone)]
pub struct Preset {
    pub name: String,
    pub stages: Vec<StageConfig>,
    pub ir_name: Option<String>,
    pub ir_gain_bits: u32,
    pub pitch_shift_semitones: i32,
    pub input_filters: InputFilterConfig,
}

impl Named for Preset {
    open spec fn spec_name(&self) -> Seq<char> {
        self.name@
    }

    fn name_str(&self) -> (r: &str) {
        self.name.as_str()
    }
}

} // verus!
