//! Impulse-response cabinet settings.

use vstd::prelude::*;

verus! {

/// Which convolver implementation a cabinet uses.
#[derive(Debug, Clone, Copy, PartialEq, Eq, Structural)]
pub enum ConvolverType {
    Fir,
    TwoStage,
}

impl Default for ConvolverType {
    fn default() -> (r: ConvolverType)
        ensures
            r == ConvolverType::Fir,
    {
        ConvolverType::Fir
    }
}

/// Default maximum IR length, in milliseconds, for truncation.
pub const DEFAULT_MAX_IR_MS: usize = 50;

/// Longest IR the plugin's cabinet holds: 35 ms at the host rate (a cab
/// response only, no room tail).
pub fn plugin_max_ir_samples(sample_rate: usize) -> (r: usize)
    requires
        sample_rate * 35 <= usize::MAX,
    ensures
        r == sample_rate * 35 / 1000,
{
    sample_rate * 35 / 1000
}

} // verus!
