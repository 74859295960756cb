//! The hold timing of the peak meter: how long a peak stays displayed before
//! a quieter block may replace it.

use vstd::prelude::*;

verus! {

/// Seconds a peak is held.
pub const PEAK_HOLD_SECONDS: usize = 2;

/// Frames since the held peak was set, and how many frames it is held for.
#[derive(Debug, Clone, Copy, PartialEq, Eq, Structural)]
pub struct PeakHold {
    pub samples_since_peak: usize,
    pub hold_samples: usize,
}

impl PeakHold {
    /// A meter at `sample_rate` holds peaks for two seconds.
    pub fn new(sample_rate: usize) -> (r: Self)
        requires
            sample_rate * PEAK_HOLD_SECONDS <= usize::MAX,
        ensures
            r.samples_since_peak == 0,
            r.hold_samples == sample_rate * PEAK_HOLD_SECONDS,
    {
        PeakHold { samples_since_peak: 0, hold_samples: sample_rate * PEAK_HOLD_SECONDS }
    }

    /// Accounts for a block of `block_len` frames whose peak is `louder` than
    /// the held one or not. Returns whether the block's peak becomes the held
    /// peak: always when louder; otherwise once the hold has run out.
    pub fn step(&mut self, louder: bool, block_len: usize) -> (replace: bool)
        requires
            old(self).samples_since_peak + block_len <= usize::MAX,
        ensures
            final(self).hold_samples == old(self).hold_samples,
            louder ==> replace && final(self).samples_since_peak == 0,
            !louder ==> {
                let s = old(self).samples_since_peak + block_len;
                if s > old(self).hold_samples {
                    replace && final(self).samples_since_peak == 0
                } else {
                    !replace && final(self).samples_since_peak == s
                }
            },
            final(self).samples_since_peak <= final(self).hold_samples,
    {
        if louder {
            self.samples_since_peak = 0;
            return true;
        }
        self.samples_since_peak = self.samples_since_peak + block_len;
        if self.samples_since_peak > self.hold_samples {
            self.samples_since_peak = 0;
            true
        } else {
            false
        }
    }

    /// Forgets the held peak's age.
    pub fn reset(&mut self)
        ensures
            final(self).samples_since_peak == 0,
            final(self).hold_samples == old(self).hold_samples,
    {
        self.samples_since_peak = 0;
    }
}

} // verus!
