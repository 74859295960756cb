//! Verified core logic of a guitar and bass amp simulator: preset bookkeeping,
//! preset file naming, NAM model summaries, oversampling block FIFOs and the
//! small decision tables that drive the audio engine and its hosts.

pub mod audio;
pub mod collation;
pub mod factory;
pub mod gui;
pub mod host;
pub mod ir;
pub mod nam;
pub mod preset;
pub mod text;

