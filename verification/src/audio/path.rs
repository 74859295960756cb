//! Which way an oversampled block goes through the engine, the one-shot
//! events that record it, and the latency each path adds.

use vstd::prelude::*;

use crate::audio::fifo::{BlockFifo, FifoView};

verus! {

/// Resampler chunk, in frames at the host rate, used when a host may vary
/// its block length. 64 divides every standard buffer size (64 to 2048), so
/// fixed-block sessions stay on the zero-latency path.
pub const VARIABLE_BLOCK_CHUNK: usize = 64;

/// Latency, in frames, that the pitch shifter adds when installed: one full
/// 2048-point STFT frame.
pub const PITCH_SHIFTER_LATENCY_FRAMES: usize = 2048;

/// The chunk used in variable-block mode: `VARIABLE_BLOCK_CHUNK`, or the
/// largest block itself when that is smaller (and at least one frame).
pub open spec fn spec_variable_block_chunk(max_block: usize) -> usize {
    let m: usize = if max_block >= 1 {
        max_block
    } else {
        1
    };
    if VARIABLE_BLOCK_CHUNK <= m {
        VARIABLE_BLOCK_CHUNK
    } else {
        m
    }
}

pub fn variable_block_chunk(max_block: usize) -> (r: usize)
    ensures
        r == spec_variable_block_chunk(max_block),
        1 <= r <= VARIABLE_BLOCK_CHUNK,
{
    let m = if max_block >= 1 {
        max_block
    } else {
        1
    };
    if VARIABLE_BLOCK_CHUNK <= m {
        VARIABLE_BLOCK_CHUNK
    } else {
        m
    }
}

/// Latency the resampler pair adds at the host rate: nothing when not
/// oversampling (the resamplers are bypassed), otherwise the upsampler's
/// delay (counted in oversampled frames, so divided by the factor), the
/// downsampler's delay, and the FIFO's current latency.
pub open spec fn spec_sampler_latency(
    factor: usize,
    upsampler_delay: usize,
    downsampler_delay: usize,
    fifo_latency: usize,
) -> int {
    if factor <= 1 {
        0
    } else {
        upsampler_delay / factor + downsampler_delay + fifo_latency
    }
}

pub fn sampler_latency_frames(
    factor: usize,
    upsampler_delay: usize,
    downsampler_delay: usize,
    fifo_latency: usize,
) -> (r: usize)
    requires
        spec_sampler_latency(factor, upsampler_delay, downsampler_delay, fifo_latency)
            <= usize::MAX,
    ensures
        r == spec_sampler_latency(factor, upsampler_delay, downsampler_delay, fifo_latency),
{
    if factor <= 1 {
        return 0;
    }
    upsampler_delay / factor + downsampler_delay + fifo_latency
}

/// The latency of a resampler pair around `fifo`, or `None` when it does not
/// fit a `usize`.
pub fn oversampling_latency<T: Copy>(
    factor: usize,
    upsampler_delay: usize,
    downsampler_delay: usize,
    fifo: &BlockFifo<T>,
) -> (r: Option<usize>)
    requires
        fifo.wf(),
    ensures
        match r {
            Some(n) => n == spec_sampler_latency(
                factor,
                upsampler_delay,
                downsampler_delay,
                fifo@.latency() as usize,
            ),
            None => spec_sampler_latency(factor, upsampler_delay, downsampler_delay, 0) + fifo@.latency()
                > usize::MAX,
        },
{
    let fifo_latency = fifo.latency_frames();
    if factor <= 1 {
        return Some(0);
    }
    let base = upsampler_delay / factor;
    if base > usize::MAX - downsampler_delay {
        return None;
    }
    let base = base + downsampler_delay;
    if base > usize::MAX - fifo_latency {
        return None;
    }
    Some(sampler_latency_frames(factor, upsampler_delay, downsampler_delay, fifo_latency))
}

/// The oversampling path's latency: nothing at 1x; otherwise the resamplers'
/// delay, the same whether or not the FIFO has engaged, plus the FIFO's
/// prefill (`max_block` plus the chunk) once it has; engaging adds exactly
/// that prefill.
pub proof fn law_sampler_latency_tracks_engagement<T>(
    factor: usize,
    upsampler_delay: usize,
    downsampler_delay: usize,
    v: FifoView<T>,
)
    requires
        v.chunk == spec_variable_block_chunk(v.max_block as usize),
        v.max_block <= usize::MAX,
    ensures
        factor <= 1 ==> spec_sampler_latency(
            factor,
            upsampler_delay,
            downsampler_delay,
            v.latency() as usize,
        ) == 0,
        factor > 1 && v.latency() <= usize::MAX ==> spec_sampler_latency(
            factor,
            upsampler_delay,
            downsampler_delay,
            v.latency() as usize,
        ) == upsampler_delay / factor + downsampler_delay + if v.engaged {
            v.max_block + v.chunk
        } else {
            0
        },
        !v.engaged && factor > 1 && (FifoView { engaged: true, ..v }).primed().latency()
            <= usize::MAX ==> spec_sampler_latency(
            factor,
            upsampler_delay,
            downsampler_delay,
            (FifoView { engaged: true, ..v }).primed().latency() as usize,
        ) - spec_sampler_latency(
            factor,
            upsampler_delay,
            downsampler_delay,
            v.latency() as usize,
        ) == v.max_block + v.chunk,
        1 <= v.chunk <= VARIABLE_BLOCK_CHUNK,
{
}

/// Latency the engine adds: the oversampling path plus the pitch shifter's
/// STFT delay when one is installed.
pub fn engine_latency_frames(sampler_latency: usize, has_pitch_shifter: bool) -> (r: usize)
    requires
        sampler_latency + PITCH_SHIFTER_LATENCY_FRAMES <= usize::MAX,
    ensures
        r == sampler_latency + if has_pitch_shifter {
            PITCH_SHIFTER_LATENCY_FRAMES
        } else {
            0
        },
{
    if has_pitch_shifter {
        sampler_latency + PITCH_SHIFTER_LATENCY_FRAMES
    } else {
        sampler_latency
    }
}

/// How the engine runs one oversampled block of a variable-block host.
#[derive(Debug, Clone, Copy, PartialEq, Eq, Structural)]
pub enum BlockRoute {
    /// An empty block: nothing to do, and no reason to engage the FIFO.
    Skip,
    /// Straight through the resamplers as back-to-back whole chunks, with no
    /// queueing and no added latency.
    Direct { chunks: usize },
    /// Through the FIFO; `engage` when this block is the one that engages it.
    Buffered { engage: bool },
}

/// The route a block of `len` frames takes: while the FIFO is disengaged, a
/// block that is a whole number of chunks goes straight through; any other
/// non-empty block engages the FIFO for good.
pub open spec fn spec_route(len: usize, chunk: usize, fifo_engaged: bool) -> BlockRoute {
    if len == 0 {
        BlockRoute::Skip
    } else if !fifo_engaged && len % chunk == 0 {
        BlockRoute::Direct { chunks: len / chunk }
    } else {
        BlockRoute::Buffered { engage: !fifo_engaged }
    }
}

/// The one-shot events the engine records about the oversampling path, for
/// the caller to report off the audio thread.
#[derive(Debug, Clone, Copy, PartialEq, Eq, Structural)]
pub struct PathEvents {
    /// Block length that engaged the FIFO, until taken.
    pub fifo_engaged_event: Option<usize>,
    /// Length of the first block that took the direct path, until taken.
    pub fast_path_event: Option<usize>,
    /// Latch so the direct path is recorded once per activation.
    pub fast_path_reported: bool,
}

impl PathEvents {
    /// What routing a block of `len` frames does to the events.
    pub open spec fn spec_after_route(self, len: usize, chunk: usize, fifo_engaged: bool) -> Self {
        match spec_route(len, chunk, fifo_engaged) {
            BlockRoute::Buffered { engage: true } => PathEvents {
                fifo_engaged_event: Some(len),
                ..self
            },
            _ => self,
        }
    }

    /// What a successful direct-path block does to the events.
    pub open spec fn spec_after_fast_path(self, len: usize) -> Self {
        if self.fast_path_reported {
            self
        } else {
            PathEvents { fast_path_event: Some(len), fast_path_reported: true, ..self }
        }
    }

    pub fn new() -> (r: Self)
        ensures
            r.fifo_engaged_event is None,
            r.fast_path_event is None,
            !r.fast_path_reported,
    {
        PathEvents { fifo_engaged_event: None, fast_path_event: None, fast_path_reported: false }
    }

    /// Chooses the route for a block of `len` frames, recording the block
    /// that engages the FIFO.
    pub fn route(&mut self, len: usize, chunk: usize, fifo_engaged: bool) -> (r: BlockRoute)
        requires
            chunk >= 1,
        ensures
            r == spec_route(len, chunk, fifo_engaged),
            *final(self) == old(self).spec_after_route(len, chunk, fifo_engaged),
    {
        if len == 0 {
            return BlockRoute::Skip;
        }
        if !fifo_engaged {
            if len % chunk == 0 {
                return BlockRoute::Direct { chunks: len / chunk };
            }
            self.fifo_engaged_event = Some(len);
            return BlockRoute::Buffered { engage: true };
        }
        BlockRoute::Buffered { engage: false }
    }

    /// Records that a block of `len` frames went through the direct path; only
    /// the first such block of an activation is kept.
    pub fn note_fast_path(&mut self, len: usize)
        ensures
            *final(self) == old(self).spec_after_fast_path(len),
    {
        if !self.fast_path_reported {
            self.fast_path_reported = true;
            self.fast_path_event = Some(len);
        }
    }

    /// Reads and clears the FIFO-engaged event.
    pub fn take_fifo_engaged_event(&mut self) -> (r: Option<usize>)
        ensures
            r == old(self).fifo_engaged_event,
            *final(self) == (PathEvents { fifo_engaged_event: None, ..*old(self) }),
    {
        self.fifo_engaged_event.take()
    }

    /// Reads and clears the fast-path event.
    pub fn take_fast_path_event(&mut self) -> (r: Option<usize>)
        ensures
            r == old(self).fast_path_event,
            *final(self) == (PathEvents { fast_path_event: None, ..*old(self) }),
    {
        self.fast_path_event.take()
    }
}

/// Each path event is recorded once: the first direct-path block of an
/// activation sets the fast-path event and the latch, later ones change
/// nothing; routing records exactly the block that engages the FIFO, and
/// touches nothing else.
pub proof fn law_path_events_record_the_first_block(e: PathEvents, len: usize, chunk: usize, fifo_engaged: bool)
    ensures
        e.spec_after_fast_path(len).fast_path_reported,
        e.fast_path_reported ==> e.spec_after_fast_path(len) == e,
        !e.fast_path_reported ==> e.spec_after_fast_path(len).fast_path_event == Some(len),
        e.spec_after_fast_path(len).fifo_engaged_event == e.fifo_engaged_event,
        e.spec_after_route(len, chunk, fifo_engaged).fifo_engaged_event == if len > 0 && !fifo_engaged
            && len % chunk != 0 {
            Some(len)
        } else {
            e.fifo_engaged_event
        },
        e.spec_after_route(len, chunk, fifo_engaged).fast_path_event == e.fast_path_event,
        e.spec_after_route(len, chunk, fifo_engaged).fast_path_reported == e.fast_path_reported,
{
}

/// A block goes through the FIFO exactly when it is non-empty and either the
/// FIFO is already engaged or the block is not a whole number of chunks; the
/// direct path moves the whole block, chunk by chunk.
pub proof fn law_route_covers_block(len: usize, chunk: usize, fifo_engaged: bool)
    requires
        chunk >= 1,
    ensures
        spec_route(len, chunk, fifo_engaged) is Buffered <==> (len > 0 && (fifo_engaged || len
            % chunk != 0)),
        spec_route(len, chunk, fifo_engaged) matches BlockRoute::Direct { chunks } ==> chunks
            * chunk == len,
        fifo_engaged ==> !(spec_route(len, chunk, fifo_engaged) matches BlockRoute::Buffered {
            engage: true,
        }),
{
    if !fifo_engaged && len > 0 && len % chunk == 0 {
        assert((len / chunk) * chunk == len) by (nonlinear_arith)
            requires
                len % chunk == 0,
                chunk >= 1,
        ;
    }
}

/// The fast-path event is recorded once per activation: once recorded, later
/// direct-path blocks change nothing, even after the event was taken.
pub proof fn law_fast_path_recorded_once(e: PathEvents, first: usize, later: usize)
    ensures
        e.spec_after_fast_path(first).fast_path_reported,
        (PathEvents { fast_path_event: None, ..e.spec_after_fast_path(first) }).spec_after_fast_path(
            later,
        ).fast_path_event is None,
{
}

} // verus!
