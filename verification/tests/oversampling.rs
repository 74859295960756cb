use rustortion::audio::engine::{plan_block, BlockPlan, EngineParts, LengthMismatch};
use rustortion::audio::fifo::BlockFifo;
use rustortion::audio::path::{
    engine_latency_frames, oversampling_latency, sampler_latency_frames, variable_block_chunk, BlockRoute, PathEvents,
    PITCH_SHIFTER_LATENCY_FRAMES, VARIABLE_BLOCK_CHUNK,
};
use rustortion::audio::recorder::{buffer_blocks, MIN_BUFFER_BLOCKS};

/// Runs one host block through an engaged FIFO with an identity "resampler".
fn run_block(fifo: &mut BlockFifo<i32>, block: &[i32]) -> Vec<i32> {
    fifo.push_input(block);
    let mut chunk = vec![0; fifo.chunk()];
    while fifo.load_chunk(&mut chunk) {
        fifo.push_output(&chunk);
    }
    let mut out = vec![-1; block.len()];
    fifo.pop_output(&mut out);
    out
}

#[test]
fn the_chunk_is_sixty_four_frames_or_the_whole_block() {
    assert_eq!(variable_block_chunk(2048), VARIABLE_BLOCK_CHUNK);
    assert_eq!(variable_block_chunk(64), 64);
    assert_eq!(variable_block_chunk(48), 48);
    assert_eq!(variable_block_chunk(0), 1);
}

#[test]
fn a_disengaged_fifo_holds_nothing_and_adds_no_latency() {
    let fifo = BlockFifo::new(256, 64, 0.0f32);
    assert!(!fifo.is_engaged());
    assert_eq!(fifo.latency_frames(), 0);
    assert_eq!(fifo.max_block(), 256);
    assert_eq!(fifo.chunk(), 64);
}

#[test]
fn an_engaged_fifo_delays_by_exactly_its_prefill() {
    let max_block = 10;
    let chunk = 4;
    let mut fifo = BlockFifo::new(max_block, chunk, 0i32);
    fifo.engage();
    let prefill = max_block + chunk;
    assert_eq!(fifo.latency_frames(), prefill);

    // Ragged blocks of signal 1, 2, 3, ...
    let mut next = 1;
    let mut heard = Vec::new();
    for len in [3usize, 10, 7, 1, 10, 9, 2, 10] {
        let block: Vec<i32> = (next..next + len as i32).collect();
        next += len as i32;
        heard.extend(run_block(&mut fifo, &block));
    }
    // Exactly `prefill` frames of silence, then the signal in order.
    assert!(heard[..prefill].iter().all(|&s| s == 0));
    let expected: Vec<i32> = (1..=(heard.len() - prefill) as i32).collect();
    assert_eq!(heard[prefill..].to_vec(), expected);
}

#[test]
fn reset_reprimes_an_engaged_fifo_and_keeps_its_latency() {
    let mut fifo = BlockFifo::new(8, 4, 0i32);
    fifo.engage();
    run_block(&mut fifo, &[5, 6, 7]);
    fifo.reset();
    assert!(fifo.is_engaged());
    assert_eq!(fifo.latency_frames(), 12);
    let out = run_block(&mut fifo, &[1, 2, 3, 4, 5, 6, 7, 8]);
    assert_eq!(out, vec![0; 8]);
}

#[test]
fn load_chunk_refuses_a_partial_chunk() {
    let mut fifo = BlockFifo::new(8, 4, 0i32);
    fifo.push_input(&[1, 2, 3]);
    let mut chunk = vec![9; 4];
    assert!(!fifo.load_chunk(&mut chunk));
    assert_eq!(chunk, vec![9; 4]);
    fifo.push_input(&[4]);
    assert!(fifo.load_chunk(&mut chunk));
    assert_eq!(chunk, vec![1, 2, 3, 4]);
}

#[test]
fn pushing_past_the_declared_block_drops_the_excess() {
    let mut fifo = BlockFifo::new(2, 2, 0i32);
    // Room for max_block + chunk = 4 frames.
    fifo.push_input(&[1, 2, 3, 4, 5, 6]);
    let mut chunk = vec![0; 2];
    assert!(fifo.load_chunk(&mut chunk));
    assert_eq!(chunk, vec![1, 2]);
    assert!(fifo.load_chunk(&mut chunk));
    assert_eq!(chunk, vec![3, 4]);
    assert!(!fifo.load_chunk(&mut chunk));
}

#[test]
fn a_short_output_queue_is_padded_with_silence() {
    let mut fifo = BlockFifo::new(4, 2, 0i32);
    fifo.push_output(&[7, 8]);
    let mut out = vec![-1; 5];
    fifo.pop_output(&mut out);
    assert_eq!(out, vec![7, 8, 0, 0, 0]);
}

#[test]
fn whole_chunk_blocks_go_straight_through() {
    let mut events = PathEvents::new();
    assert_eq!(events.route(256, 64, false), BlockRoute::Direct { chunks: 4 });
    assert_eq!(events.take_fifo_engaged_event(), None);
    events.note_fast_path(256);
    events.note_fast_path(128);
    assert_eq!(events.take_fast_path_event(), Some(256));
    events.note_fast_path(64);
    assert_eq!(events.take_fast_path_event(), None);
}

#[test]
fn a_ragged_block_engages_the_fifo_once() {
    let mut events = PathEvents::new();
    assert_eq!(events.route(100, 64, false), BlockRoute::Buffered { engage: true });
    assert_eq!(events.take_fifo_engaged_event(), Some(100));
    assert_eq!(events.route(128, 64, true), BlockRoute::Buffered { engage: false });
    assert_eq!(events.take_fifo_engaged_event(), None);
}

#[test]
fn an_empty_block_is_skipped() {
    let mut events = PathEvents::new();
    assert_eq!(events.route(0, 64, false), BlockRoute::Skip);
    assert_eq!(events.take_fifo_engaged_event(), None);
}

#[test]
fn latency_adds_the_resamplers_the_fifo_and_the_pitch_shifter() {
    assert_eq!(sampler_latency_frames(1, 500, 50, 100), 0);
    assert_eq!(sampler_latency_frames(4, 400, 30, 0), 130);
    assert_eq!(sampler_latency_frames(2, 101, 7, 320), 50 + 7 + 320);
    assert_eq!(engine_latency_frames(130, false), 130);
    assert_eq!(engine_latency_frames(130, true), 130 + PITCH_SHIFTER_LATENCY_FRAMES);
    assert_eq!(PITCH_SHIFTER_LATENCY_FRAMES, 2048);
}

#[test]
fn the_recorder_pool_covers_eight_seconds() {
    assert_eq!(buffer_blocks(48_000, 512), 750);
    assert_eq!(buffer_blocks(44_100, 1000), 353);
    assert_eq!(buffer_blocks(48_000, 0), 384_000);
    assert_eq!(buffer_blocks(1_000, 4096), MIN_BUFFER_BLOCKS);
}

#[test]
fn a_block_plan_follows_the_engine_parts() {
    let parts = EngineParts {
        tuner_enabled: false,
        oversampling: true,
        has_pitch_shifter: false,
        has_cabinet: true,
        has_peak_meter: true,
        lightweight: true,
        recording: true,
    };
    assert_eq!(plan_block(3, 4, parts), Err(LengthMismatch { input: 3, output: 4 }));
    assert_eq!(
        plan_block(64, 64, parts),
        Ok(BlockPlan::Chain {
            oversampled: true,
            pitch_shift: false,
            cabinet: true,
            peak_meter: true,
            record: false,
        })
    );
    let tuned = EngineParts { tuner_enabled: true, ..parts };
    assert_eq!(plan_block(64, 64, tuned), Ok(BlockPlan::TunerOnly));
    let full = EngineParts { lightweight: false, ..parts };
    assert_eq!(
        plan_block(64, 64, full),
        Ok(BlockPlan::Chain {
            oversampled: true,
            pitch_shift: false,
            cabinet: true,
            peak_meter: true,
            record: true,
        })
    );
}

#[test]
fn oversampled_latency_adds_the_fifo_once_engaged() {
    let mut fifo = BlockFifo::new(512, variable_block_chunk(512), 0i32);
    assert_eq!(oversampling_latency(2, 0, 64, &fifo), Some(64));
    assert_eq!(oversampling_latency(1, 0, 64, &fifo), Some(0));
    fifo.engage();
    assert_eq!(oversampling_latency(2, 0, 64, &fifo), Some(640));
    assert_eq!(oversampling_latency(1, 0, 64, &fifo), Some(0));
    assert_eq!(oversampling_latency(2, 0, usize::MAX, &fifo), None);
}

#[test]
fn a_variable_block_fifo_uses_the_variable_block_chunk() {
    let mut fifo = BlockFifo::new_variable_block(512, 0i32);
    assert_eq!(fifo.chunk(), 64);
    assert_eq!(fifo.max_block(), 512);
    assert_eq!(oversampling_latency(2, 0, 64, &fifo), Some(64));
    fifo.engage();
    assert_eq!(oversampling_latency(2, 0, 64, &fifo), Some(640));
    assert_eq!(BlockFifo::new_variable_block(48, 0i32).chunk(), 48);
    assert_eq!(BlockFifo::new_variable_block(0, 0i32).chunk(), 1);
}
