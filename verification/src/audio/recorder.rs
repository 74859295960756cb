//! Sizing of the recorder's buffer pool.

use vstd::prelude::*;

verus! {

/// Seconds of audio the recorder's pool can absorb while the writer lags.
pub const BUFFER_SECONDS: usize = 8;

/// Floor on the pool size, in blocks, for hosts with huge blocks.
pub const MIN_BUFFER_BLOCKS: usize = 16;

/// Blocks in the recorder's pool (and its hand-off channel): enough blocks
/// of `max_block_samples` to hold `BUFFER_SECONDS` of audio, rounded up, and
/// never fewer than `MIN_BUFFER_BLOCKS`.
pub open spec fn spec_buffer_blocks(sample_rate: u32, max_block_samples: usize) -> int {
    let total = BUFFER_SECONDS * sample_rate;
    let block: int = if max_block_samples >= 1 {
        max_block_samples as int
    } else {
        1
    };
    let blocks = (total + block - 1) / block;
    if blocks >= MIN_BUFFER_BLOCKS {
        blocks
    } else {
        MIN_BUFFER_BLOCKS as int
    }
}

/// The pool is the fewest blocks that hold `BUFFER_SECONDS` of audio, but
/// never fewer than `MIN_BUFFER_BLOCKS`: it holds that much, and one block
/// less would not, unless the floor applies.
pub proof fn law_pool_is_the_fewest_blocks_that_hold_the_buffer(sample_rate: u32, max_block_samples: usize)
    ensures
        ({
            let r = spec_buffer_blocks(sample_rate, max_block_samples);
            let b: int = if max_block_samples >= 1 { max_block_samples as int } else { 1 };
            let total = BUFFER_SECONDS * sample_rate;
            &&& r >= MIN_BUFFER_BLOCKS
            &&& r * b >= total
            &&& r == MIN_BUFFER_BLOCKS || (r - 1) * b < total
        }),
{
    let b: int = if max_block_samples >= 1 { max_block_samples as int } else { 1 };
    let t: int = BUFFER_SECONDS * sample_rate;
    let blocks = (t + b - 1) / b;
    assert(blocks * b >= t && (blocks - 1) * b < t) by (nonlinear_arith)
        requires
            b >= 1,
            t >= 0,
            blocks == (t + b - 1) / b,
    ;
    if blocks < MIN_BUFFER_BLOCKS {
        assert(MIN_BUFFER_BLOCKS * b >= blocks * b) by (nonlinear_arith)
            requires
                blocks < MIN_BUFFER_BLOCKS,
                b >= 1,
        ;
    }
}

pub fn buffer_blocks(sample_rate: u32, max_block_samples: usize) -> (r: usize)
    requires
        BUFFER_SECONDS * sample_rate <= usize::MAX,
    ensures
        r == spec_buffer_blocks(sample_rate, max_block_samples),
        r >= MIN_BUFFER_BLOCKS,
        r * (if max_block_samples >= 1 { max_block_samples as int } else { 1 })
            >= BUFFER_SECONDS * sample_rate,
{
    let total: usize = BUFFER_SECONDS * (sample_rate as usize);
    let block: usize = if max_block_samples >= 1 {
        max_block_samples
    } else {
        1
    };
    let q: usize = total / block;
    let blocks: usize = if total % block != 0 {
        q + 1
    } else {
        q
    };
    proof {
        let t = total as int;
        let b = block as int;
        assert(blocks as int == (t + b - 1) / b && blocks * b >= t) by (nonlinear_arith)
            requires
                b >= 1,
                t >= 0,
                q as int == t / b,
                blocks as int == if t % b != 0 {
                    q + 1
                } else {
                    q as int
                },
        ;
    }
    if blocks >= MIN_BUFFER_BLOCKS {
        blocks
    } else {
        proof {
            assert(MIN_BUFFER_BLOCKS * (block as int) >= blocks * (block as int)) by (nonlinear_arith)
                requires
                    MIN_BUFFER_BLOCKS > blocks,
                    block >= 1,
            ;
        }
        MIN_BUFFER_BLOCKS
    }
}

} // verus!
