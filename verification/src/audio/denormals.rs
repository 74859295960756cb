//! The control-register bits that make the CPU flush denormal floats to
//! zero, and the register update that sets them.

use vstd::prelude::*;

verus! {

/// MXCSR bit 15 (x86 SSE): denormal results are flushed to zero.
pub const MXCSR_FLUSH_TO_ZERO: u32 = 0x8000;

/// MXCSR bit 6 (x86 SSE2): denormal inputs read as zero.
pub const MXCSR_DENORMALS_ARE_ZERO: u32 = 0x40;

/// FPCR bit 24 (`FZ`, AArch64): flush-to-zero.
pub const FPCR_FLUSH_TO_ZERO: u64 = 0x100_0000;

/// The MXCSR bits to set: flush-to-zero, plus denormals-are-zero where SSE2
/// defines that bit.
pub open spec fn spec_mxcsr_wanted(sse2: bool) -> u32 {
    if sse2 {
        MXCSR_FLUSH_TO_ZERO | MXCSR_DENORMALS_ARE_ZERO
    } else {
        MXCSR_FLUSH_TO_ZERO
    }
}

/// The value to load into MXCSR, or `None` when the wanted bits are already
/// set and the register is left alone.
pub fn mxcsr_update(mxcsr: u32, sse2: bool) -> (r: Option<u32>)
    ensures
        r == if mxcsr | spec_mxcsr_wanted(sse2) != mxcsr {
            Some(mxcsr | spec_mxcsr_wanted(sse2))
        } else {
            None::<u32>
        },
{
    let wanted = if sse2 {
        MXCSR_FLUSH_TO_ZERO | MXCSR_DENORMALS_ARE_ZERO
    } else {
        MXCSR_FLUSH_TO_ZERO
    };
    let updated = mxcsr | wanted;
    if updated != mxcsr {
        Some(updated)
    } else {
        None
    }
}

/// The value to write to FPCR, or `None` when `FZ` is already set.
pub fn fpcr_update(fpcr: u64) -> (r: Option<u64>)
    ensures
        r == if fpcr | FPCR_FLUSH_TO_ZERO != fpcr {
            Some(fpcr | FPCR_FLUSH_TO_ZERO)
        } else {
            None::<u64>
        },
{
    let updated = fpcr | FPCR_FLUSH_TO_ZERO;
    if updated != fpcr {
        Some(updated)
    } else {
        None
    }
}

/// Enabling flush-to-zero is idempotent, and touches nothing but its own
/// bits: once applied, a second application writes nothing; every other bit
/// of the register keeps its value.
pub proof fn law_flush_to_zero_is_idempotent(mxcsr: u32, fpcr: u64, sse2: bool)
    ensures
        (mxcsr | spec_mxcsr_wanted(sse2)) | spec_mxcsr_wanted(sse2) == mxcsr | spec_mxcsr_wanted(
            sse2,
        ),
        (fpcr | FPCR_FLUSH_TO_ZERO) | FPCR_FLUSH_TO_ZERO == fpcr | FPCR_FLUSH_TO_ZERO,
        (mxcsr | spec_mxcsr_wanted(sse2)) & !spec_mxcsr_wanted(sse2) == mxcsr & !spec_mxcsr_wanted(
            sse2,
        ),
        (fpcr | FPCR_FLUSH_TO_ZERO) & !FPCR_FLUSH_TO_ZERO == fpcr & !FPCR_FLUSH_TO_ZERO,
{
    let w = spec_mxcsr_wanted(sse2);
    assert((mxcsr | w) | w == mxcsr | w) by (bit_vector);
    assert((mxcsr | w) & !w == mxcsr & !w) by (bit_vector);
    assert((fpcr | 0x100_0000u64) | 0x100_0000u64 == fpcr | 0x100_0000u64) by (bit_vector);
    assert((fpcr | 0x100_0000u64) & !0x100_0000u64 == fpcr & !0x100_0000u64) by (bit_vector);
}

} // verus!
