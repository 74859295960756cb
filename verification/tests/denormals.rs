use std::hint::black_box;

use rustortion::audio::denormals::{
    fpcr_update, mxcsr_update, FPCR_FLUSH_TO_ZERO, MXCSR_DENORMALS_ARE_ZERO,
    MXCSR_FLUSH_TO_ZERO,
};

/// Smallest positive denormal `f32`. Halving `f32::MIN_POSITIVE` lands in denormal range.
const DENORMAL: f32 = f32::MIN_POSITIVE / 2.0;

#[test]
fn denormal_constant_is_subnormal() {
    assert!(black_box(DENORMAL).is_subnormal());
}

#[test]
fn mxcsr_gains_both_bits_with_sse2() {
    // The power-on default MXCSR value.
    let default = 0x1f80;
    assert_eq!(
        mxcsr_update(default, true),
        Some(default | MXCSR_FLUSH_TO_ZERO | MXCSR_DENORMALS_ARE_ZERO)
    );
    assert_eq!(mxcsr_update(default, true), Some(0x9fc0));
    assert_eq!(mxcsr_update(default, false), Some(0x9f80));
}

#[test]
fn flush_to_zero_update_is_idempotent() {
    let once = mxcsr_update(0x1f80, true).expect("bits were clear");
    assert_eq!(mxcsr_update(once, true), None);
    let fz = fpcr_update(0).expect("FZ was clear");
    assert_eq!(fz, FPCR_FLUSH_TO_ZERO);
    assert_eq!(fpcr_update(fz), None);
    assert_eq!(fpcr_update(0x300_0000), None);
}
