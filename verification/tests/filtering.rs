use gaia_pipeline::filter::{filter_rows, le_zero, RowBits};

fn row(parallax: f32) -> RowBits {
    RowBits { ra_bits: 0.0f32.to_bits(), dec_bits: 0.0f32.to_bits(), parallax_bits: parallax.to_bits() }
}

#[test]
fn negative_parallax_is_dropped() {
    assert!(le_zero((-5.0f32).to_bits()));
    let kept = filter_rows(&vec![row(-5.0)]);
    assert_eq!(kept.len(), 0);
}

#[test]
fn zero_parallax_is_dropped() {
    assert!(le_zero(0.0f32.to_bits()));
    assert!(le_zero((-0.0f32).to_bits()));
    let kept = filter_rows(&vec![row(0.0), row(-0.0)]);
    assert_eq!(kept.len(), 0);
}

#[test]
fn negative_infinity_is_dropped_and_nan_is_kept() {
    // NaN fails the rejection test `parallax <= 0`, so a NaN parallax
    // passes the filter, exactly as the test itself behaves.
    assert!(le_zero(f32::NEG_INFINITY.to_bits()));
    assert!(!le_zero(f32::NAN.to_bits()));
    assert!(!le_zero((-f32::NAN).to_bits()));
}

#[test]
fn positive_parallax_is_kept() {
    assert!(!le_zero(1000.0f32.to_bits()));
    assert!(!le_zero(f32::MIN_POSITIVE.to_bits()));
    assert!(!le_zero(f32::INFINITY.to_bits()));
    let kept = filter_rows(&vec![row(1000.0)]);
    assert_eq!(kept.len(), 1);
    assert_eq!(kept[0], row(1000.0));
}

#[test]
fn le_zero_agrees_with_float_comparison_on_samples() {
    let samples = [
        0.0f32, -0.0, 1.0, -1.0, 1000.0, -5.0, f32::INFINITY, f32::NEG_INFINITY,
        f32::MIN_POSITIVE, -f32::MIN_POSITIVE, f32::MAX, f32::MIN, f32::NAN, -f32::NAN,
        1e-45, -1e-45,
    ];
    for v in samples {
        assert_eq!(le_zero(v.to_bits()), v <= 0.0, "disagreement at {v}");
    }
}

#[test]
fn le_zero_agrees_with_float_comparison_across_bit_patterns() {
    let boundaries: [u32; 12] = [
        0x0000_0000, 0x0000_0001, 0x007f_ffff, 0x0080_0000, 0x7f7f_ffff, 0x7f80_0000,
        0x7f80_0001, 0x7fc0_0000, 0x8000_0000, 0x8000_0001, 0xff80_0000, 0xff80_0001,
    ];
    for bits in boundaries {
        assert_eq!(le_zero(bits), f32::from_bits(bits) <= 0.0, "disagreement at {bits:#x}");
    }
    let mut bits: u32 = 0;
    loop {
        assert_eq!(le_zero(bits), f32::from_bits(bits) <= 0.0, "disagreement at {bits:#x}");
        match bits.checked_add(0xffef) {
            Some(next) => bits = next,
            None => break,
        }
    }
}

#[test]
fn filter_keeps_order_and_counts_survivors() {
    let rows = vec![row(1.0), row(-1.0), row(2.0), row(0.0), row(3.0)];
    let kept = filter_rows(&rows);
    assert_eq!(kept, vec![row(1.0), row(2.0), row(3.0)]);
}

#[test]
fn empty_input_yields_empty_batch() {
    let kept = filter_rows(&Vec::new());
    assert_eq!(kept.len(), 0);
}
