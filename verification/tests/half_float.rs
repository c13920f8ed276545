use depth_of_field::half_float::{f16_to_unorm8, rgba16f_to_rgba8};

fn reference(bits: u16) -> u8 {
    let v = half::f16::from_bits(bits).to_f32();
    (v.clamp(0.0, 1.0) * 255.0).round() as u8
}

#[test]
fn every_half_pattern_matches_float_conversion() {
    for bits in 0..=u16::MAX {
        assert_eq!(f16_to_unorm8(bits), reference(bits), "pattern {bits:#06x}");
    }
}

#[test]
fn endpoints_and_midpoint() {
    assert_eq!(f16_to_unorm8(half::f16::from_f32(0.0).to_bits()), 0);
    assert_eq!(f16_to_unorm8(half::f16::from_f32(1.0).to_bits()), 255);
    assert_eq!(f16_to_unorm8(half::f16::from_f32(0.5).to_bits()), 128);
    assert_eq!(f16_to_unorm8(half::f16::from_f32(2.0).to_bits()), 255);
    assert_eq!(f16_to_unorm8(half::f16::from_f32(-0.25).to_bits()), 0);
    assert_eq!(f16_to_unorm8(half::f16::NAN.to_bits()), 0);
    assert_eq!(f16_to_unorm8(half::f16::INFINITY.to_bits()), 255);
    assert_eq!(f16_to_unorm8(half::f16::NEG_INFINITY.to_bits()), 0);
    assert_eq!(f16_to_unorm8(half::f16::from_f32(-0.0).to_bits()), 0);
}

#[test]
fn conversion_is_monotone_on_non_negative_values() {
    let mut last = 0u8;
    for bits in 0..=0x7c00u16 {
        let q = f16_to_unorm8(bits);
        assert!(q >= last);
        last = q;
    }
}

#[test]
fn rgba_buffer_converts_each_channel_and_drops_partial_pixel() {
    let values = [0.0f32, 0.25, 0.5, 1.0, 1.0, 0.0, 0.75, 0.5];
    let mut bytes: Vec<u8> = values
        .iter()
        .flat_map(|v| half::f16::from_f32(*v).to_le_bytes())
        .collect();
    // A trailing half pixel (two channels) is ignored.
    bytes.extend_from_slice(&half::f16::from_f32(1.0).to_le_bytes());
    bytes.extend_from_slice(&half::f16::from_f32(1.0).to_le_bytes());
    let out = rgba16f_to_rgba8(&bytes);
    assert_eq!(out, vec![0, 64, 128, 255, 255, 0, 191, 128]);
}

#[test]
fn empty_rgba_buffer() {
    assert_eq!(rgba16f_to_rgba8(&[]), Vec::<u8>::new());
}
