use depth_of_field::resample::resample_nearest;

#[test]
fn same_size_is_a_copy() {
    let src = vec![0.1f32, 0.2, 0.3, 0.4, 0.5, 0.6];
    assert_eq!(resample_nearest(&src, 3, 2, 3, 2), src);
}

#[test]
fn upscale_repeats_nearest_samples() {
    let src = vec![1u8, 2, 3, 4];
    // 2x2 -> 4x4: round(x * 2 / 4) gives 0, 1 (0.5 rounds up), 1, 2 -> clamped to 1.
    let out = resample_nearest(&src, 2, 2, 4, 4);
    assert_eq!(
        out,
        vec![1, 2, 2, 2, 3, 4, 4, 4, 3, 4, 4, 4, 3, 4, 4, 4]
    );
}

#[test]
fn downscale_picks_nearest() {
    let src: Vec<u32> = (0..16).collect();
    // 4x4 -> 2x2: round(x * 4 / 2) = 0, 2.
    assert_eq!(resample_nearest(&src, 4, 4, 2, 2), vec![0, 2, 8, 10]);
}

#[test]
fn empty_target() {
    let src = vec![1u8, 2, 3, 4];
    assert_eq!(resample_nearest(&src, 2, 2, 0, 5), Vec::<u8>::new());
}

#[test]
fn float_depth_map_resample() {
    let src = vec![0.0f32, 1.0];
    assert_eq!(resample_nearest(&src, 2, 1, 3, 1), vec![0.0, 1.0, 1.0]);
}
