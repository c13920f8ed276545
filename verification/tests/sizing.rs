use depth_of_field::sizing::{fixed_target_size, interactive_downscale_size, preview_dimension};

#[test]
fn fixed_target() {
    assert_eq!(fixed_target_size((4000, 3000), None), (4000, 3000));
    assert_eq!(fixed_target_size((4000, 3000), Some((0, 720))), (1, 720));
    assert_eq!(fixed_target_size((4000, 3000), Some((1280, 0))), (1280, 1));
}

#[test]
fn preview_dimension_is_long_side() {
    assert_eq!(preview_dimension((640, 480)), 640);
    assert_eq!(preview_dimension((480, 640)), 640);
    assert_eq!(preview_dimension((0, 0)), 1);
}

#[test]
fn downscale_only_when_wider() {
    assert_eq!(interactive_downscale_size(1000, (640, 480)), Some((640, 480)));
    assert_eq!(interactive_downscale_size(640, (640, 480)), None);
    assert_eq!(interactive_downscale_size(10, (0, 0)), Some((1, 1)));
}
