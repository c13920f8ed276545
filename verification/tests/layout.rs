use depth_of_field::layout::{
    r32f_bytes_per_row, readback_buffer_size, rgba16f_bytes_per_row, rgba16f_row_layout,
    strip_row_padding, workgroup_counts, RowLayout,
};

#[test]
fn row_layout_pads_to_alignment() {
    let l = rgba16f_row_layout(100, 256);
    assert_eq!(l, RowLayout { unpadded_bytes: 800, padded_bytes: 1024 });
    let l = rgba16f_row_layout(32, 256);
    assert_eq!(l, RowLayout { unpadded_bytes: 256, padded_bytes: 256 });
    let l = rgba16f_row_layout(0, 256);
    assert_eq!(l, RowLayout { unpadded_bytes: 0, padded_bytes: 0 });
    let l = rgba16f_row_layout(33, 256);
    assert_eq!(l.padded_bytes, 512);
    let l = rgba16f_row_layout(3, 1);
    assert_eq!(l.padded_bytes, 24);
}

#[test]
fn readback_size() {
    let l = rgba16f_row_layout(100, 256);
    assert_eq!(readback_buffer_size(l, 3), 3072);
}

#[test]
fn strip_padding_keeps_row_prefixes() {
    let layout = RowLayout { unpadded_bytes: 3, padded_bytes: 5 };
    let padded = vec![1, 2, 3, 90, 91, 4, 5, 6, 92, 93, 7, 8, 9];
    assert_eq!(strip_row_padding(&padded, layout, 3), vec![1, 2, 3, 4, 5, 6, 7, 8, 9]);
    assert_eq!(strip_row_padding(&padded, layout, 0), Vec::<u8>::new());
}

#[test]
fn strip_padding_without_padding_is_identity() {
    let layout = RowLayout { unpadded_bytes: 4, padded_bytes: 4 };
    let data: Vec<u8> = (0..16).collect();
    assert_eq!(strip_row_padding(&data, layout, 4), data);
}

#[test]
fn bytes_per_row() {
    assert_eq!(rgba16f_bytes_per_row(10), 80);
    assert_eq!(r32f_bytes_per_row(10), 40);
}

#[test]
fn workgroups_cover_image() {
    assert_eq!(workgroup_counts(0, 0), (0, 0));
    assert_eq!(workgroup_counts(1, 8), (1, 1));
    assert_eq!(workgroup_counts(9, 16), (2, 2));
    assert_eq!(workgroup_counts(1920, 1081), (240, 136));
}
