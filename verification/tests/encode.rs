use base64::Engine as _;
use depth_of_field::encode::{encode_result, f16_to_png_base64, DepthOfFieldResult};
use depth_of_field::error::DepthOfFieldError;

fn rgba16f(pixels: &[[f32; 4]]) -> Vec<u8> {
    pixels
        .iter()
        .flat_map(|p| p.iter().flat_map(|v| half::f16::from_f32(*v).to_le_bytes()))
        .collect()
}

#[test]
fn png_round_trip() {
    let data = rgba16f(&[[1.0, 0.0, 0.0, 1.0], [0.0, 0.5, 1.0, 0.0], [0.25, 0.25, 0.25, 1.0], [2.0, -1.0, 0.0, 1.0]]);
    let text = f16_to_png_base64(&data, 2, 2).unwrap();
    let png = base64::engine::general_purpose::STANDARD.decode(&text).unwrap();
    assert_eq!(&png[1..4], b"PNG");
    let img = image::load_from_memory(&png).unwrap().to_rgba8();
    assert_eq!(img.dimensions(), (2, 2));
    assert_eq!(
        img.into_raw(),
        vec![255, 0, 0, 255, 0, 128, 255, 0, 64, 64, 64, 255, 255, 0, 0, 255]
    );
}

#[test]
fn extra_pixels_are_not_encoded() {
    let data = rgba16f(&[[1.0, 1.0, 1.0, 1.0], [0.0, 0.0, 0.0, 0.0]]);
    let text = f16_to_png_base64(&data, 1, 1).unwrap();
    let png = base64::engine::general_purpose::STANDARD.decode(&text).unwrap();
    let img = image::load_from_memory(&png).unwrap().to_rgba8();
    assert_eq!(img.into_raw(), vec![255, 255, 255, 255]);
}

#[test]
fn too_little_data_is_an_error() {
    let data = rgba16f(&[[1.0, 1.0, 1.0, 1.0]]);
    assert!(matches!(f16_to_png_base64(&data, 2, 1), Err(DepthOfFieldError::ImageBufferTooSmall)));
}

#[test]
fn zero_sized_image_is_an_encoder_error() {
    for (w, h) in [(0u32, 0u32), (0, 3), (3, 0)] {
        match f16_to_png_base64(&[], w, h) {
            Err(DepthOfFieldError::PngEncode(detail)) => {
                assert!(DepthOfFieldError::PngEncode(detail).message().starts_with("PNG encode failed: "))
            }
            other => panic!("unexpected result {:?}", other.map(|_| ())),
        }
    }
}

#[test]
fn result_is_a_png_data_url() {
    let data = rgba16f(&[[0.0, 0.0, 0.0, 1.0]]);
    let res = encode_result(&data, 1, 1).unwrap();
    assert_eq!((res.width, res.height), (1, 1));
    let text = f16_to_png_base64(&data, 1, 1).unwrap();
    assert_eq!(res.preview_url, format!("data:image/png;base64,{}", text));
}

#[test]
fn data_url_from_base64() {
    let r = DepthOfFieldResult::from_png_base64("QUJD", 3, 4);
    assert_eq!(r.preview_url, "data:image/png;base64,QUJD");
    assert_eq!((r.width, r.height), (3, 4));
}

#[test]
fn base64_of_partial_groups() {
    // 1x1 black opaque pixel: the base64 text decodes back and is padded to a multiple of four.
    let data = rgba16f(&[[0.0, 0.0, 0.0, 1.0]]);
    let text = f16_to_png_base64(&data, 1, 1).unwrap();
    assert_eq!(text.len() % 4, 0);
    let png = base64::engine::general_purpose::STANDARD.decode(&text).unwrap();
    assert_eq!(base64::engine::general_purpose::STANDARD.encode(&png), text);
}
