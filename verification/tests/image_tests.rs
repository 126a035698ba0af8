use lowkit::compiler::compile_image;
use lowkit::texture::{rgba_from_rgb, ImageData};
use lowkit::AssetError;

#[test]
fn image_round_trip() {
    let rgb = vec![1, 2, 3, 4, 5, 6, 7, 8, 9, 10, 11, 12];
    let bytes = compile_image(2, 2, &rgb);
    let img = ImageData::load(bytes).unwrap();
    assert_eq!(img.width, 2);
    assert_eq!(img.height, 2);
    assert_eq!(img.rgb, rgb);
}

#[test]
fn image_bad_magic() {
    assert!(matches!(
        ImageData::load(vec![b'M', 0, 0, 0, 0, 0, 0, 0, 0]),
        Err(AssetError::BadMagic)
    ));
}

#[test]
fn image_truncated_samples() {
    // Claims 2x2 pixels but carries a single one.
    let bytes = compile_image(2, 2, &vec![1, 2, 3]);
    // The compiler writes whatever it was given; the loader checks.
    assert!(matches!(ImageData::load(bytes), Err(AssetError::Truncated)));
}

#[test]
fn image_truncated_header() {
    assert!(matches!(ImageData::load(vec![b'I', 0, 0]), Err(AssetError::Truncated)));
}

#[test]
fn rgba_gains_opaque_alpha() {
    let rgb = vec![10, 20, 30, 40, 50, 60];
    assert_eq!(rgba_from_rgb(&rgb), vec![10, 20, 30, 255, 40, 50, 60, 255]);
}

#[test]
fn rgba_of_empty_is_empty() {
    assert_eq!(rgba_from_rgb(&Vec::new()), Vec::<u8>::new());
}
