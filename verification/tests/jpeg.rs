use vnc_client::jpeg::JpegSamples;

#[test]
fn samples_become_opaque_pixels() {
    assert_eq!(JpegSamples::Rgb.to_rgba(&[1, 2, 3, 4, 5, 6, 7]), vec![1, 2, 3, 255, 4, 5, 6, 255]);
    assert_eq!(JpegSamples::Luma.to_rgba(&[9, 8]), vec![9, 9, 9, 255, 8, 8, 8, 255]);
    assert!(JpegSamples::Rgb.to_rgba(&[1, 2]).is_empty());
}
