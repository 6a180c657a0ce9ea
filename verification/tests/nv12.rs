use vnc_client::nv12::{convert_nv12_to_rgba, DecodedPicture};
use vnc_client::VncError;

#[test]
fn grey_has_equal_channels() {
    // 2x2 pixels of luma 100 with neutral chroma.
    let mut rgba = vec![0u8; 16];
    convert_nv12_to_rgba(&[100, 100, 100, 100, 128, 128], 2, 2, 2, &mut rgba);
    assert_eq!(rgba, [100, 100, 100, 255].repeat(4));
}

#[test]
fn chroma_shifts_the_channels() {
    let mut rgba = vec![0u8; 16];
    convert_nv12_to_rgba(&[100, 100, 100, 100, 0, 255], 2, 2, 2, &mut rgba);
    // u - 128 = -128, v - 128 = 127:
    // red 100 + 178, green 100 + 44 - 90, blue 100 - 227.
    assert_eq!(rgba[..4], [255, 54, 0, 255]);
}

#[test]
fn stride_skips_the_padding_of_rows() {
    let data = [1, 2, 99, 99, 3, 4, 99, 99, 128, 128, 99, 99];
    let mut rgba = vec![0u8; 16];
    convert_nv12_to_rgba(&data, 2, 2, 4, &mut rgba);
    let luma: Vec<u8> = rgba.chunks(4).map(|p| p[0]).collect();
    assert_eq!(luma, vec![1, 2, 3, 4]);
}

#[test]
fn too_few_bytes_for_the_stride_fall_back_to_the_width() {
    let mut rgba = vec![0u8; 16];
    convert_nv12_to_rgba(&[1, 2, 3, 4, 128, 128], 2, 2, 64, &mut rgba);
    assert_eq!(rgba[12], 4);
    // Too few for either: the buffer stays.
    let before = rgba.clone();
    convert_nv12_to_rgba(&[9, 9, 9], 2, 2, 2, &mut rgba);
    assert_eq!(rgba, before);
}

#[test]
fn pictures_follow_the_configured_size() {
    let mut picture = DecodedPicture::new();
    assert_eq!(picture.video_size(), None);
    assert_eq!(
        picture.check_configured(),
        Err(VncError::Protocol("MediaCodec not configured with video size".to_string()))
    );
    assert!(picture.differs(2, 2));
    picture.configured(2, 2);
    assert!(!picture.differs(2, 2));
    assert_eq!(picture.video_size(), Some((2, 2)));
    assert_eq!(picture.check_configured(), Ok(()));
    assert_eq!(picture.rgba, vec![0; 16]);
    picture.take_nv12(&[7, 7, 7, 7, 128, 128]);
    assert_eq!(picture.rgba, [7, 7, 7, 255].repeat(4));
}
