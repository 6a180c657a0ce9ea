use vnc_client::framebuffer::{Framebuffer, Transform};
use vnc_client::PixelFormat;

#[test]
fn write_region_rgba_fast_path() {
    let mut fb = Framebuffer::new(2, 2);
    // RGBA little-endian: [R, G, B, A]
    let data = vec![
        0xff, 0x00, 0x00, 0xff, 0x00, 0xff, 0x00, 0xff, 0x00, 0x00, 0xff, 0xff, 0xff, 0xff,
        0x00, 0xff,
    ];
    fb.write_region(0, 0, 2, 2, &data, &PixelFormat::rgba32());
    assert_eq!(fb.data(), &data);
}

#[test]
fn write_region_bgra_converts_to_rgba() {
    let mut fb = Framebuffer::new(2, 1);
    // BGRA little-endian: [B, G, R, A]
    let bgra = vec![0x00, 0x00, 0xff, 0xff, 0x00, 0xff, 0x00, 0xff];
    fb.write_region(0, 0, 2, 1, &bgra, &PixelFormat::bgra32());

    let expected = vec![
        0xff, 0x00, 0x00, 0xff, // red
        0x00, 0xff, 0x00, 0xff, // green
    ];
    assert_eq!(fb.data(), &expected);
}

#[test]
fn copy_rect_overlapping_bottom_up() {
    let mut fb = Framebuffer::new(4, 2);
    // Row 0: red green blue white
    fb.write_pixel(0, 0, [255, 0, 0, 255]);
    fb.write_pixel(1, 0, [0, 255, 0, 255]);
    fb.write_pixel(2, 0, [0, 0, 255, 255]);
    fb.write_pixel(3, 0, [255, 255, 255, 255]);

    // Copy row 0 to row 1 (overlapping? no, different rows)
    fb.copy_rect(0, 0, 0, 1, 4, 1);

    let expected_row0 = vec![
        255, 0, 0, 255, 0, 255, 0, 255, 0, 0, 255, 255, 255, 255, 255, 255,
    ];
    let expected_row1 = expected_row0.clone();
    assert_eq!(&fb.data()[0..16], &expected_row0[..]);
    assert_eq!(&fb.data()[16..32], &expected_row1[..]);
}

#[test]
fn copy_rect_overlapping_forward() {
    // 3x2 framebuffer: rows have distinct colors.
    let mut fb = Framebuffer::new(2, 3);
    fb.write_pixel(0, 0, [0, 0, 0, 255]);
    fb.write_pixel(1, 0, [0, 0, 0, 255]);
    fb.write_pixel(0, 1, [1, 0, 0, 255]);
    fb.write_pixel(1, 1, [1, 0, 0, 255]);
    fb.write_pixel(0, 2, [2, 0, 0, 255]);
    fb.write_pixel(1, 2, [2, 0, 0, 255]);

    // Copy (0,0) 2x2 to (0,1) — src_y=0 < dst_y=1, so bottom-up copy is used.
    fb.copy_rect(0, 0, 0, 1, 2, 2);

    // Row 0 unchanged.
    assert_eq!(fb.data()[0..8], [0, 0, 0, 255, 0, 0, 0, 255]);
    // Row 1 got old row 0.
    assert_eq!(fb.data()[8..16], [0, 0, 0, 255, 0, 0, 0, 255]);
    // Row 2 got old row 1.
    assert_eq!(fb.data()[16..24], [1, 0, 0, 255, 1, 0, 0, 255]);
}

#[test]
fn write_region_zero_size() {
    let mut fb = Framebuffer::new(2, 2);
    let data = vec![0xff, 0x00, 0x00, 0xff];
    // Zero width — should be a no-op
    fb.write_region(0, 0, 0, 2, &data, &PixelFormat::rgba32());
    assert_eq!(fb.data(), &vec![0u8; 16]);
}

#[test]
fn write_region_out_of_bounds() {
    let mut fb = Framebuffer::new(2, 2);
    let data = vec![0xff; 16];
    // Write starting at (1, 1) with 2x2 data — should clamp to framebuffer bounds
    fb.write_region(1, 1, 2, 2, &data, &PixelFormat::rgba32());
    // Only pixel (1,1) should be written
    assert_eq!(fb.data()[12], 0xff);
    assert_eq!(fb.data()[13], 0xff);
    assert_eq!(fb.data()[14], 0xff);
    assert_eq!(fb.data()[15], 0xff);
    // Other pixels should remain zero
    assert_eq!(fb.data()[0], 0);
}

#[test]
fn quarter_turns_compose() {
    // The corner of a 3x2 image ends up where each turn puts it.
    assert_eq!(Transform::Identity.map_coords(0, 0, 3, 2), (0, 0));
    assert_eq!(Transform::default(), Transform::Identity);
    assert!(Transform::Rotate90.swaps_dimensions());
    assert!(!Transform::Rotate180.swaps_dimensions());
    assert_eq!(Transform::Rotate90.transformed_width(3, 2), 2);
    assert_eq!(Transform::Rotate90.transformed_height(3, 2), 3);
    assert_eq!(Transform::Rotate180.map_coords(0, 0, 3, 2), (2, 1));
}

#[test]
fn pixel_reads_back_and_outside_is_nothing() {
    let mut fb = Framebuffer::new(2, 1);
    fb.write_pixel(1, 0, [1, 2, 3, 4]);
    assert_eq!(fb.read_pixel(1, 0), Some([1, 2, 3, 4]));
    assert_eq!(fb.read_pixel(2, 0), None);
    fb.write_pixel(5, 5, [9; 4]);
    assert_eq!(fb.data(), &vec![0, 0, 0, 0, 1, 2, 3, 4]);
}

#[test]
fn resize_keeps_the_bytes_in_place() {
    let mut fb = Framebuffer::from_raw(1, 1, vec![1, 2, 3, 4]);
    fb.resize(2, 1);
    assert_eq!(fb.data(), &vec![1, 2, 3, 4, 0, 0, 0, 0]);
    assert_eq!((fb.width(), fb.height()), (2, 1));
    fb.data_mut()[4] = 9;
    assert_eq!(fb.data()[4], 9);
    fb.set_transform(Transform::FlipHorizontal);
    assert_eq!(fb.transform(), Transform::FlipHorizontal);
}

#[test]
fn overlapping_copy_to_the_right_keeps_the_source() {
    let mut fb = Framebuffer::new(3, 1);
    for x in 0..3 {
        fb.write_pixel(x, 0, [x as u8 + 1, 0, 0, 255]);
    }
    fb.copy_rect(0, 0, 1, 0, 2, 1);
    let reds: Vec<u8> = fb.data().chunks(4).map(|p| p[0]).collect();
    assert_eq!(reds, vec![1, 1, 2]);
}

#[test]
fn region_over_the_right_edge_is_cut_there() {
    let mut fb = Framebuffer::new(2, 2);
    fb.write_region(1, 0, 2, 1, &[0xff; 8], &PixelFormat::rgba32());
    assert_eq!(
        fb.data(),
        &vec![0, 0, 0, 0, 255, 255, 255, 255, 0, 0, 0, 0, 0, 0, 0, 0]
    );
    let mut fb = Framebuffer::new(2, 2);
    fb.write_region(1, 0, 2, 2, &[0xff; 16], &PixelFormat::bgra32());
    let white: Vec<bool> = fb.data().chunks(4).map(|p| p[0] == 255).collect();
    assert_eq!(white, vec![false, true, false, true]);
    let mut fb = Framebuffer::new(2, 2);
    fb.write_region(2, 0, 1, 1, &[0xff; 4], &PixelFormat::rgba32());
    fb.write_region(2, 0, 1, 1, &[0xff; 4], &PixelFormat::bgra32());
    assert_eq!(fb.data(), &vec![0; 16]);
}
