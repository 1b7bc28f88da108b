use bevy_webcam_facial::frame::{grayscale_frame, rgb_to_luma};

#[test]
fn luma_weights() {
    assert_eq!(rgb_to_luma(255, 0, 0), 76);
    assert_eq!(rgb_to_luma(0, 255, 0), 149);
    assert_eq!(rgb_to_luma(0, 0, 255), 28);
    // (7700 + 7500 + 5800) / 256 = 82
    assert_eq!(rgb_to_luma(100, 50, 200), 82);
}

#[test]
fn luma_keeps_gray_levels() {
    for v in 0..=255u8 {
        assert_eq!(rgb_to_luma(v, v, v), v);
    }
}

#[test]
fn grayscale_whole_frame_row_major() {
    // 2 x 2 frame
    let rgb = vec![
        255, 255, 255, 0, 0, 0, //
        255, 0, 0, 10, 10, 10,
    ];
    let gray = grayscale_frame(&rgb, 2, 2, 2, 2);
    assert_eq!(gray, vec![255, 0, 76, 10]);
}

#[test]
fn grayscale_top_left_part() {
    // 3 x 2 frame, convert the 2 x 1 top-left part
    let rgb = vec![
        1, 1, 1, 2, 2, 2, 3, 3, 3, //
        4, 4, 4, 5, 5, 5, 6, 6, 6,
    ];
    let gray = grayscale_frame(&rgb, 3, 2, 2, 1);
    assert_eq!(gray, vec![1, 2]);
    let gray = grayscale_frame(&rgb, 3, 2, 1, 2);
    assert_eq!(gray, vec![1, 4]);
}

#[test]
fn grayscale_empty() {
    let gray = grayscale_frame(&[], 0, 0, 0, 0);
    assert!(gray.is_empty());
}

#[test]
fn grayscale_ignores_bytes_past_the_frame() {
    let rgb = vec![50, 50, 50, 9, 9, 9, 1, 2, 3];
    let gray = grayscale_frame(&rgb, 2, 1, 2, 1);
    assert_eq!(gray, vec![50, 9]);
}
