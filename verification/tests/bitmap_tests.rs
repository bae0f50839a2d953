use screenshot::bitmap::{fix_alpha, flip_rgb, flip_rows};

#[test]
fn flip_rows_reverses_row_order() {
    let data: Vec<u8> = vec![1, 2, 3, 4, 5, 6];
    assert_eq!(flip_rows(data, 3, 2), vec![5, 6, 3, 4, 1, 2]);
}

#[test]
fn flip_rows_single_row_is_unchanged() {
    let data: Vec<u8> = vec![9, 8, 7, 6];
    assert_eq!(flip_rows(data, 1, 4), vec![9, 8, 7, 6]);
}

#[test]
fn flip_rows_empty_bitmap() {
    assert_eq!(flip_rows(Vec::new(), 0, 16), Vec::<u8>::new());
    assert_eq!(flip_rows(Vec::new(), 5, 0), Vec::<u8>::new());
}

#[test]
fn flip_rows_twice_restores_bitmap() {
    let data: Vec<u8> = (0..24).collect();
    let once = flip_rows(data.clone(), 4, 6);
    assert_ne!(once, data);
    assert_eq!(flip_rows(once, 4, 6), data);
}

#[test]
fn flip_rgb_swaps_blue_and_red() {
    let data: Vec<u8> = vec![1, 2, 3, 4, 5, 6, 7, 8];
    assert_eq!(flip_rgb(data, 1, 2, 4), vec![3, 2, 1, 4, 7, 6, 5, 8]);
}

#[test]
fn flip_rgb_leaves_bytes_after_the_pixels() {
    let data: Vec<u8> = vec![1, 2, 3, 4, 5, 6];
    assert_eq!(flip_rgb(data, 1, 1, 4), vec![3, 2, 1, 4, 5, 6]);
}

#[test]
fn flip_rgb_last_pixel_without_alpha_byte() {
    let data: Vec<u8> = vec![1, 2, 3, 4, 5, 6, 7];
    assert_eq!(flip_rgb(data, 2, 1, 4), vec![3, 2, 1, 4, 7, 6, 5]);
}

#[test]
fn flip_rgb_twice_restores_bitmap() {
    let data: Vec<u8> = (10..42).collect();
    let once = flip_rgb(data.clone(), 2, 4, 4);
    assert_ne!(once, data);
    assert_eq!(flip_rgb(once, 2, 4, 4), data);
}

#[test]
fn fix_alpha_fills_missing_alpha() {
    let mut data: Vec<u8> = vec![1, 2, 3, 0, 5, 6, 7, 0, 9];
    fix_alpha(&mut data);
    assert_eq!(data, vec![1, 2, 3, 255, 5, 6, 7, 255, 9]);
}

#[test]
fn fix_alpha_keeps_present_alpha() {
    let mut data: Vec<u8> = vec![1, 2, 3, 0, 5, 6, 7, 128];
    fix_alpha(&mut data);
    assert_eq!(data, vec![1, 2, 3, 0, 5, 6, 7, 128]);
}

#[test]
fn fix_alpha_ignores_colour_bytes() {
    let mut data: Vec<u8> = vec![200, 200, 200, 0];
    fix_alpha(&mut data);
    assert_eq!(data, vec![200, 200, 200, 255]);
}

#[test]
fn fix_alpha_twice_is_fix_alpha_once() {
    let mut once: Vec<u8> = vec![0, 0, 0, 0, 1, 1, 1, 0];
    fix_alpha(&mut once);
    let mut twice = once.clone();
    fix_alpha(&mut twice);
    assert_eq!(once, twice);
}

#[test]
fn fix_alpha_short_buffer_unchanged() {
    let mut data: Vec<u8> = vec![0, 0, 0];
    fix_alpha(&mut data);
    assert_eq!(data, vec![0, 0, 0]);
}
