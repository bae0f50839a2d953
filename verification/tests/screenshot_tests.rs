use screenshot::monitor::{select_monitor, Monitor};
use screenshot::{Pixel, Screenshot};

fn pixel_parts(p: Pixel) -> (u8, u8, u8, u8) {
    (p.a, p.r, p.g, p.b)
}

#[test]
fn cg_image_accepted_with_its_dimensions() {
    let data: Vec<u8> = (0..24).collect();
    let s = Screenshot::from_cg_image(data.clone(), 2, 3, 12, 32).unwrap();
    assert_eq!(s.height(), 2);
    assert_eq!(s.width(), 3);
    assert_eq!(s.row_len(), 12);
    assert_eq!(s.pixel_width(), 4);
    assert_eq!(s.raw_len(), 24);
    assert_eq!(s.as_ref(), data.as_slice());
}

#[test]
fn cg_image_pixels_not_whole_bytes() {
    let data: Vec<u8> = vec![0; 24];
    let r = Screenshot::from_cg_image(data, 2, 3, 12, 31);
    assert_eq!(r.err(), Some("Pixels aren't integral bytes."));
}

#[test]
fn cg_image_size_inconsistent() {
    let data: Vec<u8> = vec![0; 23];
    let r = Screenshot::from_cg_image(data, 2, 3, 12, 32);
    assert_eq!(r.err(), Some("Image size is inconsistent with W*H*D."));
}

#[test]
fn cg_image_size_overflowing_is_inconsistent() {
    let r = Screenshot::from_cg_image(vec![0; 8], usize::MAX, usize::MAX, 4, 32);
    assert_eq!(r.err(), Some("Image size is inconsistent with W*H*D."));
}

#[test]
fn get_pixel_reads_argb_word() {
    let data: Vec<u8> = (0..24).collect();
    let s = Screenshot::from_cg_image(data, 2, 3, 12, 32).unwrap();
    assert_eq!(pixel_parts(s.get_pixel(0, 0)), (3, 2, 1, 0));
    assert_eq!(pixel_parts(s.get_pixel(1, 2)), (23, 22, 21, 20));
    assert_eq!(pixel_parts(s.get_pixel(1, 0)), (15, 14, 13, 12));
}

#[test]
fn xlib_image_pixels_not_whole_bytes() {
    let image: Vec<u8> = vec![0; 16];
    let r = Screenshot::from_xlib_image(&image, 2, 2, 8, 12);
    assert_eq!(r.err(), Some("Pixels aren't integral bytes."));
}

#[test]
fn xlib_image_without_alpha_becomes_opaque() {
    let image: Vec<u8> = vec![1, 2, 3, 0, 4, 5, 6, 0, 9, 9];
    let s = Screenshot::from_xlib_image(&image, 1, 2, 10, 32).unwrap();
    assert_eq!(s.raw_len(), 8);
    assert_eq!(s.row_len(), 10);
    assert_eq!(s.pixel_width(), 4);
    assert_eq!(s.as_ref(), &[1, 2, 3, 255, 4, 5, 6, 255][..]);
    assert_eq!(pixel_parts(s.get_pixel(0, 1)), (255, 6, 5, 4));
}

#[test]
fn xlib_image_with_alpha_is_copied() {
    let image: Vec<u8> = vec![1, 2, 3, 7, 4, 5, 6, 0];
    let s = Screenshot::from_xlib_image(&image, 2, 1, 4, 32).unwrap();
    assert_eq!(s.height(), 2);
    assert_eq!(s.width(), 1);
    assert_eq!(s.as_ref(), image.as_slice());
}

#[test]
fn gdi_bitmap_turned_top_down() {
    // two rows of one pixel each, bottom row first
    let data: Vec<u8> = vec![10, 11, 12, 13, 20, 21, 22, 23];
    let s = Screenshot::from_gdi_bitmap(data, 2, 1);
    assert_eq!(s.height(), 2);
    assert_eq!(s.width(), 1);
    assert_eq!(s.row_len(), 4);
    assert_eq!(s.pixel_width(), 4);
    assert_eq!(s.raw_len(), 8);
    assert_eq!(s.as_ref(), &[20, 21, 22, 23, 10, 11, 12, 13][..]);
}

#[test]
fn gdi_bitmap_pixel_comes_from_mirrored_row() {
    let data: Vec<u8> = (0..48).collect();
    let s = Screenshot::from_gdi_bitmap(data, 3, 4);
    // pixel (0, 1) is bitmap pixel (2, 1): bytes 36..40 as blue, green, red, alpha
    assert_eq!(pixel_parts(s.get_pixel(0, 1)), (39, 38, 37, 36));
    assert_eq!(pixel_parts(s.get_pixel(2, 3)), (15, 14, 13, 12));
}

#[test]
fn gdi_bitmap_keeps_colours() {
    // one pixel with blue 10, green 20, red 30 as GDI stores it
    let data: Vec<u8> = vec![10, 20, 30, 0];
    let s = Screenshot::from_gdi_bitmap(data, 1, 1);
    assert_eq!(pixel_parts(s.get_pixel(0, 0)), (0, 30, 20, 10));
}

#[test]
fn monitor_from_rect_measures_size() {
    let m = Monitor::from_rect(-1920, 0, 0, 1080);
    assert_eq!((m.left, m.top, m.width, m.height), (-1920, 0, 1920, 1080));
}

#[test]
fn select_monitor_by_index() {
    let monitors = vec![Monitor::from_rect(0, 0, 10, 20), Monitor::from_rect(10, 0, 30, 20)];
    let m = select_monitor(monitors.clone(), 1).unwrap();
    assert_eq!((m.left, m.width), (10, 20));
    assert_eq!(select_monitor(monitors, 2).err(), Some("failed to get specified screen"));
}
