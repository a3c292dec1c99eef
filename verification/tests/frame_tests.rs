use apex_oled::draw::{fill_rect, stroke_rect};
use apex_oled::frame::{feature_report_request, Frame, LEN};

fn lit(f: &Frame, x: usize, y: usize) -> bool {
    f.0[1 + y * 16 + x / 8] & (0x80 >> (x % 8)) != 0
}

#[test]
fn pixel_packing() {
    let mut f = Frame::new();
    f.set(0, 0, true);
    f.set(127, 39, true);
    assert_eq!((f.0[0], f.0[1], f.0[640], f.0[641]), (0x61, 0x80, 0x01, 0x00));

    let mut g = Frame::new();
    g.set(7, 0, true); // crosses a byte boundary when shifted right
    g.shift(true, true);
    assert_eq!((g.0[1], g.0[1 + 16], g.0[1 + 17]), (0x00, 0x00, 0x80));
}

#[test]
fn new_frame_is_dark_with_command_byte() {
    let f = Frame::new();
    assert_eq!(f.0.len(), LEN);
    assert_eq!(f.0[0], 0x61);
    assert!(f.0[1..].iter().all(|&b| b == 0));
}

#[test]
fn set_and_clear_one_pixel() {
    let mut f = Frame::new();
    f.set(10, 5, true);
    assert!(lit(&f, 10, 5));
    assert_eq!(f.0[1 + 5 * 16 + 1], 0x20);
    f.set(11, 5, true);
    f.set(10, 5, false);
    assert!(!lit(&f, 10, 5));
    assert!(lit(&f, 11, 5));
}

#[test]
fn draw_ignores_pixels_off_screen() {
    let mut f = Frame::new();
    f.draw(-1, 0, true);
    f.draw(128, 0, true);
    f.draw(0, 40, true);
    f.draw(3, -7, true);
    assert!(f.same_as(&Frame::new()));
    f.draw(127, 39, true);
    assert!(lit(&f, 127, 39));
}

#[test]
fn shift_right_moves_every_column() {
    let mut f = Frame::new();
    f.set(0, 3, true);
    f.set(15, 3, true);
    f.set(127, 3, true);
    f.shift(true, false);
    assert!(!lit(&f, 0, 3));
    assert!(lit(&f, 1, 3));
    assert!(lit(&f, 16, 3));
    assert!(!lit(&f, 15, 3));
    // the last column falls off rather than wrapping into the next row
    assert!(!lit(&f, 0, 4));
    assert_eq!(f.0[641], 0);
}

#[test]
fn shift_down_moves_every_row_and_keeps_the_report_framed() {
    let mut f = Frame::new();
    f.set(5, 0, true);
    f.set(6, 39, true);
    f.shift(false, true);
    assert!(lit(&f, 5, 1));
    assert!(!lit(&f, 5, 0));
    assert!(!lit(&f, 6, 39));
    assert_eq!((f.0[0], f.0[641]), (0x61, 0));
}

#[test]
fn shift_without_direction_changes_nothing() {
    let mut f = Frame::new();
    f.set(42, 17, true);
    let before = f;
    f.shift(false, false);
    assert!(f.same_as(&before));
}

#[test]
fn pbm_is_header_then_inverted_pixels() {
    let mut f = Frame::new();
    f.set(0, 0, true);
    let p = f.pbm();
    assert_eq!(&p[..10], b"P4\n128 40\n");
    assert_eq!(p.len(), 650);
    assert_eq!(p[10], 0x7f);
    assert!(p[11..].iter().all(|&b| b == 0xff));
}

#[test]
fn overlay_lights_the_union() {
    let mut f = Frame::new();
    f.set(1, 1, true);
    let mut raster = vec![0u8; 640];
    raster[0] = 0x80; // pixel (0, 0)
    f.overlay(&raster);
    assert!(lit(&f, 0, 0));
    assert!(lit(&f, 1, 1));
    assert_eq!(f.0[0], 0x61);
}

#[test]
fn same_as_compares_every_byte() {
    let mut a = Frame::new();
    let b = Frame::new();
    assert!(a.same_as(&b));
    a.set(100, 20, true);
    assert!(!a.same_as(&b));
}

#[test]
fn fill_rect_clips_to_the_screen() {
    let mut f = Frame::new();
    fill_rect(&mut f, -2, 38, 4, 5);
    assert!(lit(&f, 0, 38) && lit(&f, 1, 39));
    assert!(!lit(&f, 2, 38));
    let n: u32 = f.0[1..641].iter().map(|b| b.count_ones()).sum();
    assert_eq!(n, 4);
}

#[test]
fn stroke_rect_draws_the_border_only() {
    let mut f = Frame::new();
    stroke_rect(&mut f, 10, 10, 4, 3);
    for (x, y) in [(10, 10), (13, 10), (10, 12), (13, 12), (11, 10), (10, 11), (13, 11)] {
        assert!(lit(&f, x, y), "({x}, {y})");
    }
    assert!(!lit(&f, 11, 11) && !lit(&f, 12, 11));
    let n: u32 = f.0[1..641].iter().map(|b| b.count_ones()).sum();
    assert_eq!(n, 10);
}

#[test]
fn feature_report_request_encodes_hidiocsfeature_642() {
    assert_eq!(feature_report_request(), (3 << 30) | (642 << 16) | ((b'H' as usize) << 8) | 0x06);
}

#[test]
fn empty_rectangles_draw_nothing() {
    let mut f = Frame::new();
    stroke_rect(&mut f, 10, 10, 0, 5);
    stroke_rect(&mut f, 10, 10, 5, 0);
    fill_rect(&mut f, 10, 10, 0, 5);
    assert!(f.same_as(&Frame::new()));
}
