use zapzap::canvas::Canvas;

fn band(w: i32, rows: i32, y0: i32, fill: u32) -> Canvas {
    Canvas { px: vec![fill; (w * rows) as usize], w, h: 100, y0, rows }
}

fn at(c: &Canvas, x: i32, y: i32) -> u32 {
    c.px[((y - c.y0) * c.w + x) as usize]
}

#[test]
fn fill_rect_paints_the_part_inside_the_band() {
    let mut c = band(10, 4, 2, 0);
    c.fill_rect(2, 3, 3, 2, 0x123456);
    for y in 2..6 {
        for x in 0..10 {
            let inside = (2..5).contains(&x) && (3..5).contains(&y);
            assert_eq!(at(&c, x, y), if inside { 0x123456 } else { 0 }, "({x}, {y})");
        }
    }
}

#[test]
fn fill_rect_clips_to_the_band_and_skips_empty_rectangles() {
    let mut c = band(4, 2, 10, 7);
    c.fill_rect(-5, 0, 7, 100, 1);
    assert_eq!(c.px, vec![1, 1, 7, 7, 1, 1, 7, 7]);
    let mut d = band(4, 2, 10, 7);
    d.fill_rect(1, 10, 0, 5, 1);
    d.fill_rect(1, 10, 2, -1, 1);
    d.fill_rect(1, 12, 2, 5, 1);
    assert_eq!(d.px, vec![7; 8]);
}

#[test]
fn blend_mixes_each_channel() {
    let mut c = band(2, 1, 0, 0);
    c.blend(0, 0, 0xFFFFFF, 128);
    assert_eq!(at(&c, 0, 0), 0x808080);
    c.blend(1, 0, 0xFF0000, 255);
    assert_eq!(at(&c, 1, 0), 0xFF0000);
    c.blend(5, 0, 0xFFFFFF, 255);
    c.blend(0, 3, 0xFFFFFF, 255);
    assert_eq!(c.px, vec![0x808080, 0xFF0000]);
}

#[test]
fn blend_drops_the_top_byte_and_keeps_the_pixel_at_zero_opacity() {
    let mut c = band(1, 1, 0, 0xFF00_00FF);
    c.blend(0, 0, 0xFFFFFF, 0);
    assert_eq!(c.px[0], 0x0000FF);
}

#[test]
fn blend_lcd_uses_one_coverage_per_channel() {
    let mut c = band(1, 1, 0, 0);
    c.blend_lcd(0, 0, 0xFFFFFF, [255, 0, 51]);
    assert_eq!(c.px[0], 0xFF0033);
}

#[test]
fn fill_circle_is_full_inside_and_smooth_at_the_edge() {
    let mut c = band(11, 11, 0, 0);
    c.fill_circle(5, 5, 2, 0xFFFFFF);
    assert_eq!(at(&c, 5, 5), 0xFFFFFF);
    assert_eq!(at(&c, 6, 5), 0xFFFFFF);
    // Two pixels out: 16 quarter pixels squared, between 9 and 25: 255 * 9 / 16.
    assert_eq!(at(&c, 7, 5), 0x8F8F8F);
    assert_eq!(at(&c, 8, 5), 0);
    assert_eq!(at(&c, 0, 0), 0);
}

#[test]
fn fill_circle_draws_only_the_rows_of_the_band() {
    let mut c = band(11, 2, 5, 0);
    c.fill_circle(5, 3, 2, 0xFFFFFF);
    assert_eq!(at(&c, 5, 5), 0x8F8F8F);
    assert_eq!(at(&c, 5, 6), 0);
}

#[test]
fn fill_round_rect_fills_the_cross_and_smooths_the_corners() {
    let mut c = band(10, 10, 0, 0);
    c.fill_round_rect(0, 0, 10, 10, 3, 0xFFFFFF);
    assert_eq!(at(&c, 5, 5), 0xFFFFFF);
    assert_eq!(at(&c, 5, 0), 0xFFFFFF);
    assert_eq!(at(&c, 0, 5), 0xFFFFFF);
    // The outer corner pixel lies outside the arc; the next one in is covered.
    assert_eq!(at(&c, 0, 0), 0);
    assert_eq!(at(&c, 9, 9), 0);
    assert_eq!(at(&c, 1, 1), 0xFFFFFF);
    assert_eq!(at(&c, 8, 1), 0xFFFFFF);
}

#[test]
fn fill_round_rect_keeps_the_radius_within_half_the_sides() {
    let mut c = band(4, 4, 0, 0);
    c.fill_round_rect(0, 0, 4, 2, 10, 0xFFFFFF);
    assert_eq!(at(&c, 0, 2), 0);
    assert_eq!(at(&c, 1, 2), 0);
    let mut d = band(4, 1, 0, 0);
    d.fill_round_rect(0, 0, 4, 1, 0, 0x010203);
    assert_eq!(d.px, vec![0x010203; 4]);
}
