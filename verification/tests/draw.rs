use zapzap::bake::pack;
use zapzap::canvas::Canvas;
use zapzap::font::{draw, draw_emoji, Font};
use zapzap::icons;
use zapzap::qr::encode;
use zapzap::view::{login, notice};

fn band(w: i32, rows: i32, y0: i32) -> Canvas {
    Canvas { px: vec![0; (w * rows) as usize], w, h: rows + y0, y0, rows }
}

fn at(c: &Canvas, x: i32, y: i32) -> u32 {
    c.px[((y - c.y0) * c.w + x) as usize]
}

/// One glyph, '?', 1 pixel of full coverage one row above the baseline, advancing 7.5 px, in the
/// styles 14, 17 and 17 bold; one emoji, U+1F600, whose top-left pixel is 0x102030.
fn font() -> Font {
    let styles: [u16; 3] = [14, 17, 0x111];
    let mut atlas = vec![3u8, 1, 0];
    for style in styles {
        atlas.extend_from_slice(&style.to_le_bytes());
    }
    atlas.extend_from_slice(&[b'?', 0]);
    // Kerning offsets, the entries' offset, one empty kerning table, three entries, the stream.
    let kern = (atlas.len() + 16) as u32;
    for _ in 0..3 {
        atlas.extend_from_slice(&kern.to_le_bytes());
    }
    atlas.extend_from_slice(&(kern + 2).to_le_bytes());
    atlas.extend_from_slice(&[0, 0]);
    let stream = (atlas.len() + 30) as u32;
    for _ in 0..3 {
        atlas.extend_from_slice(&[0xE0, 0x01, 0, 0xFF, 1, 1]);
        atlas.extend_from_slice(&stream.to_le_bytes());
    }
    atlas.extend_from_slice(&pack(3, 1, &[255, 255, 255]));
    let mut emoji = vec![1u8, 0];
    emoji.extend_from_slice(&0x1F600u32.to_le_bytes());
    let mut entry = vec![0u8; 372];
    entry[3..6].copy_from_slice(&[0x10, 0x20, 0x30]);
    entry[48] = 0x1F;
    emoji.extend_from_slice(&entry);
    Font::new(atlas, emoji).expect("a well-formed atlas")
}

#[test]
fn a_glyph_is_laid_with_lcd_coverage_at_its_pen() {
    let font = font();
    let mut c = band(16, 8, 0);
    draw(&mut c, &font, 2, 5, 14, 0xFFFFFF, "??");
    assert_eq!(at(&c, 2, 4), 0xFFFFFF);
    // The second glyph starts at 9.5 px: half a pixel to the right, shared by two pixels.
    assert_eq!(at(&c, 9, 4), 0x007FFF);
    assert_eq!(at(&c, 10, 4), 0xFF7F00);
    let lit = c.px.iter().filter(|&&p| p != 0).count();
    assert_eq!(lit, 3);
}

#[test]
fn text_outside_the_band_is_skipped() {
    let font = font();
    let mut c = band(16, 8, 100);
    draw(&mut c, &font, 2, 5, 14, 0xFFFFFF, "?");
    assert!(c.px.iter().all(|&p| p == 0));
}

#[test]
fn emoji_come_from_their_own_atlas() {
    let font = font();
    let mut c = band(30, 30, 0);
    draw_emoji(&mut c, &font, 3, 2, 0);
    assert_eq!(at(&c, 3, 2), 0x102030);
    assert_eq!(at(&c, 4, 2), 0);
    let mut d = band(30, 30, 0);
    draw(&mut d, &font, 0, 20, 14, 0xFFFFFF, "\u{1F600}");
    assert_eq!(at(&d, 1, 5), 0x102030);
}

fn icon_atlas() -> Vec<u8> {
    let mut atlas = vec![1u8, 2, 6, 0, 0, 0];
    atlas.extend_from_slice(&pack(2, 2, &[255, 0, 0, 128]));
    atlas
}

#[test]
fn icons_are_drawn_from_their_masks() {
    let atlas = icon_atlas();
    assert!(icons::icon_fits(&atlas, 0));
    assert!(!icons::icon_fits(&atlas, 3));
    let mut c = band(8, 8, 0);
    icons::draw(&mut c, &atlas, 1, 1, 0, 0xFFFFFF);
    assert_eq!(at(&c, 1, 1), 0xFFFFFF);
    assert_eq!(at(&c, 2, 1), 0);
    assert_eq!(at(&c, 2, 2), 0x808080);
    let mut d = band(8, 8, 0);
    icons::draw_centered(&mut d, &atlas, 5, 5, 0, 0xFFFFFF);
    assert_eq!(at(&d, 4, 4), 0xFFFFFF);
}

#[test]
fn a_notice_fills_the_window() {
    let font = font();
    let mut c = band(20, 10, 0);
    notice(&mut c, &font, "");
    assert!(c.px.iter().all(|&p| p == 0x161717));
}

#[test]
fn the_pairing_screen_shows_the_code_on_a_light_card() {
    let font = font();
    let qr = encode(b"pairing").expect("a short payload");
    let mut c = band(400, 400, 0);
    login(&mut c, &font, &qr);
    assert_eq!(at(&c, 0, 0), 0x161717);
    assert_eq!(at(&c, 100, 10), 0xFFFFFF);
    // The finder pattern's corner module is dark.
    assert_eq!(at(&c, 29, 29), 0x000000);
    assert_eq!(at(&c, 34, 34), 0x000000);
}
