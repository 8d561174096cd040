use sysinfo_dashboard::render::{TextRenderer, ACCENT, BG, FG, FOOTER};

/// A font whose `A` is a solid block and whose `I` is a one-pixel vertical bar.
fn test_font() -> Vec<u8> {
    let mut font = vec![0u8; 95 * 8];
    let a = ('A' as usize - 32) * 8;
    for row in 0..8 {
        font[a + row] = 0b11111;
    }
    let i = ('I' as usize - 32) * 8;
    for row in 0..8 {
        font[i + row] = 0b00100;
    }
    font
}

fn count(buf: &[u32], color: u32) -> usize {
    buf.iter().filter(|&&p| p == color).count()
}

#[test]
fn new_renderer_is_empty() {
    let r = TextRenderer::new();
    assert_eq!(r.dimensions(), (0, 0));
    assert_eq!(r.scale_factor(), 2);
    assert_eq!(r.pen(), (0, 0));
    assert!(r.buffer().is_empty());
}

#[test]
fn default_renderer_is_the_new_one() {
    let r = TextRenderer::default();
    assert_eq!(r.dimensions(), (0, 0));
    assert_eq!(r.scale_factor(), 2);
    assert_eq!(r.pen(), (0, 0));
    assert!(r.buffer().is_empty());
}

#[test]
fn resize_fills_background_and_picks_scale() {
    let mut r = TextRenderer::new();
    r.resize(480, 100);
    assert_eq!(r.dimensions(), (480, 100));
    assert_eq!(r.scale_factor(), 2);
    assert_eq!(r.pen(), (4, 4));
    assert_eq!(r.buffer().len(), 48000);
    assert!(r.buffer().iter().all(|&p| p == BG));
    r.resize(100, 50);
    assert_eq!(r.scale_factor(), 1);
    assert_eq!(r.pen(), (2, 2));
    r.resize(1080, 1920);
    assert_eq!(r.scale_factor(), 4);
    assert_eq!(r.pen(), (8, 8));
}

#[test]
fn draw_str_paints_scaled_glyph_at_pen() {
    let mut r = TextRenderer::new();
    r.resize(480, 100);
    r.set_font(test_font());
    r.draw_str("A", 0, 0, FG, 0);
    let buf = r.buffer();
    // A 5x8 block at scale 2 from the pen (4, 4): columns 4..14, rows 4..20.
    assert_eq!(count(buf, FG), 10 * 16);
    for y in 0..100 {
        for x in 0..480 {
            let inside = (4..14).contains(&x) && (4..20).contains(&y);
            assert_eq!(buf[y * 480 + x] == FG, inside, "pixel ({}, {})", x, y);
        }
    }
}

#[test]
fn draw_str_advances_and_skips_characters_without_glyphs() {
    let mut r = TextRenderer::new();
    r.resize(100, 50);
    r.set_font(test_font());
    // 'é' has no glyph: it moves the pen by 5 columns, 'A' by 6.
    r.draw_str("AéA", 0, 0, FG, 0);
    let buf = r.buffer();
    assert_eq!(count(buf, FG), 2 * 5 * 8);
    // First A at columns 2..7, second at 2 + 6 + 5 = 13..18, both on rows 2..10.
    assert_eq!(buf[2 * 100 + 2], FG);
    assert_eq!(buf[2 * 100 + 7], BG);
    assert_eq!(buf[2 * 100 + 13], FG);
    assert_eq!(buf[2 * 100 + 17], FG);
    assert_eq!(buf[2 * 100 + 18], BG);
}

#[test]
fn draw_str_clips_at_the_edges() {
    let mut r = TextRenderer::new();
    r.resize(8, 6);
    r.set_font(test_font());
    // Pen at (2, 2), glyph 5x8 at scale 1: columns 2..7, rows 2..6 (clipped); the
    // second glyph would start at column 8, past the right edge.
    r.draw_str("AA", 0, 0, FG, 0);
    assert_eq!(count(r.buffer(), FG), 5 * 4);
}

#[test]
fn draw_str_twice_is_the_same_as_once() {
    let mut once = TextRenderer::new();
    once.resize(120, 40);
    once.set_font(test_font());
    once.draw_str("AIA", 0, 0, ACCENT, 0);
    let mut twice = TextRenderer::new();
    twice.resize(120, 40);
    twice.set_font(test_font());
    twice.draw_str("AIA", 0, 0, ACCENT, 0);
    twice.draw_str("AIA", 0, 0, ACCENT, 0);
    assert_eq!(once.buffer(), twice.buffer());
}

#[test]
fn render_uses_only_the_palette_and_moves_pen_to_footer() {
    let mut r = TextRenderer::new();
    r.resize(480, 200);
    r.set_font(test_font());
    let lines = vec![
        "── Device ──".to_string(),
        "  Model: AAA".to_string(),
        String::new(),
        "  IIII".to_string(),
    ];
    r.render(&lines);
    assert!(r.buffer().iter().all(|&p| p == BG || p == FG || p == ACCENT || p == FOOTER));
    assert_eq!(r.pen(), (4, 200 - 16 - 4));
    assert!(count(r.buffer(), FG) > 0);
}

#[test]
fn render_draws_section_title_without_rules() {
    let font = test_font();
    let mut a = TextRenderer::new();
    a.resize(300, 120);
    a.set_font(font.clone());
    a.render(&vec!["── AIA ──".to_string(), "  A".to_string()]);
    let mut b = TextRenderer::new();
    b.resize(300, 120);
    b.set_font(font.clone());
    b.render(&vec!["──AIA──".to_string(), "  A".to_string()]);
    assert_eq!(a.buffer(), b.buffer());
    let mut c = TextRenderer::new();
    c.resize(300, 120);
    c.set_font(font);
    c.render(&vec!["AIA".to_string(), "  A".to_string()]);
    assert_ne!(a.buffer(), c.buffer());
}

#[test]
fn render_clears_the_previous_frame() {
    let font = test_font();
    let mut a = TextRenderer::new();
    a.resize(300, 120);
    a.set_font(font.clone());
    a.render(&vec!["AAAA".to_string()]);
    a.render(&vec!["I".to_string()]);
    let mut b = TextRenderer::new();
    b.resize(300, 120);
    b.set_font(font);
    b.render(&vec!["I".to_string()]);
    assert_eq!(a.buffer(), b.buffer());
}

#[test]
fn render_stops_at_the_bottom() {
    let font = test_font();
    let many: Vec<String> = (0..50).map(|_| "A".to_string()).collect();
    let few: Vec<String> = (0..4).map(|_| "A".to_string()).collect();
    // Height 60 at scale 1: rows 14, 24, 34, 44 fit; the next would reach the bottom.
    let mut a = TextRenderer::new();
    a.resize(100, 60);
    a.set_font(font.clone());
    a.render(&many);
    let mut b = TextRenderer::new();
    b.resize(100, 60);
    b.set_font(font);
    b.render(&few);
    assert_eq!(a.buffer(), b.buffer());
}

#[test]
fn frame_fits_for_ordinary_frames() {
    let mut r = TextRenderer::new();
    r.resize(480, 200);
    let lines: Vec<String> = vec!["── A ──".to_string(), String::new(), "  x".to_string()];
    assert!(r.frame_fits(&lines));
    assert!(r.frame_fits(&[]));
}

#[test]
fn write_rgba_copies_the_overlap_byte_by_byte() {
    let mut r = TextRenderer::new();
    r.resize(2, 2);
    let mut dst = vec![0xAAu8; 3 * 4 * 3];
    // A window 3 pixels wide and 3 high, 12 bytes per row: only the top-left 2x2 is copied.
    r.write_rgba(&mut dst, 3, 3, 12);
    let px = [0x12u8, 0x12, 0x12, 0xFF];
    for y in 0..3 {
        for x in 0..3 {
            let at = y * 12 + x * 4;
            let expected = if x < 2 && y < 2 { px } else { [0xAA; 4] };
            assert_eq!(&dst[at..at + 4], &expected[..], "pixel ({}, {})", x, y);
        }
    }
}

#[test]
fn write_rgba_on_an_empty_frame_changes_nothing() {
    let r = TextRenderer::new();
    let mut dst = vec![7u8; 16];
    r.write_rgba(&mut dst, 2, 2, 8);
    assert_eq!(dst, vec![7u8; 16]);
}

#[test]
fn draw_str_changes_only_pixels_in_its_box() {
    let mut r = TextRenderer::new();
    r.resize(300, 40);
    r.set_font(test_font());
    let before = r.buffer().to_vec();
    let (col, row) = r.pen();
    let scale = r.scale_factor();
    r.draw_str("AIA", 0, 0, FG, BG);
    let after = r.buffer();
    let mut changed = 0;
    for (i, (&a, &b)) in before.iter().zip(after.iter()).enumerate() {
        if a != b {
            changed += 1;
            let (x, y) = (i % 300, i / 300);
            assert!(col <= x && x < col + 6 * scale * 3, "x = {}", x);
            assert!(row <= y && y < row + 8 * scale, "y = {}", y);
        }
    }
    assert!(changed > 0);
}

#[test]
fn resize_and_render_forget_the_old_state() {
    let lines: Vec<String> = vec!["── A ──".to_string(), "  AI".to_string()];
    let mut a = TextRenderer::new();
    a.set_font(test_font());
    a.resize(100, 60);
    a.draw_str("AAAA", 0, 0, ACCENT, BG);
    a.resize(100, 60);
    let mut b = TextRenderer::new();
    b.set_font(test_font());
    b.resize(100, 60);
    assert_eq!(a.buffer(), b.buffer());
    assert_eq!(a.pen(), b.pen());
    a.render(&lines);
    let first = a.buffer().to_vec();
    a.render(&lines);
    b.render(&lines);
    assert_eq!(a.buffer(), &first[..]);
    assert_eq!(a.buffer(), b.buffer());
    assert_eq!(a.pen(), b.pen());
}
