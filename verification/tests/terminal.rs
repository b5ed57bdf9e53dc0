use font8x8::{UnicodeFonts, BASIC_FONTS};
use viperstem::output::deprterminal::{FramebufferInfo, Logger};

const W: usize = 16;
const H: usize = 16;
const TEXT: u32 = 0xFFFF_FFFF;

fn logger() -> Logger {
    Logger::new(vec![7u32; W * H + 7], FramebufferInfo { width: W, height: H, bpp: 8 })
}

fn expect_glyph(fb: &[u32], c: char, x0: usize, y0: usize, screen: u32, text: u32) {
    let g = BASIC_FONTS.get(c).unwrap();
    for y in 0..8 {
        for x in 0..8 {
            let want = if g[y] & (1 << x) == 0 { screen } else { text };
            assert_eq!(fb[(y0 + y) * W + x0 + x], want, "pixel ({}, {}) of {:?}", x, y, c);
        }
    }
}

#[test]
fn new_clears_the_framebuffer() {
    let l = logger();
    assert!(l.pixels().iter().all(|p| *p == 0));
    assert_eq!(l.pixels().len(), W * H + 7);
}

#[test]
fn write_str_draws_glyphs_left_to_right() {
    let mut l = logger();
    l.write_str("AB");
    expect_glyph(l.pixels(), 'A', 0, 0, 0, TEXT);
    expect_glyph(l.pixels(), 'B', 8, 0, 0, TEXT);
}

#[test]
fn glyph_is_drawn_from_the_font_table() {
    let mut l = logger();
    l.write_char('#');
    let g = BASIC_FONTS.get('#').unwrap();
    assert!(g.iter().any(|b| *b != 0));
    expect_glyph(l.pixels(), '#', 0, 0, 0, TEXT);
}

#[test]
fn newline_moves_to_the_next_text_line() {
    let mut l = Logger::new(vec![0u32; W * 24 + 7], FramebufferInfo { width: W, height: 24, bpp: 8 });
    l.write_str("\nA");
    expect_glyph(l.pixels(), 'A', 0, 8, 0, TEXT);
    assert!(l.pixels()[..8 * W].iter().all(|p| *p == 0));
}

#[test]
fn line_reaching_the_bottom_clears_the_screen() {
    let mut l = logger();
    // With 16 rows the line at y = 8 reaches height - 8: the screen is
    // cleared and the glyph goes to the top.
    l.write_str("B\nA");
    expect_glyph(l.pixels(), 'A', 0, 0, 0, TEXT);
    assert!(l.pixels()[8 * W..].iter().all(|p| *p == 0));
}

#[test]
fn carriage_return_moves_back_to_column_zero() {
    let mut l = logger();
    l.write_str("A\rB");
    expect_glyph(l.pixels(), 'B', 0, 0, 0, TEXT);
}

#[test]
fn full_line_wraps_and_last_line_clears() {
    let mut l = logger();
    // Two glyphs fill a 16-pixel line; the third wraps to y = 8, which is
    // at height - 8, so the screen is cleared and it is drawn at the top.
    l.write_str("ABC");
    expect_glyph(l.pixels(), 'C', 0, 0, 0, TEXT);
    for y in 0..8 {
        assert!(l.pixels()[y * W + 8..y * W + 16].iter().all(|p| *p == 0));
    }
}

#[test]
fn set_colors_fills_and_changes_colours() {
    let mut l = logger();
    l.set_colors(0xFF0000, 0x00FF00);
    assert!(l.pixels().iter().all(|p| *p == 0xFF0000));
    l.write_char('x');
    expect_glyph(l.pixels(), 'x', 0, 0, 0xFF0000, 0x00FF00);
}

#[test]
fn clear_zeroes_and_homes() {
    let mut l = logger();
    l.write_str("AB");
    l.clear();
    assert!(l.pixels().iter().all(|p| *p == 0));
    l.write_char('Z');
    expect_glyph(l.pixels(), 'Z', 0, 0, 0, TEXT);
}

#[test]
fn zero_width_pixels_draw_nothing() {
    let mut l = Logger::new(vec![5u32; 1], FramebufferInfo { width: 16, height: 16, bpp: 4 });
    l.write_str("AB\nC");
    assert_eq!(l.pixels(), &[0u32][..]);
}

#[test]
fn cursor_follows_the_text() {
    let mut l = Logger::new(vec![0u32; W * 32 + 7], FramebufferInfo { width: W, height: 32, bpp: 8 });
    assert_eq!(l.cursor(), (0, 0));
    l.write_char('A');
    assert_eq!(l.cursor(), (8, 0));
    l.write_char('\n');
    assert_eq!(l.cursor(), (0, 8));
    l.write_str("AB");
    assert_eq!(l.cursor(), (16, 8));
    l.write_char('\r');
    assert_eq!(l.cursor(), (0, 8));
}

#[test]
fn writing_in_two_parts_equals_writing_at_once() {
    let mut a = Logger::new(vec![0u32; W * 32 + 7], FramebufferInfo { width: W, height: 32, bpp: 8 });
    let mut b = Logger::new(vec![0u32; W * 32 + 7], FramebufferInfo { width: W, height: 32, bpp: 8 });
    a.write_str("ab\nc");
    a.write_str("de\rf");
    b.write_str("ab\ncde\rf");
    assert_eq!(a.pixels(), b.pixels());
    assert_eq!(a.cursor(), b.cursor());
}

#[test]
fn framebuffer_of_exactly_width_times_height_cells() {
    let mut l = Logger::new(vec![0u32; 100], FramebufferInfo { width: 10, height: 10, bpp: 8 });
    l.write_char('A');
    let g = BASIC_FONTS.get('A').unwrap();
    for y in 0..8 {
        for x in 0..8 {
            let want = if g[y] & (1 << x) == 0 { 0 } else { TEXT };
            assert_eq!(l.pixels()[y * 10 + x], want);
        }
    }
    assert_eq!(l.cursor(), (8, 0));
}

#[test]
fn line_controls_work_on_any_geometry() {
    let mut l = Logger::new(vec![], FramebufferInfo { width: 0, height: 0, bpp: 32 });
    l.write_str("\n\n\r\n");
    assert_eq!(l.cursor(), (0, 24));
    assert!(l.pixels().is_empty());
}

#[test]
fn eight_rows_always_draw_at_the_top() {
    let mut l = Logger::new(vec![0u32; 8 * 8 + 7], FramebufferInfo { width: 8, height: 8, bpp: 8 });
    l.write_str("A\nB");
    expect_glyph_w(l.pixels(), 'B', 8);
    assert_eq!(l.cursor(), (8, 0));
}

fn expect_glyph_w(fb: &[u32], c: char, w: usize) {
    let g = BASIC_FONTS.get(c).unwrap();
    for y in 0..8 {
        for x in 0..8 {
            let want = if g[y] & (1 << x) == 0 { 0 } else { TEXT };
            assert_eq!(fb[y * w + x], want);
        }
    }
}
