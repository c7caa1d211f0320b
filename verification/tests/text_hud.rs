use flowengine::text::{draw_glyph_line, render_two, HUD_COLS, HUD_H, HUD_W};
use font8x8::UnicodeFonts;

fn lit(buf: &[u8], row: usize, x: usize) -> bool {
    buf[row * HUD_W + x] == 255
}

fn glyph_lit(c: char, row: usize, col: usize) -> bool {
    let g = font8x8::BASIC_FONTS.get(c).unwrap();
    g[row] & (1u8 << col) != 0
}

#[test]
fn draws_top_and_bottom_lines() {
    let mut buf = vec![0u8; HUD_W * HUD_H];
    render_two("AB", "Z", &mut buf);
    for row in 0..8 {
        for col in 0..8 {
            assert_eq!(lit(&buf, row, col), glyph_lit('A', row, col));
            assert_eq!(lit(&buf, row, 8 + col), glyph_lit('B', row, col));
            assert_eq!(lit(&buf, 8 + row, col), glyph_lit('Z', row, col));
            assert!(!lit(&buf, 8 + row, 8 + col));
        }
    }
    assert!(buf.iter().any(|&b| b == 255));
    assert!(buf.iter().all(|&b| b == 0 || b == 255));
}

#[test]
fn clears_previous_contents() {
    let mut buf = vec![7u8; HUD_W * HUD_H + 5];
    render_two("", "", &mut buf);
    assert!(buf.iter().all(|&b| b == 0));
}

#[test]
fn only_first_columns_are_drawn() {
    let mut long = String::new();
    for _ in 0..HUD_COLS {
        long.push(' ');
    }
    long.push('#');
    let mut buf = vec![0u8; HUD_W * HUD_H];
    render_two(&long, "", &mut buf);
    assert!(buf.iter().all(|&b| b == 0));

    let mut last = String::new();
    for _ in 0..HUD_COLS - 1 {
        last.push(' ');
    }
    last.push('#');
    render_two(&last, "", &mut buf);
    let x0 = (HUD_COLS - 1) * 8;
    let mut any = false;
    for row in 0..8 {
        for col in 0..8 {
            assert_eq!(lit(&buf, row, x0 + col), glyph_lit('#', row, col));
            any |= glyph_lit('#', row, col);
        }
    }
    assert!(any);
}

#[test]
fn characters_outside_basic_latin_stay_dark() {
    let mut buf = vec![0u8; HUD_W * HUD_H];
    render_two("é", "ß✓", &mut buf);
    assert!(buf.iter().all(|&b| b == 0));
}

#[test]
fn a_short_buffer_is_enough_when_nothing_lands_outside() {
    let mut buf = vec![1u8; 10];
    render_two("", "", &mut buf);
    assert_eq!(buf, vec![0u8; 10]);
}

#[test]
fn glyph_cells_draw_their_bits() {
    let mut buf = vec![9u8; HUD_W * HUD_H];
    let cells = [Some([0b0000_0001u8, 0, 0, 0, 0, 0, 0, 0b1000_0000]), None, Some([0xFF; 8])];
    draw_glyph_line(&cells, 8, &mut buf);
    // untouched outside the lit pixels
    assert_eq!(buf[0], 9);
    assert_eq!(buf[8 * HUD_W], 255); // cell 0, row 0, column 0
    assert_eq!(buf[8 * HUD_W + 1], 9);
    assert_eq!(buf[15 * HUD_W + 7], 255); // cell 0, row 7, column 7
    for col in 8..16 {
        assert_eq!(buf[10 * HUD_W + col], 9); // dark cell
    }
    for row in 8..16 {
        for col in 16..24 {
            assert_eq!(buf[row * HUD_W + col], 255);
        }
    }
    assert_eq!(buf.iter().filter(|&&b| b == 255).count(), 2 + 64);
}
