//! Rasterizes up to two ASCII lines into a 16-pixel-tall luminance buffer
//! (rows 0-7 hold the top line, rows 8-15 the bottom line) with the font8x8
//! basic bitmap font.
use font8x8::UnicodeFonts;
use vstd::prelude::*;

verus! {

/// Maximum number of characters drawn per line.
pub const HUD_COLS: usize = 96;

/// Width of the HUD buffer in pixels.
pub const HUD_W: usize = HUD_COLS * 8;

/// Height of the HUD buffer in pixels (two 8-pixel lines).
pub const HUD_H: usize = 16;

/// The leading `limit` characters of `s` (all of them when `s` is shorter).
pub open spec fn leading(s: Seq<char>, limit: int) -> Seq<char> {
    if s.len() <= limit { s } else { s.take(limit) }
}

fn leading_chars(s: &str, limit: usize) -> (out: Vec<char>)
    ensures
        out@ == leading(s@, limit as int),
{
    let mut out: Vec<char> = Vec::new();
    for ch in it: s.chars()
        invariant_except_break
            out@ == it.seq().take(it.index()),
            out@.len() <= limit,
        invariant
            it.seq() == s@,
        ensures
            out@ == leading(s@, limit as int),
    {
        if out.len() >= limit {
            break;
        }
        out.push(ch);
    }
    out
}

/// The 8 row bytes that font8x8's basic (U+0000..U+007F) table holds for `c`;
/// bit `k` of row byte `r` lights pixel column `k` of row `r`.
pub uninterp spec fn basic_glyph(c: char) -> Seq<u8>;

/// Looks `c` up in font8x8's `BASIC_FONTS` (the `UnicodeFonts::get` method).
/// The table holds exactly the 128 code points U+0000..U+007F, one entry each in
/// code-point order, so the lookup succeeds exactly for those; the row bytes it
/// returns are named `basic_glyph(c)` and not spelled out here.
#[verifier::external_body]
fn basic_font_get(c: char) -> (glyph: Option<[u8; 8]>)
    ensures
        glyph is Some <==> (c as u32) < 128,
        glyph matches Some(bits) ==> bits@ == basic_glyph(c),
{
    font8x8::BASIC_FONTS.get(c)
}

/// Whether bit `col` of a glyph row byte is set.
pub open spec fn glyph_bit(bits: u8, col: int) -> bool {
    bits & (1u8 << (col as u8)) != 0
}

/// Whether the pixel at glyph row `row` (0..8) and column `x` (0..HUD_W) of a
/// rendered line of text `s` is lit: the column falls in a character cell of
/// `s` (only the first `HUD_COLS` fit), that character is in the basic table,
/// and its glyph has the bit set.
pub open spec fn line_lit(s: Seq<char>, row: int, x: int) -> bool {
    let ci = x / 8;
    &&& 0 <= row < 8
    &&& 0 <= x < HUD_W
    &&& ci < s.len()
    &&& (s[ci] as u32) < 128
    &&& glyph_bit(basic_glyph(s[ci])[row], x % 8)
}

/// Whether byte `i` of a row-major HUD buffer (`HUD_W` bytes per row) is lit:
/// rows 0-7 show `top`, rows 8-15 show `bottom`, nothing below.
pub open spec fn hud_lit(top: Seq<char>, bottom: Seq<char>, i: int) -> bool {
    let y = i / (HUD_W as int);
    let x = i % (HUD_W as int);
    &&& 0 <= i
    &&& if y < 8 {
        line_lit(top, y, x)
    } else {
        line_lit(bottom, y - 8, x)
    }
}

/// The value of byte `i` of the HUD buffer: 255 where lit, 0 elsewhere.
pub open spec fn hud_byte(top: Seq<char>, bottom: Seq<char>, i: int) -> u8 {
    if hud_lit(top, bottom, i) {
        255
    } else {
        0
    }
}

/// Byte `i` lies in the 8-row band that starts at row `y_off`, before index
/// `bound`, and the line `s` drawn in that band lights it.
pub open spec fn band_lit(s: Seq<char>, y_off: int, bound: int, i: int) -> bool {
    &&& y_off * (HUD_W as int) <= i < bound
    &&& line_lit(s, i / (HUD_W as int) - y_off, i % (HUD_W as int))
}

/// Clears `buf` and draws `top` into rows 0-7 and `bottom` into rows 8-15.
/// Only the first `HUD_COLS` characters of each line are drawn; characters
/// outside U+0000..U+007F leave their cell dark.
pub fn render_two(top: &str, bottom: &str, buf: &mut [u8])
    requires
        forall|i: int| #[trigger] hud_lit(top@, bottom@, i) ==> i < old(buf)@.len(),
    ensures
        final(buf)@.len() == old(buf)@.len(),
        forall|i: int|
            0 <= i < final(buf)@.len() ==> final(buf)@[i] == hud_byte(top@, bottom@, i),
{
    let n = buf.len();
    for i in 0..n
        invariant
            n == buf@.len(),
            buf@.len() == old(buf)@.len(),
            forall|j: int| 0 <= j < i ==> buf@[j] == 0u8,
    {
        buf[i] = 0;
    }
    assert forall|i: int| #[trigger] band_lit(top@, 0, 8 * HUD_W, i) implies i < buf@.len() by {
        assert(i / (HUD_W as int) < 8);
        assert(hud_lit(top@, bottom@, i));
    }
    blit(top, 0, buf);
    assert forall|i: int| #[trigger] band_lit(bottom@, 8, 16 * HUD_W, i) implies i < buf@.len() by {
        assert(i / (HUD_W as int) >= 8);
        assert(hud_lit(top@, bottom@, i));
    }
    blit(bottom, 8, buf);
    assert forall|i: int| 0 <= i < buf@.len() implies buf@[i] == hud_byte(top@, bottom@, i) by {
        if i < 8 * HUD_W {
            assert(i / (HUD_W as int) < 8);
        } else if i < 16 * HUD_W {
            assert(i / (HUD_W as int) >= 8);
        } else {
            assert(i / (HUD_W as int) >= 16);
        }
    }
}

/// Whether the pixel at glyph row `row` (0..8) and column `x` (0..HUD_W) of a
/// line drawn from the glyph cells `glyphs` is lit: the column falls in a cell
/// that has a glyph, and that glyph has the bit set.
pub open spec fn glyph_cell_lit(glyphs: Seq<Option<[u8; 8]>>, row: int, x: int) -> bool {
    let ci = x / 8;
    &&& 0 <= row < 8
    &&& 0 <= x < HUD_W
    &&& ci < glyphs.len()
    &&& glyphs[ci] matches Some(bits) && glyph_bit(bits@[row], x % 8)
}

/// Byte `i` lies in the 8-row band that starts at row `y_off`, before index
/// `bound`, and the glyph cells drawn in that band light it.
pub open spec fn band_cell_lit(glyphs: Seq<Option<[u8; 8]>>, y_off: int, bound: int, i: int) -> bool {
    &&& y_off * (HUD_W as int) <= i < bound
    &&& glyph_cell_lit(glyphs, i / (HUD_W as int) - y_off, i % (HUD_W as int))
}

/// Draws a line of glyph cells (8 pixels wide each; `None` is a dark cell) into
/// the 8 rows from row `y_off` on, setting lit pixels to 255 and leaving every
/// other byte as it was. Cells past the `HUD_COLS`-th do not fit and are not
/// drawn.
pub fn draw_glyph_line(glyphs: &[Option<[u8; 8]>], y_off: usize, buf: &mut [u8])
    requires
        y_off <= 8,
        forall|i: int|
            #[trigger] band_cell_lit(glyphs@, y_off as int, (y_off + 8) * HUD_W, i) ==> i < old(
                buf,
            )@.len(),
    ensures
        final(buf)@.len() == old(buf)@.len(),
        forall|i: int|
            0 <= i < final(buf)@.len() ==> final(buf)@[i] == if band_cell_lit(
                glyphs@,
                y_off as int,
                (y_off + 8) * HUD_W,
                i,
            ) {
                255u8
            } else {
                old(buf)@[i]
            },
{
    let ncells = glyphs.len();
    for row in 0..8usize
        invariant
            y_off <= 8,
            ncells == glyphs@.len(),
            forall|i: int|
                #[trigger] band_cell_lit(glyphs@, y_off as int, (y_off as int + 8) * HUD_W, i)
                    ==> i < old(buf)@.len(),
            buf@.len() == old(buf)@.len(),
            forall|i: int|
                0 <= i < buf@.len() ==> buf@[i] == if band_cell_lit(
                    glyphs@,
                    y_off as int,
                    (y_off as int + row) * HUD_W,
                    i,
                ) {
                    255u8
                } else {
                    old(buf)@[i]
                },
    {
        for x in 0..HUD_W
            invariant
                y_off <= 8,
                row < 8,
                ncells == glyphs@.len(),
                forall|i: int|
                    #[trigger] band_cell_lit(glyphs@, y_off as int, (y_off as int + 8) * HUD_W, i)
                        ==> i < old(buf)@.len(),
                buf@.len() == old(buf)@.len(),
                forall|i: int|
                    0 <= i < buf@.len() ==> buf@[i] == if band_cell_lit(
                        glyphs@,
                        y_off as int,
                        (y_off as int + row) * HUD_W + x,
                        i,
                    ) {
                        255u8
                    } else {
                        old(buf)@[i]
                    },
        {
            let idx = (y_off + row) * HUD_W + x;
            proof {
                vstd::arithmetic::div_mod::lemma_fundamental_div_mod_converse(
                    idx as int,
                    HUD_W as int,
                    y_off as int + row,
                    x as int,
                );
            }
            let ci = x / 8;
            let mut lit = false;
            if ci < ncells {
                if let Some(bits) = glyphs[ci] {
                    lit = bits[row] & (1u8 << ((x % 8) as u8)) != 0;
                }
            }
            assert(lit == glyph_cell_lit(glyphs@, row as int, x as int));
            if lit {
                assert(band_cell_lit(glyphs@, y_off as int, (y_off as int + 8) * HUD_W, idx as int));
                buf[idx] = 255;
            }
            assert forall|i: int| 0 <= i < buf@.len() implies buf@[i] == if band_cell_lit(
                glyphs@,
                y_off as int,
                (y_off as int + row) * HUD_W + x + 1,
                i,
            ) {
                255u8
            } else {
                old(buf)@[i]
            } by {
                if i != idx {
                    assert(band_cell_lit(glyphs@, y_off as int, (y_off as int + row) * HUD_W + x + 1, i)
                        == band_cell_lit(glyphs@, y_off as int, (y_off as int + row) * HUD_W + x, i));
                }
            }
        }
    }
}

/// Draws the first `HUD_COLS` characters of `s` into the 8 rows from row
/// `y_off` on, setting lit pixels to 255 and leaving every other byte as it was.
fn blit(s: &str, y_off: usize, buf: &mut [u8])
    requires
        y_off <= 8,
        forall|i: int|
            #[trigger] band_lit(s@, y_off as int, (y_off + 8) * HUD_W, i) ==> i < old(
                buf,
            )@.len(),
    ensures
        final(buf)@.len() == old(buf)@.len(),
        forall|i: int|
            0 <= i < final(buf)@.len() ==> final(buf)@[i] == if band_lit(
                s@,
                y_off as int,
                (y_off + 8) * HUD_W,
                i,
            ) {
                255u8
            } else {
                old(buf)@[i]
            },
{
    let chars = leading_chars(s, HUD_COLS);
    let mut glyphs: Vec<Option<[u8; 8]>> = Vec::new();
    for k in 0..chars.len()
        invariant
            glyphs@.len() == k,
            forall|j: int|
                0 <= j < k ==> (#[trigger] glyphs@[j] is Some <==> (chars@[j] as u32) < 128),
            forall|j: int|
                0 <= j < k ==> (#[trigger] glyphs@[j] matches Some(bits) ==> bits@
                    == basic_glyph(chars@[j])),
    {
        glyphs.push(basic_font_get(chars[k]));
    }
    assert forall|row: int, x: int|
        glyph_cell_lit(glyphs@, row, x) == line_lit(s@, row, x) by {
        if 0 <= x < HUD_W {
            assert(x / 8 < HUD_COLS);
        }
    }
    assert forall|bound: int, i: int|
        band_cell_lit(glyphs@, y_off as int, bound, i) == band_lit(s@, y_off as int, bound, i) by {
        assert(glyph_cell_lit(glyphs@, i / (HUD_W as int) - y_off, i % (HUD_W as int))
            == line_lit(s@, i / (HUD_W as int) - y_off, i % (HUD_W as int)));
    }
    draw_glyph_line(glyphs.as_slice(), y_off, buf);
}

proof fn lemma_cell_position(row: int, ci: int, k: int)
    requires
        0 <= row,
        0 <= ci < HUD_COLS,
        0 <= k < 8,
    ensures
        (row * (HUD_W as int) + ci * 8 + k) / (HUD_W as int) == row,
        (row * (HUD_W as int) + ci * 8 + k) % (HUD_W as int) == ci * 8 + k,
        (ci * 8 + k) / 8 == ci,
        (ci * 8 + k) % 8 == k,
{
    vstd::arithmetic::div_mod::lemma_fundamental_div_mod_converse(
        row * (HUD_W as int) + ci * 8 + k,
        HUD_W as int,
        row,
        ci * 8 + k,
    );
    vstd::arithmetic::div_mod::lemma_fundamental_div_mod_converse(ci * 8 + k, 8, ci, k);
}

/// Pixel column `k` of glyph row `r` of character cell `ci` (the first
/// `HUD_COLS` cells) of a line shows that character's font8x8 glyph: for every
/// character in U+0000..U+007F the byte is 255 exactly when bit `k` of row `r`
/// of its glyph is set; a cell past the end of the line, or holding any other
/// character, is dark. The top line sits at rows 0-7, the bottom line at 8-15.
pub proof fn hud_shows_glyphs(top: Seq<char>, bottom: Seq<char>, r: int, ci: int, k: int)
    requires
        0 <= r < 8,
        0 <= ci < HUD_COLS,
        0 <= k < 8,
    ensures
        ci < top.len() && (top[ci] as u32) < 128 ==> hud_byte(top, bottom, r * 768 + ci * 8 + k)
            == if basic_glyph(top[ci])[r] & (1u8 << (k as u8)) != 0 {
            255u8
        } else {
            0u8
        },
        ci < bottom.len() && (bottom[ci] as u32) < 128 ==> hud_byte(
            top,
            bottom,
            (r + 8) * 768 + ci * 8 + k,
        ) == if basic_glyph(bottom[ci])[r] & (1u8 << (k as u8)) != 0 {
            255u8
        } else {
            0u8
        },
        !(ci < top.len() && (top[ci] as u32) < 128) ==> hud_byte(top, bottom, r * 768 + ci * 8 + k)
            == 0,
        !(ci < bottom.len() && (bottom[ci] as u32) < 128) ==> hud_byte(
            top,
            bottom,
            (r + 8) * 768 + ci * 8 + k,
        ) == 0,
{
    lemma_cell_position(r, ci, k);
    lemma_cell_position(r + 8, ci, k);
}

/// Every byte of the rendered HUD is either dark (0) or fully lit (255).
pub proof fn hud_bytes_binary(top: Seq<char>, bottom: Seq<char>, i: int)
    ensures
        hud_byte(top, bottom, i) == 0 || hud_byte(top, bottom, i) == 255,
{
}

/// Characters past the first `HUD_COLS` of a line never show: the HUD of two
/// lines equals the HUD of their leading `HUD_COLS` characters.
pub proof fn hud_ignores_overflow(top: Seq<char>, bottom: Seq<char>, i: int)
    ensures
        hud_byte(top, bottom, i) == hud_byte(
            leading(top, HUD_COLS as int),
            leading(bottom, HUD_COLS as int),
            i,
        ),
{
    let y = i / (HUD_W as int);
    let x = i % (HUD_W as int);
    if 0 <= x < HUD_W {
        assert(x / 8 < HUD_COLS);
    }
}

/// The top line shows only in rows 0-7 and the bottom line only in rows 8-15:
/// changing one line leaves the other's rows as they were.
pub proof fn hud_lines_independent(top: Seq<char>, top2: Seq<char>, bottom: Seq<char>, bottom2: Seq<char>, i: int)
    ensures
        0 <= i < 8 * HUD_W ==> hud_byte(top, bottom, i) == hud_byte(top, bottom2, i),
        8 * HUD_W <= i ==> hud_byte(top, bottom, i) == hud_byte(top2, bottom, i),
{
    if 0 <= i < 8 * HUD_W {
        assert(i / (HUD_W as int) < 8);
    }
    if 8 * HUD_W <= i {
        assert(i / (HUD_W as int) >= 8);
    }
}

} // verus!
