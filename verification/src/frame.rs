//! Frame readback: the row pitch of the readback buffer, and the conversions of
//! read-back pixels into the RGBA image and the binary PPM snapshot.
use vstd::prelude::*;

verus! {

/// `x` rounded up to the next multiple of `align`.
pub open spec fn round_up(x: int, align: int) -> int {
    if x % align == 0 {
        x
    } else {
        x - x % align + align
    }
}

/// Bytes per row of a readback buffer for an RGBA frame `width` pixels wide,
/// padded to the copy alignment `align`.
pub open spec fn padded_row(width: int, align: int) -> int {
    round_up(width * 4, align)
}

/// Bytes per row for a `width`-pixel RGBA frame, rounded up to a multiple of
/// `align` (the GPU's row alignment for texture-to-buffer copies).
pub fn padded_bytes_per_row(width: u32, align: u32) -> (bpr: u32)
    requires
        align > 0,
        padded_row(width as int, align as int) <= u32::MAX,
    ensures
        bpr == padded_row(width as int, align as int),
        bpr % align == 0,
        width * 4 <= bpr < width * 4 + align,
{
    let bytes = width * 4;
    let q = bytes / align;
    let r = bytes % align;
    proof {
        vstd::arithmetic::div_mod::lemma_fundamental_div_mod(bytes as int, align as int);
        vstd::arithmetic::mul::lemma_mul_is_commutative(q as int, align as int);
        vstd::arithmetic::div_mod::lemma_mod_multiples_basic(q as int, align as int);
        vstd::arithmetic::div_mod::lemma_mod_multiples_basic(q + 1, align as int);
        assert((q + 1) * align == q * align + align) by (nonlinear_arith);
    }
    let whole = q * align;
    if r == 0 {
        whole
    } else {
        whole + align
    }
}

/// The row pitch and total byte size of the buffer a frame is read back into.
#[derive(Clone, Copy, Debug, PartialEq, Eq)]
pub struct ReadbackLayout {
    pub padded_bpr: u32,
    pub buffer_size: u64,
}

/// The readback layout for a `width` x `height` frame, or `None` when the
/// frame is empty (a zero-sized resize, which leaves everything as it was).
pub fn readback_layout(width: u32, height: u32, align: u32) -> (layout: Option<ReadbackLayout>)
    requires
        align > 0,
        width > 0 && height > 0 ==> padded_row(width as int, align as int) * height <= u32::MAX,
    ensures
        layout is None <==> (width == 0 || height == 0),
        layout matches Some(l) ==> l.padded_bpr == padded_row(width as int, align as int)
            && l.buffer_size == padded_row(width as int, align as int) * height,
        layout matches Some(l) ==> l.padded_bpr % align == 0 && width * 4 <= l.padded_bpr < width
            * 4 + align && l.buffer_size == l.padded_bpr * height,
{
    if width == 0 || height == 0 {
        return None;
    }
    proof {
        vstd::arithmetic::mul::lemma_mul_inequality(
            1,
            height as int,
            padded_row(width as int, align as int),
        );
    }
    let bpr = padded_bytes_per_row(width, align);
    let size = bpr * height;
    Some(ReadbackLayout { padded_bpr: bpr, buffer_size: size as u64 })
}

/// The byte of the source pixel that output channel `k` (0..4, RGBA order)
/// takes: a BGRA frame swaps the red and blue channels.
pub open spec fn source_channel(k: int, bgra: bool) -> int {
    if bgra && k == 0 {
        2
    } else if bgra && k == 2 {
        0
    } else {
        k
    }
}

/// Byte `i` of the tightly packed RGBA image read back from `data`, whose rows
/// are `padded_bpr` bytes apart and hold `width` 4-byte pixels each.
pub open spec fn readback_byte(
    data: Seq<u8>,
    width: int,
    padded_bpr: int,
    bgra: bool,
    i: int,
) -> u8 {
    let line = width * 4;
    let row = i / line;
    let off = i % line;
    data[row * padded_bpr + (off / 4) * 4 + source_channel(off % 4, bgra)]
}

/// The packed RGBA image (`width * height * 4` bytes, rows top to bottom) held
/// by a padded readback buffer.
pub open spec fn readback_rgba(
    data: Seq<u8>,
    width: int,
    height: int,
    padded_bpr: int,
    bgra: bool,
) -> Seq<u8> {
    Seq::new((width * height * 4) as nat, |i: int| readback_byte(data, width, padded_bpr, bgra, i))
}

/// The position of channel `k` of pixel `px` of row `row` in a packed image
/// `width` pixels wide with `bytes_per_px` bytes per pixel splits back into
/// that row, pixel and channel.
proof fn lemma_pixel_position(width: int, bytes_per_px: int, row: int, px: int, k: int)
    requires
        bytes_per_px > 0,
        0 <= row,
        0 <= px < width,
        0 <= k < bytes_per_px,
    ensures
        (row * (width * bytes_per_px) + px * bytes_per_px + k) / (width * bytes_per_px) == row,
        (row * (width * bytes_per_px) + px * bytes_per_px + k) % (width * bytes_per_px) == px
            * bytes_per_px + k,
        (px * bytes_per_px + k) / bytes_per_px == px,
        (px * bytes_per_px + k) % bytes_per_px == k,
{
    assert(px * bytes_per_px + k < width * bytes_per_px) by (nonlinear_arith)
        requires
            0 <= px < width,
            0 <= k < bytes_per_px,
    ;
    assert(0 <= px * bytes_per_px) by (nonlinear_arith)
        requires
            0 <= px,
            bytes_per_px > 0,
    ;
    vstd::arithmetic::div_mod::lemma_fundamental_div_mod_converse(
        row * (width * bytes_per_px) + px * bytes_per_px + k,
        width * bytes_per_px,
        row,
        px * bytes_per_px + k,
    );
    vstd::arithmetic::div_mod::lemma_fundamental_div_mod_converse(
        px * bytes_per_px + k,
        bytes_per_px,
        px,
        k,
    );
}

fn source_channel_index(k: usize, bgra: bool) -> (c: usize)
    requires
        k < 4,
    ensures
        c == source_channel(k as int, bgra),
        c < 4,
{
    if bgra && k == 0 {
        2
    } else if bgra && k == 2 {
        0
    } else {
        k
    }
}

/// Packs a read-back frame into a tightly packed RGBA image: drops the row
/// padding of `data` and, for a BGRA frame, swaps the red and blue channels.
pub fn readback_to_rgba(data: &[u8], width: u32, height: u32, padded_bpr: u32, bgra: bool) -> (rgba:
    Vec<u8>)
    requires
        width * height * 4 <= u32::MAX,
        height > 0 ==> (height - 1) * padded_bpr <= u32::MAX,
        height > 0 ==> (height - 1) * padded_bpr + width * 4 <= data@.len(),
    ensures
        rgba@ == readback_rgba(data@, width as int, height as int, padded_bpr as int, bgra),
{
    let mut rgba: Vec<u8> = Vec::with_capacity((width * height * 4) as usize);
    let ghost w = width as int;
    let ghost pb = padded_bpr as int;
    let dlen = data.len();
    assert(0 * (w * 4) == 0);
    for row in 0..height
        invariant
            w == width,
            pb == padded_bpr,
            height > 0 ==> (height - 1) * padded_bpr <= u32::MAX,
            height > 0 ==> (height - 1) * padded_bpr + width * 4 <= data@.len(),
            width * height * 4 <= u32::MAX,
            dlen == data@.len(),
            rgba@.len() == row * (w * 4),
            forall|i: int|
                0 <= i < rgba@.len() ==> rgba@[i] == readback_byte(data@, w, pb, bgra, i),
    {
        proof {
            vstd::arithmetic::mul::lemma_mul_inequality(row as int, height - 1, pb);
            vstd::arithmetic::mul::lemma_mul_inequality(1, height as int, w * 4);
            assert(w * height * 4 == (w * 4) * height) by (nonlinear_arith);
        }
        let start = (row * padded_bpr) as usize;
        let line = (width * 4) as usize;
        for px in 0..width as usize
            invariant
                w == width,
                pb == padded_bpr,
                row < height,
                start == row * pb,
                line == w * 4,
                start + line <= data@.len(),
                dlen == data@.len(),
                rgba@.len() == row * (w * 4) + px * 4,
                forall|i: int|
                    0 <= i < rgba@.len() ==> rgba@[i] == readback_byte(data@, w, pb, bgra, i),
        {
            for k in 0..4usize
                invariant
                    w == width,
                    pb == padded_bpr,
                    start == row * pb,
                    line == w * 4,
                    start + line <= data@.len(),
                    dlen == data@.len(),
                    px < width,
                    rgba@.len() == row * (w * 4) + px * 4 + k,
                    forall|i: int|
                        0 <= i < rgba@.len() ==> rgba@[i] == readback_byte(data@, w, pb, bgra, i),
            {
                let c = source_channel_index(k, bgra);
                proof {
                    lemma_pixel_position(w, 4, row as int, px as int, k as int);
                    assert(px * 4 + 4 <= w * 4);
                }
                rgba.push(data[start + px * 4 + c]);
            }
        }
        assert(row * (w * 4) + w * 4 == (row + 1) * (w * 4)) by (nonlinear_arith);
    }
    assert(height * (w * 4) == w * height * 4) by (nonlinear_arith);
    assert(rgba@ =~= readback_rgba(data@, w, height as int, pb, bgra));
    rgba
}

proof fn lemma_index_in_image(width: int, height: int, bpp: int, row: int, px: int, k: int)
    requires
        bpp > 0,
        0 <= row < height,
        0 <= px < width,
        0 <= k < bpp,
    ensures
        0 <= row * (width * bpp) + px * bpp + k < width * height * bpp,
{
    assert(0 <= row * (width * bpp) + px * bpp + k < width * height * bpp) by (nonlinear_arith)
        requires
            bpp > 0,
            0 <= row < height,
            0 <= px < width,
            0 <= k < bpp,
    ;
}

/// Channel `k` of pixel `px` of row `row` of the packed image comes from the
/// same row and pixel of the padded buffer: from byte `k` of that pixel, except
/// that a BGRA frame takes red from byte 2 and blue from byte 0. Rows keep
/// their order and the image holds `width * height * 4` bytes.
pub proof fn readback_keeps_rows_and_swaps_red_blue(
    data: Seq<u8>,
    width: int,
    height: int,
    padded_bpr: int,
    bgra: bool,
    row: int,
    px: int,
    k: int,
)
    requires
        0 <= row < height,
        0 <= px < width,
        0 <= k < 4,
    ensures
        readback_rgba(data, width, height, padded_bpr, bgra).len() == width * height * 4,
        readback_rgba(data, width, height, padded_bpr, bgra)[row * (width * 4) + px * 4 + k]
            == data[row * padded_bpr + px * 4 + if bgra && k == 0 {
            2
        } else if bgra && k == 2 {
            0
        } else {
            k
        }],
        readback_rgba(data, width, height, padded_bpr, true)[row * (width * 4) + px * 4 + k]
            == readback_rgba(data, width, height, padded_bpr, false)[row * (width * 4) + px * 4
            + if k == 0 {
            2
        } else if k == 2 {
            0
        } else {
            k
        }],
{
    let k2 = if k == 0 {
        2
    } else if k == 2 {
        0
    } else {
        k
    };
    lemma_pixel_position(width, 4, row, px, k);
    lemma_pixel_position(width, 4, row, px, k2);
    lemma_index_in_image(width, height, 4, row, px, k);
    lemma_index_in_image(width, height, 4, row, px, k2);
    assert(0 <= width * height * 4) by (nonlinear_arith)
        requires
            0 <= row < height,
            0 <= px < width,
    ;
}

/// A read-back RGBA frame without row padding comes out unchanged: the packed
/// image is the first `width * height * 4` bytes of the buffer.
pub proof fn readback_unpadded_is_identity(data: Seq<u8>, width: int, height: int)
    requires
        0 <= width,
        0 <= height,
        width * height * 4 <= data.len(),
    ensures
        readback_rgba(data, width, height, width * 4, false) == data.take(width * height * 4),
{
    let n = width * height * 4;
    let line = width * 4;
    assert forall|i: int| 0 <= i < n implies readback_byte(data, width, line, false, i)
        == data[i] by {
        assert(width > 0) by (nonlinear_arith)
            requires
                0 <= i < width * height * 4,
                0 <= height,
        ;
        vstd::arithmetic::div_mod::lemma_fundamental_div_mod(i, line);
        vstd::arithmetic::div_mod::lemma_fundamental_div_mod(i % line, 4);
        vstd::arithmetic::mul::lemma_mul_is_commutative(line, i / line);
    }
    assert(readback_rgba(data, width, height, line, false) =~= data.take(n));
}

/// The ASCII decimal digits of `n`, most significant first, without leading
/// zeros.
pub open spec fn decimal(n: nat) -> Seq<u8>
    decreases n,
{
    if n < 10 {
        seq![(48 + n) as u8]
    } else {
        decimal(n / 10).push((48 + n % 10) as u8)
    }
}

/// The number that a string of ASCII decimal digits spells.
pub open spec fn decimal_value(s: Seq<u8>) -> int
    decreases s.len(),
{
    if s.len() == 0 {
        0
    } else {
        decimal_value(s.drop_last()) * 10 + (s.last() - 48)
    }
}

/// The decimal form of `n` consists of ASCII digits, starts with a nonzero
/// digit unless `n` is 0, and reads back as `n`.
pub proof fn decimal_roundtrip(n: nat)
    ensures
        decimal_value(decimal(n)) == n,
        decimal(n).len() >= 1,
        forall|i: int| 0 <= i < decimal(n).len() ==> 48 <= #[trigger] decimal(n)[i] <= 57,
        n > 0 ==> decimal(n)[0] != 48,
    decreases n,
{
    if n >= 10 {
        decimal_roundtrip(n / 10);
        let d = decimal(n);
        assert(d.drop_last() =~= decimal(n / 10));
        assert(d.last() == 48 + n % 10);
        assert(decimal_value(d) == (n / 10) * 10 + n % 10);
        assert forall|i: int| 0 <= i < d.len() implies 48 <= #[trigger] d[i] <= 57 by {
            if i < d.len() - 1 {
                assert(d[i] == decimal(n / 10)[i]);
            }
        }
        assert(d[0] == decimal(n / 10)[0]);
    } else {
        let d = decimal(n);
        assert(d.drop_last() =~= Seq::<u8>::empty());
        assert(decimal_value(d.drop_last()) == 0);
    }
}

/// Appends the decimal digits of `n` to `out`.
fn push_decimal(out: &mut Vec<u8>, n: u32)
    ensures
        final(out)@ == old(out)@ + decimal(n as nat),
    decreases n,
{
    if n >= 10 {
        push_decimal(out, n / 10);
    }
    out.push(48u8 + (n % 10) as u8);
    proof {
        if n >= 10 {
            assert(final(out)@ =~= old(out)@ + decimal(n as nat));
        }
    }
}

/// The header of a binary PPM (P6) image of the given size with 8-bit samples:
/// `"P6\n<width> <height>\n255\n"`.
pub open spec fn ppm_header(width: nat, height: nat) -> Seq<u8> {
    seq![80u8, 54, 10] + decimal(width) + seq![32u8] + decimal(height) + seq![10u8, 50, 53, 53, 10]
}

/// Byte `i` of the PPM pixel data made from an RGBA frame whose rows run
/// bottom to top: the PPM rows run top to bottom and keep red, green and blue.
pub open spec fn ppm_byte(rgba: Seq<u8>, width: int, height: int, i: int) -> u8 {
    let line = width * 3;
    let out_row = i / line;
    let off = i % line;
    rgba[(height - 1 - out_row) * (width * 4) + (off / 3) * 4 + off % 3]
}

/// The PPM pixel data (`width * height * 3` bytes) of a bottom-up RGBA frame.
pub open spec fn ppm_pixels(rgba: Seq<u8>, width: int, height: int) -> Seq<u8> {
    Seq::new((width * height * 3) as nat, |i: int| ppm_byte(rgba, width, height, i))
}

/// Row `r` of the PPM pixel data is row `height - 1 - r` of the bottom-up
/// frame: channel `c` (red, green, blue) of pixel `p` is byte `c` of that
/// pixel, and the pixel data holds `width * height * 3` bytes.
pub proof fn ppm_rows_are_flipped(rgba: Seq<u8>, width: int, height: int, r: int, p: int, c: int)
    requires
        0 <= r < height,
        0 <= p < width,
        0 <= c < 3,
    ensures
        ppm_pixels(rgba, width, height).len() == width * height * 3,
        ppm_pixels(rgba, width, height)[r * (width * 3) + p * 3 + c] == rgba[(height - 1 - r) * (
        width * 4) + p * 4 + c],
{
    lemma_pixel_position(width, 3, r, p, c);
    lemma_index_in_image(width, height, 3, r, p, c);
}

/// Encodes a bottom-up RGBA frame (as the GL framebuffer reads back) as a binary
/// PPM image: the header, then the rows top to bottom, alpha dropped.
pub fn ppm_snapshot(rgba: &[u8], width: u32, height: u32) -> (ppm: Vec<u8>)
    requires
        width * height * 4 <= rgba@.len() + 1,
        32 + width * height * 3 <= isize::MAX,
    ensures
        ppm@ == ppm_header(width as nat, height as nat) + ppm_pixels(
            rgba@,
            width as int,
            height as int,
        ),
{
    let wu = width as usize;
    let hu = height as usize;
    let ghost w = width as int;
    let ghost h = height as int;
    assert(w * h * 3 == (wu * hu) * 3) by (nonlinear_arith)
        requires
            w == wu,
            h == hu,
    ;
    let mut out: Vec<u8> = Vec::with_capacity(32 + wu * hu * 3);
    out.push(80u8);
    out.push(54u8);
    out.push(10u8);
    push_decimal(&mut out, width);
    out.push(32u8);
    push_decimal(&mut out, height);
    out.push(10u8);
    out.push(50u8);
    out.push(53u8);
    out.push(53u8);
    out.push(10u8);
    let ghost header = out@;
    assert(header =~= ppm_header(width as nat, height as nat));
    let ghost hl = header.len() as int;
    let rlen = rgba.len();
    let mut done: usize = 0;
    assert(0 * (w * 3) == 0);
    while done < hu
        invariant
            w == wu,
            h == hu,
            done <= hu,
            rlen == rgba@.len(),
            w * h * 4 <= rgba@.len() + 1,
            out@.len() == hl + done * (w * 3),
            hl == header.len(),
            forall|j: int| 0 <= j < hl ==> out@[j] == header[j],
            forall|j: int| hl <= j < out@.len() ==> out@[j] == ppm_byte(rgba@, w, h, j - hl),
        decreases hu - done,
    {
        let row = hu - 1 - done;
        proof {
            vstd::arithmetic::mul::lemma_mul_inequality(row as int, h - 1, w * 4);
            assert((h - 1) * (w * 4) + w * 4 == w * h * 4) by (nonlinear_arith);
        }
        assert(row * wu * 4 == row * (w * 4) && row * wu <= row * wu * 4) by (nonlinear_arith)
            requires
                w == wu,
        ;
        let base = row * wu * 4;
        for px in 0..wu
            invariant
                w == wu,
                h == hu,
                row == h - 1 - done,
                done < hu,
                base == row * (w * 4),
                base + w * 4 <= rgba@.len() + 1,
                rlen == rgba@.len(),
                out@.len() == hl + done * (w * 3) + px * 3,
                hl == header.len(),
            forall|j: int| 0 <= j < hl ==> out@[j] == header[j],
                forall|j: int| hl <= j < out@.len() ==> out@[j] == ppm_byte(rgba@, w, h, j - hl),
        {
            for k in 0..3usize
                invariant
                    w == wu,
                    h == hu,
                    row == h - 1 - done,
                    done < hu,
                    base == row * (w * 4),
                    base + w * 4 <= rgba@.len() + 1,
                    rlen == rgba@.len(),
                    px < wu,
                    out@.len() == hl + done * (w * 3) + px * 3 + k,
                    hl == header.len(),
            forall|j: int| 0 <= j < hl ==> out@[j] == header[j],
                    forall|j: int|
                        hl <= j < out@.len() ==> out@[j] == ppm_byte(rgba@, w, h, j - hl),
            {
                proof {
                    lemma_pixel_position(w, 3, done as int, px as int, k as int);
                    assert(px * 4 + 4 <= w * 4);
                }
                let v = rgba[base + px * 4 + k];
                out.push(v);
            }
        }
        assert(done * (w * 3) + w * 3 == (done + 1) * (w * 3)) by (nonlinear_arith);
        done = done + 1;
    }
    assert(h * (w * 3) == w * h * 3) by (nonlinear_arith);
    assert(out@ =~= ppm_header(width as nat, height as nat) + ppm_pixels(rgba@, w, h));
    out
}

} // verus!
