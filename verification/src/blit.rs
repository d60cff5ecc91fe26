use vstd::prelude::*;

use vstd::arithmetic::div_mod::{lemma_fundamental_div_mod, lemma_fundamental_div_mod_converse};

verus! {

/// The byte of `c` that `unit` (1, 256 or 65536) selects.
pub open spec fn channel(c: u32, unit: nat) -> nat {
    (c as nat / unit) % 256
}

/// A channel of `src` laid over `dst` with opacity `a` out of 255.
pub open spec fn mix(src: nat, dst: nat, a: nat) -> nat {
    (src * a + dst * (255 - a) as nat) / 255
}

/// `color` laid over the opaque pixel `dst` with opacity `a`; the result is
/// opaque (`0xAARRGGBB` with alpha 0xff).
pub open spec fn blend_pixel(color: u32, dst: u32, a: u8) -> u32 {
    (0xff00_0000 + mix(channel(color, 65536), channel(dst, 65536), a as nat) * 65536 + mix(
        channel(color, 256),
        channel(dst, 256),
        a as nat,
    ) * 256 + mix(channel(color, 1), channel(dst, 1), a as nat)) as u32
}

/// The glyph coverage that falls on buffer index `i` of a `buf_w` ×
/// `buf_h` buffer when a `w` × `h` bitmap (row by row) is placed with its
/// top left corner at (`x`, `y`); 0 where the glyph does not reach.
pub open spec fn glyph_alpha(
    i: int,
    buf_w: nat,
    buf_h: nat,
    x: nat,
    y: nat,
    w: nat,
    h: nat,
    bitmap: Seq<u8>,
) -> u8 {
    if buf_w > 0 && 0 <= i < buf_w * buf_h {
        let px = i % (buf_w as int);
        let py = i / (buf_w as int);
        if x <= px < x + w && y <= py < y + h {
            bitmap[(py - y) * w + (px - x)]
        } else {
            0
        }
    } else {
        0
    }
}

/// A pixel after blitting: untouched where the coverage is 0, else the
/// colour blended over it.
pub open spec fn blitted_pixel(dst: u32, a: u8, color: u32) -> u32 {
    if a == 0 {
        dst
    } else {
        blend_pixel(color, dst, a)
    }
}

/// Zero coverage leaves a pixel as it is; full coverage paints it in the
/// glyph's colour, opaque.
pub proof fn lemma_blend_extremes(color: u32, dst: u32)
    ensures
        blitted_pixel(dst, 0, color) == dst,
        blend_pixel(color, dst, 255) == (0xff00_0000 + channel(color, 65536) * 65536 + channel(
            color,
            256,
        ) * 256 + channel(color, 1)) as u32,
{
    assert forall|s: nat, d: nat| mix(s, d, 255) == s by {
        assert((s * 255 + d * 0) / 255 == s) by (nonlinear_arith);
    }
}

fn mix_channel(src: u32, dst: u32, a: u32) -> (m: u32)
    requires
        src < 256,
        dst < 256,
        a < 256,
    ensures
        m == mix(src as nat, dst as nat, a as nat),
        m < 256,
{
    assert(src * a <= 255 * 255) by (nonlinear_arith)
        requires
            src < 256,
            a < 256,
    ;
    assert(dst * (255 - a) <= 255 * (255 - a)) by (nonlinear_arith)
        requires
            dst < 256,
            a < 256,
    ;
    assert(src * a + dst * (255 - a) <= 255 * 255) by (nonlinear_arith)
        requires
            src < 256,
            dst < 256,
            a < 256,
    ;
    (src * a + dst * (255 - a)) / 255
}

fn blend(color: u32, dst: u32, a: u8) -> (p: u32)
    ensures
        p == blend_pixel(color, dst, a),
{
    let r = mix_channel(color / 65536 % 256, dst / 65536 % 256, a as u32);
    let g = mix_channel(color / 256 % 256, dst / 256 % 256, a as u32);
    let b = mix_channel(color % 256, dst % 256, a as u32);
    0xff00_0000 + r * 65536 + g * 256 + b
}

proof fn lemma_row_of(i: int, bw: int, k: int)
    requires
        bw > 0,
        i >= 0,
    ensures
        i < bw * k ==> i / bw < k,
        i >= bw * k ==> i / bw >= k,
        0 <= i % bw < bw,
        i == bw * (i / bw) + i % bw,
{
    lemma_fundamental_div_mod(i, bw);
    vstd::arithmetic::div_mod::lemma_mod_pos_bound(i, bw);
    let r = i / bw;
    let m = i % bw;
    if i < bw * k && r >= k {
        assert(bw * r >= bw * k) by (nonlinear_arith)
            requires
                r >= k,
                bw > 0,
        ;
    }
    if i >= bw * k && r < k {
        assert(bw * r + bw <= bw * k) by (nonlinear_arith)
            requires
                r + 1 <= k,
                bw > 0,
        ;
    }
}

proof fn lemma_in_row(i: int, bw: int, r: int)
    requires
        bw > 0,
        bw * r <= i < bw * r + bw,
    ensures
        i / bw == r,
        i % bw == i - bw * r,
{
    assert(i == r * bw + (i - bw * r)) by (nonlinear_arith)
        requires
            bw * r <= i,
    ;
    lemma_fundamental_div_mod_converse(i, bw, r, i - bw * r);
}

/// Blends a `w` × `h` coverage bitmap in `color` into a `buf_w` × `buf_h`
/// pixel buffer with its top left corner at (`x`, `y`); pixels of zero
/// coverage, and pixels outside the buffer, are left as they are.
pub fn blit_glyph_pixels(
    buf: &mut [u32],
    buf_w: usize,
    buf_h: usize,
    x: usize,
    y: usize,
    w: usize,
    h: usize,
    bitmap: &[u8],
    color: u32,
)
    requires
        buf_w * buf_h <= usize::MAX,
        w * h <= bitmap@.len(),
    ensures
        final(buf)@.len() == old(buf)@.len(),
        forall|i: int|
            0 <= i < old(buf)@.len() ==> #[trigger] final(buf)@[i] == blitted_pixel(
                old(buf)@[i],
                glyph_alpha(i, buf_w as nat, buf_h as nat, x as nat, y as nat, w as nat, h as nat, bitmap@),
                color,
            ),
{
    let ghost bw = buf_w as int;
    if x >= buf_w || y >= buf_h {
        assert forall|i: int| 0 <= i < old(buf)@.len() implies glyph_alpha(
            i,
            buf_w as nat,
            buf_h as nat,
            x as nat,
            y as nat,
            w as nat,
            h as nat,
            bitmap@,
        ) == 0 by {
            if buf_w > 0 && 0 <= i < buf_w * buf_h {
                lemma_row_of(i, bw, buf_h as int);
            }
        }
        return;
    }
    let w_eff = if w < buf_w - x { w } else { buf_w - x };
    let h_eff = if h < buf_h - y { h } else { buf_h - y };
    let ghost orig = buf@;
    proof {
        assert forall|i: int| 0 <= i < orig.len() && i < bw * y implies glyph_alpha(
            i,
            buf_w as nat,
            buf_h as nat,
            x as nat,
            y as nat,
            w as nat,
            h as nat,
            bitmap@,
        ) == 0 by {
            lemma_row_of(i, bw, y as int);
        }
    }
    let mut gy: usize = 0;
    while gy < h_eff
        invariant
            buf@.len() == orig.len(),
            orig == old(buf)@,
            bw == buf_w,
            x < buf_w,
            y < buf_h,
            w_eff <= w,
            h_eff <= h,
            x + w_eff <= buf_w,
            y + h_eff <= buf_h,
            w_eff == w || x + w_eff == buf_w,
            h_eff == h || y + h_eff == buf_h,
            buf_w * buf_h <= usize::MAX,
            w * h <= bitmap@.len(),
            gy <= h_eff,
            forall|i: int|
                0 <= i < orig.len() ==> #[trigger] buf@[i] == (if i < bw * (y + gy) {
                    blitted_pixel(
                        orig[i],
                        glyph_alpha(i, buf_w as nat, buf_h as nat, x as nat, y as nat, w as nat, h as nat, bitmap@),
                        color,
                    )
                } else {
                    orig[i]
                }),
        decreases h_eff - gy,
    {
        let py = y + gy;
        proof {
            assert(bw * py + bw <= bw * buf_h) by (nonlinear_arith)
                requires
                    py < buf_h,
                    bw > 0,
            ;
            assert forall|i: int| bw * py <= i < bw * py + x implies glyph_alpha(
                i,
                buf_w as nat,
                buf_h as nat,
                x as nat,
                y as nat,
                w as nat,
                h as nat,
                bitmap@,
            ) == 0 by {
                lemma_in_row(i, bw, py as int);
            }
        }
        let mut gx: usize = 0;
        while gx < w_eff
            invariant
                buf@.len() == orig.len(),
                orig == old(buf)@,
                bw == buf_w,
                x < buf_w,
                y < buf_h,
                py == y + gy,
                gy < h_eff,
                w_eff <= w,
                h_eff <= h,
                x + w_eff <= buf_w,
                y + h_eff <= buf_h,
                bw * py + bw <= bw * buf_h,
                buf_w * buf_h <= usize::MAX,
                w * h <= bitmap@.len(),
                gx <= w_eff,
                forall|i: int|
                    0 <= i < orig.len() ==> #[trigger] buf@[i] == (if i < bw * py + x + gx {
                        blitted_pixel(
                            orig[i],
                            glyph_alpha(i, buf_w as nat, buf_h as nat, x as nat, y as nat, w as nat, h as nat, bitmap@),
                            color,
                        )
                    } else {
                        orig[i]
                    }),
            decreases w_eff - gx,
        {
            let px = x + gx;
            let idx = py * buf_w + px;
            assert(py * buf_w == bw * py) by (nonlinear_arith)
                requires
                    bw == buf_w,
            ;
            assert(gy * w + gx < w * h) by (nonlinear_arith)
                requires
                    gy < h,
                    gx < w,
            ;
            assert(bitmap@.len() == bitmap.len());
            assert(gy * w <= usize::MAX);
            let bi = gy * w + gx;
            let a = bitmap[bi];
            proof {
                lemma_in_row(idx as int, bw, py as int);
                assert((py - y) * w + (px - x) == bi);
            }
            let ghost alpha = glyph_alpha(
                idx as int,
                buf_w as nat,
                buf_h as nat,
                x as nat,
                y as nat,
                w as nat,
                h as nat,
                bitmap@,
            );
            assert(alpha == a);
            if a > 0 && idx < buf.len() {
                let d = buf[idx];
                buf[idx] = blend(color, d, a);
            }
            gx = gx + 1;
        }
        proof {
            assert forall|i: int| bw * py + x + w_eff <= i < bw * py + bw implies glyph_alpha(
                i,
                buf_w as nat,
                buf_h as nat,
                x as nat,
                y as nat,
                w as nat,
                h as nat,
                bitmap@,
            ) == 0 by {
                lemma_in_row(i, bw, py as int);
            }
            assert(bw * (y + gy + 1) == bw * py + bw) by (nonlinear_arith)
                requires
                    py == y + gy,
            ;
        }
        gy = gy + 1;
    }
    proof {
        assert forall|i: int| 0 <= i < orig.len() && i >= bw * (y + h_eff) implies glyph_alpha(
            i,
            buf_w as nat,
            buf_h as nat,
            x as nat,
            y as nat,
            w as nat,
            h as nat,
            bitmap@,
        ) == 0 by {
            lemma_row_of(i, bw, (y + h_eff) as int);
            lemma_row_of(i, bw, buf_h as int);
        }
    }
}

} // verus!
