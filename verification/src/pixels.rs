use vstd::prelude::*;
use vstd::arithmetic::div_mod::{
    lemma_div_is_ordered, lemma_div_multiples_vanish, lemma_fundamental_div_mod,
    lemma_fundamental_div_mod_converse,
};
use vstd::arithmetic::mul::lemma_mul_inequality;
use crate::color::channel_wf;

verus! {

/// Standard over-compositing of one channel: a pixel channel `src` with
/// alpha `alpha` is laid over the background channel `bg`.  A fully opaque
/// pixel keeps its value; a fully transparent one takes the background's.
pub open spec fn composite_channel(src: int, bg: int, alpha: int) -> int {
    if alpha == 255 {
        src
    } else if alpha == 0 {
        bg
    } else if src >= bg {
        bg + (src - bg) * alpha / 255
    } else {
        bg - (bg - src) * alpha / 255
    }
}

/// Law: compositing is a no-op on a channel of a fully opaque pixel.
pub proof fn lemma_opaque_composite_noop(src: int, bg: int)
    ensures
        composite_channel(src, bg, 255) == src,
{
}

/// Law: a channel of a fully transparent pixel becomes exactly the
/// background channel.
pub proof fn lemma_transparent_composite_background(src: int, bg: int)
    ensures
        composite_channel(src, bg, 0) == bg,
{
}

/// A composited channel stays a byte value.
pub proof fn lemma_composite_channel_in_range(src: int, bg: int, alpha: int)
    requires
        0 <= src <= 255,
        0 <= bg <= 255,
        0 <= alpha <= 255,
    ensures
        0 <= composite_channel(src, bg, alpha) <= 255,
{
    if 0 < alpha < 255 {
        if src >= bg {
            lemma_scaled_bound(src - bg, alpha);
        } else {
            lemma_scaled_bound(bg - src, alpha);
        }
    }
}

/// Law of the blend scalings: `(d * alpha) / 255` never exceeds `d` for a
/// factor `alpha` of at most 255.
pub proof fn lemma_scaled_bound(d: int, alpha: int)
    requires
        0 <= d,
        0 <= alpha <= 255,
    ensures
        0 <= d * alpha / 255 <= d,
{
    lemma_mul_inequality(alpha, 255, d);
    assert(alpha * d <= 255 * d);
    lemma_div_is_ordered(d * alpha, 255 * d, 255);
    lemma_div_multiples_vanish(d, 255);
    assert(255 * d / 255 == d);
    assert(d * alpha >= 0) by (nonlinear_arith)
        requires
            d >= 0,
            alpha >= 0,
    ;
    assert(d * alpha / 255 >= 0);
}

/// In the buffer `newd`, the four bytes of pixel `p` hold the result of
/// compositing pixel `p` of `oldd` onto the background channels
/// `(c0, c1, c2)`, with the alpha byte forced to 255.
pub open spec fn composited_at(
    oldd: Seq<u8>,
    newd: Seq<u8>,
    p: int,
    c0: int,
    c1: int,
    c2: int,
) -> bool {
    &&& newd[4 * p + 0] == composite_channel(oldd[4 * p + 0] as int, c0, oldd[4 * p + 3] as int)
    &&& newd[4 * p + 1] == composite_channel(oldd[4 * p + 1] as int, c1, oldd[4 * p + 3] as int)
    &&& newd[4 * p + 2] == composite_channel(oldd[4 * p + 2] as int, c2, oldd[4 * p + 3] as int)
    &&& newd[4 * p + 3] == 255
}

/// Law: compositing leaves a fully opaque pixel unchanged.
pub proof fn lemma_composited_opaque_pixel_noop(
    oldd: Seq<u8>,
    newd: Seq<u8>,
    p: int,
    c0: int,
    c1: int,
    c2: int,
)
    requires
        composited_at(oldd, newd, p, c0, c1, c2),
        oldd[4 * p + 3] == 255,
    ensures
        newd[4 * p + 0] == oldd[4 * p + 0],
        newd[4 * p + 1] == oldd[4 * p + 1],
        newd[4 * p + 2] == oldd[4 * p + 2],
        newd[4 * p + 3] == oldd[4 * p + 3],
{
}

/// Law: a fully transparent pixel becomes the background color exactly,
/// with alpha forced to 255.
pub proof fn lemma_composited_transparent_pixel_background(
    oldd: Seq<u8>,
    newd: Seq<u8>,
    p: int,
    c0: int,
    c1: int,
    c2: int,
)
    requires
        composited_at(oldd, newd, p, c0, c1, c2),
        oldd[4 * p + 3] == 0,
    ensures
        newd[4 * p + 0] == c0,
        newd[4 * p + 1] == c1,
        newd[4 * p + 2] == c2,
        newd[4 * p + 3] == 255,
{
}

/// The whole buffer composited onto one solid background, as a sequence.
pub open spec fn solid_composited(data: Seq<u8>, c0: int, c1: int, c2: int) -> Seq<u8> {
    Seq::new(
        data.len(),
        |k: int|
            {
                let c = k % 4;
                if c == 3 {
                    255u8
                } else {
                    let bg = if c == 0 {
                        c0
                    } else if c == 1 {
                        c1
                    } else {
                        c2
                    };
                    composite_channel(data[k] as int, bg, data[k - c + 3] as int) as u8
                }
            },
    )
}

/// Bridge: a buffer whose every pixel is composited in place equals the
/// composited sequence.
pub proof fn lemma_solid_composited_of(oldd: Seq<u8>, newd: Seq<u8>, c0: int, c1: int, c2: int)
    requires
        oldd.len() % 4 == 0,
        newd.len() == oldd.len(),
        0 <= c0 <= 255,
        0 <= c1 <= 255,
        0 <= c2 <= 255,
        forall|p: int| 0 <= p < oldd.len() / 4 ==> composited_at(oldd, newd, p, c0, c1, c2),
    ensures
        newd == solid_composited(oldd, c0, c1, c2),
{
    assert forall|k: int| 0 <= k < newd.len() implies newd[k] == solid_composited(
        oldd,
        c0,
        c1,
        c2,
    )[k] by {
        lemma_fundamental_div_mod(k, 4);
        let p = k / 4;
        let c = k % 4;
        assert(composited_at(oldd, newd, p, c0, c1, c2));
        assert(k == 4 * p + c);
        if c < 3 {
            lemma_composite_channel_in_range(oldd[k] as int, if c == 0 {
                c0
            } else if c == 1 {
                c1
            } else {
                c2
            }, oldd[4 * p + 3] as int);
        }
    }
    assert(newd =~= solid_composited(oldd, c0, c1, c2));
}

/// The whole row-major image composited onto the flag gradient, as a
/// sequence.
pub open spec fn flag_composited(data: Seq<u8>, width: int, height: int, rgb: bool) -> Seq<u8> {
    Seq::new(
        data.len(),
        |k: int|
            {
                let c = k % 4;
                let band = band_index(height, (k / 4) / width);
                if c == 3 {
                    255u8
                } else {
                    composite_channel(
                        data[k] as int,
                        flag_channel(band, c, rgb),
                        data[k - c + 3] as int,
                    ) as u8
                }
            },
    )
}

/// Bridge: a buffer whose every pixel is composited in place onto its flag
/// band equals the flag-composited sequence.  The band of byte `k` is that
/// of its pixel's row, `(k / 4) / width`.
pub proof fn lemma_flag_composited_of(
    oldd: Seq<u8>,
    newd: Seq<u8>,
    width: int,
    height: int,
    rgb: bool,
)
    requires
        oldd.len() == 4 * width * height,
        newd.len() == oldd.len(),
        width >= 0,
        height >= 0,
        forall|p: int|
            0 <= p < width * height ==> flag_composited_at(oldd, newd, p, width, height, rgb),
    ensures
        newd == flag_composited(oldd, width, height, rgb),
{
    vstd::arithmetic::mul::lemma_mul_is_associative(4, width, height);
    assert forall|k: int| 0 <= k < newd.len() implies newd[k] == flag_composited(
        oldd,
        width,
        height,
        rgb,
    )[k] by {
        lemma_fundamental_div_mod(k, 4);
        let p = k / 4;
        let c = k % 4;
        assert(0 <= p < width * height);
        assert(flag_composited_at(oldd, newd, p, width, height, rgb));
        assert(k == 4 * p + c);
        let band = band_index(height, p / width);
        if c < 3 {
            lemma_flag_channel_in_range(band, c, rgb);
            lemma_composite_channel_in_range(
                oldd[k] as int,
                flag_channel(band, c, rgb),
                oldd[4 * p + 3] as int,
            );
        }
    }
    assert(newd =~= flag_composited(oldd, width, height, rgb));
}

/// Every palette channel is a byte value.
pub proof fn lemma_flag_channel_in_range(k: int, c: int, rgb: bool)
    ensures
        0 <= flag_channel(k, c, rgb) <= 255,
{
}

/// Law: the gradient fill is one algorithm across the still path and the
/// frame path: the BGR palette is exactly the RGB palette with the channel
/// order flipped, so both layouts produce the same visual output.
pub proof fn lemma_flag_uniform_across_layouts(k: int, c: int)
    requires
        0 <= c < 3,
    ensures
        flag_channel(k, c, false) == flag_channel(k, 2 - c, true),
{
}

/// One channel of the over-composite, on byte-ranged executable values.
fn composite_one(src: u8, bg: i32, alpha: u8) -> (r: u8)
    requires
        channel_wf(bg as int),
    ensures
        r == composite_channel(src as int, bg as int, alpha as int),
{
    proof {
        lemma_composite_channel_in_range(src as int, bg as int, alpha as int);
    }
    if alpha == 255 {
        src
    } else if alpha == 0 {
        bg as u8
    } else {
        let s = src as u32;
        let b = bg as u32;
        let a = alpha as u32;
        if s >= b {
            proof {
                lemma_scaled_bound(s - b, a as int);
            }
            let d = (s - b) * a / 255;
            (b + d) as u8
        } else {
            proof {
                lemma_scaled_bound(b - s, a as int);
            }
            let d = (b - s) * a / 255;
            (b - d) as u8
        }
    }
}

/// Over-composites one four-byte pixel onto a solid background color,
/// forcing the alpha channel to 255.
pub fn alpha_composite(pixel: [u8; 4], color: [i32; 3]) -> (r: [u8; 4])
    requires
        channel_wf(color[0] as int),
        channel_wf(color[1] as int),
        channel_wf(color[2] as int),
    ensures
        r[0] == composite_channel(pixel[0] as int, color[0] as int, pixel[3] as int),
        r[1] == composite_channel(pixel[1] as int, color[1] as int, pixel[3] as int),
        r[2] == composite_channel(pixel[2] as int, color[2] as int, pixel[3] as int),
        r[3] == 255,
{
    let a = pixel[3];
    [
        composite_one(pixel[0], color[0], a),
        composite_one(pixel[1], color[1], a),
        composite_one(pixel[2], color[2], a),
        255,
    ]
}

/// Over-composites every pixel of a packed four-byte-per-pixel buffer onto
/// one solid background color, in place.
pub fn set_color(data: &mut Vec<u8>, color: [i32; 3])
    requires
        old(data)@.len() % 4 == 0,
        channel_wf(color[0] as int),
        channel_wf(color[1] as int),
        channel_wf(color[2] as int),
    ensures
        final(data)@.len() == old(data)@.len(),
        forall|p: int|
            0 <= p < old(data)@.len() / 4 ==> composited_at(
                old(data)@,
                final(data)@,
                p,
                color[0] as int,
                color[1] as int,
                color[2] as int,
            ),
{
    let ghost oldd = data@;
    let n = data.len() / 4;
    proof {
        lemma_fundamental_div_mod(oldd.len() as int, 4);
    }
    let mut p: usize = 0;
    while p < n
        invariant
            data@.len() == oldd.len(),
            oldd.len() == 4 * n,
            oldd.len() <= usize::MAX,
            0 <= p <= n,
            channel_wf(color[0] as int),
            channel_wf(color[1] as int),
            channel_wf(color[2] as int),
            forall|q: int|
                0 <= q < p ==> composited_at(
                    oldd,
                    data@,
                    q,
                    color[0] as int,
                    color[1] as int,
                    color[2] as int,
                ),
            forall|k: int| 4 * p <= k < oldd.len() ==> data@[k] == oldd[k],
        decreases n - p,
    {
        let ghost pre = data@;
        let base = 4 * p;
        let px = [data[base], data[base + 1], data[base + 2], data[base + 3]];
        let out = alpha_composite(px, color);
        data[base] = out[0];
        data[base + 1] = out[1];
        data[base + 2] = out[2];
        data[base + 3] = out[3];
        proof {
            assert forall|q: int|
                0 <= q < p + 1 implies composited_at(
                oldd,
                data@,
                q,
                color[0] as int,
                color[1] as int,
                color[2] as int,
            ) by {
                if q < p {
                    assert(composited_at(
                        oldd,
                        pre,
                        q,
                        color[0] as int,
                        color[1] as int,
                        color[2] as int,
                    ));
                    assert(data@[4 * q + 0] == pre[4 * q + 0]);
                    assert(data@[4 * q + 1] == pre[4 * q + 1]);
                    assert(data@[4 * q + 2] == pre[4 * q + 2]);
                    assert(data@[4 * q + 3] == pre[4 * q + 3]);
                } else {
                    assert(pre[4 * q + 0] == oldd[4 * q + 0]);
                    assert(pre[4 * q + 1] == oldd[4 * q + 1]);
                    assert(pre[4 * q + 2] == oldd[4 * q + 2]);
                    assert(pre[4 * q + 3] == oldd[4 * q + 3]);
                    assert(px[0] == pre[4 * q + 0]);
                    assert(px[1] == pre[4 * q + 1]);
                    assert(px[2] == pre[4 * q + 2]);
                    assert(px[3] == pre[4 * q + 3]);
                    assert(data@[4 * q + 0] == out[0]);
                    assert(data@[4 * q + 1] == out[1]);
                    assert(data@[4 * q + 2] == out[2]);
                    assert(data@[4 * q + 3] == out[3]);
                }
            }
        }
        p += 1;
    }
}

/// Height of each of the first four flag bands: a fifth of the image,
/// rounded down.
pub open spec fn band_height(height: int) -> int {
    height / 5
}

/// The flag band a row belongs to: rows split into five horizontal bands,
/// the first four of `height / 5` rows each, the last absorbing the
/// remainder.
pub open spec fn band_index(height: int, y: int) -> int {
    if band_height(height) == 0 {
        4
    } else if y / band_height(height) > 4 {
        4
    } else {
        y / band_height(height)
    }
}

/// First row of flag band `k`.
pub open spec fn band_start(height: int, k: int) -> int {
    k * band_height(height)
}

/// One past the last row of flag band `k`.
pub open spec fn band_end(height: int, k: int) -> int {
    if k == 4 {
        height
    } else {
        (k + 1) * band_height(height)
    }
}

/// Law: for a height of at least five rows, the five flag bands are
/// non-empty and contiguous, the first starts at row zero and the last ends
/// at the image height: no row is missed and none is covered twice.
pub proof fn lemma_flag_bands_partition(height: int, k: int)
    requires
        height >= 5,
        0 <= k <= 4,
    ensures
        band_start(height, 0) == 0,
        band_end(height, 4) == height,
        band_start(height, k) < band_end(height, k),
        k < 4 ==> band_end(height, k) == band_start(height, k + 1),
{
    let bh = band_height(height);
    lemma_fundamental_div_mod(height, 5);
    assert(height == 5 * bh + height % 5);
    assert(bh >= 1);
    assert(k * bh < (k + 1) * bh) by (nonlinear_arith)
        requires
            bh >= 1,
            0 <= k,
    ;
    assert(4 * bh < height);
}

/// Law: every row of an image of height at least five lies inside the band
/// that `band_index` assigns to it.
pub proof fn lemma_flag_band_of_row(height: int, y: int)
    requires
        height >= 5,
        0 <= y < height,
    ensures
        0 <= band_index(height, y) <= 4,
        band_start(height, band_index(height, y)) <= y,
        y < band_end(height, band_index(height, y)),
{
    let bh = band_height(height);
    lemma_fundamental_div_mod(height, 5);
    assert(bh >= 1);
    lemma_fundamental_div_mod(y, bh);
    assert(y == bh * (y / bh) + y % bh);
    assert(0 <= y % bh < bh);
    let q = y / bh;
    assert(q >= 0) by {
        vstd::arithmetic::div_mod::lemma_div_pos_is_pos(y, bh);
    }
    if q > 4 {
        assert(band_index(height, y) == 4);
        assert(y >= bh * q);
        assert(bh * q >= bh * 4) by (nonlinear_arith)
            requires
                q >= 4,
                bh >= 1,
        ;
        assert(band_start(height, 4) == 4 * bh);
    } else {
        assert(band_index(height, y) == q);
        assert(band_start(height, q) == q * bh);
        if q == 4 {
            assert(y < band_end(height, 4));
        } else {
            assert(band_end(height, q) == (q + 1) * bh);
            assert(y < bh * (q + 1)) by {
                assert(y == bh * q + y % bh);
                assert(bh * (q + 1) == bh * q + bh) by (nonlinear_arith);
            }
        }
    }
}

/// Law: in a packed row-major buffer, the pixel at column `x` of row `y` is
/// pixel number `y * width + x`, and dividing that number by the width
/// recovers the row.
pub proof fn lemma_row_pixel_index(width: int, height: int, x: int, y: int)
    requires
        0 <= x < width,
        0 <= y < height,
    ensures
        0 <= y * width + x < width * height,
        (y * width + x) / width == y,
        (y * width + x) % width == x,
{
    lemma_fundamental_div_mod_converse(y * width + x, width, y, x);
    assert(y * width + x >= 0) by (nonlinear_arith)
        requires
            y >= 0,
            width > 0,
            x >= 0,
    ;
    assert(y * width + x < width * height) by (nonlinear_arith)
        requires
            0 <= x < width,
            0 <= y < height,
    ;
}

/// Channel `c` of the fixed five-band flag palette for band `k`, in RGB
/// channel order: two symmetric accent bands around a white center band.
pub open spec fn flag_base(k: int, c: int) -> int {
    if k == 2 {
        0xff
    } else if k == 1 || k == 3 {
        if c == 0 {
            0xf5
        } else if c == 1 {
            0xa9
        } else {
            0xb8
        }
    } else {
        if c == 0 {
            0x5b
        } else if c == 1 {
            0xce
        } else {
            0xfa
        }
    }
}

/// Channel `c` of flag band `k`; when `rgb` is false the buffer is in BGR
/// component order and the palette is flipped to match.
pub open spec fn flag_channel(k: int, c: int, rgb: bool) -> int {
    if rgb {
        flag_base(k, c)
    } else {
        flag_base(k, 2 - c)
    }
}

/// The palette entry for flag band `k`, in the buffer's component order.
fn flag_color(k: usize, rgb: bool) -> (r: [i32; 3])
    ensures
        r[0] == flag_channel(k as int, 0, rgb),
        r[1] == flag_channel(k as int, 1, rgb),
        r[2] == flag_channel(k as int, 2, rgb),
        channel_wf(r[0] as int),
        channel_wf(r[1] as int),
        channel_wf(r[2] as int),
{
    let base: [i32; 3] = if k == 2 {
        [0xff, 0xff, 0xff]
    } else if k == 1 || k == 3 {
        [0xf5, 0xa9, 0xb8]
    } else {
        [0x5b, 0xce, 0xfa]
    };
    if rgb {
        base
    } else {
        [base[2], base[1], base[0]]
    }
}

/// Pixel `p` of `newd` is pixel `p` of `oldd` composited onto the flag band
/// of its row, for a packed row-major image of the given width and height.
pub open spec fn flag_composited_at(
    oldd: Seq<u8>,
    newd: Seq<u8>,
    p: int,
    width: int,
    height: int,
    rgb: bool,
) -> bool {
    composited_at(
        oldd,
        newd,
        p,
        flag_channel(band_index(height, p / width), 0, rgb),
        flag_channel(band_index(height, p / width), 1, rgb),
        flag_channel(band_index(height, p / width), 2, rgb),
    )
}

/// Over-composites a packed four-byte-per-pixel row-major image onto the
/// five-band flag gradient, in place: each row is composited against the
/// palette entry of the band it lies in.  `rgb` selects RGB or BGR
/// component order of the buffer.
pub fn trans_flag(data: &mut Vec<u8>, width: usize, height: usize, rgb: bool)
    requires
        old(data)@.len() == 4 * width * height,
    ensures
        final(data)@.len() == old(data)@.len(),
        forall|p: int|
            0 <= p < width * height ==> flag_composited_at(
                old(data)@,
                final(data)@,
                p,
                width as int,
                height as int,
                rgb,
            ),
{
    let ghost oldd = data@;
    let n = data.len() / 4;
    proof {
        vstd::arithmetic::mul::lemma_mul_is_associative(4, width as int, height as int);
        lemma_div_multiples_vanish((width * height) as int, 4);
        assert(n == width * height);
    }
    let bh = height / 5;
    let mut p: usize = 0;
    while p < n
        invariant
            data@.len() == oldd.len(),
            oldd.len() == 4 * n,
            oldd.len() <= usize::MAX,
            n == width * height,
            bh == band_height(height as int),
            0 <= p <= n,
            forall|q: int|
                0 <= q < p ==> flag_composited_at(
                    oldd,
                    data@,
                    q,
                    width as int,
                    height as int,
                    rgb,
                ),
            forall|k: int| 4 * p <= k < oldd.len() ==> data@[k] == oldd[k],
        decreases n - p,
    {
        proof {
            assert(width > 0) by (nonlinear_arith)
                requires
                    p < n,
                    n == width * height,
                    p >= 0,
            ;
        }
        let y = p / width;
        let k: usize = if bh == 0 {
            4
        } else {
            let t = y / bh;
            if t > 4 {
                4
            } else {
                t
            }
        };
        let col = flag_color(k, rgb);
        proof {
            assert(k as int == band_index(height as int, p as int / width as int));
        }
        let ghost pre = data@;
        let base = 4 * p;
        let px = [data[base], data[base + 1], data[base + 2], data[base + 3]];
        let out = alpha_composite(px, col);
        data[base] = out[0];
        data[base + 1] = out[1];
        data[base + 2] = out[2];
        data[base + 3] = out[3];
        proof {
            assert forall|q: int|
                0 <= q < p + 1 implies flag_composited_at(
                oldd,
                data@,
                q,
                width as int,
                height as int,
                rgb,
            ) by {
                if q < p {
                    assert(flag_composited_at(oldd, pre, q, width as int, height as int, rgb));
                    assert(data@[4 * q + 0] == pre[4 * q + 0]);
                    assert(data@[4 * q + 1] == pre[4 * q + 1]);
                    assert(data@[4 * q + 2] == pre[4 * q + 2]);
                    assert(data@[4 * q + 3] == pre[4 * q + 3]);
                } else {
                    assert(pre[4 * q + 0] == oldd[4 * q + 0]);
                    assert(pre[4 * q + 1] == oldd[4 * q + 1]);
                    assert(pre[4 * q + 2] == oldd[4 * q + 2]);
                    assert(pre[4 * q + 3] == oldd[4 * q + 3]);
                    assert(px[0] == pre[4 * q + 0]);
                    assert(px[1] == pre[4 * q + 1]);
                    assert(px[2] == pre[4 * q + 2]);
                    assert(px[3] == pre[4 * q + 3]);
                    assert(data@[4 * q + 0] == out[0]);
                    assert(data@[4 * q + 1] == out[1]);
                    assert(data@[4 * q + 2] == out[2]);
                    assert(data@[4 * q + 3] == out[3]);
                }
            }
        }
        p += 1;
    }
}

} // verus!
