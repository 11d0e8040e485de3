use vstd::prelude::*;
use vstd::arithmetic::div_mod::{lemma_fundamental_div_mod, lemma_fundamental_div_mod_converse};
use vstd::arithmetic::mul::lemma_mul_is_associative;
use crate::color::Align;
use crate::geometry::Rect;
use crate::pixels::lemma_row_pixel_index;
use crate::pixels::lemma_scaled_bound;

verus! {

/// A decoded raster image: packed four-byte pixels, rows top to bottom.
pub struct Raster {
    pub width: u32,
    pub height: u32,
    pub data: Vec<u8>,
}

impl Raster {
    /// The buffer holds exactly the image's pixels.
    pub open spec fn wf(&self) -> bool {
        self.data@.len() == 4 * (self.width as int) * (self.height as int)
    }

    /// Byte `c` of the pixel at column `x` of row `y`.
    pub open spec fn pixel_byte(&self, x: int, y: int, c: int) -> u8 {
        self.data@[4 * (y * self.width + x) + c]
    }

    /// Copies the pixels under `r` out of this image.
    pub fn crop(&self, r: &Rect) -> (out: Raster)
        requires
            self.wf(),
            r.x + r.width <= self.width,
            r.y + r.height <= self.height,
        ensures
            out.wf(),
            out.width == r.width,
            out.height == r.height,
            out.data@ == cropped(self.width as int, self.data@, *r),
            forall|x: int, y: int, c: int|
                0 <= x < r.width && 0 <= y < r.height && 0 <= c < 4 ==> out.pixel_byte(x, y, c)
                    == self.pixel_byte(r.x + x, r.y + y, c),
    {
        let w = r.width as usize;
        let h = r.height as usize;
        let big_w = self.width as usize;
        let _total = self.data.len();
        proof {
            assert(self.data@.len() <= usize::MAX);
            lemma_mul_is_associative(4, self.width as int, self.height as int);
            assert(w * h <= (self.width as int) * (self.height as int)) by (nonlinear_arith)
                requires
                    0 <= w <= self.width,
                    0 <= h <= self.height,
            ;
        }
        let n = w * h;
        let mut out_data: Vec<u8> = Vec::new();
        let mut p: usize = 0;
        while p < n
            invariant
                n == w * h,
                w == r.width,
                h == r.height,
                big_w == self.width,
                self.wf(),
                r.x + w <= self.width,
                r.y + h <= self.height,
                4 * ((self.width as int) * (self.height as int)) == self.data@.len(),
                self.data@.len() <= usize::MAX,
                n <= (self.width as int) * (self.height as int),
                out_data@.len() == 4 * p,
                0 <= p <= n,
                forall|k: int|
                    0 <= k < 4 * p ==> out_data@[k] == self.pixel_byte(
                        r.x + (k / 4) % (w as int),
                        r.y + (k / 4) / (w as int),
                        k % 4,
                    ),
            decreases n - p,
        {
            proof {
                assert(w > 0 && h > 0) by (nonlinear_arith)
                    requires
                        0 <= p < n,
                        n == w * h,
                ;
                lemma_fundamental_div_mod(p as int, w as int);
                if p as int / (w as int) >= h {
                    assert((w as int) * (p as int / (w as int)) >= (w as int) * h)
                        by (nonlinear_arith)
                        requires
                            p as int / (w as int) >= h,
                            w >= 1,
                    ;
                }
            }
            let sx = r.x as usize + p % w;
            let sy = r.y as usize + p / w;
            proof {
                lemma_row_pixel_index(
                    self.width as int,
                    self.height as int,
                    sx as int,
                    sy as int,
                );
            }
            let src = 4 * (sy * big_w + sx);
            let ghost pre = out_data@;
            out_data.push(self.data[src]);
            out_data.push(self.data[src + 1]);
            out_data.push(self.data[src + 2]);
            out_data.push(self.data[src + 3]);
            proof {
                assert forall|k: int|
                    0 <= k < 4 * (p + 1) implies out_data@[k] == self.pixel_byte(
                    r.x + (k / 4) % (w as int),
                    r.y + (k / 4) / (w as int),
                    k % 4,
                ) by {
                    if k < 4 * p {
                        assert(out_data@[k] == pre[k]);
                    } else {
                        lemma_fundamental_div_mod_converse(k, 4, p as int, k - 4 * p);
                        assert(k / 4 == p && k % 4 == k - 4 * p);
                    }
                }
            }
            p += 1;
        }
        let out = Raster { width: r.width, height: r.height, data: out_data };
        proof {
            lemma_mul_is_associative(4, w as int, h as int);
            assert forall|x: int, y: int, c: int|
                0 <= x < r.width && 0 <= y < r.height && 0 <= c < 4 implies out.pixel_byte(x, y, c)
                == self.pixel_byte(r.x + x, r.y + y, c) by {
                lemma_row_pixel_index(w as int, h as int, x, y);
                let q = y * (w as int) + x;
                let k = 4 * q + c;
                lemma_fundamental_div_mod_converse(k, 4, q, c);
                assert(out_data@[k] == self.pixel_byte(r.x + q % (w as int), r.y + q / (w as int), c));
            }
            assert(out.data@ =~= cropped(self.width as int, self.data@, *r));
        }
        out
    }
}

/// The bytes of the rectangle `r` copied out of a packed row-major image of
/// width `w`.
pub open spec fn cropped(w: int, data: Seq<u8>, r: Rect) -> Seq<u8> {
    Seq::new(
        (4 * r.width * r.height) as nat,
        |k: int|
            data[4 * ((r.y + (k / 4) / (r.width as int)) * w + r.x + (k / 4) % (r.width as int)) + k
                % 4],
    )
}

/// The top row of the square an alignment selects from a portrait image.
pub open spec fn align_y(align: Align, width: int, height: int) -> int {
    match align {
        Align::Top => 0,
        Align::Bottom => height - width,
        Align::Center => (height - width) / 2,
    }
}

/// The square an alignment selects from a portrait image, as a rectangle.
pub open spec fn align_rect(align: Align, width: int, height: int) -> Rect {
    Rect {
        x: 0,
        y: align_y(align, width, height) as u32,
        width: width as u32,
        height: width as u32,
    }
}

/// Crops a portrait image to a `width` by `width` square anchored at the
/// top, bottom or vertical center.  An image at least as wide as it is tall
/// is left alone: the crop is a no-op and `None` is returned.
pub fn square_image(img: &Raster, align: &Align) -> (r: Option<Raster>)
    requires
        img.wf(),
    ensures
        img.width >= img.height ==> r is None,
        img.width < img.height ==> (r matches Some(out) && {
            &&& out.wf()
            &&& out.width == img.width
            &&& out.height == img.width
            &&& out.data@ == cropped(
                img.width as int,
                img.data@,
                align_rect(*align, img.width as int, img.height as int),
            )
            &&& forall|x: int, y: int, c: int|
                0 <= x < img.width && 0 <= y < img.width && 0 <= c < 4 ==> out.pixel_byte(x, y, c)
                    == img.pixel_byte(
                    x,
                    align_y(*align, img.width as int, img.height as int) + y,
                    c,
                )
        }),
{
    if img.width >= img.height {
        return None;
    }
    let y0: u32 = match align {
        Align::Top => 0,
        Align::Bottom => img.height - img.width,
        Align::Center => (img.height - img.width) / 2,
    };
    let rect = Rect { x: 0, y: y0, width: img.width, height: img.width };
    Some(img.crop(&rect))
}

/// The RGB bytes of a packed RGBA buffer, with the alpha bytes dropped.
pub open spec fn rgb_of(data: Seq<u8>) -> Seq<u8> {
    Seq::new((data.len() / 4 * 3) as nat, |k: int| data[4 * (k / 3) + k % 3])
}

/// Drops the alpha byte of every pixel of a packed RGBA buffer.
pub fn rgba_to_rgb(data: &Vec<u8>) -> (r: Vec<u8>)
    requires
        data@.len() % 4 == 0,
    ensures
        r@ == rgb_of(data@),
{
    let n = data.len() / 4;
    proof {
        lemma_fundamental_div_mod(data@.len() as int, 4);
    }
    let mut r: Vec<u8> = Vec::new();
    let mut p: usize = 0;
    while p < n
        invariant
            data@.len() == 4 * n,
            data@.len() <= usize::MAX,
            0 <= p <= n,
            r@.len() == 3 * p,
            forall|k: int| 0 <= k < 3 * p ==> r@[k] == data@[4 * (k / 3) + k % 3],
        decreases n - p,
    {
        let base = 4 * p;
        let ghost pre = r@;
        r.push(data[base]);
        r.push(data[base + 1]);
        r.push(data[base + 2]);
        proof {
            assert forall|k: int|
                0 <= k < 3 * (p + 1) implies r@[k] == data@[4 * (k / 3) + k % 3] by {
                if k < 3 * p {
                    assert(r@[k] == pre[k]);
                } else {
                    lemma_fundamental_div_mod_converse(k, 3, p as int, k - 3 * p);
                }
            }
        }
        p += 1;
    }
    proof {
        assert(r@ =~= rgb_of(data@));
    }
    r
}

/// The same pixels with the first and third byte of every pixel exchanged:
/// the conversion between packed BGRA and packed RGBA.
pub open spec fn swap_rb(data: Seq<u8>) -> Seq<u8> {
    Seq::new(
        data.len(),
        |k: int|
            if k % 4 == 0 {
                data[k + 2]
            } else if k % 4 == 2 {
                data[k - 2]
            } else {
                data[k]
            },
    )
}

/// Exchanges the first and third channel of every pixel of a packed
/// four-byte-per-pixel buffer, turning BGRA into RGBA or back.
pub fn bgra_to_rgba(data: &Vec<u8>) -> (r: Vec<u8>)
    requires
        data@.len() % 4 == 0,
    ensures
        r@ == swap_rb(data@),
{
    let n = data.len() / 4;
    proof {
        lemma_fundamental_div_mod(data@.len() as int, 4);
    }
    let mut r: Vec<u8> = Vec::new();
    let mut p: usize = 0;
    while p < n
        invariant
            data@.len() == 4 * n,
            data@.len() <= usize::MAX,
            0 <= p <= n,
            r@.len() == 4 * p,
            forall|k: int| 0 <= k < 4 * p ==> r@[k] == swap_rb(data@)[k],
        decreases n - p,
    {
        let base = 4 * p;
        let ghost pre = r@;
        r.push(data[base + 2]);
        r.push(data[base + 1]);
        r.push(data[base]);
        r.push(data[base + 3]);
        proof {
            assert forall|k: int| 0 <= k < 4 * (p + 1) implies r@[k] == swap_rb(data@)[k] by {
                if k < 4 * p {
                    assert(r@[k] == pre[k]);
                } else {
                    lemma_fundamental_div_mod_converse(k, 4, p as int, k - 4 * p);
                    assert(k / 4 == p && k % 4 == k - 4 * p);
                }
            }
        }
        p += 1;
    }
    proof {
        assert(r@ =~= swap_rb(data@));
    }
    r
}

/// The legacy background blend of one channel: source and background are
/// each scaled by the source alpha and its complement, then added.
pub open spec fn blend_channel(src: int, bg: int, alpha: int) -> int {
    (255 - alpha) * bg / 255 + alpha * src / 255
}

/// In `newd`, pixel `p` is pixel `p` of `oldd` blended over the background
/// color bytes `(c0, c1, c2)`, with alpha forced to 255.
pub open spec fn blended_at(oldd: Seq<u8>, newd: Seq<u8>, p: int, c0: int, c1: int, c2: int) -> bool {
    &&& newd[4 * p + 0] == blend_channel(oldd[4 * p + 0] as int, c0, oldd[4 * p + 3] as int)
    &&& newd[4 * p + 1] == blend_channel(oldd[4 * p + 1] as int, c1, oldd[4 * p + 3] as int)
    &&& newd[4 * p + 2] == blend_channel(oldd[4 * p + 2] as int, c2, oldd[4 * p + 3] as int)
    &&& newd[4 * p + 3] == 255
}

/// A blended channel stays a byte value.
pub proof fn lemma_blend_channel_in_range(src: int, bg: int, alpha: int)
    requires
        0 <= src <= 255,
        0 <= bg <= 255,
        0 <= alpha <= 255,
    ensures
        0 <= blend_channel(src, bg, alpha) <= 255,
{
    lemma_scaled_bound(255 - alpha, bg);
    lemma_scaled_bound(alpha, src);
}

/// The whole buffer blended over one solid background, as a sequence.
pub open spec fn blended_of(data: Seq<u8>, c0: int, c1: int, c2: int) -> Seq<u8> {
    Seq::new(
        data.len(),
        |k: int|
            {
                let c = k % 4;
                if c == 3 {
                    255u8
                } else {
                    let bg = if c == 0 {
                        c0
                    } else if c == 1 {
                        c1
                    } else {
                        c2
                    };
                    blend_channel(data[k] as int, bg, data[k - c + 3] as int) as u8
                }
            },
    )
}

/// Bridge: a buffer whose every pixel is blended in place equals the
/// blended sequence.
pub proof fn lemma_blended_of(oldd: Seq<u8>, newd: Seq<u8>, c0: int, c1: int, c2: int)
    requires
        oldd.len() % 4 == 0,
        newd.len() == oldd.len(),
        0 <= c0 <= 255,
        0 <= c1 <= 255,
        0 <= c2 <= 255,
        forall|p: int| 0 <= p < oldd.len() / 4 ==> blended_at(oldd, newd, p, c0, c1, c2),
    ensures
        newd == blended_of(oldd, c0, c1, c2),
{
    assert forall|k: int| 0 <= k < newd.len() implies newd[k] == blended_of(oldd, c0, c1, c2)[k] by {
        lemma_fundamental_div_mod(k, 4);
        let p = k / 4;
        let c = k % 4;
        assert(blended_at(oldd, newd, p, c0, c1, c2));
        assert(k == 4 * p + c);
        if c < 3 {
            lemma_blend_channel_in_range(oldd[k] as int, if c == 0 {
                c0
            } else if c == 1 {
                c1
            } else {
                c2
            }, oldd[4 * p + 3] as int);
        }
    }
    assert(newd =~= blended_of(oldd, c0, c1, c2));
}

/// One channel of the legacy blend, on byte-ranged executable values.
fn blend_one(src: u8, bg: u8, alpha: u8) -> (r: u8)
    ensures
        r == blend_channel(src as int, bg as int, alpha as int),
{
    proof {
        lemma_scaled_bound(255 - alpha as int, bg as int);
        lemma_scaled_bound(alpha as int, src as int);
    }
    let a = alpha as u32;
    let v = (255 - a) * (bg as u32) / 255 + a * (src as u32) / 255;
    v as u8
}

/// Blends every pixel of a packed RGBA buffer over a solid background, in
/// place.  The background color arrives as the four big-endian bytes of a
/// `0x00RRGGBB` number, so channel `c` of a pixel pairs with byte `c + 1`.
pub fn set_background(data: &mut Vec<u8>, background: [u8; 4])
    requires
        old(data)@.len() % 4 == 0,
    ensures
        final(data)@.len() == old(data)@.len(),
        forall|p: int|
            0 <= p < old(data)@.len() / 4 ==> blended_at(
                old(data)@,
                final(data)@,
                p,
                background[1] as int,
                background[2] as int,
                background[3] as int,
            ),
        final(data)@ == blended_of(
            old(data)@,
            background[1] as int,
            background[2] as int,
            background[3] as int,
        ),
{
    let ghost oldd = data@;
    let n = data.len() / 4;
    proof {
        lemma_fundamental_div_mod(oldd.len() as int, 4);
    }
    let mut p: usize = 0;
    while p < n
        invariant
            data@.len() == oldd.len(),
            oldd.len() == 4 * n,
            oldd.len() <= usize::MAX,
            0 <= p <= n,
            forall|q: int|
                0 <= q < p ==> blended_at(
                    oldd,
                    data@,
                    q,
                    background[1] as int,
                    background[2] as int,
                    background[3] as int,
                ),
            forall|k: int| 4 * p <= k < oldd.len() ==> data@[k] == oldd[k],
        decreases n - p,
    {
        let ghost pre = data@;
        let base = 4 * p;
        let a = data[base + 3];
        let o0 = blend_one(data[base], background[1], a);
        let o1 = blend_one(data[base + 1], background[2], a);
        let o2 = blend_one(data[base + 2], background[3], a);
        data[base] = o0;
        data[base + 1] = o1;
        data[base + 2] = o2;
        data[base + 3] = 255;
        proof {
            assert forall|q: int|
                0 <= q < p + 1 implies blended_at(
                oldd,
                data@,
                q,
                background[1] as int,
                background[2] as int,
                background[3] as int,
            ) by {
                if q < p {
                    assert(blended_at(
                        oldd,
                        pre,
                        q,
                        background[1] as int,
                        background[2] as int,
                        background[3] as int,
                    ));
                    assert(data@[4 * q + 0] == pre[4 * q + 0]);
                    assert(data@[4 * q + 1] == pre[4 * q + 1]);
                    assert(data@[4 * q + 2] == pre[4 * q + 2]);
                    assert(data@[4 * q + 3] == pre[4 * q + 3]);
                } else {
                    assert(pre[4 * q + 0] == oldd[4 * q + 0]);
                    assert(pre[4 * q + 1] == oldd[4 * q + 1]);
                    assert(pre[4 * q + 2] == oldd[4 * q + 2]);
                    assert(pre[4 * q + 3] == oldd[4 * q + 3]);
                    assert(data@[4 * q + 0] == o0);
                    assert(data@[4 * q + 1] == o1);
                    assert(data@[4 * q + 2] == o2);
                    assert(data@[4 * q + 3] == 255);
                }
            }
        }
        p += 1;
    }
    proof {
        lemma_blended_of(
            oldd,
            data@,
            background[1] as int,
            background[2] as int,
            background[3] as int,
        );
    }
}

} // verus!
