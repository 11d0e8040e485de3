use vstd::prelude::*;
use vstd::arithmetic::div_mod::{
    lemma_div_multiples_vanish, lemma_fundamental_div_mod, lemma_mod_multiples_basic,
};
use vstd::arithmetic::mul::lemma_mul_is_associative;
use crate::color::{color_wf, Color, Opt};
use crate::error::{ErrorMessage, FailureKind};
use crate::geometry::{best_face_idx, face_image_rect, face_rect, select_face, Rect};
use crate::pixels::{
    flag_composited, lemma_flag_composited_of, lemma_solid_composited_of, set_color,
    solid_composited, trans_flag,
};
use crate::raster::{
    align_rect, bgra_to_rgba, blended_of, cropped, rgb_of, rgba_to_rgb, set_background,
    square_image, swap_rb, Raster,
};

verus! {

/// What the raster decoder reads out of a byte buffer, if anything: width,
/// height, packed RGBA pixels, and whether the source format carried an
/// alpha channel.
pub uninterp spec fn decoded_rgba(data: Seq<u8>) -> Option<(nat, nat, Seq<u8>, bool)>;

/// Relies on image::load_from_memory, DynamicImage::color and
/// DynamicImage::into_rgba8: the format is guessed from the bytes and the
/// image decoded to packed RGBA; the result depends on the bytes alone, and
/// an image buffer holds exactly four bytes per pixel.
#[verifier::external_body]
fn decode_rgba(data: &[u8]) -> (r: Result<(u32, u32, Vec<u8>, bool), ()>)
    ensures
        r is Ok <==> decoded_rgba(data@) is Some,
        r matches Ok(t) ==> decoded_rgba(data@) == Some((t.0 as nat, t.1 as nat, t.2@, t.3))
            && t.2@.len() == 4 * (t.0 as int) * (t.1 as int),
{
    match image::load_from_memory(data) {
        Ok(img) => {
            let has_alpha = img.color().has_alpha();
            let rgba = img.into_rgba8();
            let (w, h) = rgba.dimensions();
            Ok((w, h, rgba.into_raw(), has_alpha))
        },
        Err(_) => Err(()),
    }
}

/// What the WebP decoder reads out of a byte buffer, if anything, in the
/// same shape as `decoded_rgba`.
pub uninterp spec fn decoded_webp(data: Seq<u8>) -> Option<(nat, nat, Seq<u8>, bool)>;

/// Relies on webp::Decoder::decode and WebPImage::to_image: a still WebP
/// image is decoded to packed RGBA; the result depends on the bytes alone,
/// and an image buffer holds exactly four bytes per pixel.
#[verifier::external_body]
fn decode_webp(data: &[u8]) -> (r: Result<(u32, u32, Vec<u8>, bool), ()>)
    ensures
        r is Ok <==> decoded_webp(data@) is Some,
        r matches Ok(t) ==> decoded_webp(data@) == Some((t.0 as nat, t.1 as nat, t.2@, t.3))
            && t.2@.len() == 4 * (t.0 as int) * (t.1 as int),
{
    let webp_img = match webp::Decoder::new(data).decode() {
        Some(x) => x.to_image(),
        None => return Err(()),
    };
    let has_alpha = webp_img.color().has_alpha();
    let rgba = webp_img.into_rgba8();
    let (w, h) = rgba.dimensions();
    Ok((w, h, rgba.into_raw(), has_alpha))
}

/// Image dimensions every stage of the still pipeline accepts: positive,
/// and within the PNG format's 31-bit range (which also keeps drawing
/// coordinates exact).
pub open spec fn usable_dims(w: int, h: int) -> bool {
    1 <= w <= i32::MAX && 1 <= h <= i32::MAX
}

/// The PNG encoding of a packed RGBA image.
pub uninterp spec fn png_of_rgba(width: nat, height: nat, data: Seq<u8>) -> Seq<u8>;

/// Relies on DynamicImage::write_to with the PNG format into an in-memory
/// cursor: the encoding depends on the pixels alone, and the encoder
/// accepts every image of positive dimensions within the format's range
/// (its only format refusals are a zero width or height).
#[verifier::external_body]
fn encode_png_rgba(width: u32, height: u32, data: &Vec<u8>) -> (r: Result<Vec<u8>, ()>)
    requires
        data@.len() == 4 * (width as int) * (height as int),
    ensures
        r matches Ok(v) ==> v@ == png_of_rgba(width as nat, height as nat, data@),
        usable_dims(width as int, height as int) ==> r is Ok,
{
    let img = match image::RgbaImage::from_raw(width, height, data.clone()) {
        Some(x) => x,
        None => return Err(()),
    };
    let mut buf = std::io::Cursor::new(Vec::new());
    match image::DynamicImage::ImageRgba8(img).write_to(&mut buf, image::ImageOutputFormat::Png) {
        Ok(()) => Ok(buf.into_inner()),
        Err(_) => Err(()),
    }
}

/// The PNG encoding of a packed RGB image.
pub uninterp spec fn png_of_rgb(width: nat, height: nat, data: Seq<u8>) -> Seq<u8>;

/// Relies on DynamicImage::write_to with the PNG format into an in-memory
/// cursor, on three-byte pixels: the encoding depends on the pixels alone,
/// and the encoder accepts every image of positive dimensions within the
/// format's range (its only format refusals are a zero width or height).
#[verifier::external_body]
fn encode_png_rgb(width: u32, height: u32, data: &Vec<u8>) -> (r: Result<Vec<u8>, ()>)
    requires
        data@.len() == 3 * (width as int) * (height as int),
    ensures
        r matches Ok(v) ==> v@ == png_of_rgb(width as nat, height as nat, data@),
        usable_dims(width as int, height as int) ==> r is Ok,
{
    let img = match image::RgbImage::from_raw(width, height, data.clone()) {
        Some(x) => x,
        None => return Err(()),
    };
    let mut buf = std::io::Cursor::new(Vec::new());
    match image::DynamicImage::ImageRgb8(img).write_to(&mut buf, image::ImageOutputFormat::Png) {
        Ok(()) => Ok(buf.into_inner()),
        Err(_) => Err(()),
    }
}

/// The packed RGBA buffer after one hollow rectangle outline is drawn on
/// it, clipped to the image.
pub uninterp spec fn outlined(
    width: nat,
    height: nat,
    data: Seq<u8>,
    x: int,
    y: int,
    rw: int,
    rh: int,
    c0: u8,
    c1: u8,
    c2: u8,
    c3: u8,
) -> Seq<u8>;

/// Relies on imageproc::drawing::draw_hollow_rect_mut: draws as much of the
/// one-pixel outline of the rectangle as lies inside the image; the pixels
/// depend on the arguments alone and the buffer keeps its size.  The
/// drawing crate takes signed 32-bit coordinates, so the rectangle must lie
/// within that range for the cast to carry the exact position.
#[verifier::external_body]
fn draw_hollow_rect(
    img: &mut Vec<u8>,
    width: u32,
    height: u32,
    x: u32,
    y: u32,
    rw: u32,
    rh: u32,
    color: [u8; 4],
)
    requires
        old(img)@.len() == 4 * (width as int) * (height as int),
        rw >= 1,
        rh >= 1,
        width <= i32::MAX,
        height <= i32::MAX,
        x + rw <= width,
        y + rh <= height,
    ensures
        final(img)@ == outlined(
            width as nat,
            height as nat,
            old(img)@,
            x as int,
            y as int,
            rw as int,
            rh as int,
            color[0],
            color[1],
            color[2],
            color[3],
        ),
        final(img)@.len() == old(img)@.len(),
{
    let buf = std::mem::take(img);
    let mut canvas = image::RgbaImage::from_raw(width, height, buf).unwrap();
    let rect = imageproc::rect::Rect::at(x as i32, y as i32).of_size(rw, rh);
    imageproc::drawing::draw_hollow_rect_mut(&mut canvas, rect, image::Rgba(color));
    *img = canvas.into_raw();
}

/// A face candidate the still pipeline can use: a non-degenerate square
/// lying inside the image.
pub open spec fn face_ok(f: Rect, w: int, h: int) -> bool {
    &&& f.width == f.height
    &&& f.width >= 1
    &&& f.x + f.width <= w
    &&& f.y + f.height <= h
}

/// The face candidates kept for an image of the given size, in their
/// original order.
pub open spec fn kept_faces(faces: Seq<Rect>, w: int, h: int) -> Seq<Rect>
    decreases faces.len(),
{
    if faces.len() == 0 {
        Seq::empty()
    } else {
        let rest = kept_faces(faces.drop_last(), w, h);
        if face_ok(faces.last(), w, h) {
            rest.push(faces.last())
        } else {
            rest
        }
    }
}

/// Every kept face satisfies `face_ok`.
pub proof fn lemma_kept_faces_ok(faces: Seq<Rect>, w: int, h: int)
    ensures
        forall|i: int|
            0 <= i < kept_faces(faces, w, h).len() ==> face_ok(
                #[trigger] kept_faces(faces, w, h)[i],
                w,
                h,
            ),
    decreases faces.len(),
{
    if faces.len() > 0 {
        lemma_kept_faces_ok(faces.drop_last(), w, h);
        let rest = kept_faces(faces.drop_last(), w, h);
        let whole = kept_faces(faces, w, h);
        assert forall|i: int| 0 <= i < whole.len() implies face_ok(whole[i], w, h) by {
            if face_ok(faces.last(), w, h) {
                assert(whole == rest.push(faces.last()));
                if i < rest.len() {
                    assert(whole[i] == rest[i]);
                    assert(face_ok(rest[i], w, h));
                } else {
                    assert(whole[i] == faces.last());
                }
            } else {
                assert(whole == rest);
                assert(face_ok(rest[i], w, h));
            }
        }
    }
}

/// Keeps the face candidates that lie inside the image and are
/// non-degenerate squares, dropping the rest.
fn filter_faces(faces: &Vec<Rect>, width: u32, height: u32) -> (r: Vec<Rect>)
    ensures
        r@ == kept_faces(faces@, width as int, height as int),
{
    let mut r: Vec<Rect> = Vec::new();
    let mut i: usize = 0;
    while i < faces.len()
        invariant
            0 <= i <= faces@.len(),
            r@ == kept_faces(faces@.take(i as int), width as int, height as int),
        decreases faces@.len() - i,
    {
        proof {
            assert(faces@.take(i + 1).drop_last() == faces@.take(i as int));
            assert(faces@.take(i + 1).last() == faces@[i as int]);
        }
        let f = faces[i];
        if f.width == f.height && f.width >= 1 && f.width <= width && f.x <= width - f.width
            && f.height <= height && f.y <= height - f.height {
            r.push(f);
        }
        i += 1;
    }
    proof {
        assert(faces@.take(faces@.len() as int) == faces@);
    }
    r
}

/// The buffer after a rectangle outline of the given thickness is drawn:
/// `t` nested one-pixel outlines, each inset by one from the last.
pub open spec fn outlined_thick(
    width: nat,
    height: nat,
    data: Seq<u8>,
    rc: Rect,
    c0: u8,
    c1: u8,
    c2: u8,
    c3: u8,
    t: nat,
) -> Seq<u8>
    decreases t,
{
    if t == 0 {
        data
    } else {
        outlined(
            width,
            height,
            outlined_thick(width, height, data, rc, c0, c1, c2, c3, (t - 1) as nat),
            rc.x + t - 1,
            rc.y + t - 1,
            rc.width - 2 * (t - 1),
            rc.height - 2 * (t - 1),
            c0,
            c1,
            c2,
            c3,
        )
    }
}

/// Draws a rectangle outline of the given thickness: `thickness` nested
/// one-pixel outlines, each inset by one pixel from the previous.
pub fn draw_thickness_rect(
    img: &mut Vec<u8>,
    width: u32,
    height: u32,
    rc: &Rect,
    color: [u8; 4],
    thickness: u32,
)
    requires
        old(img)@.len() == 4 * (width as int) * (height as int),
        width <= i32::MAX,
        height <= i32::MAX,
        rc.x + rc.width <= width,
        rc.y + rc.height <= height,
        thickness >= 1 ==> rc.width >= 2 * thickness - 1 && rc.height >= 2 * thickness - 1,
    ensures
        final(img)@ == outlined_thick(
            width as nat,
            height as nat,
            old(img)@,
            *rc,
            color[0],
            color[1],
            color[2],
            color[3],
            thickness as nat,
        ),
        final(img)@.len() == old(img)@.len(),
{
    let ghost oldd = img@;
    let mut i: u32 = 0;
    while i < thickness
        invariant
            0 <= i <= thickness,
            thickness >= 1 ==> rc.width >= 2 * thickness - 1 && rc.height >= 2 * thickness - 1,
            width <= i32::MAX,
            height <= i32::MAX,
            rc.x + rc.width <= width,
            rc.y + rc.height <= height,
            img@.len() == oldd.len(),
            oldd.len() == 4 * (width as int) * (height as int),
            img@ == outlined_thick(
                width as nat,
                height as nat,
                oldd,
                *rc,
                color[0],
                color[1],
                color[2],
                color[3],
                i as nat,
            ),
        decreases thickness - i,
    {
        draw_hollow_rect(
            img,
            width,
            height,
            rc.x + i,
            rc.y + i,
            rc.width - 2 * i,
            rc.height - 2 * i,
            color,
        );
        i += 1;
    }
}

/// All kept face candidates outlined in order on the uncropped image, each
/// with a thickness of a sixty-fourth of its width.
pub open spec fn drawn_candidates(width: nat, height: nat, data: Seq<u8>, kept: Seq<Rect>) -> Seq<
    u8,
>
    decreases kept.len(),
{
    if kept.len() == 0 {
        data
    } else {
        outlined_thick(
            width,
            height,
            drawn_candidates(width, height, data, kept.drop_last()),
            kept.last(),
            0,
            0,
            0,
            255,
            (kept.last().width as int / 64) as nat,
        )
    }
}

/// The diagnostic overlay: every kept candidate outlined in black, then the
/// selected candidate's expanded square outlined in red.
pub open spec fn drawn_output(width: nat, height: nat, data: Seq<u8>, kept: Seq<Rect>) -> Seq<u8> {
    let cand = drawn_candidates(width, height, data, kept);
    if kept.len() > 0 {
        let sel = face_rect(width as int, height as int, kept[best_face_idx(kept)]);
        outlined_thick(
            width,
            height,
            cand,
            sel,
            255,
            0,
            0,
            255,
            (sel.width as int / 128 + 1) as nat,
        )
    } else {
        cand
    }
}

/// Arithmetic facts about a packed four-byte-per-pixel buffer length.
proof fn lemma_rgba_len_facts(w: int, h: int, len: int)
    requires
        len == 4 * w * h,
        w >= 0,
        h >= 0,
    ensures
        len % 4 == 0,
        len / 4 == w * h,
        len / 4 * 3 == 3 * w * h,
{
    lemma_mul_is_associative(4, w, h);
    lemma_mul_is_associative(3, w, h);
    lemma_div_multiples_vanish(w * h, 4);
    lemma_mod_multiples_basic(w * h, 4);
}

/// The region the still pipeline crops to, if any: the aligned square for
/// an explicit alignment on a portrait image, the expanded square of the
/// first widest kept face when detection is in use, or nothing.
pub open spec fn still_region(w: int, h: int, opt: Opt, kept: Seq<Rect>) -> Option<Rect> {
    match opt.align {
        Some(a) => if w < h {
            Some(align_rect(a, w, h))
        } else {
            None
        },
        None => if opt.show_detect {
            None
        } else if kept.len() > 0 {
            Some(face_rect(w, h, kept[best_face_idx(kept)]))
        } else {
            None
        },
    }
}

/// The pixels the still pipeline composites and encodes, with their size:
/// the chosen region cut out, or the whole image.
pub open spec fn still_cropped(w: int, h: int, px: Seq<u8>, opt: Opt, kept: Seq<Rect>) -> (
    int,
    int,
    Seq<u8>,
) {
    match still_region(w, h, opt, kept) {
        Some(rc) => (rc.width as int, rc.height as int, cropped(w, px, rc)),
        None => (w, h, px),
    }
}

/// The bytes `image_to_png` replaces the input with on success: the
/// diagnostic overlay as RGBA PNG when detection results are shown,
/// otherwise the cropped image composited onto the background and encoded
/// as an RGB PNG (the alpha channel is spent by the compositing).
pub open spec fn still_png(w: int, h: int, px: Seq<u8>, opt: Opt, kept: Seq<Rect>) -> Seq<u8> {
    if opt.show_detect && opt.align is None {
        png_of_rgba(w as nat, h as nat, drawn_output(w as nat, h as nat, px, kept))
    } else {
        let t = still_cropped(w, h, px, opt, kept);
        if opt.show_detect {
            png_of_rgba(t.0 as nat, t.1 as nat, t.2)
        } else {
            let comp = match opt.color {
                Color::Trans => flag_composited(t.2, t.0, t.1, true),
                Color::Rgb(v) => solid_composited(t.2, v[0] as int, v[1] as int, v[2] as int),
            };
            png_of_rgb(t.0 as nat, t.1 as nat, rgb_of(comp))
        }
    }
}

/// Normalizes one raster image into a PNG avatar, in place: decode, crop by
/// alignment or around the widest detected face, composite onto the
/// requested background (or draw the detection overlay instead), re-encode.
/// The face candidates come from the external face locator; candidates that
/// are not squares inside the image are ignored.  It succeeds exactly on
/// input that decodes to usable dimensions (positive, within the PNG
/// range); on failure the buffer is left untouched and no output is
/// surfaced.
pub fn image_to_png(data: &mut Vec<u8>, opt: &Opt, faces: &Vec<Rect>) -> (r: Result<
    (),
    ErrorMessage,
>)
    requires
        color_wf(opt.color),
    ensures
        r is Ok <==> (decoded_rgba(old(data)@) matches Some(t) && usable_dims(
            t.0 as int,
            t.1 as int,
        )),
        r is Err ==> final(data)@ == old(data)@,
        r matches Err(e) ==> e.kind == FailureKind::DecodeFailure,
        r is Ok ==> (decoded_rgba(old(data)@) matches Some(t) && final(data)@ == still_png(
            t.0 as int,
            t.1 as int,
            t.2,
            *opt,
            kept_faces(faces@, t.0 as int, t.1 as int),
        )),
{
    let (w, h, px, _has_alpha) = match decode_rgba(data.as_slice()) {
        Ok(t) => t,
        Err(()) => {
            return Err(ErrorMessage::new(FailureKind::DecodeFailure, "unrecognized image data"));
        },
    };
    if w < 1 || h < 1 || w > i32::MAX as u32 || h > i32::MAX as u32 {
        return Err(ErrorMessage::new(FailureKind::DecodeFailure, "no usable image dimensions"));
    }
    let ghost gw = w as int;
    let ghost gh = h as int;
    let ghost gpx = px@;
    let ghost kept = kept_faces(faces@, gw, gh);
    let kept_v = filter_faces(faces, w, h);
    proof {
        lemma_kept_faces_ok(faces@, gw, gh);
    }
    let mut img = Raster { width: w, height: h, data: px };

    if opt.show_detect && opt.align.is_none() {
        let mut j: usize = 0;
        while j < kept_v.len()
            invariant
                0 <= j <= kept_v@.len(),
                kept_v@ == kept,
                forall|i: int| 0 <= i < kept.len() ==> face_ok(#[trigger] kept[i], gw, gh),
                img.width == w,
                img.height == h,
                gw == w as int,
                gh == h as int,
                w <= i32::MAX,
                h <= i32::MAX,
                img.data@.len() == 4 * gw * gh,
                img.data@ == drawn_candidates(w as nat, h as nat, gpx, kept.take(j as int)),
            decreases kept_v@.len() - j,
        {
            proof {
                assert(kept.take(j + 1).drop_last() == kept.take(j as int));
                assert(kept.take(j + 1).last() == kept[j as int]);
                lemma_fundamental_div_mod(kept_v@[j as int].width as int, 64);
            }
            let f = kept_v[j];
            draw_thickness_rect(&mut img.data, w, h, &f, [0, 0, 0, 255], f.width / 64);
            j += 1;
        }
        proof {
            assert(kept.take(kept.len() as int) == kept);
        }
        if kept_v.len() > 0 {
            let i = select_face(&kept_v).unwrap();
            let f = kept_v[i];
            let sel = face_image_rect(w, h, &f);
            proof {
                lemma_fundamental_div_mod(sel.width as int, 128);
            }
            let t = sel.width / 128 + 1;
            draw_thickness_rect(&mut img.data, w, h, &sel, [255, 0, 0, 255], t);
        }
        match encode_png_rgba(w, h, &img.data) {
            Ok(v) => {
                *data = v;
                Ok(())
            },
            Err(()) => Err(ErrorMessage::new(FailureKind::EncodeFailure, "PNG encoding failed")),
        }
    } else {
        let ghost region = still_region(gw, gh, *opt, kept);
        let ghost cut = still_cropped(gw, gh, gpx, *opt, kept);
        match &opt.align {
            Some(a) => {
                match square_image(&img, a) {
                    Some(x) => {
                        img = x;
                    },
                    None => {},
                }
            },
            None => {
                if !opt.show_detect {
                    match select_face(&kept_v) {
                        Some(i) => {
                            let f = kept_v[i];
                            let sel = face_image_rect(w, h, &f);
                            img = img.crop(&sel);
                        },
                        None => {},
                    }
                }
            },
        }
        proof {
            assert(img.width as int == cut.0 && img.height as int == cut.1 && img.data@ == cut.2);
            assert(usable_dims(img.width as int, img.height as int));
        }
        if !opt.show_detect {
            let ghost pre_comp = img.data@;
            proof {
                lemma_rgba_len_facts(img.width as int, img.height as int, img.data@.len() as int);
            }
            match opt.color {
                Color::Trans => {
                    let iw = img.width as usize;
                    let ih = img.height as usize;
                    trans_flag(&mut img.data, iw, ih, true);
                    proof {
                        lemma_flag_composited_of(
                            pre_comp,
                            img.data@,
                            cut.0,
                            cut.1,
                            true,
                        );
                    }
                },
                Color::Rgb(v) => {
                    set_color(&mut img.data, v);
                    proof {
                        lemma_solid_composited_of(
                            pre_comp,
                            img.data@,
                            v[0] as int,
                            v[1] as int,
                            v[2] as int,
                        );
                    }
                },
            }
            proof {
                lemma_rgba_len_facts(img.width as int, img.height as int, img.data@.len() as int);
            }
            let rgb = rgba_to_rgb(&img.data);
            match encode_png_rgb(img.width, img.height, &rgb) {
                Ok(v) => {
                    *data = v;
                    Ok(())
                },
                Err(()) => Err(
                    ErrorMessage::new(FailureKind::EncodeFailure, "PNG encoding failed"),
                ),
            }
        } else {
            match encode_png_rgba(img.width, img.height, &img.data) {
                Ok(v) => {
                    *data = v;
                    Ok(())
                },
                Err(()) => Err(
                    ErrorMessage::new(FailureKind::EncodeFailure, "PNG encoding failed"),
                ),
            }
        }
    }
}

/// Re-encodes a raster image as PNG with its transparency blended over a
/// solid background; an image without an alpha channel is left untouched.
/// The background arrives as the four big-endian bytes of a `0x00RRGGBB`
/// number.  It succeeds exactly on input that decodes, with usable
/// dimensions where re-encoding is needed at all.
pub fn png_to_png(data: &mut Vec<u8>, background: [u8; 4]) -> (r: Result<(), ErrorMessage>)
    ensures
        r is Ok <==> (decoded_rgba(old(data)@) matches Some(t) && (!t.3 || usable_dims(
            t.0 as int,
            t.1 as int,
        ))),
        r is Err ==> final(data)@ == old(data)@,
        r matches Err(e) ==> e.kind == FailureKind::DecodeFailure,
        r is Ok ==> (decoded_rgba(old(data)@) matches Some(t) && if t.3 {
            final(data)@ == png_of_rgb(
                t.0,
                t.1,
                rgb_of(
                    blended_of(
                        t.2,
                        background[1] as int,
                        background[2] as int,
                        background[3] as int,
                    ),
                ),
            )
        } else {
            final(data)@ == old(data)@
        }),
{
    let (w, h, mut px, has_alpha) = match decode_rgba(data.as_slice()) {
        Ok(t) => t,
        Err(()) => {
            return Err(ErrorMessage::new(FailureKind::DecodeFailure, "unrecognized image data"));
        },
    };
    if !has_alpha {
        return Ok(());
    }
    if w < 1 || h < 1 || w > i32::MAX as u32 || h > i32::MAX as u32 {
        return Err(ErrorMessage::new(FailureKind::DecodeFailure, "no usable image dimensions"));
    }
    proof {
        lemma_rgba_len_facts(w as int, h as int, px@.len() as int);
    }
    set_background(&mut px, background);
    let rgb = rgba_to_rgb(&px);
    match encode_png_rgb(w, h, &rgb) {
        Ok(v) => {
            *data = v;
            Ok(())
        },
        Err(()) => Err(ErrorMessage::new(FailureKind::EncodeFailure, "PNG encoding failed")),
    }
}

/// Decodes a WebP image and re-encodes it as PNG, blending transparency
/// over the given background color first.  It succeeds exactly on input
/// that decodes to usable dimensions.
pub fn webp_to_png(data: &[u8], background: [u8; 4]) -> (r: Result<Vec<u8>, ErrorMessage>)
    ensures
        r is Ok <==> (decoded_webp(data@) matches Some(t) && usable_dims(t.0 as int, t.1 as int)),
        r matches Err(e) ==> e.kind == FailureKind::DecodeFailure,
        r matches Ok(v) ==> (decoded_webp(data@) matches Some(t) && v@ == png_of_rgb(
            t.0,
            t.1,
            rgb_of(
                if t.3 {
                    blended_of(
                        t.2,
                        background[1] as int,
                        background[2] as int,
                        background[3] as int,
                    )
                } else {
                    t.2
                },
            ),
        )),
{
    let (w, h, mut px, has_alpha) = match decode_webp(data) {
        Ok(t) => t,
        Err(()) => {
            return Err(ErrorMessage::new(FailureKind::DecodeFailure, "unrecognized WebP data"));
        },
    };
    if w < 1 || h < 1 || w > i32::MAX as u32 || h > i32::MAX as u32 {
        return Err(ErrorMessage::new(FailureKind::DecodeFailure, "no usable image dimensions"));
    }
    proof {
        lemma_rgba_len_facts(w as int, h as int, px@.len() as int);
    }
    if has_alpha {
        set_background(&mut px, background);
    }
    let rgb = rgba_to_rgb(&px);
    match encode_png_rgb(w, h, &rgb) {
        Ok(v) => Ok(v),
        Err(()) => Err(ErrorMessage::new(FailureKind::EncodeFailure, "PNG encoding failed")),
    }
}

/// Converts one rendered BGRA animation frame into a PNG that keeps its
/// alpha channel.  Every frame of usable dimensions converts.
pub fn rendered_frame_to_png(width: u32, height: u32, bgra: &Vec<u8>) -> (r: Result<
    Vec<u8>,
    ErrorMessage,
>)
    requires
        bgra@.len() == 4 * (width as int) * (height as int),
    ensures
        usable_dims(width as int, height as int) ==> r is Ok,
        r matches Ok(v) ==> v@ == png_of_rgba(width as nat, height as nat, swap_rb(bgra@)),
        r matches Err(e) ==> e.kind == FailureKind::EncodeFailure,
{
    proof {
        lemma_rgba_len_facts(width as int, height as int, bgra@.len() as int);
    }
    let rgba = bgra_to_rgba(bgra);
    match encode_png_rgba(width, height, &rgba) {
        Ok(v) => Ok(v),
        Err(()) => Err(ErrorMessage::new(FailureKind::EncodeFailure, "PNG encoding failed")),
    }
}

} // verus!
