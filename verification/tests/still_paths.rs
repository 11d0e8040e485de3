use std::io::Cursor;

use avatar_core::color::{Align, Color, Opt};
use avatar_core::error::FailureKind;
use avatar_core::geometry::Rect;
use avatar_core::raster::{bgra_to_rgba, rgba_to_rgb, set_background, square_image, Raster};
use avatar_core::still::{image_to_png, png_to_png, rendered_frame_to_png, webp_to_png};

fn png_bytes_rgba(img: image::RgbaImage) -> Vec<u8> {
    let mut buf = Cursor::new(Vec::new());
    image::DynamicImage::ImageRgba8(img)
        .write_to(&mut buf, image::ImageOutputFormat::Png)
        .unwrap();
    buf.into_inner()
}

fn png_bytes_rgb(img: image::RgbImage) -> Vec<u8> {
    let mut buf = Cursor::new(Vec::new());
    image::DynamicImage::ImageRgb8(img)
        .write_to(&mut buf, image::ImageOutputFormat::Png)
        .unwrap();
    buf.into_inner()
}

fn opts(color: Color, align: Option<Align>, show_detect: bool) -> Opt {
    Opt { color, align, dry_run: false, show_detect }
}

#[test]
fn align_top_crops_opaque_tall_image() {
    // A 100x200 opaque raster: rows of the top half red, bottom half blue.
    let img = image::RgbImage::from_fn(100, 200, |_, y| {
        if y < 100 { image::Rgb([200, 10, 10]) } else { image::Rgb([10, 10, 200]) }
    });
    let mut data = png_bytes_rgb(img);
    let faces: Vec<Rect> = Vec::new();
    let opt = opts(Color::Rgb([0xff, 0xff, 0xff]), Some(Align::Top), false);
    image_to_png(&mut data, &opt, &faces).unwrap();

    let out = image::load_from_memory(&data).unwrap();
    assert!(!out.color().has_alpha());
    let out = out.into_rgb8();
    assert_eq!(out.dimensions(), (100, 100));
    for (_, _, px) in out.enumerate_pixels() {
        assert_eq!(px, &image::Rgb([200, 10, 10]));
    }
}

#[test]
fn gradient_on_transparent_square_shows_five_bands() {
    // A 512x512 fully transparent raster with the gradient background and
    // no alignment: uncropped, five bands, no alpha channel in the output.
    let img = image::RgbaImage::from_pixel(512, 512, image::Rgba([0, 0, 0, 0]));
    let mut data = png_bytes_rgba(img);
    let faces: Vec<Rect> = Vec::new();
    let opt = opts(Color::Trans, None, false);
    image_to_png(&mut data, &opt, &faces).unwrap();

    let out = image::load_from_memory(&data).unwrap();
    assert!(!out.color().has_alpha());
    let out = out.into_rgb8();
    assert_eq!(out.dimensions(), (512, 512));
    let band = 512 / 5; // 102
    assert_eq!(out.get_pixel(0, 0), &image::Rgb([0x5b, 0xce, 0xfa]));
    assert_eq!(out.get_pixel(256, band + 1), &image::Rgb([0xf5, 0xa9, 0xb8]));
    assert_eq!(out.get_pixel(256, 256), &image::Rgb([0xff, 0xff, 0xff]));
    assert_eq!(out.get_pixel(256, 4 * band + 1), &image::Rgb([0x5b, 0xce, 0xfa]));
    assert_eq!(out.get_pixel(511, 511), &image::Rgb([0x5b, 0xce, 0xfa]));
}

#[test]
fn face_crop_uses_widest_candidate() {
    // An opaque 100x100 raster with a distinctive region; the widest face
    // candidate drives the crop.
    let img = image::RgbImage::from_fn(100, 100, |x, y| {
        image::Rgb([x as u8, y as u8, 7])
    });
    let mut data = png_bytes_rgb(img);
    let faces = vec![
        Rect { x: 10, y: 10, width: 4, height: 4 },
        Rect { x: 40, y: 40, width: 20, height: 20 },
    ];
    let opt = opts(Color::Rgb([0xff, 0xff, 0xff]), None, false);
    image_to_png(&mut data, &opt, &faces).unwrap();
    let out = image::load_from_memory(&data).unwrap().into_rgb8();
    // face (40,40,20) expands to the square at (30,27) of side 40
    assert_eq!(out.dimensions(), (40, 40));
    assert_eq!(out.get_pixel(0, 0), &image::Rgb([30, 27, 7]));
}

#[test]
fn degenerate_face_candidates_are_ignored() {
    let img = image::RgbImage::from_pixel(50, 50, image::Rgb([1, 2, 3]));
    let mut data = png_bytes_rgb(img);
    // not a square, and one reaching outside the image: both dropped
    let faces = vec![
        Rect { x: 0, y: 0, width: 10, height: 12 },
        Rect { x: 45, y: 45, width: 20, height: 20 },
    ];
    let opt = opts(Color::Rgb([0xff, 0xff, 0xff]), None, false);
    image_to_png(&mut data, &opt, &faces).unwrap();
    let out = image::load_from_memory(&data).unwrap().into_rgb8();
    assert_eq!(out.dimensions(), (50, 50));
}

#[test]
fn show_detect_draws_boxes_and_keeps_size() {
    let img = image::RgbaImage::from_pixel(128, 128, image::Rgba([9, 9, 9, 255]));
    let mut data = png_bytes_rgba(img);
    let faces = vec![Rect { x: 30, y: 30, width: 64, height: 64 }];
    let opt = opts(Color::Rgb([0xff, 0xff, 0xff]), None, true);
    image_to_png(&mut data, &opt, &faces).unwrap();
    let out = image::load_from_memory(&data).unwrap().into_rgba8();
    // uncropped, with the candidate's black outline drawn (thickness 1)
    assert_eq!(out.dimensions(), (128, 128));
    assert_eq!(out.get_pixel(30, 30), &image::Rgba([0, 0, 0, 255]));
    // the selected face's expanded square is outlined in red
    let mut reds = 0;
    for (_, _, px) in out.enumerate_pixels() {
        if px == &image::Rgba([255, 0, 0, 255]) {
            reds += 1;
        }
    }
    assert!(reds > 0);
}

#[test]
fn malformed_image_is_a_decode_failure() {
    let mut data = vec![1, 2, 3, 4, 5];
    let opt = opts(Color::Rgb([0xff, 0xff, 0xff]), None, false);
    let e = image_to_png(&mut data, &opt, &Vec::new()).unwrap_err();
    assert_eq!(e.kind, FailureKind::DecodeFailure);
    assert_eq!(data, vec![1, 2, 3, 4, 5]);
}

#[test]
fn png_without_alpha_passes_through() {
    let img = image::RgbImage::from_pixel(3, 3, image::Rgb([5, 6, 7]));
    let mut data = png_bytes_rgb(img);
    let before = data.clone();
    png_to_png(&mut data, [0, 255, 0, 0]).unwrap();
    assert_eq!(data, before);
}

#[test]
fn png_with_alpha_is_blended_onto_background() {
    let img = image::RgbaImage::from_pixel(2, 2, image::Rgba([10, 20, 30, 0]));
    let mut data = png_bytes_rgba(img);
    png_to_png(&mut data, [0, 200, 100, 50]).unwrap();
    let out = image::load_from_memory(&data).unwrap();
    assert!(!out.color().has_alpha());
    let out = out.into_rgb8();
    // alpha 0: (255-0)*bg/255 + 0 = the background exactly
    assert_eq!(out.get_pixel(0, 0), &image::Rgb([200, 100, 50]));
}

#[test]
fn malformed_png_is_a_decode_failure() {
    let mut data = vec![9, 9, 9];
    let e = png_to_png(&mut data, [0, 255, 255, 255]).unwrap_err();
    assert_eq!(e.kind, FailureKind::DecodeFailure);
    assert_eq!(data, vec![9, 9, 9]);
}

#[test]
fn webp_roundtrip_blends_alpha() {
    let img = image::RgbaImage::from_pixel(4, 4, image::Rgba([10, 20, 30, 0]));
    let encoded = webp::Encoder::from_rgba(img.as_raw(), 4, 4).encode_lossless();
    let out = webp_to_png(&encoded, [0, 1, 2, 3]).unwrap();
    let out = image::load_from_memory(&out).unwrap().into_rgb8();
    assert_eq!(out.dimensions(), (4, 4));
    assert_eq!(out.get_pixel(1, 1), &image::Rgb([1, 2, 3]));
}

#[test]
fn malformed_webp_is_a_decode_failure() {
    let e = webp_to_png(&[1, 2, 3], [0, 255, 255, 255]).unwrap_err();
    assert_eq!(e.kind, FailureKind::DecodeFailure);
}

#[test]
fn rendered_frame_png_swaps_channels_and_keeps_alpha() {
    // one BGRA pixel (1,2,3,128) becomes RGBA (3,2,1,128)
    let out = rendered_frame_to_png(1, 1, &vec![1, 2, 3, 128]).unwrap();
    let img = image::load_from_memory(&out).unwrap();
    assert!(img.color().has_alpha());
    let img = img.into_rgba8();
    assert_eq!(img.get_pixel(0, 0), &image::Rgba([3, 2, 1, 128]));
}

#[test]
fn square_image_is_noop_on_square_or_wide_input() {
    let sq = Raster { width: 3, height: 3, data: vec![7; 36] };
    assert!(square_image(&sq, &Align::Top).is_none());
    let wide = Raster { width: 4, height: 2, data: vec![7; 32] };
    assert!(square_image(&wide, &Align::Center).is_none());
}

#[test]
fn square_image_crops_portrait_by_anchor() {
    // 1x4 image, pixels numbered by row
    let data: Vec<u8> = (0..16).collect();
    let img = Raster { width: 1, height: 4, data };
    let top = square_image(&img, &Align::Top).unwrap();
    assert_eq!(top.data, vec![0, 1, 2, 3]);
    let bottom = square_image(&img, &Align::Bottom).unwrap();
    assert_eq!(bottom.data, vec![12, 13, 14, 15]);
    let center = square_image(&img, &Align::Center).unwrap();
    assert_eq!(center.data, vec![4, 5, 6, 7]);
}

#[test]
fn raster_crop_copies_the_window() {
    // 2x2 image, distinct bytes per pixel
    let img = Raster { width: 2, height: 2, data: (0..16).collect() };
    let out = img.crop(&Rect { x: 1, y: 1, width: 1, height: 1 });
    assert_eq!(out.width, 1);
    assert_eq!(out.height, 1);
    assert_eq!(out.data, vec![12, 13, 14, 15]);
}

#[test]
fn channel_reshuffles_are_exact() {
    assert_eq!(rgba_to_rgb(&vec![1, 2, 3, 4, 5, 6, 7, 8]), vec![1, 2, 3, 5, 6, 7]);
    assert_eq!(bgra_to_rgba(&vec![1, 2, 3, 4]), vec![3, 2, 1, 4]);
}

#[test]
fn set_background_blend_is_exact() {
    // alpha 128: (127*bg + 128*src) / 255 per channel, truncated
    let mut data = vec![100, 150, 200, 128];
    set_background(&mut data, [0, 10, 20, 30]);
    let ch = |src: u32, bg: u32| ((255 - 128) * bg / 255 + 128 * src / 255) as u8;
    assert_eq!(data, vec![ch(100, 10), ch(150, 20), ch(200, 30), 255]);
}

#[test]
fn smallest_image_still_converts() {
    // the success contract covers every usable size, down to one pixel
    let img = image::RgbaImage::from_pixel(1, 1, image::Rgba([10, 20, 30, 0]));
    let mut data = png_bytes_rgba(img);
    let opt = opts(Color::Rgb([5, 6, 7]), None, false);
    image_to_png(&mut data, &opt, &Vec::new()).unwrap();
    let out = image::load_from_memory(&data).unwrap().into_rgb8();
    assert_eq!(out.dimensions(), (1, 1));
    assert_eq!(out.get_pixel(0, 0), &image::Rgb([5, 6, 7]));
}
