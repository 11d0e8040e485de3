use avatar_core::color::str_to_color;
use avatar_core::cursor::{MemCursor, Whence};
use avatar_core::geometry::{face_image_rect, select_face, Rect};
use avatar_core::pixels::{alpha_composite, set_color, trans_flag};

#[test]
fn opaque_pixel_composite_is_noop() {
    let px = [10u8, 20, 30, 255];
    assert_eq!(alpha_composite(px, [1, 2, 3]), [10, 20, 30, 255]);
}

#[test]
fn transparent_pixel_becomes_background() {
    let px = [10u8, 20, 30, 0];
    assert_eq!(alpha_composite(px, [1, 2, 3]), [1, 2, 3, 255]);
}

#[test]
fn half_transparent_pixel_blends_exactly() {
    let px = [100u8, 0, 0, 128];
    // ch0: 50 + (100-50)*128/255 = 75; ch1: 200 - 200*128/255 = 100;
    // ch2: 10 - 10*128/255 = 5
    assert_eq!(alpha_composite(px, [50, 200, 10]), [75, 100, 5, 255]);
}

#[test]
fn set_color_composites_every_pixel() {
    let mut data = vec![10, 20, 30, 255, 1, 2, 3, 0];
    set_color(&mut data, [9, 8, 7]);
    assert_eq!(data, vec![10, 20, 30, 255, 9, 8, 7, 255]);
}

#[test]
fn trans_flag_five_rows_one_band_each() {
    // A 1x5 transparent image: each row takes its band's exact color.
    let mut data = vec![0u8; 20];
    trans_flag(&mut data, 1, 5, true);
    let rows: Vec<&[u8]> = data.chunks(4).collect();
    assert_eq!(rows[0], &[0x5b, 0xce, 0xfa, 255]);
    assert_eq!(rows[1], &[0xf5, 0xa9, 0xb8, 255]);
    assert_eq!(rows[2], &[0xff, 0xff, 0xff, 255]);
    assert_eq!(rows[3], &[0xf5, 0xa9, 0xb8, 255]);
    assert_eq!(rows[4], &[0x5b, 0xce, 0xfa, 255]);
}

#[test]
fn trans_flag_bands_cover_all_rows_without_gaps() {
    // Height 13: bands of 2,2,2,2 rows and a last band absorbing the rest.
    let h = 13usize;
    let mut data = vec![0u8; 4 * h];
    trans_flag(&mut data, 1, h, true);
    let expect = |band: usize| -> [u8; 3] {
        match band {
            2 => [0xff, 0xff, 0xff],
            1 | 3 => [0xf5, 0xa9, 0xb8],
            _ => [0x5b, 0xce, 0xfa],
        }
    };
    for y in 0..h {
        let band = (y / (h / 5)).min(4);
        let row = &data[4 * y..4 * y + 3];
        assert_eq!(row, &expect(band), "row {y}");
        assert_eq!(data[4 * y + 3], 255);
    }
}

#[test]
fn trans_flag_bgr_order_flips_palette() {
    let mut data = vec![0u8; 4 * 5];
    trans_flag(&mut data, 1, 5, false);
    assert_eq!(&data[0..4], &[0xfa, 0xce, 0x5b, 255]);
}

#[test]
fn select_face_picks_first_widest() {
    let faces = vec![
        Rect { x: 0, y: 0, width: 30, height: 30 },
        Rect { x: 5, y: 5, width: 40, height: 40 },
        Rect { x: 9, y: 9, width: 40, height: 40 },
        Rect { x: 2, y: 2, width: 10, height: 10 },
    ];
    assert_eq!(select_face(&faces), Some(1));
    assert_eq!(select_face(&Vec::new()), None);
}

#[test]
fn face_rect_is_square_inside_image() {
    let face = Rect { x: 40, y: 40, width: 20, height: 20 };
    let r = face_image_rect(100, 100, &face);
    // expansion = min(20, 80, 80) = 20, side 40; x = 40 - 10 = 30;
    // y = 40 - (10 + 3) = 27
    assert_eq!(r, Rect { x: 30, y: 27, width: 40, height: 40 });
    assert!(r.width == r.height);
    assert!(r.x + r.width <= 100 && r.y + r.height <= 100);
}

#[test]
fn face_rect_clamps_at_borders() {
    let face = Rect { x: 0, y: 0, width: 20, height: 20 };
    let r = face_image_rect(100, 100, &face);
    assert_eq!(r, Rect { x: 0, y: 0, width: 40, height: 40 });

    let face = Rect { x: 80, y: 80, width: 20, height: 20 };
    let r = face_image_rect(100, 100, &face);
    // side 40, clamped to the lower-right corner
    assert_eq!(r, Rect { x: 60, y: 60, width: 40, height: 40 });
}

#[test]
fn face_rect_fills_image_when_face_is_half() {
    // A face half the image wide expands to the whole image.
    let face = Rect { x: 25, y: 25, width: 50, height: 50 };
    let r = face_image_rect(100, 100, &face);
    assert_eq!(r, Rect { x: 0, y: 0, width: 100, height: 100 });
}

#[test]
fn str_to_color_reads_hex() {
    assert_eq!(str_to_color("ffc0cb"), [0, 0xff, 0xc0, 0xcb]);
    assert_eq!(str_to_color(" #ffc0cb "), [0, 0xff, 0xc0, 0xcb]);
    assert_eq!(str_to_color("+ff"), [0, 0, 0, 0xff]);
    assert_eq!(str_to_color("12345678"), [0x12, 0x34, 0x56, 0x78]);
}

#[test]
fn str_to_color_defaults_to_white() {
    assert_eq!(str_to_color("zzz"), [0, 0xff, 0xff, 0xff]);
    assert_eq!(str_to_color(""), [0, 0xff, 0xff, 0xff]);
    assert_eq!(str_to_color("fffffffff"), [0, 0xff, 0xff, 0xff]);
    assert_eq!(str_to_color("#"), [0, 0xff, 0xff, 0xff]);
    assert_eq!(str_to_color("-1"), [0, 0xff, 0xff, 0xff]);
}

#[test]
fn cursor_reads_in_chunks_to_the_end() {
    let mut c = MemCursor::new(vec![1, 2, 3, 4, 5]);
    assert_eq!(c.read(2), vec![1, 2]);
    assert_eq!(c.read(10), vec![3, 4, 5]);
    assert_eq!(c.read(1), Vec::<u8>::new());
}

#[test]
fn cursor_seek_all_origins() {
    let mut c = MemCursor::new(vec![1, 2, 3, 4, 5]);
    assert_eq!(c.seek(Whence::Size, 0), 5);
    assert_eq!(c.position(), 0);
    assert_eq!(c.seek(Whence::Start, 3), 3);
    assert_eq!(c.seek(Whence::Current, -1), 2);
    assert_eq!(c.seek(Whence::End, -2), 3);
    assert_eq!(c.seek(Whence::Current, -9), -1);
    assert_eq!(c.position(), 3);
    assert_eq!(c.read(2), vec![4, 5]);
}

#[test]
fn cursor_write_overwrites_extends_and_fills_gaps() {
    let mut c = MemCursor::new(vec![1, 2, 3]);
    c.seek(Whence::Start, 2);
    c.write(&[9, 9]);
    assert_eq!(c.position(), 4);
    c.seek(Whence::Start, 6);
    c.write(&[7]);
    assert_eq!(c.into_inner(), vec![1, 2, 9, 9, 0, 0, 7]);
}
