use std::io::Write;

use avatar_core::color::Color;
use avatar_core::error::FailureKind;
use avatar_core::job::{plan_media, should_throttle, ConvertAction, MediaClass, MediaInfo};
use avatar_core::pipeline::{
    frame_set_color, mux_error_tolerable, needs_global_header, read_animation_json, tgs_to_mp4,
    video_to_mp4, wants_vp9_substitute, FrameMeta, FrameStep, PixelFormat, Rational,
};

fn meta(width: i32, height: i32, format: PixelFormat, pts: i64) -> FrameMeta {
    FrameMeta { width, height, format, pts }
}

#[test]
fn non_square_clip_is_cropped_to_square() {
    // 3 seconds of 640x480 at 30 fps, time base 1/30
    let tb = Rational { num: 1, den: 30 };
    let fr = Rational { num: 30, den: 1 };
    let frames: Vec<FrameMeta> =
        (0..90).map(|i| meta(640, 480, PixelFormat::Yuv420p, i)).collect();
    let plan = video_to_mp4(&frames, tb, fr, Color::Rgb([255, 255, 255])).unwrap();
    let scale = plan.scale.unwrap();
    assert_eq!(scale.crop_x, 80);
    assert_eq!(scale.crop_y, 0);
    assert_eq!(scale.crop_len, 480);
    assert_eq!(scale.dst_len, 480);
    assert_eq!(scale.dst_format, PixelFormat::Yuv420p);
    assert_eq!(plan.encode.width, 480);
    assert_eq!(plan.encode.height, 480);
    assert_eq!(plan.encode.dst_format, PixelFormat::Yuv420p);
    assert_eq!(plan.steps.len(), 90);
    assert!(plan.steps.iter().all(|s| *s == FrameStep::Convert));
}

#[test]
fn long_clip_is_truncated_at_ten_seconds() {
    // 15 seconds at 30 fps: the source ends at the first frame past pts 300
    let tb = Rational { num: 1, den: 30 };
    let fr = Rational { num: 30, den: 1 };
    let frames: Vec<FrameMeta> =
        (0..450).map(|i| meta(480, 480, PixelFormat::Yuv420p, i)).collect();
    let plan = video_to_mp4(&frames, tb, fr, Color::Rgb([255, 255, 255])).unwrap();
    assert_eq!(plan.steps.len(), 302);
    assert_eq!(*plan.steps.last().unwrap(), FrameStep::Stop);
    assert!(plan.steps[..301].iter().all(|s| *s == FrameStep::Direct));
    assert!(plan.scale.is_none());
}

#[test]
fn duplicate_timestamps_are_skipped() {
    let tb = Rational { num: 1, den: 30 };
    let fr = Rational { num: 30, den: 1 };
    let frames = vec![
        meta(480, 480, PixelFormat::Yuv420p, 0),
        meta(480, 480, PixelFormat::Yuv420p, 0),
        meta(480, 480, PixelFormat::Yuv420p, 1),
    ];
    let plan = video_to_mp4(&frames, tb, fr, Color::Trans).unwrap();
    assert_eq!(plan.steps, vec![FrameStep::Direct, FrameStep::Skip, FrameStep::Direct]);
}

#[test]
fn alpha_bearing_clip_converts_to_bgra() {
    let tb = Rational { num: 1, den: 25 };
    let fr = Rational { num: 25, den: 1 };
    let frames = vec![meta(512, 512, PixelFormat::Yuva420p, 0)];
    let plan = video_to_mp4(&frames, tb, fr, Color::Trans).unwrap();
    let scale = plan.scale.unwrap();
    assert_eq!(scale.dst_format, PixelFormat::Bgra);
    assert_eq!(scale.dst_len, 512);
}

#[test]
fn odd_dimension_is_rounded_up_even() {
    let tb = Rational { num: 1, den: 25 };
    let fr = Rational { num: 25, den: 1 };
    let frames = vec![meta(333, 333, PixelFormat::Yuv420p, 0)];
    let plan = video_to_mp4(&frames, tb, fr, Color::Trans).unwrap();
    let scale = plan.scale.unwrap();
    assert_eq!(scale.crop_len, 333);
    assert_eq!(scale.dst_len, 334);
}

#[test]
fn empty_or_all_late_clip_is_a_decode_failure() {
    let tb = Rational { num: 1, den: 1 };
    let fr = Rational { num: 30, den: 1 };
    let e = video_to_mp4(&Vec::new(), tb, fr, Color::Trans).unwrap_err();
    assert_eq!(e.kind, FailureKind::DecodeFailure);
    // a single frame already past the ceiling leaves nothing to encode
    let frames = vec![meta(480, 480, PixelFormat::Yuv420p, 11)];
    let e = video_to_mp4(&frames, tb, fr, Color::Trans).unwrap_err();
    assert_eq!(e.kind, FailureKind::DecodeFailure);
}

#[test]
fn rendered_frames_are_composited_and_stamped() {
    // two 1x1 transparent BGRA frames on a solid RGB background (10,20,30):
    // the BGRA bytes become (30,20,10,255)
    let frames = vec![vec![0, 0, 0, 0], vec![0, 0, 0, 0]];
    let fr = Rational { num: 60, den: 2 };
    let (out, plan) = tgs_to_mp4(&frames, 1, 1, fr, Color::Rgb([10, 20, 30])).unwrap();
    assert_eq!(out.len(), 2);
    assert_eq!(out[0].pts, 0);
    assert_eq!(out[1].pts, 1);
    assert_eq!(out[0].data, vec![30, 20, 10, 255]);
    assert_eq!(plan.width, 1);
    assert_eq!(plan.height, 1);
    assert_eq!(plan.time_base, Rational { num: 2, den: 60 });
    assert_eq!(plan.framerate, fr);
    assert_eq!(plan.dst_format, PixelFormat::Yuv420p);
}

#[test]
fn animation_without_frames_is_a_decode_failure() {
    let fr = Rational { num: 30, den: 1 };
    let e = tgs_to_mp4(&Vec::new(), 1, 1, fr, Color::Trans).unwrap_err();
    assert_eq!(e.kind, FailureKind::DecodeFailure);
}

#[test]
fn frame_set_color_touches_only_bgra() {
    let mut bgra = vec![0, 0, 0, 0];
    frame_set_color(&mut bgra, 1, 1, PixelFormat::Bgra, Color::Rgb([10, 20, 30]));
    assert_eq!(bgra, vec![30, 20, 10, 255]);
    let mut yuv = vec![9, 9, 9, 9];
    frame_set_color(&mut yuv, 1, 1, PixelFormat::Yuv420p, Color::Rgb([10, 20, 30]));
    assert_eq!(yuv, vec![9, 9, 9, 9]);
}

#[test]
fn gzip_animation_roundtrip() {
    let json = b"{\"v\":\"5.5.7\",\"fr\":60}".to_vec();
    let mut enc = flate2::write::GzEncoder::new(Vec::new(), flate2::Compression::default());
    enc.write_all(&json).unwrap();
    let packed = enc.finish().unwrap();
    assert_eq!(read_animation_json(&packed).unwrap(), json);
}

#[test]
fn corrupt_animation_is_a_decode_failure() {
    let e = read_animation_json(&[1, 2, 3, 4]).unwrap_err();
    assert_eq!(e.kind, FailureKind::DecodeFailure);
}

#[test]
fn decoder_substitution_and_mux_tolerance() {
    assert!(wants_vp9_substitute(b"vp9"));
    assert!(!wants_vp9_substitute(b"h264"));
    assert!(!wants_vp9_substitute(b"vp8"));
    assert!(mux_error_tolerable(-22));
    assert!(!mux_error_tolerable(-5));
    assert!(needs_global_header(0x40));
    assert!(needs_global_header(0x41));
    assert!(!needs_global_header(0x20));
}

#[test]
fn media_dispatch_matches_the_command_rules() {
    let video_sq = MediaInfo {
        class: MediaClass::Document,
        size: Some(1024),
        mime: Some(b"video/mp4".to_vec()),
        resolution: Some((480, 480)),
    };
    let p = plan_media(&video_sq);
    assert!(p.download && p.is_video);
    assert_eq!(p.convert, ConvertAction::VideoAsIs);

    let video_wide = MediaInfo {
        class: MediaClass::Document,
        size: Some(1024),
        mime: Some(b"video/mp4".to_vec()),
        resolution: Some((640, 480)),
    };
    assert_eq!(plan_media(&video_wide).convert, ConvertAction::VideoToMp4);
    assert!(plan_media(&video_wide).is_video);

    let webm = MediaInfo {
        class: MediaClass::Document,
        size: Some(1024),
        mime: Some(b"video/webm".to_vec()),
        resolution: Some((480, 480)),
    };
    assert_eq!(plan_media(&webm).convert, ConvertAction::VideoToMp4);

    let tgs_sq = MediaInfo {
        class: MediaClass::Sticker,
        size: Some(1024),
        mime: Some(b"application/x-tgsticker".to_vec()),
        resolution: Some((512, 512)),
    };
    let p = plan_media(&tgs_sq);
    assert_eq!(p.convert, ConvertAction::TgsToMp4);
    assert!(p.is_video);

    let tgs_tall = MediaInfo {
        class: MediaClass::Sticker,
        size: Some(1024),
        mime: Some(b"application/x-tgsticker".to_vec()),
        resolution: Some((256, 512)),
    };
    let p = plan_media(&tgs_tall);
    assert_eq!(p.convert, ConvertAction::TgsToPng);
    assert!(!p.is_video);

    let photo = MediaInfo {
        class: MediaClass::Photo,
        size: Some(2048),
        mime: None,
        resolution: None,
    };
    let p = plan_media(&photo);
    assert!(p.download && !p.is_video);
    assert_eq!(p.convert, ConvertAction::StillImage);
}

#[test]
fn oversized_or_unsupported_media_is_not_downloaded() {
    let big = MediaInfo {
        class: MediaClass::Document,
        size: Some(11 * 1024 * 1024),
        mime: Some(b"video/mp4".to_vec()),
        resolution: Some((480, 480)),
    };
    assert!(!plan_media(&big).download);

    let unknown = MediaInfo {
        class: MediaClass::Unsupported,
        size: Some(10),
        mime: None,
        resolution: None,
    };
    assert!(!plan_media(&unknown).download);

    let thumbless = MediaInfo { class: MediaClass::Photo, size: None, mime: None, resolution: None };
    assert!(!plan_media(&thumbless).download);
}

#[test]
fn throttle_only_real_changes_inside_interval() {
    assert!(should_throttle(5, false));
    assert!(!should_throttle(5, true));
    assert!(!should_throttle(30, false));
    assert!(!should_throttle(31, false));
}
