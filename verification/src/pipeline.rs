use vstd::prelude::*;
use std::io::Write;
use crate::color::{color_wf, Color};
use crate::error::{ErrorMessage, FailureKind};
use crate::pixels::{
    flag_composited, lemma_flag_composited_of, lemma_solid_composited_of, set_color,
    solid_composited, trans_flag,
};

verus! {

/// A rational number, as codec time bases and frame rates are carried.
#[derive(Clone, Copy, Debug, PartialEq, Eq, Structural)]
pub struct Rational {
    pub num: i32,
    pub den: i32,
}

impl Rational {
    /// The inverse rational: a frame rate turned into a time base.
    pub fn invert(self) -> (r: Rational)
        ensures
            r.num == self.den,
            r.den == self.num,
    {
        Rational { num: self.den, den: self.num }
    }
}

/// The pixel formats the pipeline distinguishes.  Every other format is
/// carried opaquely under its codec-library code.
#[derive(Clone, Copy, Debug, PartialEq, Eq, Structural)]
pub enum PixelFormat {
    Bgra,
    Yuv420p,
    Yuva420p,
    Other(i32),
}

/// What is known of one decoded frame: size, pixel format, presentation
/// timestamp.
#[derive(Clone, Copy, Debug, PartialEq, Eq, Structural)]
pub struct FrameMeta {
    pub width: i32,
    pub height: i32,
    pub format: PixelFormat,
    pub pts: i64,
}

/// A frame size the pipeline accepts: non-negative and with room for the
/// one-pixel rounding of the scaler output.
pub open spec fn meta_wf(m: FrameMeta) -> bool {
    &&& 0 <= m.width < i32::MAX
    &&& 0 <= m.height < i32::MAX
}

/// The one-time scaler configuration of the decoded-video source: a
/// centered square crop of the longer dimension, scaled to an even side and
/// converted to the destination format.
#[derive(Clone, Copy, Debug, PartialEq, Eq, Structural)]
pub struct ScalePlan {
    pub crop_x: i32,
    pub crop_y: i32,
    pub crop_len: i32,
    pub dst_len: i32,
    pub dst_format: PixelFormat,
}

/// What the pipeline does with one decoded frame.
#[derive(Clone, Copy, Debug, PartialEq, Eq, Structural)]
pub enum FrameStep {
    /// The presentation-time ceiling is reached: the source ends here.
    Stop,
    /// A duplicate timestamp: the frame is dropped.
    Skip,
    /// Fed to the encoder as it is.
    Direct,
    /// Cropped, scaled and converted through the established scaler first.
    Convert,
}

/// The fixed encoder configuration of one transcoding job.
#[derive(Clone, Copy, Debug, PartialEq, Eq, Structural)]
pub struct EncodePlan {
    pub width: i32,
    pub height: i32,
    pub time_base: Rational,
    pub framerate: Rational,
    pub dst_format: PixelFormat,
}

/// The complete schedule for transcoding a decoded clip to a square video:
/// one step per examined frame, the scaler to build (at most one, fixed by
/// the first frame that needs it), the encoder configuration, and the
/// background color to composite alpha-bearing frames onto.
#[derive(Debug)]
pub struct VideoPlan {
    pub steps: Vec<FrameStep>,
    pub scale: Option<ScalePlan>,
    pub encode: EncodePlan,
    pub color: Color,
}

/// Whether a frame's presentation time lies past the ten-second output
/// duration ceiling.
pub open spec fn past_ceiling(pts: int, tb: Rational) -> bool {
    pts * tb.num > 10 * tb.den
}

/// Whether a frame forces the scaler: a non-square frame, an alpha-bearing
/// planar frame that must be converted before compositing, or an odd
/// dimension the encoder could not take.
pub open spec fn needs_scaler(m: FrameMeta) -> bool {
    ||| m.width != m.height
    ||| m.format == PixelFormat::Yuva420p
    ||| (if m.width < m.height {
        m.width as int
    } else {
        m.height as int
    }) % 2 != 0
}

/// The scaler a frame establishes: a centered square crop of the shorter
/// side (the offset is the dimension difference halved, remainder
/// truncated), an even destination side, and a destination format of BGRA
/// for alpha-bearing input (so it can be composited) or planar YUV
/// otherwise.
pub open spec fn scale_plan_of(m: FrameMeta) -> ScalePlan {
    let diff = m.width - m.height;
    let x = if diff > 0 {
        diff / 2
    } else {
        0
    };
    let y = if diff > 0 {
        0
    } else {
        (0 - diff) / 2
    };
    let len = if diff > 0 {
        m.height as int
    } else {
        m.width as int
    };
    ScalePlan {
        crop_x: x as i32,
        crop_y: y as i32,
        crop_len: len as i32,
        dst_len: (len + len % 2) as i32,
        dst_format: if m.format == PixelFormat::Yuva420p {
            PixelFormat::Bgra
        } else {
            PixelFormat::Yuv420p
        },
    }
}

/// The decision for one frame, given the established scaler and the
/// timestamp of the last accepted frame.
pub open spec fn step_of(
    m: FrameMeta,
    tb: Rational,
    scale: Option<ScalePlan>,
    last_pts: int,
) -> FrameStep {
    if past_ceiling(m.pts as int, tb) {
        FrameStep::Stop
    } else if m.pts == last_pts {
        FrameStep::Skip
    } else if scale is Some || needs_scaler(m) {
        FrameStep::Convert
    } else {
        FrameStep::Direct
    }
}

/// The schedule state after examining a prefix of the decoded frames: the
/// steps taken, the established scaler, the timestamp of the last accepted
/// frame, whether the source was ended early, and the output frame size
/// fixed by the first accepted frame.
pub open spec fn plan_fold(frames: Seq<FrameMeta>, tb: Rational) -> (
    Seq<FrameStep>,
    Option<ScalePlan>,
    int,
    bool,
    Option<(int, int)>,
)
    decreases frames.len(),
{
    if frames.len() == 0 {
        (Seq::<FrameStep>::empty(), None::<ScalePlan>, -1int, false, None::<(int, int)>)
    } else {
        let prev = plan_fold(frames.drop_last(), tb);
        let m = frames.last();
        if prev.3 {
            prev
        } else {
            let st = step_of(m, tb, prev.1, prev.2);
            if st == FrameStep::Stop {
                (prev.0.push(FrameStep::Stop), prev.1, prev.2, true, prev.4)
            } else if st == FrameStep::Skip {
                (prev.0.push(FrameStep::Skip), prev.1, prev.2, false, prev.4)
            } else if st == FrameStep::Convert {
                let sc = if prev.1 is Some {
                    prev.1
                } else {
                    Some(scale_plan_of(m))
                };
                let nd = if prev.4 is Some {
                    prev.4
                } else {
                    match sc {
                        Some(s) => Some((s.dst_len as int, s.dst_len as int)),
                        None => None,
                    }
                };
                (prev.0.push(FrameStep::Convert), sc, m.pts as int, false, nd)
            } else {
                let nd = if prev.4 is Some {
                    prev.4
                } else {
                    Some((m.width as int, m.height as int))
                };
                (prev.0.push(FrameStep::Direct), prev.1, m.pts as int, false, nd)
            }
        }
    }
}

/// Whether a frame's presentation time lies past the duration ceiling, on
/// executable values.
fn past_ceiling_at(pts: i64, tb: Rational) -> (b: bool)
    ensures
        b == past_ceiling(pts as int, tb),
{
    proof {
        assert((pts as int) * (tb.num as int) < 0x1000000000000000000000000int && (pts as int) * (
        tb.num as int) > -0x1000000000000000000000000int) by (nonlinear_arith)
            requires
                -0x8000000000000000 <= pts as int <= 0x7fffffffffffffff,
                -0x80000000 <= tb.num as int <= 0x7fffffff,
        ;
    }
    (pts as i128) * (tb.num as i128) > 10 * (tb.den as i128)
}

/// Whether a frame forces the scaler, on executable values.
fn needs_scaler_at(m: &FrameMeta) -> (b: bool)
    requires
        meta_wf(*m),
    ensures
        b == needs_scaler(*m),
{
    let shorter = if m.width < m.height {
        m.width
    } else {
        m.height
    };
    m.width != m.height || matches!(m.format, PixelFormat::Yuva420p) || shorter % 2 != 0
}

/// The scaler a frame establishes, on executable values.
fn make_scale_plan(m: &FrameMeta) -> (sp: ScalePlan)
    requires
        meta_wf(*m),
    ensures
        sp == scale_plan_of(*m),
{
    let diff = m.width - m.height;
    let (x, y, len) = if diff > 0 {
        (diff / 2, 0, m.height)
    } else {
        (0, (0 - diff) / 2, m.width)
    };
    let dst_format = if matches!(m.format, PixelFormat::Yuva420p) {
        PixelFormat::Bgra
    } else {
        PixelFormat::Yuv420p
    };
    ScalePlan { crop_x: x, crop_y: y, crop_len: len, dst_len: len + len % 2, dst_format }
}

/// Computes the whole transcoding schedule for a decoded video clip: frames
/// past the ten-second presentation ceiling end the source, duplicate
/// timestamps are dropped, the first frame that is non-square,
/// alpha-bearing planar, or of odd size establishes the one scaler that
/// every following frame is converted through, and the first accepted frame
/// fixes the output size.  A clip whose schedule accepts no frame at all is
/// a decode failure.
pub fn video_to_mp4(
    frames: &Vec<FrameMeta>,
    time_base: Rational,
    framerate: Rational,
    color: Color,
) -> (r: Result<VideoPlan, ErrorMessage>)
    requires
        forall|i: int| 0 <= i < frames@.len() ==> meta_wf(#[trigger] frames@[i]),
    ensures
        r is Ok <==> plan_fold(frames@, time_base).4 is Some,
        r matches Err(e) ==> e.kind == FailureKind::DecodeFailure,
        r matches Ok(p) ==> {
            let f = plan_fold(frames@, time_base);
            &&& p.steps@ == f.0
            &&& p.scale == f.1
            &&& f.4 == Some((p.encode.width as int, p.encode.height as int))
            &&& p.encode.time_base == time_base
            &&& p.encode.framerate == framerate
            &&& p.encode.dst_format == PixelFormat::Yuv420p
            &&& p.color == color
        },
{
    let mut steps: Vec<FrameStep> = Vec::new();
    let mut scale: Option<ScalePlan> = None;
    let mut last_pts: i64 = -1;
    let mut stopped: bool = false;
    let mut dims: Option<(i32, i32)> = None;
    let mut i: usize = 0;
    while i < frames.len()
        invariant
            0 <= i <= frames@.len(),
            forall|j: int| 0 <= j < frames@.len() ==> meta_wf(#[trigger] frames@[j]),
            ({
                let f = plan_fold(frames@.take(i as int), time_base);
                &&& steps@ == f.0
                &&& scale == f.1
                &&& last_pts as int == f.2
                &&& stopped == f.3
                &&& (dims is None <==> f.4 is None)
                &&& (dims matches Some(d) ==> f.4 == Some((d.0 as int, d.1 as int)))
            }),
        decreases frames@.len() - i,
    {
        proof {
            assert(frames@.take(i + 1).drop_last() == frames@.take(i as int));
            assert(frames@.take(i + 1).last() == frames@[i as int]);
        }
        if !stopped {
            let m = frames[i];
            if past_ceiling_at(m.pts, time_base) {
                steps.push(FrameStep::Stop);
                stopped = true;
            } else if m.pts == last_pts {
                steps.push(FrameStep::Skip);
            } else {
                if scale.is_none() && needs_scaler_at(&m) {
                    scale = Some(make_scale_plan(&m));
                }
                match &scale {
                    Some(sp) => {
                        steps.push(FrameStep::Convert);
                        if dims.is_none() {
                            dims = Some((sp.dst_len, sp.dst_len));
                        }
                    },
                    None => {
                        steps.push(FrameStep::Direct);
                        if dims.is_none() {
                            dims = Some((m.width, m.height));
                        }
                    },
                }
                last_pts = m.pts;
            }
        }
        i += 1;
    }
    proof {
        assert(frames@.take(frames@.len() as int) == frames@);
    }
    match dims {
        Some(d) => Ok(
            VideoPlan {
                steps,
                scale,
                encode: EncodePlan {
                    width: d.0,
                    height: d.1,
                    time_base,
                    framerate,
                    dst_format: PixelFormat::Yuv420p,
                },
                color,
            },
        ),
        None => Err(
            ErrorMessage::new(FailureKind::DecodeFailure, "no usable frame in the video stream"),
        ),
    }
}

/// Law: the schedule examines at most every frame, and exactly every frame
/// unless the source was ended early.
pub proof fn lemma_plan_fold_len(frames: Seq<FrameMeta>, tb: Rational)
    ensures
        plan_fold(frames, tb).0.len() <= frames.len(),
        !plan_fold(frames, tb).3 ==> plan_fold(frames, tb).0.len() == frames.len(),
    decreases frames.len(),
{
    if frames.len() > 0 {
        lemma_plan_fold_len(frames.drop_last(), tb);
    }
}

/// Law: step `i` of the schedule is the decision for frame `i`, taken in
/// the state after the first `i` frames, and the source had not ended
/// before it.
pub proof fn lemma_plan_fold_step(frames: Seq<FrameMeta>, tb: Rational, i: int)
    requires
        0 <= i < plan_fold(frames, tb).0.len(),
    ensures
        plan_fold(frames, tb).0[i] == step_of(
            frames[i],
            tb,
            plan_fold(frames.take(i), tb).1,
            plan_fold(frames.take(i), tb).2,
        ),
        !plan_fold(frames.take(i), tb).3,
    decreases frames.len(),
{
    let whole = plan_fold(frames, tb);
    let prev = plan_fold(frames.drop_last(), tb);
    lemma_plan_fold_len(frames, tb);
    lemma_plan_fold_len(frames.drop_last(), tb);
    if i < prev.0.len() {
        lemma_plan_fold_step(frames.drop_last(), tb, i);
        assert(frames.drop_last().take(i) == frames.take(i));
        assert(frames.drop_last()[i] == frames[i]);
        assert(whole.0[i] == prev.0[i]);
    } else {
        assert(!prev.3);
        assert(prev.0.len() == frames.len() - 1);
        assert(i == frames.len() - 1);
        assert(frames.take(i) == frames.drop_last());
        assert(whole.0[i] == step_of(frames[i], tb, prev.1, prev.2));
    }
}

/// Law: no frame the schedule accepts lies past the ten-second duration
/// ceiling: the output is truncated to the first ten seconds of
/// presentation time.
pub proof fn lemma_duration_ceiling(frames: Seq<FrameMeta>, tb: Rational, i: int)
    requires
        0 <= i < plan_fold(frames, tb).0.len(),
        plan_fold(frames, tb).0[i] == FrameStep::Direct || plan_fold(frames, tb).0[i]
            == FrameStep::Convert,
    ensures
        !past_ceiling(frames[i].pts as int, tb),
{
    lemma_plan_fold_step(frames, tb, i);
}

/// Law: the scaler is established at most once; once some frame fixed it,
/// the schedule keeps the same scaler for every longer prefix.
pub proof fn lemma_scaler_stable(frames: Seq<FrameMeta>, tb: Rational, i: int, j: int)
    requires
        0 <= i <= j <= frames.len(),
        plan_fold(frames.take(i), tb).1 is Some,
    ensures
        plan_fold(frames.take(j), tb).1 == plan_fold(frames.take(i), tb).1,
    decreases j - i,
{
    if i < j {
        lemma_scaler_stable(frames, tb, i, j - 1);
        assert(frames.take(j).drop_last() == frames.take(j - 1));
    }
}

/// Law: after the scaler is established, no frame is fed to the encoder
/// directly: every following accepted frame is converted through the same
/// scaler.
pub proof fn lemma_convert_after_scaler(frames: Seq<FrameMeta>, tb: Rational, i: int, j: int)
    requires
        0 <= i <= j < plan_fold(frames, tb).0.len(),
        plan_fold(frames, tb).0[i] == FrameStep::Convert,
    ensures
        plan_fold(frames, tb).0[j] != FrameStep::Direct,
    decreases j - i,
{
    lemma_plan_fold_step(frames, tb, i);
    lemma_plan_fold_step(frames, tb, j);
    lemma_plan_fold_len(frames, tb);
    if i < j {
        assert(plan_fold(frames.take(i + 1), tb).1 is Some) by {
            assert(frames.take(i + 1).drop_last() == frames.take(i));
            assert(frames.take(i + 1).last() == frames[i]);
        }
        lemma_scaler_stable(frames, tb, i + 1, j);
    }
}

/// One rendered or decoded frame the encoder takes: its pixel bytes and
/// presentation timestamp.
#[derive(Debug)]
pub struct Frame {
    pub data: Vec<u8>,
    pub pts: i64,
}

/// The pixels of one BGRA frame after the background is applied: solid
/// colors arrive in RGB order and are flipped to the buffer's BGR layout,
/// and the flag gradient uses its BGR palette.  A frame in any other format
/// is left untouched.
pub open spec fn frame_colored(
    data: Seq<u8>,
    w: int,
    h: int,
    format: PixelFormat,
    color: Color,
) -> Seq<u8> {
    if format != PixelFormat::Bgra {
        data
    } else {
        match color {
            Color::Rgb(v) => solid_composited(data, v[2] as int, v[1] as int, v[0] as int),
            Color::Trans => flag_composited(data, w, h, false),
        }
    }
}

/// Composites one raw frame buffer onto the requested background, in
/// place.  Only packed BGRA frames are touched: any other format passes
/// through unchanged, as its pixels are not byte-addressable here.
pub fn frame_set_color(
    data: &mut Vec<u8>,
    width: usize,
    height: usize,
    format: PixelFormat,
    color: Color,
)
    requires
        format == PixelFormat::Bgra ==> old(data)@.len() == 4 * width * height,
        color_wf(color),
    ensures
        final(data)@ == frame_colored(
            old(data)@,
            width as int,
            height as int,
            format,
            color,
        ),
{
    if !matches!(format, PixelFormat::Bgra) {
        return ;
    }
    let ghost pre = data@;
    match color {
        Color::Rgb(v) => {
            proof {
                vstd::arithmetic::div_mod::lemma_mod_multiples_basic(
                    (width * height) as int,
                    4,
                );
                vstd::arithmetic::mul::lemma_mul_is_associative(
                    4,
                    width as int,
                    height as int,
                );
            }
            let bgr = [v[2], v[1], v[0]];
            set_color(data, bgr);
            proof {
                lemma_solid_composited_of(pre, data@, v[2] as int, v[1] as int, v[0] as int);
            }
        },
        Color::Trans => {
            trans_flag(data, width, height, false);
            proof {
                lemma_flag_composited_of(pre, data@, width as int, height as int, false);
            }
        },
    }
}

/// Prepares the rendered frames of a vector animation for encoding: each
/// BGRA frame is composited onto the requested background and stamped with
/// its index as presentation timestamp; the encoder runs at the animation's
/// size and frame rate, with the time base the inverted rate.  An animation
/// with no frames is a decode failure.
pub fn tgs_to_mp4(
    frames: &Vec<Vec<u8>>,
    width: u32,
    height: u32,
    framerate: Rational,
    color: Color,
) -> (r: Result<(Vec<Frame>, EncodePlan), ErrorMessage>)
    requires
        color_wf(color),
        width <= i32::MAX,
        height <= i32::MAX,
        frames@.len() <= i64::MAX,
        forall|i: int|
            0 <= i < frames@.len() ==> (#[trigger] frames@[i])@.len() == 4 * (width as int) * (
            height as int),
    ensures
        r is Ok <==> frames@.len() > 0,
        r matches Err(e) ==> e.kind == FailureKind::DecodeFailure,
        r matches Ok(p) ==> {
            &&& p.0@.len() == frames@.len()
            &&& forall|i: int|
                0 <= i < frames@.len() ==> (#[trigger] p.0@[i]).pts == i && p.0@[i].data@
                    == frame_colored(
                    frames@[i]@,
                    width as int,
                    height as int,
                    PixelFormat::Bgra,
                    color,
                )
            &&& p.1 == (EncodePlan {
                width: width as i32,
                height: height as i32,
                time_base: Rational { num: framerate.den, den: framerate.num },
                framerate,
                dst_format: PixelFormat::Yuv420p,
            })
        },
{
    if frames.len() == 0 {
        return Err(ErrorMessage::new(FailureKind::DecodeFailure, "the animation has no frames"));
    }
    let mut out: Vec<Frame> = Vec::new();
    let mut i: usize = 0;
    while i < frames.len()
        invariant
            0 <= i <= frames@.len(),
            frames@.len() <= i64::MAX,
            color_wf(color),
            forall|j: int|
                0 <= j < frames@.len() ==> (#[trigger] frames@[j])@.len() == 4 * (width as int) * (
                height as int),
            out@.len() == i,
            forall|j: int|
                0 <= j < i ==> (#[trigger] out@[j]).pts == j && out@[j].data@ == frame_colored(
                    frames@[j]@,
                    width as int,
                    height as int,
                    PixelFormat::Bgra,
                    color,
                ),
        decreases frames@.len() - i,
    {
        let mut d = frames[i].clone();
        proof {
            assert forall|k: int| 0 <= k < d@.len() implies d@[k] == frames@[i as int]@[k] by {
                assert(vstd::pervasive::cloned::<u8>(frames@[i as int]@[k], d@[k]));
            }
            assert(d@ =~= frames@[i as int]@);
            vstd::arithmetic::mul::lemma_mul_is_associative(4, width as int, height as int);
        }
        let w = width as usize;
        let h = height as usize;
        frame_set_color(&mut d, w, h, PixelFormat::Bgra, color);
        out.push(Frame { data: d, pts: i as i64 });
        i += 1;
    }
    let plan = EncodePlan {
        width: width as i32,
        height: height as i32,
        time_base: framerate.invert(),
        framerate,
        dst_format: PixelFormat::Yuv420p,
    };
    Ok((out, plan))
}

/// What gzip decompression yields for a byte string, if it is valid.
pub uninterp spec fn gunzip_of(data: Seq<u8>) -> Option<Seq<u8>>;

/// Relies on flate2's write-side GzDecoder: the compressed bytes are
/// written through the decoder, the stream is finished, and the decoded
/// bytes collected; the result depends on the input bytes alone.
#[verifier::external_body]
fn gunzip(data: &[u8]) -> (r: Result<Vec<u8>, ()>)
    ensures
        r is Ok <==> gunzip_of(data@) is Some,
        r matches Ok(v) ==> gunzip_of(data@) == Some(v@),
{
    let mut dec = flate2::write::GzDecoder::new(Vec::new());
    if dec.write_all(data).is_err() {
        return Err(());
    }
    match dec.finish() {
        Ok(v) => Ok(v),
        Err(_) => Err(()),
    }
}

/// Unpacks the gzip-compressed vector-animation description into its
/// JSON-like bytes; undecodable input is a decode failure.
pub fn read_animation_json(data: &[u8]) -> (r: Result<Vec<u8>, ErrorMessage>)
    ensures
        r is Ok <==> gunzip_of(data@) is Some,
        r matches Ok(v) ==> gunzip_of(data@) == Some(v@),
        r matches Err(e) ==> e.kind == FailureKind::DecodeFailure,
{
    match gunzip(data) {
        Ok(v) => Ok(v),
        Err(()) => Err(ErrorMessage::new(FailureKind::DecodeFailure, "invalid animation data")),
    }
}

/// Whether the decoder of this name should be replaced by the software VP9
/// decoder: the native decoder named `vp9` is substituted when available,
/// a recovered, non-fatal condition when it is not.
pub fn wants_vp9_substitute(name: &[u8]) -> (r: bool)
    ensures
        r <==> name@ == seq![118u8, 112u8, 57u8],
{
    let hit = name.len() == 3 && name[0] == 118 && name[1] == 112 && name[2] == 57;
    proof {
        if hit {
            assert(name@ =~= seq![118u8, 112u8, 57u8]);
        }
    }
    hit
}

/// Whether a muxer error is tolerated rather than fatal: the
/// non-monotonic-timestamp class of error (code -22), which timestamp
/// rounding can produce for a duplicate instant, must not abort the job.
pub fn mux_error_tolerable(code: i32) -> (r: bool)
    ensures
        r <==> code == -22,
{
    code == -22
}

/// Whether the container requires stream global headers, read from the
/// output format's flag word; the encoder's header-emission flag follows
/// it.
pub fn needs_global_header(oformat_flags: i32) -> (r: bool)
    ensures
        r <==> oformat_flags & 0x40 != 0,
{
    oformat_flags & 0x40 != 0
}

} // verus!
