use vstd::prelude::*;

verus! {

/// The upload size ceiling: media larger than this is not downloaded.
pub const MAX_FILESIZE: i64 = 10 * 1024 * 1024;

/// The cool-down between avatar changes of one conversation, in seconds.
pub const MIN_INTERVAL_SECS: u64 = 30;

/// The kind of media the replied-to message offers.
#[derive(Clone, Copy, Debug, PartialEq, Eq, Structural)]
pub enum MediaClass {
    Photo,
    Document,
    Sticker,
    Unsupported,
}

/// What the command layer reads off a message's media before any byte is
/// downloaded: the kind, the byte size (for a photo, of its largest
/// thumbnail, when one exists), the declared MIME type, and the declared
/// pixel resolution.
#[derive(Debug)]
pub struct MediaInfo {
    pub class: MediaClass,
    pub size: Option<i64>,
    pub mime: Option<Vec<u8>>,
    pub resolution: Option<(i32, i32)>,
}

/// The conversion the pipeline should run on the downloaded media.
#[derive(Clone, Copy, Debug, PartialEq, Eq, Structural)]
pub enum ConvertAction {
    /// A still raster image: the still-image path alone applies.
    StillImage,
    /// A non-square or non-MP4 video: transcode to square MP4.
    VideoToMp4,
    /// An already square MP4 video: used as it is.
    VideoAsIs,
    /// A square animated sticker: render and encode to MP4.
    TgsToMp4,
    /// A non-square animated sticker: its first frame becomes a still.
    TgsToPng,
}

/// The MIME classes the dispatch distinguishes.
#[derive(Clone, Copy, Debug, PartialEq, Eq, Structural)]
pub enum MimeClass {
    VideoMp4,
    VideoOther,
    TgsSticker,
    Plain,
}

/// The decision for one media item: whether to download it at all, whether
/// the result is applied as a video avatar, and which conversion runs.
#[derive(Clone, Copy, Debug, PartialEq, Eq, Structural)]
pub struct JobPlan {
    pub download: bool,
    pub is_video: bool,
    pub convert: ConvertAction,
}

/// The bytes of `video/`.
pub open spec fn video_mime_prefix() -> Seq<u8> {
    seq![0x76u8, 0x69u8, 0x64u8, 0x65u8, 0x6fu8, 0x2fu8]
}

/// The bytes of `video/mp4`.
pub open spec fn video_mp4_prefix() -> Seq<u8> {
    video_mime_prefix() + seq![0x6du8, 0x70u8, 0x34u8]
}

/// The bytes of `application/x-tgsticker`.
pub open spec fn tgs_mime() -> Seq<u8> {
    seq![
        0x61u8, 0x70u8, 0x70u8, 0x6cu8, 0x69u8, 0x63u8, 0x61u8, 0x74u8, 0x69u8, 0x6fu8, 0x6eu8,
        0x2fu8, 0x78u8, 0x2du8, 0x74u8, 0x67u8, 0x73u8, 0x74u8, 0x69u8, 0x63u8, 0x6bu8, 0x65u8,
        0x72u8,
    ]
}

/// The MIME class of a declared type: a `video/mp4` video, another video,
/// the animated-sticker type, or anything else.
pub open spec fn mime_class_of(m: Seq<u8>) -> MimeClass {
    if video_mp4_prefix().is_prefix_of(m) {
        MimeClass::VideoMp4
    } else if video_mime_prefix().is_prefix_of(m) {
        MimeClass::VideoOther
    } else if m == tgs_mime() {
        MimeClass::TgsSticker
    } else {
        MimeClass::Plain
    }
}

/// The dispatch decision for one media item: media of an unsupported kind,
/// of unknown size, or above the size ceiling is not downloaded; videos are
/// used as they are only when square MP4 and transcoded otherwise; animated
/// stickers become a square video or, when not square, a still; everything
/// else goes through the still-image path.  The avatar is applied as a
/// video exactly when the conversion yields one.
pub open spec fn plan_of(info: MediaInfo) -> JobPlan {
    let download = info.class != MediaClass::Unsupported && (info.size matches Some(s) && s
        <= MAX_FILESIZE);
    let is_square = info.resolution matches Some(res) && res.0 == res.1;
    let mc = match info.mime {
        Some(m) => mime_class_of(m@),
        None => MimeClass::Plain,
    };
    let convert = match mc {
        MimeClass::VideoMp4 => if is_square {
            ConvertAction::VideoAsIs
        } else {
            ConvertAction::VideoToMp4
        },
        MimeClass::VideoOther => ConvertAction::VideoToMp4,
        MimeClass::TgsSticker => if is_square {
            ConvertAction::TgsToMp4
        } else {
            ConvertAction::TgsToPng
        },
        MimeClass::Plain => ConvertAction::StillImage,
    };
    let is_video = match mc {
        MimeClass::VideoMp4 => true,
        MimeClass::VideoOther => true,
        MimeClass::TgsSticker => is_square,
        MimeClass::Plain => false,
    };
    JobPlan { download, is_video, convert }
}

/// Whether `p` is a prefix of `m`, on executable byte buffers.
fn has_prefix(m: &Vec<u8>, p: &[u8]) -> (r: bool)
    ensures
        r == p@.is_prefix_of(m@),
{
    if p.len() > m.len() {
        return false;
    }
    let mut i: usize = 0;
    while i < p.len()
        invariant
            0 <= i <= p@.len() <= m@.len(),
            forall|j: int| 0 <= j < i ==> p@[j] == m@[j],
        decreases p@.len() - i,
    {
        if p[i] != m[i] {
            return false;
        }
        i += 1;
    }
    proof {
        assert(p@ =~= m@.subrange(0, p@.len() as int));
    }
    true
}

/// Whether `m` equals `p`, on executable byte buffers.
fn bytes_eq(m: &Vec<u8>, p: &[u8]) -> (r: bool)
    ensures
        r == (m@ == p@),
{
    if p.len() != m.len() {
        return false;
    }
    let mut i: usize = 0;
    while i < p.len()
        invariant
            0 <= i <= p@.len(),
            p@.len() == m@.len(),
            forall|j: int| 0 <= j < i ==> p@[j] == m@[j],
        decreases p@.len() - i,
    {
        if p[i] != m[i] {
            return false;
        }
        i += 1;
    }
    proof {
        assert(p@ =~= m@);
    }
    true
}

/// Classifies a declared MIME type.
fn mime_class(m: &Vec<u8>) -> (r: MimeClass)
    ensures
        r == mime_class_of(m@),
{
    let video: [u8; 6] = [0x76, 0x69, 0x64, 0x65, 0x6f, 0x2f];
    let video_mp4: [u8; 9] = [0x76, 0x69, 0x64, 0x65, 0x6f, 0x2f, 0x6d, 0x70, 0x34];
    let tgs: [u8; 23] = [
        0x61, 0x70, 0x70, 0x6c, 0x69, 0x63, 0x61, 0x74, 0x69, 0x6f, 0x6e, 0x2f, 0x78, 0x2d, 0x74,
        0x67, 0x73, 0x74, 0x69, 0x63, 0x6b, 0x65, 0x72,
    ];
    proof {
        assert(video@ =~= video_mime_prefix());
        assert(video_mp4@ =~= video_mp4_prefix());
        assert(tgs@ =~= tgs_mime());
    }
    if has_prefix(m, video_mp4.as_slice()) {
        MimeClass::VideoMp4
    } else if has_prefix(m, video.as_slice()) {
        MimeClass::VideoOther
    } else if bytes_eq(m, tgs.as_slice()) {
        MimeClass::TgsSticker
    } else {
        MimeClass::Plain
    }
}

/// Decides what to do with one offered media item; see `plan_of`.
pub fn plan_media(info: &MediaInfo) -> (r: JobPlan)
    ensures
        r == plan_of(*info),
{
    let download = !matches!(info.class, MediaClass::Unsupported) && (match info.size {
        Some(s) => s <= MAX_FILESIZE,
        None => false,
    });
    let is_square = match info.resolution {
        Some(res) => res.0 == res.1,
        None => false,
    };
    let mc = match &info.mime {
        Some(m) => mime_class(m),
        None => MimeClass::Plain,
    };
    let convert = match mc {
        MimeClass::VideoMp4 => if is_square {
            ConvertAction::VideoAsIs
        } else {
            ConvertAction::VideoToMp4
        },
        MimeClass::VideoOther => ConvertAction::VideoToMp4,
        MimeClass::TgsSticker => if is_square {
            ConvertAction::TgsToMp4
        } else {
            ConvertAction::TgsToPng
        },
        MimeClass::Plain => ConvertAction::StillImage,
    };
    let is_video = match mc {
        MimeClass::VideoMp4 => true,
        MimeClass::VideoOther => true,
        MimeClass::TgsSticker => is_square,
        MimeClass::Plain => false,
    };
    JobPlan { download, is_video, convert }
}

/// Whether an avatar change must wait for the per-conversation cool-down: a
/// dry run never waits, a real change waits until the interval since the
/// last successful change has passed.
pub fn should_throttle(elapsed_secs: u64, dry_run: bool) -> (r: bool)
    ensures
        r == (!dry_run && elapsed_secs < MIN_INTERVAL_SECS),
{
    !dry_run && elapsed_secs < MIN_INTERVAL_SECS
}

} // verus!
