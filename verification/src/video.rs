//! Video planning: output container, effective codec, quality ladders, target
//! bitrate for size-targeted two-pass encodes, and the FFmpeg argument list.
use vstd::prelude::*;
use vstd::string::*;
use crate::gif::{below_rate, dims, duration_args, is_below_rate, trim_args};
use crate::path::ext_lower;
use crate::probe::MediaInfo;
use crate::settings::{
    Quality, VideoCodec, VideoFormat, VideoSettings, quality_rank, resize_target,
};
use crate::text::{
    append_args, cat, cat_u64, decimal, fmt_seconds3, fmt_u64, push_arg, push_lit, span_ms,
    text_eq, texts,
};

verus! {

/// The platform that the encoder runs on: hardware encoding exists on macOS, and
/// the null device is named differently on Windows.
#[derive(Debug, Clone, Copy, PartialEq, Eq, Structural)]
pub struct Platform {
    pub macos: bool,
    pub windows: bool,
}

/// What a video compression will produce.
pub struct Plan {
    /// Extension of the output file.
    pub ext: &'static str,
    /// Two-pass? (target size mode)
    pub two_pass: bool,
    /// Codec name for templates.
    pub codec_label: &'static str,
    /// Target resolution if resizing.
    pub resolution: Option<(u32, u32)>,
}

/// The output extension for a video.
pub open spec fn video_ext(info: MediaInfo, s: VideoSettings) -> Seq<char> {
    match s.format {
        VideoFormat::Mp4 => "mp4"@,
        VideoFormat::Webm => "webm"@,
        VideoFormat::Mov => "mov"@,
        VideoFormat::Mkv => "mkv"@,
        VideoFormat::Gif => "gif"@,
        VideoFormat::Mp3 => "mp3"@,
        VideoFormat::Same => {
            let e = ext_lower(info.path@);
            if e == "mov"@ {
                "mov"@
            } else if e == "webm"@ {
                "webm"@
            } else if e == "mkv"@ {
                "mkv"@
            } else {
                "mp4"@
            }
        },
    }
}

/// The output extension for a video.
pub fn output_ext(info: &MediaInfo, s: &VideoSettings) -> (r: &'static str)
    ensures
        r@ == video_ext(*info, *s),
{
    match s.format {
        VideoFormat::Mp4 => "mp4",
        VideoFormat::Webm => "webm",
        VideoFormat::Mov => "mov",
        VideoFormat::Mkv => "mkv",
        VideoFormat::Gif => "gif",
        VideoFormat::Mp3 => "mp3",
        VideoFormat::Same => {
            let e = crate::path::path_ext_lower(info.path.as_str());
            if text_eq(e.as_str(), "mov") {
                "mov"
            } else if text_eq(e.as_str(), "webm") {
                "webm"
            } else if text_eq(e.as_str(), "mkv") {
                "mkv"
            } else {
                "mp4"
            }
        },
    }
}

/// The codec that `Auto` stands for (HEVC sources stay HEVC, everything else
/// becomes H.264), or the requested one.
pub open spec fn requested_codec(info: MediaInfo, ext: Seq<char>, s: VideoSettings) -> VideoCodec {
    match s.codec {
        VideoCodec::Auto => match info.video_codec {
            Some(c) => if c@ == "hevc"@ || c@ == "h265"@ {
                VideoCodec::H265
            } else {
                VideoCodec::H264
            },
            None => VideoCodec::H264,
        },
        c => c,
    }
}

/// The codec actually used: WebM only carries VP9 or AV1, and MP4/MOV fall back
/// from VP9 to H.264.
pub open spec fn codec_for(info: MediaInfo, ext: Seq<char>, s: VideoSettings) -> VideoCodec {
    let r = requested_codec(info, ext, s);
    if ext == "webm"@ {
        if r == VideoCodec::Av1 { VideoCodec::Av1 } else { VideoCodec::Vp9 }
    } else if ext == "mov"@ || ext == "mp4"@ {
        if r == VideoCodec::Vp9 { VideoCodec::H264 } else { r }
    } else {
        r
    }
}

fn effective_codec(info: &MediaInfo, ext: &str, s: &VideoSettings) -> (c: VideoCodec)
    ensures
        c == codec_for(*info, ext@, *s),
{
    let requested = match s.codec {
        VideoCodec::Auto => match &info.video_codec {
            Some(c) => if text_eq(c.as_str(), "hevc") || text_eq(c.as_str(), "h265") {
                VideoCodec::H265
            } else {
                VideoCodec::H264
            },
            None => VideoCodec::H264,
        },
        c => c,
    };
    if text_eq(ext, "webm") {
        if requested == VideoCodec::Av1 { VideoCodec::Av1 } else { VideoCodec::Vp9 }
    } else if text_eq(ext, "mov") || text_eq(ext, "mp4") {
        if requested == VideoCodec::Vp9 { VideoCodec::H264 } else { requested }
    } else {
        requested
    }
}

/// The constant-rate-factor ladder of each software encoder (lower is better quality).
pub open spec fn crf_value(codec: VideoCodec, q: Quality) -> u32 {
    let i = quality_rank(q);
    match codec {
        VideoCodec::Auto | VideoCodec::H264 => seq![18u32, 22, 26, 30, 34][i],
        VideoCodec::H265 => seq![20u32, 24, 28, 32, 36][i],
        VideoCodec::Vp9 => seq![24u32, 30, 34, 38, 42][i],
        VideoCodec::Av1 => seq![26u32, 32, 38, 44, 50][i],
    }
}

fn rank(q: Quality) -> (i: usize)
    ensures
        i == quality_rank(q),
{
    match q {
        Quality::Highest => 0,
        Quality::High => 1,
        Quality::Good => 2,
        Quality::Medium => 3,
        Quality::Acceptable => 4,
    }
}

/// The constant rate factor of a software encoder at a quality level.
pub fn crf(codec: VideoCodec, q: Quality) -> (r: u32)
    ensures
        r == crf_value(codec, q),
{
    let i = rank(q);
    let table: [u32; 5] = match codec {
        VideoCodec::Auto | VideoCodec::H264 => [18, 22, 26, 30, 34],
        VideoCodec::H265 => [20, 24, 28, 32, 36],
        VideoCodec::Vp9 => [24, 30, 34, 38, 42],
        VideoCodec::Av1 => [26, 32, 38, 44, 50],
    };
    let r = table[i];
    assert(r == crf_value(codec, q)) by {
        assert(table@ =~= match codec {
            VideoCodec::Auto | VideoCodec::H264 => seq![18u32, 22, 26, 30, 34],
            VideoCodec::H265 => seq![20u32, 24, 28, 32, 36],
            VideoCodec::Vp9 => seq![24u32, 30, 34, 38, 42],
            VideoCodec::Av1 => seq![26u32, 32, 38, 44, 50],
        });
    }
    r
}

/// The VideoToolbox `-q:v` ladder (1..100, higher is better).
pub open spec fn vt_value(codec: VideoCodec, q: Quality) -> u32 {
    let i = quality_rank(q);
    match codec {
        VideoCodec::H265 => seq![66u32, 59, 53, 47, 41][i],
        _ => seq![65u32, 57, 50, 44, 38][i],
    }
}

/// The VideoToolbox `-q:v` value at a quality level, within 1..=100.
pub fn vt_quality(codec: VideoCodec, q: Quality) -> (r: u32)
    ensures
        r == vt_value(codec, q),
        1 <= r <= 100,
{
    let i = rank(q);
    let table: [u32; 5] = match codec {
        VideoCodec::H265 => [66, 59, 53, 47, 41],
        _ => [65, 57, 50, 44, 38],
    };
    let r = table[i];
    assert(r == vt_value(codec, q)) by {
        assert(table@ =~= match codec {
            VideoCodec::H265 => seq![66u32, 59, 53, 47, 41],
            _ => seq![65u32, 57, 50, 44, 38],
        });
    }
    r
}

/// Better quality never gets a larger CRF or a smaller VideoToolbox quality.
pub proof fn law_quality_ladders_monotone(codec: VideoCodec, a: Quality, b: Quality)
    requires
        quality_rank(a) <= quality_rank(b),
    ensures
        crf_value(codec, a) <= crf_value(codec, b),
        vt_value(codec, a) >= vt_value(codec, b),
{
}

/// The codec name used in templates.
pub open spec fn label_of(c: VideoCodec) -> Seq<char> {
    match c {
        VideoCodec::Auto | VideoCodec::H264 => "h264"@,
        VideoCodec::H265 => "h265"@,
        VideoCodec::Vp9 => "vp9"@,
        VideoCodec::Av1 => "av1"@,
    }
}

fn label(c: VideoCodec) -> (r: &'static str)
    ensures
        r@ == label_of(c),
{
    match c {
        VideoCodec::Auto | VideoCodec::H264 => "h264",
        VideoCodec::H265 => "h265",
        VideoCodec::Vp9 => "vp9",
        VideoCodec::Av1 => "av1",
    }
}

/// The resized video dimensions, when the source dimensions are known and a resize applies.
pub open spec fn video_resolution(info: MediaInfo, s: VideoSettings) -> Option<(int, int)> {
    match dims(info) {
        Some(d) => resize_target(s.resize, d.0, d.1),
        None => None,
    }
}

fn resolution(info: &MediaInfo, s: &VideoSettings) -> (r: Option<(u32, u32)>)
    ensures
        match video_resolution(*info, *s) {
            None => r is None,
            Some(t) => r matches Some(x) && x.0 == t.0 && x.1 == t.1,
        },
{
    match (info.width, info.height) {
        (Some(w), Some(h)) => s.resize.target(w, h),
        _ => None,
    }
}

/// Whether a compression runs in two passes: a target size is set and the output
/// is a video (not a GIF or MP3).
pub open spec fn is_two_pass(info: MediaInfo, s: VideoSettings) -> bool {
    let ext = video_ext(info, s);
    s.target_size_bytes is Some && ext != "gif"@ && ext != "mp3"@
}

/// Plans a video compression.
pub fn plan(info: &MediaInfo, s: &VideoSettings) -> (p: Plan)
    ensures
        p.ext@ == video_ext(*info, *s),
        p.two_pass == is_two_pass(*info, *s),
        p.codec_label@ == label_of(codec_for(*info, video_ext(*info, *s), *s)),
        match video_resolution(*info, *s) {
            None => p.resolution is None,
            Some(t) => p.resolution matches Some(x) && x.0 == t.0 && x.1 == t.1,
        },
{
    let ext = output_ext(info, s);
    let codec = effective_codec(info, ext, s);
    let two_pass = s.target_size_bytes.is_some() && !text_eq(ext, "gif") && !text_eq(ext, "mp3");
    Plan { ext, two_pass, codec_label: label(codec), resolution: resolution(info, s) }
}

/// A dimension rounded up to an even number.
pub open spec fn even_up(v: int) -> int {
    if v % 2 == 1 { v + 1 } else { v }
}

fn even(v: u32) -> (r: u64)
    ensures
        r == even_up(v as int),
{
    if v % 2 == 1 { v as u64 + 1 } else { v as u64 }
}

/// Whether the hardware (VideoToolbox) encoder is used: only on macOS, only for
/// H.264/H.265, and never for size-targeted encodes, which need accurate rate control.
pub open spec fn uses_hw(p: Platform, s: VideoSettings, codec: VideoCodec) -> bool {
    p.macos && s.target_size_bytes is None && (codec == VideoCodec::H264 || codec == VideoCodec::H265)
}

/// The trim that a video setting asks for, as `(start, end)`.
pub open spec fn video_trim(s: VideoSettings) -> Option<(i64, Option<i64>)> {
    Some((
        match s.trim_start_ms {
            Some(st) => st,
            None => 0,
        },
        s.trim_end_ms,
    ))
}

/// The encoded duration in milliseconds that the target bitrate is spread over:
/// the trimmed span (at least 0.1 s) or the whole file.
pub open spec fn encode_span_ms(d: int, s: VideoSettings) -> int {
    match (s.trim_start_ms, s.trim_end_ms) {
        (st, Some(en)) => {
            let v = en - match st {
                Some(x) => x as int,
                None => 0,
            };
            if v >= 100 { v } else { 100 }
        },
        (Some(st), None) => if d - st >= 100 { d - st } else { 100 },
        (None, None) => d,
    }
}

/// The audio bitrate set aside, in kbit/s.
pub open spec fn audio_kbps(info: MediaInfo, s: VideoSettings) -> int {
    if s.remove_audio || !info.has_audio { 0 } else { 128 }
}

/// The video bitrate in kbit/s for a target size: 97% of the size spread over the
/// span, less the audio, at least 50, rounded down (and capped at 64 bits).
pub open spec fn kbps_for(bytes: int, span: int, audio: int) -> int {
    let v = (bytes * 8 * 97 - audio * 100 * span) / (100 * span);
    let v = if v >= 50 { v } else { 50 };
    if v > u64::MAX { u64::MAX as int } else { v }
}

/// The source's bitrate in kbit/s (rounded down), when it is known and positive.
pub open spec fn source_kbps(info: MediaInfo) -> Option<u64> {
    match info.bitrate {
        Some(b) => if b > 0 { Some(b / 1000) } else { None },
        None => None,
    }
}

/// A bitrate never above the source's.
pub open spec fn capped_kbps(v: u64, info: MediaInfo) -> u64 {
    match source_kbps(info) {
        Some(c) => if v > c { c } else { v },
        None => v,
    }
}

/// The target video bitrate in kbit/s, when a target size is set and the duration
/// is known; never more than the source's bitrate where that is known.
pub open spec fn target_kbps(info: MediaInfo, s: VideoSettings) -> Option<u64> {
    match (s.target_size_bytes, info.duration_ms) {
        (Some(b), Some(d)) => if d > 0 {
            Some(capped_kbps(kbps_for(b as int, encode_span_ms(d as int, s), audio_kbps(info, s)) as u64, info))
        } else {
            None
        },
        _ => None,
    }
}

/// The encoder is never asked to spend more bits than the source has: a target
/// bitrate `k` kbit/s satisfies `k * 1000 <= b` for a known source bitrate `b`.
pub proof fn law_bitrate_within_source(info: MediaInfo, s: VideoSettings)
    ensures
        match (info.bitrate, target_kbps(info, s)) {
            (Some(b), Some(k)) => b > 0 ==> k * 1000 <= b,
            _ => true,
        },
{
}

fn span_for(d: u64, s: &VideoSettings) -> (r: i128)
    ensures
        r == encode_span_ms(d as int, *s),
        0 <= r <= 0x3_0000_0000_0000_0000,
{
    if let Some(en) = s.trim_end_ms {
        let st0: i64 = match s.trim_start_ms {
            Some(x) => x,
            None => 0,
        };
        let v: i128 = (en as i128) - (st0 as i128);
        assert(v == en - (match s.trim_start_ms {
            Some(x) => x as int,
            None => 0,
        }));
        if v >= 100 {
            v
        } else {
            100
        }
    } else if let Some(st) = s.trim_start_ms {
        let v: i128 = (d as i128) - (st as i128);
        if v >= 100 {
            v
        } else {
            100
        }
    } else {
        d as i128
    }
}

proof fn lemma_floor_below(n: int, d: int, k: int)
    requires
        d > 0,
    ensures
        (n < k * d) == (n / d < k),
        n >= k * d && k >= 0 ==> n >= 0,
{
    assert((n < k * d) == (n / d < k)) by (nonlinear_arith)
        requires
            d > 0,
    ;
    assert(n >= k * d && k >= 0 ==> n >= 0) by (nonlinear_arith)
        requires
            d > 0,
    ;
}

/// The target video bitrate in kbit/s for size-targeted encodes.
pub fn target_bitrate_k(info: &MediaInfo, s: &VideoSettings) -> (r: Option<u64>)
    ensures
        r == target_kbps(*info, *s),
{
    match (s.target_size_bytes, info.duration_ms) {
        (Some(b), Some(d)) => {
            if d == 0 {
                return None;
            }
            let span = span_for(d, s);
            let audio: i128 = if s.remove_audio || !info.has_audio { 0 } else { 128 };
            proof {
                assert((b as int) * 8 * 97 <= 0xffff_ffff_ffff_ffff * 776) by (nonlinear_arith)
                    requires
                        b <= 0xffff_ffff_ffff_ffff,
                ;
                assert(audio * 100 * (span as int) <= 128 * 100 * 0x3_0000_0000_0000_0000)
                    by (nonlinear_arith)
                    requires
                        0 <= audio <= 128,
                        0 <= span <= 0x3_0000_0000_0000_0000,
                ;
            }
            let num: i128 = (b as i128) * 8 * 97 - audio * 100 * span;
            let den: i128 = 100 * span;
            proof {
                lemma_floor_below(num as int, den as int, 50);
            }
            let v: i128 = if num < 50 * den { 50 } else { num / den };
            let v: u64 = if v > u64::MAX as i128 { u64::MAX } else { v as u64 };
            let v: u64 = match info.bitrate {
                Some(br) => if br > 0 && v > br / 1000 { br / 1000 } else { v },
                None => v,
            };
            Some(v)
        },
        _ => None,
    }
}


/// The `-b:v` value for a bitrate in kbit/s.
pub open spec fn kbit_arg(k: u64) -> Seq<char> {
    decimal(k as nat) + "k"@
}

/// The scale filter: the resized (even) size, or the source rounded down to even sizes.
pub open spec fn scale_filter(info: MediaInfo, s: VideoSettings) -> Seq<char> {
    match video_resolution(info, s) {
        Some(t) => "scale="@ + decimal(even_up(t.0) as nat) + ":"@ + decimal(even_up(t.1) as nat)
            + ":flags=lanczos"@,
        None => "scale=trunc(iw/2)*2:trunc(ih/2)*2"@,
    }
}

/// Whether a frame-rate cap applies: a positive setting below the source rate
/// (or the source rate is unknown).
pub open spec fn fps_cap(info: MediaInfo, s: VideoSettings) -> Option<u32> {
    match s.fps {
        Some(f) => if f > 0 && (match info.fps {
            Some(r) => below_rate(f as int, r),
            None => true,
        }) {
            Some(f)
        } else {
            None
        },
        None => None,
    }
}

/// The `-vf` arguments.
pub open spec fn filter_args(info: MediaInfo, s: VideoSettings) -> Seq<Seq<char>> {
    seq![
        "-vf"@,
        match fps_cap(info, s) {
            Some(f) => scale_filter(info, s) + ","@ + "fps="@ + decimal(f as nat),
            None => scale_filter(info, s),
        },
    ]
}

/// The rate-control arguments shared by the encoders: a target bitrate, or the given
/// constant-quality arguments.
pub open spec fn rate_args(bk: Option<u64>, quality: Seq<Seq<char>>) -> Seq<Seq<char>> {
    match bk {
        Some(k) => seq!["-b:v"@, kbit_arg(k)],
        None => quality,
    }
}

/// The encoder arguments for H.264 / H.265.
pub open spec fn avc_args(
    codec: VideoCodec,
    hw: bool,
    bk: Option<u64>,
    s: VideoSettings,
    pass: u8,
    passlog: Seq<char>,
) -> Seq<Seq<char>> {
    let h265 = codec == VideoCodec::H265;
    let tag = if h265 { seq!["-tag:v"@, "hvc1"@] } else { Seq::empty() };
    if hw {
        seq![
            "-c:v"@,
            if codec == VideoCodec::H264 { "h264_videotoolbox"@ } else { "hevc_videotoolbox"@ },
            "-realtime"@,
            "0"@,
            "-prio_speed"@,
            "1"@,
        ] + rate_args(bk, seq!["-q:v"@, decimal(vt_value(codec, s.quality) as nat)]) + tag
            + seq!["-pix_fmt"@, "yuv420p"@]
    } else {
        seq![
            "-c:v"@,
            if codec == VideoCodec::H264 { "libx264"@ } else { "libx265"@ },
            "-preset"@,
            if s.quality == Quality::Highest { "medium"@ } else { "fast"@ },
        ] + match bk {
            Some(k) => seq!["-b:v"@, kbit_arg(k)] + if h265 {
                seq![
                    "-x265-params"@,
                    "pass="@ + decimal(pass as nat) + ":stats="@ + passlog + ":log-level=error"@,
                ]
            } else {
                Seq::empty()
            },
            None => seq!["-crf"@, decimal(crf_value(codec, s.quality) as nat)] + if h265 {
                seq!["-x265-params"@, "log-level=error"@]
            } else {
                Seq::empty()
            },
        } + tag + seq!["-pix_fmt"@, "yuv420p"@] + if s.threads > 0 {
            seq!["-threads"@, decimal(s.threads as nat)]
        } else {
            Seq::empty()
        }
    }
}

/// The encoder arguments for every codec.
pub open spec fn encoder_args(
    codec: VideoCodec,
    hw: bool,
    bk: Option<u64>,
    s: VideoSettings,
    pass: u8,
    passlog: Seq<char>,
) -> Seq<Seq<char>> {
    match codec {
        VideoCodec::Vp9 => seq![
            "-c:v"@,
            "libvpx-vp9"@,
            "-row-mt"@,
            "1"@,
            "-deadline"@,
            "good"@,
            "-cpu-used"@,
            "4"@,
            "-tile-columns"@,
            "2"@,
        ] + rate_args(bk, seq!["-crf"@, decimal(crf_value(codec, s.quality) as nat), "-b:v"@, "0"@])
            + seq!["-pix_fmt"@, "yuv420p"@],
        VideoCodec::Av1 => seq!["-c:v"@, "libsvtav1"@, "-preset"@, "10"@] + rate_args(
            bk,
            seq!["-crf"@, decimal(crf_value(codec, s.quality) as nat)],
        ) + seq!["-pix_fmt"@, "yuv420p10le"@],
        _ => avc_args(codec, hw, bk, s, pass, passlog),
    }
}

/// The text of an optional pass-log path, empty when there is none.
pub open spec fn log_text(passlog: Option<&str>) -> Seq<char> {
    match passlog {
        Some(p) => p@,
        None => Seq::empty(),
    }
}

/// The two-pass arguments (x265 passes its own through `-x265-params`).
pub open spec fn pass_args(
    s: VideoSettings,
    codec: VideoCodec,
    hw: bool,
    pass: u8,
    passlog: Option<&str>,
) -> Seq<Seq<char>> {
    if s.target_size_bytes is Some && pass > 0 && !(codec == VideoCodec::H265 && !hw) {
        seq!["-pass"@, decimal(pass as nat)] + match passlog {
            Some(p) => seq!["-passlogfile"@, p@],
            None => Seq::empty(),
        }
    } else {
        Seq::empty()
    }
}

/// The audio arguments: dropped, copied when the container takes the source codec
/// as is, or re-encoded.
pub open spec fn audio_args(info: MediaInfo, s: VideoSettings, ext: Seq<char>, pass: u8, bk: Option<u64>) -> Seq<Seq<char>> {
    if s.remove_audio || !info.has_audio || pass == 1 {
        seq!["-an"@]
    } else {
        let ac = match info.audio_codec {
            Some(c) => c@,
            None => Seq::empty(),
        };
        if ext == "webm"@ {
            if ac == "opus"@ || ac == "vorbis"@ {
                seq!["-c:a"@, "copy"@]
            } else {
                seq!["-c:a"@, "libopus"@, "-b:a"@, "112k"@]
            }
        } else if ext == "mkv"@ {
            seq!["-c:a"@, "copy"@]
        } else if (ac == "aac"@ || ac == "mp3"@ || ac == "ac3"@ || ac == "alac"@) && bk is None {
            seq!["-c:a"@, "copy"@]
        } else {
            seq!["-c:a"@, "aac"@, "-b:a"@, "128k"@]
        }
    }
}

/// The arguments after the audio: container flags, metadata, progress, destination.
pub open spec fn tail_args(ext: Seq<char>, out: Seq<char>, pass: u8, p: Platform) -> Seq<Seq<char>> {
    (if ext == "mp4"@ || ext == "mov"@ { seq!["-movflags"@, "+faststart"@] } else { Seq::empty() })
        + seq!["-map_metadata"@, "0"@, "-progress"@, "pipe:1"@, "-nostats"@] + if pass == 1 {
        seq!["-f"@, "null"@, if p.windows { "NUL"@ } else { "/dev/null"@ }]
    } else {
        seq![out]
    }
}

/// The FFmpeg arguments for a video compression of `info` into `out`. `pass` is 0
/// for single-pass runs and 1 or 2 for two-pass runs; `passlog` names the pass log.
pub open spec fn video_args(
    info: MediaInfo,
    s: VideoSettings,
    out: Seq<char>,
    pass: u8,
    passlog: Option<&str>,
    p: Platform,
) -> Seq<Seq<char>> {
    let ext = video_ext(info, s);
    let codec = codec_for(info, ext, s);
    let hw = uses_hw(p, s, codec);
    let bk = target_kbps(info, s);
    let head = seq!["-hide_banner"@, "-y"@, "-nostdin"@] + (if hw && ext != "mp3"@ {
        seq!["-hwaccel"@, "videotoolbox"@]
    } else {
        Seq::empty()
    }) + trim_args(video_trim(s)) + seq!["-i"@, info.path@] + duration_args(video_trim(s));
    if ext == "mp3"@ {
        head + seq![
            "-vn"@,
            "-c:a"@,
            "libmp3lame"@,
            "-q:a"@,
            "2"@,
            "-progress"@,
            "pipe:1"@,
            "-nostats"@,
            out,
        ]
    } else {
        head + filter_args(info, s) + encoder_args(codec, hw, bk, s, pass, log_text(passlog))
            + pass_args(s, codec, hw, pass, passlog) + audio_args(info, s, ext, pass, bk)
            + tail_args(ext, out, pass, p)
    }
}

/// Every value after a `-b:v`: `0` (no bitrate limit, with a quality target), or
/// `k` kbit/s with `k * 1000 <= b`.
pub open spec fn bitrate_ok(x: Seq<char>, b: int) -> bool {
    x == "0"@ || exists|k: u64| x == kbit_arg(k) && k * 1000 <= b
}

/// Every `-b:v` in an argument list is followed by a bitrate within `b` bit/s.
pub open spec fn bitrates_within(a: Seq<Seq<char>>, b: int) -> bool {
    forall|i: int| 0 <= i < a.len() && #[trigger] a[i] == "-b:v"@ ==> i + 1 < a.len() && bitrate_ok(a[i + 1], b)
}

/// The fixed words of the argument lists, and the first letters of the pieces
/// that longer arguments are built from.
proof fn lemma_fixed_words()
    ensures
        "+faststart"@ != "-b:v"@,
        "-an"@ != "-b:v"@,
        "-b:a"@ != "-b:v"@,
        "-c:a"@ != "-b:v"@,
        "-c:v"@ != "-b:v"@,
        "-cpu-used"@ != "-b:v"@,
        "-crf"@ != "-b:v"@,
        "-deadline"@ != "-b:v"@,
        "-f"@ != "-b:v"@,
        "-hide_banner"@ != "-b:v"@,
        "-hwaccel"@ != "-b:v"@,
        "-i"@ != "-b:v"@,
        "-map_metadata"@ != "-b:v"@,
        "-movflags"@ != "-b:v"@,
        "-nostats"@ != "-b:v"@,
        "-nostdin"@ != "-b:v"@,
        "-pass"@ != "-b:v"@,
        "-passlogfile"@ != "-b:v"@,
        "-pix_fmt"@ != "-b:v"@,
        "-preset"@ != "-b:v"@,
        "-prio_speed"@ != "-b:v"@,
        "-progress"@ != "-b:v"@,
        "-q:a"@ != "-b:v"@,
        "-q:v"@ != "-b:v"@,
        "-realtime"@ != "-b:v"@,
        "-row-mt"@ != "-b:v"@,
        "-tag:v"@ != "-b:v"@,
        "-threads"@ != "-b:v"@,
        "-tile-columns"@ != "-b:v"@,
        "-vf"@ != "-b:v"@,
        "-vn"@ != "-b:v"@,
        "-x265-params"@ != "-b:v"@,
        "-y"@ != "-b:v"@,
        "-ss"@ != "-b:v"@,
        "-t"@ != "-b:v"@,
        "/dev/null"@ != "-b:v"@,
        "0"@ != "-b:v"@,
        "1"@ != "-b:v"@,
        "10"@ != "-b:v"@,
        "112k"@ != "-b:v"@,
        "128k"@ != "-b:v"@,
        "2"@ != "-b:v"@,
        "4"@ != "-b:v"@,
        "NUL"@ != "-b:v"@,
        "aac"@ != "-b:v"@,
        "copy"@ != "-b:v"@,
        "fast"@ != "-b:v"@,
        "good"@ != "-b:v"@,
        "h264_videotoolbox"@ != "-b:v"@,
        "hevc_videotoolbox"@ != "-b:v"@,
        "hvc1"@ != "-b:v"@,
        "libmp3lame"@ != "-b:v"@,
        "libopus"@ != "-b:v"@,
        "libsvtav1"@ != "-b:v"@,
        "libvpx-vp9"@ != "-b:v"@,
        "libx264"@ != "-b:v"@,
        "libx265"@ != "-b:v"@,
        "log-level=error"@ != "-b:v"@,
        "medium"@ != "-b:v"@,
        "null"@ != "-b:v"@,
        "pipe:1"@ != "-b:v"@,
        "scale=trunc(iw/2)*2:trunc(ih/2)*2"@ != "-b:v"@,
        "videotoolbox"@ != "-b:v"@,
        "yuv420p"@ != "-b:v"@,
        "yuv420p10le"@ != "-b:v"@,
        "-b:v"@.len() == 4,
        "-b:v"@[0] == '-',
        "scale="@.len() == 6,
        "scale="@[0] == 's',
        "pass="@.len() == 5,
        "pass="@[0] == 'p',
        "k"@.len() == 1,
{
    assert("+faststart"@ != "-b:v"@) by {
        reveal_strlit("+faststart");
        reveal_strlit("-b:v");
        assert("+faststart"@.len() == 10 && "-b:v"@.len() == 4);
    }
    assert("-an"@ != "-b:v"@) by {
        reveal_strlit("-an");
        reveal_strlit("-b:v");
        assert("-an"@.len() == 3 && "-b:v"@.len() == 4);
    }
    assert("-b:a"@ != "-b:v"@) by {
        reveal_strlit("-b:a");
        reveal_strlit("-b:v");
        assert("-b:a"@[3] == 'a' && "-b:v"@[3] == 'v');
    }
    assert("-c:a"@ != "-b:v"@) by {
        reveal_strlit("-c:a");
        reveal_strlit("-b:v");
        assert("-c:a"@[1] == 'c' && "-b:v"@[1] == 'b');
    }
    assert("-c:v"@ != "-b:v"@) by {
        reveal_strlit("-c:v");
        reveal_strlit("-b:v");
        assert("-c:v"@[1] == 'c' && "-b:v"@[1] == 'b');
    }
    assert("-cpu-used"@ != "-b:v"@) by {
        reveal_strlit("-cpu-used");
        reveal_strlit("-b:v");
        assert("-cpu-used"@.len() == 9 && "-b:v"@.len() == 4);
    }
    assert("-crf"@ != "-b:v"@) by {
        reveal_strlit("-crf");
        reveal_strlit("-b:v");
        assert("-crf"@[1] == 'c' && "-b:v"@[1] == 'b');
    }
    assert("-deadline"@ != "-b:v"@) by {
        reveal_strlit("-deadline");
        reveal_strlit("-b:v");
        assert("-deadline"@.len() == 9 && "-b:v"@.len() == 4);
    }
    assert("-f"@ != "-b:v"@) by {
        reveal_strlit("-f");
        reveal_strlit("-b:v");
        assert("-f"@.len() == 2 && "-b:v"@.len() == 4);
    }
    assert("-hide_banner"@ != "-b:v"@) by {
        reveal_strlit("-hide_banner");
        reveal_strlit("-b:v");
        assert("-hide_banner"@.len() == 12 && "-b:v"@.len() == 4);
    }
    assert("-hwaccel"@ != "-b:v"@) by {
        reveal_strlit("-hwaccel");
        reveal_strlit("-b:v");
        assert("-hwaccel"@.len() == 8 && "-b:v"@.len() == 4);
    }
    assert("-i"@ != "-b:v"@) by {
        reveal_strlit("-i");
        reveal_strlit("-b:v");
        assert("-i"@.len() == 2 && "-b:v"@.len() == 4);
    }
    assert("-map_metadata"@ != "-b:v"@) by {
        reveal_strlit("-map_metadata");
        reveal_strlit("-b:v");
        assert("-map_metadata"@.len() == 13 && "-b:v"@.len() == 4);
    }
    assert("-movflags"@ != "-b:v"@) by {
        reveal_strlit("-movflags");
        reveal_strlit("-b:v");
        assert("-movflags"@.len() == 9 && "-b:v"@.len() == 4);
    }
    assert("-nostats"@ != "-b:v"@) by {
        reveal_strlit("-nostats");
        reveal_strlit("-b:v");
        assert("-nostats"@.len() == 8 && "-b:v"@.len() == 4);
    }
    assert("-nostdin"@ != "-b:v"@) by {
        reveal_strlit("-nostdin");
        reveal_strlit("-b:v");
        assert("-nostdin"@.len() == 8 && "-b:v"@.len() == 4);
    }
    assert("-pass"@ != "-b:v"@) by {
        reveal_strlit("-pass");
        reveal_strlit("-b:v");
        assert("-pass"@.len() == 5 && "-b:v"@.len() == 4);
    }
    assert("-passlogfile"@ != "-b:v"@) by {
        reveal_strlit("-passlogfile");
        reveal_strlit("-b:v");
        assert("-passlogfile"@.len() == 12 && "-b:v"@.len() == 4);
    }
    assert("-pix_fmt"@ != "-b:v"@) by {
        reveal_strlit("-pix_fmt");
        reveal_strlit("-b:v");
        assert("-pix_fmt"@.len() == 8 && "-b:v"@.len() == 4);
    }
    assert("-preset"@ != "-b:v"@) by {
        reveal_strlit("-preset");
        reveal_strlit("-b:v");
        assert("-preset"@.len() == 7 && "-b:v"@.len() == 4);
    }
    assert("-prio_speed"@ != "-b:v"@) by {
        reveal_strlit("-prio_speed");
        reveal_strlit("-b:v");
        assert("-prio_speed"@.len() == 11 && "-b:v"@.len() == 4);
    }
    assert("-progress"@ != "-b:v"@) by {
        reveal_strlit("-progress");
        reveal_strlit("-b:v");
        assert("-progress"@.len() == 9 && "-b:v"@.len() == 4);
    }
    assert("-q:a"@ != "-b:v"@) by {
        reveal_strlit("-q:a");
        reveal_strlit("-b:v");
        assert("-q:a"@[1] == 'q' && "-b:v"@[1] == 'b');
    }
    assert("-q:v"@ != "-b:v"@) by {
        reveal_strlit("-q:v");
        reveal_strlit("-b:v");
        assert("-q:v"@[1] == 'q' && "-b:v"@[1] == 'b');
    }
    assert("-realtime"@ != "-b:v"@) by {
        reveal_strlit("-realtime");
        reveal_strlit("-b:v");
        assert("-realtime"@.len() == 9 && "-b:v"@.len() == 4);
    }
    assert("-row-mt"@ != "-b:v"@) by {
        reveal_strlit("-row-mt");
        reveal_strlit("-b:v");
        assert("-row-mt"@.len() == 7 && "-b:v"@.len() == 4);
    }
    assert("-tag:v"@ != "-b:v"@) by {
        reveal_strlit("-tag:v");
        reveal_strlit("-b:v");
        assert("-tag:v"@.len() == 6 && "-b:v"@.len() == 4);
    }
    assert("-threads"@ != "-b:v"@) by {
        reveal_strlit("-threads");
        reveal_strlit("-b:v");
        assert("-threads"@.len() == 8 && "-b:v"@.len() == 4);
    }
    assert("-tile-columns"@ != "-b:v"@) by {
        reveal_strlit("-tile-columns");
        reveal_strlit("-b:v");
        assert("-tile-columns"@.len() == 13 && "-b:v"@.len() == 4);
    }
    assert("-vf"@ != "-b:v"@) by {
        reveal_strlit("-vf");
        reveal_strlit("-b:v");
        assert("-vf"@.len() == 3 && "-b:v"@.len() == 4);
    }
    assert("-vn"@ != "-b:v"@) by {
        reveal_strlit("-vn");
        reveal_strlit("-b:v");
        assert("-vn"@.len() == 3 && "-b:v"@.len() == 4);
    }
    assert("-x265-params"@ != "-b:v"@) by {
        reveal_strlit("-x265-params");
        reveal_strlit("-b:v");
        assert("-x265-params"@.len() == 12 && "-b:v"@.len() == 4);
    }
    assert("-y"@ != "-b:v"@) by {
        reveal_strlit("-y");
        reveal_strlit("-b:v");
        assert("-y"@.len() == 2 && "-b:v"@.len() == 4);
    }
    assert("-ss"@ != "-b:v"@) by {
        reveal_strlit("-ss");
        reveal_strlit("-b:v");
        assert("-ss"@.len() == 3 && "-b:v"@.len() == 4);
    }
    assert("-t"@ != "-b:v"@) by {
        reveal_strlit("-t");
        reveal_strlit("-b:v");
        assert("-t"@.len() == 2 && "-b:v"@.len() == 4);
    }
    assert("/dev/null"@ != "-b:v"@) by {
        reveal_strlit("/dev/null");
        reveal_strlit("-b:v");
        assert("/dev/null"@.len() == 9 && "-b:v"@.len() == 4);
    }
    assert("0"@ != "-b:v"@) by {
        reveal_strlit("0");
        reveal_strlit("-b:v");
        assert("0"@.len() == 1 && "-b:v"@.len() == 4);
    }
    assert("1"@ != "-b:v"@) by {
        reveal_strlit("1");
        reveal_strlit("-b:v");
        assert("1"@.len() == 1 && "-b:v"@.len() == 4);
    }
    assert("10"@ != "-b:v"@) by {
        reveal_strlit("10");
        reveal_strlit("-b:v");
        assert("10"@.len() == 2 && "-b:v"@.len() == 4);
    }
    assert("112k"@ != "-b:v"@) by {
        reveal_strlit("112k");
        reveal_strlit("-b:v");
        assert("112k"@[0] == '1' && "-b:v"@[0] == '-');
    }
    assert("128k"@ != "-b:v"@) by {
        reveal_strlit("128k");
        reveal_strlit("-b:v");
        assert("128k"@[0] == '1' && "-b:v"@[0] == '-');
    }
    assert("2"@ != "-b:v"@) by {
        reveal_strlit("2");
        reveal_strlit("-b:v");
        assert("2"@.len() == 1 && "-b:v"@.len() == 4);
    }
    assert("4"@ != "-b:v"@) by {
        reveal_strlit("4");
        reveal_strlit("-b:v");
        assert("4"@.len() == 1 && "-b:v"@.len() == 4);
    }
    assert("NUL"@ != "-b:v"@) by {
        reveal_strlit("NUL");
        reveal_strlit("-b:v");
        assert("NUL"@.len() == 3 && "-b:v"@.len() == 4);
    }
    assert("aac"@ != "-b:v"@) by {
        reveal_strlit("aac");
        reveal_strlit("-b:v");
        assert("aac"@.len() == 3 && "-b:v"@.len() == 4);
    }
    assert("copy"@ != "-b:v"@) by {
        reveal_strlit("copy");
        reveal_strlit("-b:v");
        assert("copy"@[0] == 'c' && "-b:v"@[0] == '-');
    }
    assert("fast"@ != "-b:v"@) by {
        reveal_strlit("fast");
        reveal_strlit("-b:v");
        assert("fast"@[0] == 'f' && "-b:v"@[0] == '-');
    }
    assert("good"@ != "-b:v"@) by {
        reveal_strlit("good");
        reveal_strlit("-b:v");
        assert("good"@[0] == 'g' && "-b:v"@[0] == '-');
    }
    assert("h264_videotoolbox"@ != "-b:v"@) by {
        reveal_strlit("h264_videotoolbox");
        reveal_strlit("-b:v");
        assert("h264_videotoolbox"@.len() == 17 && "-b:v"@.len() == 4);
    }
    assert("hevc_videotoolbox"@ != "-b:v"@) by {
        reveal_strlit("hevc_videotoolbox");
        reveal_strlit("-b:v");
        assert("hevc_videotoolbox"@.len() == 17 && "-b:v"@.len() == 4);
    }
    assert("hvc1"@ != "-b:v"@) by {
        reveal_strlit("hvc1");
        reveal_strlit("-b:v");
        assert("hvc1"@[0] == 'h' && "-b:v"@[0] == '-');
    }
    assert("libmp3lame"@ != "-b:v"@) by {
        reveal_strlit("libmp3lame");
        reveal_strlit("-b:v");
        assert("libmp3lame"@.len() == 10 && "-b:v"@.len() == 4);
    }
    assert("libopus"@ != "-b:v"@) by {
        reveal_strlit("libopus");
        reveal_strlit("-b:v");
        assert("libopus"@.len() == 7 && "-b:v"@.len() == 4);
    }
    assert("libsvtav1"@ != "-b:v"@) by {
        reveal_strlit("libsvtav1");
        reveal_strlit("-b:v");
        assert("libsvtav1"@.len() == 9 && "-b:v"@.len() == 4);
    }
    assert("libvpx-vp9"@ != "-b:v"@) by {
        reveal_strlit("libvpx-vp9");
        reveal_strlit("-b:v");
        assert("libvpx-vp9"@.len() == 10 && "-b:v"@.len() == 4);
    }
    assert("libx264"@ != "-b:v"@) by {
        reveal_strlit("libx264");
        reveal_strlit("-b:v");
        assert("libx264"@.len() == 7 && "-b:v"@.len() == 4);
    }
    assert("libx265"@ != "-b:v"@) by {
        reveal_strlit("libx265");
        reveal_strlit("-b:v");
        assert("libx265"@.len() == 7 && "-b:v"@.len() == 4);
    }
    assert("log-level=error"@ != "-b:v"@) by {
        reveal_strlit("log-level=error");
        reveal_strlit("-b:v");
        assert("log-level=error"@.len() == 15 && "-b:v"@.len() == 4);
    }
    assert("medium"@ != "-b:v"@) by {
        reveal_strlit("medium");
        reveal_strlit("-b:v");
        assert("medium"@.len() == 6 && "-b:v"@.len() == 4);
    }
    assert("null"@ != "-b:v"@) by {
        reveal_strlit("null");
        reveal_strlit("-b:v");
        assert("null"@[0] == 'n' && "-b:v"@[0] == '-');
    }
    assert("pipe:1"@ != "-b:v"@) by {
        reveal_strlit("pipe:1");
        reveal_strlit("-b:v");
        assert("pipe:1"@.len() == 6 && "-b:v"@.len() == 4);
    }
    assert("scale=trunc(iw/2)*2:trunc(ih/2)*2"@ != "-b:v"@) by {
        reveal_strlit("scale=trunc(iw/2)*2:trunc(ih/2)*2");
        reveal_strlit("-b:v");
        assert("scale=trunc(iw/2)*2:trunc(ih/2)*2"@.len() == 33 && "-b:v"@.len() == 4);
    }
    assert("videotoolbox"@ != "-b:v"@) by {
        reveal_strlit("videotoolbox");
        reveal_strlit("-b:v");
        assert("videotoolbox"@.len() == 12 && "-b:v"@.len() == 4);
    }
    assert("yuv420p"@ != "-b:v"@) by {
        reveal_strlit("yuv420p");
        reveal_strlit("-b:v");
        assert("yuv420p"@.len() == 7 && "-b:v"@.len() == 4);
    }
    assert("yuv420p10le"@ != "-b:v"@) by {
        reveal_strlit("yuv420p10le");
        reveal_strlit("-b:v");
        assert("yuv420p10le"@.len() == 11 && "-b:v"@.len() == 4);
    }
    assert("-b:v"@.len() == 4 && "-b:v"@[0] == '-') by {
        reveal_strlit("-b:v");
    }
    assert("scale="@.len() == 6 && "scale="@[0] == 's') by {
        reveal_strlit("scale=");
    }
    assert("pass="@.len() == 5 && "pass="@[0] == 'p') by {
        reveal_strlit("pass=");
    }
    assert("k"@.len() == 1) by {
        reveal_strlit("k");
    }
}

/// A text whose first character is not `-` is no `-b:v`.
proof fn lemma_not_flag(x: Seq<char>)
    requires
        x.len() > 0,
        x[0] != '-',
    ensures
        x != "-b:v"@,
{
    lemma_fixed_words();
}

/// Adding an argument other than `-b:v` keeps every `-b:v` followed by a bitrate
/// within bounds; so does joining two such lists.
proof fn lemma_within_grow(b: int)
    ensures
        bitrates_within(Seq::<Seq<char>>::empty(), b),
        forall|a: Seq<Seq<char>>, x: Seq<char>|
            bitrates_within(a, b) && x != "-b:v"@ ==> #[trigger] bitrates_within(a.push(x), b),
        forall|a: Seq<Seq<char>>, c: Seq<Seq<char>>|
            bitrates_within(a, b) && bitrates_within(c, b) ==> #[trigger] bitrates_within(a + c, b),
{
    assert forall|a: Seq<Seq<char>>, x: Seq<char>|
        bitrates_within(a, b) && x != "-b:v"@ implies #[trigger] bitrates_within(a.push(x), b) by {
        assert forall|i: int| 0 <= i < a.push(x).len() && #[trigger] a.push(x)[i] == "-b:v"@ implies i + 1
            < a.push(x).len() && bitrate_ok(a.push(x)[i + 1], b) by {
            assert(a.push(x)[i] == a[i]);
            assert(a.push(x)[i + 1] == a[i + 1]);
        }
    }
    assert forall|a: Seq<Seq<char>>, c: Seq<Seq<char>>|
        bitrates_within(a, b) && bitrates_within(c, b) implies #[trigger] bitrates_within(a + c, b) by {
        assert forall|i: int| 0 <= i < (a + c).len() && #[trigger] (a + c)[i] == "-b:v"@ implies i + 1 < (a
            + c).len() && bitrate_ok((a + c)[i + 1], b) by {
            if i < a.len() {
                assert((a + c)[i] == a[i]);
                assert((a + c)[i + 1] == a[i + 1]);
            } else {
                assert((a + c)[i] == c[i - a.len()]);
                assert((a + c)[i + 1] == c[i + 1 - a.len()]);
            }
        }
    }
}

/// A decimal numeral is no `-b:v`, nor is anything that starts with one.
proof fn lemma_numeral_not_flag(n: nat, rest: Seq<char>)
    ensures
        decimal(n) != "-b:v"@,
        decimal(n) + rest != "-b:v"@,
{
    crate::text::lemma_decimal_shape(n);
    lemma_not_flag(decimal(n));
    assert((decimal(n) + rest)[0] == decimal(n)[0]);
    lemma_not_flag(decimal(n) + rest);
}

/// The rate-control arguments leave every bitrate within the source's.
proof fn lemma_rate_within(info: MediaInfo, s: VideoSettings, quality: Seq<Seq<char>>, b: u64)
    requires
        info.bitrate == Some(b),
        b > 0,
        bitrates_within(quality, b as int),
    ensures
        bitrates_within(rate_args(target_kbps(info, s), quality), b as int),
{
    law_bitrate_within_source(info, s);
    lemma_within_grow(b as int);
    if let Some(k) = target_kbps(info, s) {
        let r = seq!["-b:v"@, kbit_arg(k)];
        assert(bitrate_ok(r[1], b as int));
        lemma_fixed_words();
        lemma_numeral_not_flag(k as nat, "k"@);
        assert forall|i: int| 0 <= i < r.len() && #[trigger] r[i] == "-b:v"@ implies i + 1 < r.len()
            && bitrate_ok(r[i + 1], b as int) by {
            if i == 1 {
                assert(r[1] == kbit_arg(k));
            }
        }
    }
}

/// The encoder is never asked to spend more bits than the source has: in the
/// FFmpeg arguments, every `-b:v` is followed by `0` or by `k` kbit/s with
/// `k * 1000 <= b`, where `b` is the source's known bitrate in bit/s. (The input,
/// output and pass-log paths are taken not to be the text `-b:v` themselves.)
pub proof fn law_args_bitrate_within_source(
    info: MediaInfo,
    s: VideoSettings,
    out: Seq<char>,
    pass: u8,
    passlog: Option<&str>,
    p: Platform,
    b: u64,
)
    requires
        info.bitrate == Some(b),
        b > 0,
        info.path@ != "-b:v"@,
        out != "-b:v"@,
        log_text(passlog) != "-b:v"@,
    ensures
        bitrates_within(video_args(info, s, out, pass, passlog, p), b as int),
{
    let bi = b as int;
    lemma_fixed_words();
    lemma_within_grow(bi);
    let ext = video_ext(info, s);
    let codec = codec_for(info, ext, s);
    let hw = uses_hw(p, s, codec);
    let bk = target_kbps(info, s);
    let tr = video_trim(s);
    lemma_trim_within(tr, bi);
    let head = seq!["-hide_banner"@, "-y"@, "-nostdin"@] + (if hw && ext != "mp3"@ {
        seq!["-hwaccel"@, "videotoolbox"@]
    } else {
        Seq::empty()
    }) + trim_args(tr) + seq!["-i"@, info.path@] + duration_args(tr);
    assert(bitrates_within(head, bi));
    if ext != "mp3"@ {
        lemma_filter_within(info, s, bi);
        lemma_encoder_within(info, s, codec, hw, pass, log_text(passlog), b);
        assert(bitrates_within(pass_args(s, codec, hw, pass, passlog), bi)) by {
            lemma_numeral_not_flag(pass as nat, Seq::empty());
        }
        assert(bitrates_within(audio_args(info, s, ext, pass, bk), bi));
        assert(bitrates_within(tail_args(ext, out, pass, p), bi));
    }
}

/// The seek and duration arguments hold no `-b:v`.
proof fn lemma_trim_within(tr: Option<(i64, Option<i64>)>, b: int)
    ensures
        bitrates_within(trim_args(tr), b),
        bitrates_within(duration_args(tr), b),
{
    lemma_fixed_words();
    lemma_within_grow(b);
    if let Some((st, en)) = tr {
        if st > 0 {
            let n = st as nat;
            lemma_numeral_not_flag(n / 1000, seq!['.', crate::text::digit_char(((n % 1000) / 100) as int), crate::text::digit_char(((n % 100) / 10) as int), crate::text::digit_char((n % 10) as int)]);
        }
        if let Some(e) = en {
            if e > st {
                let d = (e - st) as nat;
                lemma_numeral_not_flag(d / 1000, seq!['.', crate::text::digit_char(((d % 1000) / 100) as int), crate::text::digit_char(((d % 100) / 10) as int), crate::text::digit_char((d % 10) as int)]);
            }
        }
    }
}

/// The filter arguments hold no `-b:v`.
proof fn lemma_filter_within(info: MediaInfo, s: VideoSettings, b: int)
    ensures
        bitrates_within(filter_args(info, s), b),
{
    lemma_fixed_words();
    lemma_within_grow(b);
    let sf = scale_filter(info, s);
    match video_resolution(info, s) {
        Some(t) => {
            let x = "scale="@ + decimal(even_up(t.0) as nat);
            assert(x[0] == 's');
            let y = x + ":"@ + decimal(even_up(t.1) as nat);
            assert(y[0] == 's');
            assert(sf.len() > 0 && sf[0] == 's');
        },
        None => {
            assert(sf.len() > 0 && sf[0] == 's') by {
                reveal_strlit("scale=trunc(iw/2)*2:trunc(ih/2)*2");
            }
        },
    }
    lemma_not_flag(sf);
    if let Some(f) = fps_cap(info, s) {
        let z = sf + ","@ + "fps="@ + decimal(f as nat);
        assert((sf + ","@)[0] == 's');
        assert((sf + ","@ + "fps="@)[0] == 's');
        assert(z[0] == 's');
        lemma_not_flag(z);
    }
}

/// The encoder arguments give no bitrate above the source's.
proof fn lemma_encoder_within(info: MediaInfo, s: VideoSettings, codec: VideoCodec, hw: bool, pass: u8, passlog: Seq<char>, b: u64)
    requires
        info.bitrate == Some(b),
        b > 0,
    ensures
        bitrates_within(encoder_args(codec, hw, target_kbps(info, s), s, pass, passlog), b as int),
{
    let bi = b as int;
    lemma_fixed_words();
    lemma_within_grow(bi);
    let bk = target_kbps(info, s);
    let cv = crf_value(codec, s.quality) as nat;
    lemma_numeral_not_flag(cv, Seq::empty());
    lemma_numeral_not_flag(vt_value(codec, s.quality) as nat, Seq::empty());
    lemma_numeral_not_flag(s.threads as nat, Seq::empty());
    lemma_rate_within(info, s, Seq::empty(), b);
    lemma_rate_within(info, s, seq!["-crf"@, decimal(cv)], b);
    lemma_rate_within(info, s, seq!["-q:v"@, decimal(vt_value(codec, s.quality) as nat)], b);
    let vq = seq!["-crf"@, decimal(cv), "-b:v"@, "0"@];
    assert(bitrates_within(vq, bi)) by {
        assert forall|i: int| 0 <= i < vq.len() && #[trigger] vq[i] == "-b:v"@ implies i + 1 < vq.len()
            && bitrate_ok(vq[i + 1], bi) by {
            assert(i == 2);
        }
    }
    lemma_rate_within(info, s, vq, b);
    let x = "pass="@ + decimal(pass as nat);
    assert(x[0] == 'p');
    let xp = x + ":stats="@ + passlog + ":log-level=error"@;
    assert((x + ":stats="@)[0] == 'p');
    assert((x + ":stats="@ + passlog)[0] == 'p');
    assert(xp[0] == 'p');
    lemma_not_flag(xp);
}


/// The encoder named after `-c:v` is the one for the codec that the plan
/// reports (`label_of` of the effective codec, as `plan` labels it): H.265 is
/// encoded by `hevc_videotoolbox` on macOS without a size target and by
/// `libx265` otherwise, H.264 by `h264_videotoolbox` or `libx264` alike, VP9 by
/// `libvpx-vp9` and AV1 by `libsvtav1`.
pub proof fn law_encoder_matches_codec(
    info: MediaInfo,
    s: VideoSettings,
    out: Seq<char>,
    pass: u8,
    passlog: Option<&str>,
    p: Platform,
)
    requires
        video_ext(info, s) != "mp3"@,
    ensures
        ({
            let a = video_args(info, s, out, pass, passlog, p);
            let label = label_of(codec_for(info, video_ext(info, s), s));
            let hw = p.macos && s.target_size_bytes is None;
            let enc = if label == "h265"@ {
                if hw { "hevc_videotoolbox"@ } else { "libx265"@ }
            } else if label == "h264"@ {
                if hw { "h264_videotoolbox"@ } else { "libx264"@ }
            } else if label == "vp9"@ {
                "libvpx-vp9"@
            } else {
                "libsvtav1"@
            };
            exists|i: int| 0 <= i && i + 1 < a.len() && #[trigger] a[i] == "-c:v"@ && a[i + 1] == enc
        }),
{
    assert("h264"@ != "h265"@) by {
        reveal_strlit("h264");
        reveal_strlit("h265");
        assert("h264"@[3] == '4' && "h265"@[3] == '5');
    }
    assert("vp9"@ != "h265"@ && "vp9"@ != "h264"@) by {
        reveal_strlit("vp9");
        reveal_strlit("h264");
        reveal_strlit("h265");
        assert("vp9"@.len() == 3 && "h264"@.len() == 4 && "h265"@.len() == 4);
    }
    assert("av1"@ != "h265"@ && "av1"@ != "h264"@ && "av1"@ != "vp9"@) by {
        reveal_strlit("av1");
        reveal_strlit("vp9");
        reveal_strlit("h264");
        reveal_strlit("h265");
        assert("av1"@.len() == 3 && "h264"@.len() == 4 && "h265"@.len() == 4);
        assert("av1"@[0] == 'a' && "vp9"@[0] == 'v');
    }
    let ext = video_ext(info, s);
    let codec = codec_for(info, ext, s);
    let hw = uses_hw(p, s, codec);
    let bk = target_kbps(info, s);
    let head = seq!["-hide_banner"@, "-y"@, "-nostdin"@] + (if hw && ext != "mp3"@ {
        seq!["-hwaccel"@, "videotoolbox"@]
    } else {
        Seq::empty()
    }) + trim_args(video_trim(s)) + seq!["-i"@, info.path@] + duration_args(video_trim(s));
    let fa = filter_args(info, s);
    let ea = encoder_args(codec, hw, bk, s, pass, log_text(passlog));
    let pa = pass_args(s, codec, hw, pass, passlog);
    let aa = audio_args(info, s, ext, pass, bk);
    let ta = tail_args(ext, out, pass, p);
    let a = video_args(info, s, out, pass, passlog, p);
    assert(a == head + fa + ea + pa + aa + ta);
    assert(ea.len() >= 2);
    let i: int = head.len() as int + 2;
    assert((head + fa + ea)[i] == ea[0]);
    assert((head + fa + ea)[i + 1] == ea[1]);
    assert(a[i] == ea[0]);
    assert(a[i + 1] == ea[1]);
    assert(ea[0] == "-c:v"@);
}

fn push_kbit(a: &mut Vec<String>, k: u64)
    ensures
        texts(final(a)@) == texts(old(a)@).push("-b:v"@).push(kbit_arg(k)),
{
    push_lit(a, "-b:v");
    let d = fmt_u64(k);
    push_arg(a, cat(d.as_str(), "k"));
}

fn filters(info: &MediaInfo, s: &VideoSettings) -> (r: Vec<String>)
    ensures
        texts(r@) == filter_args(*info, *s),
{
    let mut f = match resolution(info, s) {
        Some((w, h)) => {
            let mut f = cat_u64("scale=", even(w));
            f.append(":");
            f.append(fmt_u64(even(h)).as_str());
            f.append(":flags=lanczos");
            f
        },
        None => String::from_str("scale=trunc(iw/2)*2:trunc(ih/2)*2"),
    };
    assert(f@ =~= scale_filter(*info, *s));
    let cap: Option<u32> = match s.fps {
        Some(fps) => if fps > 0 && (match info.fps {
            Some(r) => is_below_rate(fps, r),
            None => true,
        }) {
            Some(fps)
        } else {
            None
        },
        None => None,
    };
    assert(cap == fps_cap(*info, *s));
    let ghost scale = f@;
    if let Some(fps) = cap {
        f.append(",");
        f.append(cat_u64("fps=", fps as u64).as_str());
        assert(f@ =~= scale + ","@ + "fps="@ + decimal(fps as nat));
    }
    let mut a: Vec<String> = Vec::new();
    push_lit(&mut a, "-vf");
    push_arg(&mut a, f);
    assert(texts(a@) =~= filter_args(*info, *s));
    a
}

fn avc_encoder(
    codec: VideoCodec,
    hw: bool,
    bk: Option<u64>,
    s: &VideoSettings,
    pass: u8,
    passlog: &str,
) -> (r: Vec<String>)
    ensures
        texts(r@) == avc_args(codec, hw, bk, *s, pass, passlog@),
{
    let h265 = codec == VideoCodec::H265;
    let mut a: Vec<String> = Vec::new();
    if hw {
        push_lit(&mut a, "-c:v");
        push_lit(&mut a, if codec == VideoCodec::H264 { "h264_videotoolbox" } else { "hevc_videotoolbox" });
        push_lit(&mut a, "-realtime");
        push_lit(&mut a, "0");
        push_lit(&mut a, "-prio_speed");
        push_lit(&mut a, "1");
        match bk {
            Some(k) => push_kbit(&mut a, k),
            None => {
                push_lit(&mut a, "-q:v");
                push_arg(&mut a, fmt_u64(vt_quality(codec, s.quality) as u64));
            },
        }
        if h265 {
            push_lit(&mut a, "-tag:v");
            push_lit(&mut a, "hvc1");
        }
        push_lit(&mut a, "-pix_fmt");
        push_lit(&mut a, "yuv420p");
    } else {
        push_lit(&mut a, "-c:v");
        push_lit(&mut a, if codec == VideoCodec::H264 { "libx264" } else { "libx265" });
        push_lit(&mut a, "-preset");
        push_lit(&mut a, if s.quality == Quality::Highest { "medium" } else { "fast" });
        match bk {
            Some(k) => {
                push_kbit(&mut a, k);
                if h265 {
                    push_lit(&mut a, "-x265-params");
                    let mut p = cat_u64("pass=", pass as u64);
                    p.append(":stats=");
                    p.append(passlog);
                    p.append(":log-level=error");
                    push_arg(&mut a, p);
                }
            },
            None => {
                push_lit(&mut a, "-crf");
                push_arg(&mut a, fmt_u64(crf(codec, s.quality) as u64));
                if h265 {
                    push_lit(&mut a, "-x265-params");
                    push_lit(&mut a, "log-level=error");
                }
            },
        }
        if h265 {
            push_lit(&mut a, "-tag:v");
            push_lit(&mut a, "hvc1");
        }
        push_lit(&mut a, "-pix_fmt");
        push_lit(&mut a, "yuv420p");
        if s.threads > 0 {
            push_lit(&mut a, "-threads");
            push_arg(&mut a, fmt_u64(s.threads as u64));
        }
    }
    assert(texts(a@) =~= avc_args(codec, hw, bk, *s, pass, passlog@));
    a
}

fn encoder(
    codec: VideoCodec,
    hw: bool,
    bk: Option<u64>,
    s: &VideoSettings,
    pass: u8,
    passlog: &str,
) -> (r: Vec<String>)
    ensures
        texts(r@) == encoder_args(codec, hw, bk, *s, pass, passlog@),
{
    match codec {
        VideoCodec::Vp9 => {
            let mut a: Vec<String> = Vec::new();
            push_lit(&mut a, "-c:v");
            push_lit(&mut a, "libvpx-vp9");
            push_lit(&mut a, "-row-mt");
            push_lit(&mut a, "1");
            push_lit(&mut a, "-deadline");
            push_lit(&mut a, "good");
            push_lit(&mut a, "-cpu-used");
            push_lit(&mut a, "4");
            push_lit(&mut a, "-tile-columns");
            push_lit(&mut a, "2");
            match bk {
                Some(k) => push_kbit(&mut a, k),
                None => {
                    push_lit(&mut a, "-crf");
                    push_arg(&mut a, fmt_u64(crf(codec, s.quality) as u64));
                    push_lit(&mut a, "-b:v");
                    push_lit(&mut a, "0");
                },
            }
            push_lit(&mut a, "-pix_fmt");
            push_lit(&mut a, "yuv420p");
            assert(texts(a@) =~= encoder_args(codec, hw, bk, *s, pass, passlog@));
            a
        },
        VideoCodec::Av1 => {
            let mut a: Vec<String> = Vec::new();
            push_lit(&mut a, "-c:v");
            push_lit(&mut a, "libsvtav1");
            push_lit(&mut a, "-preset");
            push_lit(&mut a, "10");
            match bk {
                Some(k) => push_kbit(&mut a, k),
                None => {
                    push_lit(&mut a, "-crf");
                    push_arg(&mut a, fmt_u64(crf(codec, s.quality) as u64));
                },
            }
            push_lit(&mut a, "-pix_fmt");
            push_lit(&mut a, "yuv420p10le");
            assert(texts(a@) =~= encoder_args(codec, hw, bk, *s, pass, passlog@));
            a
        },
        _ => avc_encoder(codec, hw, bk, s, pass, passlog),
    }
}

fn passes(s: &VideoSettings, codec: VideoCodec, hw: bool, pass: u8, passlog: Option<&str>) -> (r: Vec<String>)
    ensures
        texts(r@) == pass_args(*s, codec, hw, pass, passlog),
{
    let mut a: Vec<String> = Vec::new();
    if s.target_size_bytes.is_some() && pass > 0 && !(codec == VideoCodec::H265 && !hw) {
        push_lit(&mut a, "-pass");
        push_arg(&mut a, fmt_u64(pass as u64));
        if let Some(p) = passlog {
            push_lit(&mut a, "-passlogfile");
            push_lit(&mut a, p);
        }
    }
    assert(texts(a@) =~= pass_args(*s, codec, hw, pass, passlog));
    a
}

fn audio(info: &MediaInfo, s: &VideoSettings, ext: &str, pass: u8, bk: Option<u64>) -> (r: Vec<String>)
    ensures
        texts(r@) == audio_args(*info, *s, ext@, pass, bk),
{
    let mut a: Vec<String> = Vec::new();
    if s.remove_audio || !info.has_audio || pass == 1 {
        push_lit(&mut a, "-an");
    } else {
        let ac: &str = match &info.audio_codec {
            Some(c) => c.as_str(),
            None => "",
        };
        proof {
            reveal_strlit("");
        }
        assert(ac@ == match info.audio_codec {
            Some(c) => c@,
            None => Seq::<char>::empty(),
        });
        if text_eq(ext, "webm") {
            if text_eq(ac, "opus") || text_eq(ac, "vorbis") {
                push_lit(&mut a, "-c:a");
                push_lit(&mut a, "copy");
            } else {
                push_lit(&mut a, "-c:a");
                push_lit(&mut a, "libopus");
                push_lit(&mut a, "-b:a");
                push_lit(&mut a, "112k");
            }
        } else if text_eq(ext, "mkv") {
            push_lit(&mut a, "-c:a");
            push_lit(&mut a, "copy");
        } else if (text_eq(ac, "aac") || text_eq(ac, "mp3") || text_eq(ac, "ac3") || text_eq(ac, "alac"))
            && bk.is_none() {
            push_lit(&mut a, "-c:a");
            push_lit(&mut a, "copy");
        } else {
            push_lit(&mut a, "-c:a");
            push_lit(&mut a, "aac");
            push_lit(&mut a, "-b:a");
            push_lit(&mut a, "128k");
        }
    }
    proof {
        reveal_strlit("");
    }
    assert(texts(a@) =~= audio_args(*info, *s, ext@, pass, bk));
    a
}

fn tail(ext: &str, out: &str, pass: u8, p: Platform) -> (r: Vec<String>)
    ensures
        texts(r@) == tail_args(ext@, out@, pass, p),
{
    let mut a: Vec<String> = Vec::new();
    if text_eq(ext, "mp4") || text_eq(ext, "mov") {
        push_lit(&mut a, "-movflags");
        push_lit(&mut a, "+faststart");
    }
    push_lit(&mut a, "-map_metadata");
    push_lit(&mut a, "0");
    push_lit(&mut a, "-progress");
    push_lit(&mut a, "pipe:1");
    push_lit(&mut a, "-nostats");
    if pass == 1 {
        push_lit(&mut a, "-f");
        push_lit(&mut a, "null");
        push_lit(&mut a, if p.windows { "NUL" } else { "/dev/null" });
    } else {
        push_lit(&mut a, out);
    }
    assert(texts(a@) =~= tail_args(ext@, out@, pass, p));
    a
}

/// Builds the FFmpeg argument list. `pass` = 0 for single-pass, 1/2 for two-pass;
/// `passlog` names the pass log of two-pass runs. Where the source's bitrate `b`
/// is known, every `-b:v` in the list asks for at most `b` bit/s.
pub fn build_args(
    info: &MediaInfo,
    s: &VideoSettings,
    out: &str,
    pass: u8,
    passlog: Option<&str>,
    p: Platform,
) -> (r: Vec<String>)
    ensures
        texts(r@) == video_args(*info, *s, out@, pass, passlog, p),
        match info.bitrate {
            Some(b) => b > 0 && info.path@ != "-b:v"@ && out@ != "-b:v"@ && log_text(passlog) != "-b:v"@
                ==> bitrates_within(texts(r@), b as int),
            None => true,
        },
{
    let r = video_arg_list(info, s, out, pass, passlog, p);
    proof {
        if let Some(b) = info.bitrate {
            if b > 0 && info.path@ != "-b:v"@ && out@ != "-b:v"@ && log_text(passlog) != "-b:v"@ {
                law_args_bitrate_within_source(*info, *s, out@, pass, passlog, p, b);
            }
        }
    }
    r
}

#[verifier::spinoff_prover]
#[verifier::rlimit(40)]
fn video_arg_list(
    info: &MediaInfo,
    s: &VideoSettings,
    out: &str,
    pass: u8,
    passlog: Option<&str>,
    p: Platform,
) -> (r: Vec<String>)
    ensures
        texts(r@) == video_args(*info, *s, out@, pass, passlog, p),
{
    let ext = output_ext(info, s);
    let codec = effective_codec(info, ext, s);
    let hw = p.macos && s.target_size_bytes.is_none()
        && (codec == VideoCodec::H264 || codec == VideoCodec::H265);
    let is_mp3 = text_eq(ext, "mp3");
    let mut a: Vec<String> = Vec::new();
    push_lit(&mut a, "-hide_banner");
    push_lit(&mut a, "-y");
    push_lit(&mut a, "-nostdin");
    if hw && !is_mp3 {
        push_lit(&mut a, "-hwaccel");
        push_lit(&mut a, "videotoolbox");
    }
    let st0: i64 = match s.trim_start_ms {
        Some(x) => x,
        None => 0,
    };
    if st0 > 0 {
        push_lit(&mut a, "-ss");
        push_arg(&mut a, fmt_seconds3(st0 as u64));
    }
    push_lit(&mut a, "-i");
    push_lit(&mut a, info.path.as_str());
    if let Some(en) = s.trim_end_ms {
        if en > st0 {
            push_lit(&mut a, "-t");
            push_arg(&mut a, fmt_seconds3(span_ms(st0, en)));
        }
    }
    let ghost head = texts(a@);
    assert(head =~= seq!["-hide_banner"@, "-y"@, "-nostdin"@] + (if hw && video_ext(*info, *s)
        != "mp3"@ {
        seq!["-hwaccel"@, "videotoolbox"@]
    } else {
        Seq::empty()
    }) + trim_args(video_trim(*s)) + seq!["-i"@, info.path@] + duration_args(video_trim(*s)));
    if is_mp3 {
        push_lit(&mut a, "-vn");
        push_lit(&mut a, "-c:a");
        push_lit(&mut a, "libmp3lame");
        push_lit(&mut a, "-q:a");
        push_lit(&mut a, "2");
        push_lit(&mut a, "-progress");
        push_lit(&mut a, "pipe:1");
        push_lit(&mut a, "-nostats");
        push_lit(&mut a, out);
        assert(texts(a@) =~= video_args(*info, *s, out@, pass, passlog, p));
        return a;
    }
    let bk = target_bitrate_k(info, s);
    let log: &str = match passlog {
        Some(l) => l,
        None => "",
    };
    proof {
        reveal_strlit("");
    }
    append_args(&mut a, filters(info, s));
    append_args(&mut a, encoder(codec, hw, bk, s, pass, log));
    append_args(&mut a, passes(s, codec, hw, pass, passlog));
    append_args(&mut a, audio(info, s, ext, pass, bk));
    append_args(&mut a, tail(ext, out, pass, p));
    assert(texts(a@) =~= video_args(*info, *s, out@, pass, passlog, p));
    a
}

} // verus!


