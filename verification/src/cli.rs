//! Command-line options (shared by the CLI and the MCP server) and how they
//! change the stored settings.
use vstd::prelude::*;
use vstd::string::*;
use crate::path::{lower, to_lower};
use crate::settings::{
    ImageFormat, OutputLocation, Quality, Resize, ResizeMode, Settings, VideoCodec, VideoFormat,
};
use crate::text::{cat, text_eq};

verus! {

/// Command-line / MCP options.
#[derive(Debug, Clone)]
pub struct Opts {
    /// highest | high | good | medium | acceptable
    pub quality: Option<String>,
    /// Video: same|mp4|mov|webm|mkv|gif|mp3 · Image: same|jpg|png|webp|avif
    pub format: Option<String>,
    /// Longest side in pixels (never upscales).
    pub max: Option<u32>,
    /// Output directory (default: next to the input).
    pub out: Option<String>,
    /// Replace the original file in place.
    pub replace: bool,
    /// Remove the audio track (video).
    pub no_audio: bool,
    /// Video codec: auto|h264|h265|vp9|av1
    pub codec: Option<String>,
    /// Target size in bytes (video, two-pass).
    pub target_bytes: Option<u64>,
}

/// The preset that a lowercased quality name denotes.
pub open spec fn quality_named(t: Seq<char>) -> Option<Quality> {
    if t == "highest"@ {
        Some(Quality::Highest)
    } else if t == "high"@ {
        Some(Quality::High)
    } else if t == "good"@ {
        Some(Quality::Good)
    } else if t == "medium"@ {
        Some(Quality::Medium)
    } else if t == "acceptable"@ || t == "low"@ || t == "smallest"@ {
        Some(Quality::Acceptable)
    } else {
        None
    }
}

/// Parses a quality name (case-insensitive; `low` and `smallest` mean acceptable).
pub fn parse_quality(q: &str) -> (r: Result<Quality, String>)
    ensures
        match quality_named(lower(q@)) {
            Some(x) => r == Ok::<Quality, String>(x),
            None => r matches Err(e) && e@ == "unknown quality '"@ + lower(q@)
                + "' (highest|high|good|medium|acceptable)"@,
        },
{
    let l = to_lower(q);
    let t = l.as_str();
    if text_eq(t, "highest") {
        Ok(Quality::Highest)
    } else if text_eq(t, "high") {
        Ok(Quality::High)
    } else if text_eq(t, "good") {
        Ok(Quality::Good)
    } else if text_eq(t, "medium") {
        Ok(Quality::Medium)
    } else if text_eq(t, "acceptable") || text_eq(t, "low") || text_eq(t, "smallest") {
        Ok(Quality::Acceptable)
    } else {
        let mut e = cat("unknown quality '", t);
        e.append("' (highest|high|good|medium|acceptable)");
        Err(e)
    }
}

/// The codec that a lowercased codec name denotes.
pub open spec fn codec_named(t: Seq<char>) -> Option<VideoCodec> {
    if t == "auto"@ {
        Some(VideoCodec::Auto)
    } else if t == "h264"@ || t == "avc"@ {
        Some(VideoCodec::H264)
    } else if t == "h265"@ || t == "hevc"@ {
        Some(VideoCodec::H265)
    } else if t == "vp9"@ {
        Some(VideoCodec::Vp9)
    } else if t == "av1"@ {
        Some(VideoCodec::Av1)
    } else {
        None
    }
}

fn parse_codec(t: &str) -> (r: Option<VideoCodec>)
    ensures
        r == codec_named(t@),
{
    if text_eq(t, "auto") {
        Some(VideoCodec::Auto)
    } else if text_eq(t, "h264") || text_eq(t, "avc") {
        Some(VideoCodec::H264)
    } else if text_eq(t, "h265") || text_eq(t, "hevc") {
        Some(VideoCodec::H265)
    } else if text_eq(t, "vp9") {
        Some(VideoCodec::Vp9)
    } else if text_eq(t, "av1") {
        Some(VideoCodec::Av1)
    } else {
        None
    }
}

/// The video format that a lowercased `--format` value selects, if any.
pub open spec fn video_format_named(t: Seq<char>) -> Option<VideoFormat> {
    if t == "same"@ {
        Some(VideoFormat::Same)
    } else if t == "mp4"@ {
        Some(VideoFormat::Mp4)
    } else if t == "mov"@ {
        Some(VideoFormat::Mov)
    } else if t == "webm"@ {
        Some(VideoFormat::Webm)
    } else if t == "mkv"@ {
        Some(VideoFormat::Mkv)
    } else if t == "gif"@ {
        Some(VideoFormat::Gif)
    } else if t == "mp3"@ {
        Some(VideoFormat::Mp3)
    } else {
        None
    }
}

/// The image format that a lowercased `--format` value selects, if any.
pub open spec fn image_format_named(t: Seq<char>) -> Option<ImageFormat> {
    if t == "same"@ {
        Some(ImageFormat::Same)
    } else if t == "jpg"@ || t == "jpeg"@ {
        Some(ImageFormat::Jpg)
    } else if t == "png"@ {
        Some(ImageFormat::Png)
    } else if t == "webp"@ {
        Some(ImageFormat::Webp)
    } else if t == "avif"@ {
        Some(ImageFormat::Avif)
    } else {
        None
    }
}

/// The settings after a lowercased `--format` value, or `None` for an unknown one.
pub open spec fn with_format(s: Settings, t: Seq<char>) -> Option<Settings> {
    let vf = video_format_named(t);
    let imf = image_format_named(t);
    if vf is None && imf is None {
        None
    } else {
        Some(
            Settings {
                video: crate::settings::VideoSettings {
                    format: match vf {
                        Some(f) => f,
                        None => s.video.format,
                    },
                    ..s.video
                },
                image: crate::settings::ImageSettings {
                    format: match imf {
                        Some(f) => f,
                        None => s.image.format,
                    },
                    ..s.image
                },
                ..s
            },
        )
    }
}

/// The settings with a quality applied to every media kind.
pub open spec fn with_quality(s: Settings, q: Quality) -> Settings {
    Settings {
        video: crate::settings::VideoSettings { quality: q, ..s.video },
        image: crate::settings::ImageSettings { quality: q, ..s.image },
        gif: crate::settings::GifSettings { quality: q, ..s.gif },
        pdf: crate::settings::PdfSettings { quality: q },
        ..s
    }
}

/// The settings with a longest-side resize for every media kind, when asked for.
pub open spec fn with_max(s: Settings, max: Option<u32>) -> Settings {
    match max {
        Some(m) => {
            let r = Resize { mode: ResizeMode::LongEdge, value: m };
            Settings {
                video: crate::settings::VideoSettings { resize: r, ..s.video },
                image: crate::settings::ImageSettings { resize: r, ..s.image },
                gif: crate::settings::GifSettings { resize: r, ..s.gif },
                ..s
            }
        },
        None => s,
    }
}

/// The settings with a custom output folder, when asked for.
pub open spec fn with_out(s: Settings, out: Option<String>) -> Settings {
    match out {
        Some(d) => Settings {
            output: crate::settings::OutputSettings {
                location: OutputLocation::Custom,
                custom_dir: d,
                ..s.output
            },
            ..s
        },
        None => s,
    }
}

/// The settings with audio removal and a target size, when asked for.
pub open spec fn with_audio_target(s: Settings, no_audio: bool, target: Option<u64>) -> Settings {
    Settings {
        video: crate::settings::VideoSettings {
            remove_audio: if no_audio { true } else { s.video.remove_audio },
            target_size_bytes: match target {
                Some(b) => Some(b),
                None => s.video.target_size_bytes,
            },
            ..s.video
        },
        ..s
    }
}

/// The settings with the options that cannot fail applied: longest-side resize,
/// custom output folder, audio removal and target size.
pub open spec fn with_plain_opts(s: Settings, o: Opts) -> Settings {
    with_audio_target(with_out(with_max(s, o.max), o.out), o.no_audio, o.target_bytes)
}

/// The error for an unknown `--format` value.
pub open spec fn format_error(t: Seq<char>) -> Seq<char> {
    "unknown format '"@ + t + "'"@
}

/// The error for an unknown `--codec` value.
pub open spec fn codec_error(t: Seq<char>) -> Seq<char> {
    "unknown codec '"@ + t + "'"@
}

/// Applies command-line options to the stored settings. Destructive behaviour is
/// never inherited from the GUI settings: the original is overwritten only when
/// asked for, and never trashed. Quality, format and codec names are
/// case-insensitive; the first unknown one is reported.
pub open spec fn applied_opts(s: Settings, o: Opts) -> Result<Settings, Seq<char>> {
    let q = match o.quality {
        Some(t) => match quality_named(lower(t@)) {
            Some(q) => Ok(Some(q)),
            None => Err("unknown quality '"@ + lower(t@) + "' (highest|high|good|medium|acceptable)"@),
        },
        None => Ok(None),
    };
    match q {
        Err(e) => Err(e),
        Ok(q) => {
            let s0 = Settings {
                output: crate::settings::OutputSettings {
                    overwrite_original: o.replace,
                    trash_original: false,
                    ..s.output
                },
                ..s
            };
            let s1 = match q {
                Some(q) => with_quality(s0, q),
                None => s0,
            };
            let f = match o.format {
                Some(t) => match with_format(s1, lower(t@)) {
                    Some(x) => Ok(x),
                    None => Err(format_error(lower(t@))),
                },
                None => Ok(s1),
            };
            match f {
                Err(e) => Err(e),
                Ok(s2) => {
                    let s3 = with_plain_opts(s2, o);
                    match o.codec {
                        Some(t) => match codec_named(lower(t@)) {
                            Some(c) => Ok(
                                Settings {
                                    video: crate::settings::VideoSettings { codec: c, ..s3.video },
                                    ..s3
                                },
                            ),
                            None => Err(codec_error(lower(t@))),
                        },
                        None => Ok(s3),
                    }
                },
            }
        },
    }
}

fn video_format(t: &str) -> (r: Option<VideoFormat>)
    ensures
        r == video_format_named(t@),
{
    if text_eq(t, "same") {
        Some(VideoFormat::Same)
    } else if text_eq(t, "mp4") {
        Some(VideoFormat::Mp4)
    } else if text_eq(t, "mov") {
        Some(VideoFormat::Mov)
    } else if text_eq(t, "webm") {
        Some(VideoFormat::Webm)
    } else if text_eq(t, "mkv") {
        Some(VideoFormat::Mkv)
    } else if text_eq(t, "gif") {
        Some(VideoFormat::Gif)
    } else if text_eq(t, "mp3") {
        Some(VideoFormat::Mp3)
    } else {
        None
    }
}

fn image_format(t: &str) -> (r: Option<ImageFormat>)
    ensures
        r == image_format_named(t@),
{
    if text_eq(t, "same") {
        Some(ImageFormat::Same)
    } else if text_eq(t, "jpg") || text_eq(t, "jpeg") {
        Some(ImageFormat::Jpg)
    } else if text_eq(t, "png") {
        Some(ImageFormat::Png)
    } else if text_eq(t, "webp") {
        Some(ImageFormat::Webp)
    } else if text_eq(t, "avif") {
        Some(ImageFormat::Avif)
    } else {
        None
    }
}

fn apply_format(s: Settings, t: &str) -> (r: Option<Settings>)
    ensures
        r == with_format(s, t@),
{
    let vf = video_format(t);
    let imf = image_format(t);
    if vf.is_none() && imf.is_none() {
        return None;
    }
    let mut s = s;
    if let Some(f) = vf {
        s.video.format = f;
    }
    if let Some(f) = imf {
        s.image.format = f;
    }
    Some(s)
}

fn apply_max(s: Settings, max: Option<u32>) -> (r: Settings)
    ensures
        r == with_max(s, max),
{
    let mut s = s;
    if let Some(m) = max {
        let r = Resize { mode: ResizeMode::LongEdge, value: m };
        s.video.resize = r;
        s.image.resize = r;
        s.gif.resize = r;
    }
    s
}

fn apply_out(s: Settings, out: &Option<String>) -> (r: Settings)
    ensures
        r == with_out(s, *out),
{
    let mut s = s;
    if let Some(dir) = out {
        s.output.location = OutputLocation::Custom;
        s.output.custom_dir = dir.clone();
    }
    s
}

fn apply_audio_target(s: Settings, no_audio: bool, target: Option<u64>) -> (r: Settings)
    ensures
        r == with_audio_target(s, no_audio, target),
{
    let mut s = s;
    if no_audio {
        s.video.remove_audio = true;
    }
    if let Some(b) = target {
        s.video.target_size_bytes = Some(b);
    }
    s
}

fn apply_plain(s: Settings, o: &Opts) -> (r: Settings)
    ensures
        r == with_plain_opts(s, *o),
{
    let s = apply_max(s, o.max);
    let s = apply_out(s, &o.out);
    apply_audio_target(s, o.no_audio, o.target_bytes)
}

fn apply_quality(s: Settings, q: Quality) -> (r: Settings)
    ensures
        r == with_quality(s, q),
{
    let mut s = s;
    s.video.quality = q;
    s.image.quality = q;
    s.gif.quality = q;
    s.pdf.quality = q;
    s
}

fn apply_overwrite(s: Settings, replace: bool) -> (r: Settings)
    ensures
        r == (Settings {
            output: crate::settings::OutputSettings {
                overwrite_original: replace,
                trash_original: false,
                ..s.output
            },
            ..s
        }),
{
    let mut s = s;
    s.output.overwrite_original = replace;
    s.output.trash_original = false;
    s
}

fn apply_codec(s: Settings, c: VideoCodec) -> (r: Settings)
    ensures
        r == (Settings { video: crate::settings::VideoSettings { codec: c, ..s.video }, ..s }),
{
    let mut s = s;
    s.video.codec = c;
    s
}

/// Applies command-line options to the stored settings.
#[verifier::spinoff_prover]
#[verifier::rlimit(40)]
pub fn apply_opts(s: Settings, o: &Opts) -> (r: Result<Settings, String>)
    ensures
        match applied_opts(s, *o) {
            Ok(x) => r == Ok::<Settings, String>(x),
            Err(e) => r matches Err(m) && m@ == e,
        },
{
    let s = apply_overwrite(s, o.replace);
    let s = match &o.quality {
        Some(q) => match parse_quality(q.as_str()) {
            Ok(q) => apply_quality(s, q),
            Err(e) => return Err(e),
        },
        None => s,
    };
    let s = match &o.format {
        Some(f) => {
            let t = to_lower(f.as_str());
            match apply_format(s, t.as_str()) {
                Some(x) => x,
                None => {
                    let mut e = cat("unknown format '", t.as_str());
                    e.append("'");
                    return Err(e);
                },
            }
        },
        None => s,
    };
    let s = apply_plain(s, o);
    match &o.codec {
        Some(c) => {
            let t = to_lower(c.as_str());
            match parse_codec(t.as_str()) {
                Some(c) => Ok(apply_codec(s, c)),
                None => {
                    let mut e = cat("unknown codec '", t.as_str());
                    e.append("'");
                    Err(e)
                },
            }
        },
        None => Ok(s),
    }
}

/// Options never make the CLI trash the original, and overwrite it only when
/// `--replace` is given.
pub proof fn law_opts_never_destructive_unasked(s: Settings, o: Opts)
    ensures
        applied_opts(s, o) matches Ok(x) ==> !x.output.trash_original && x.output.overwrite_original
            == o.replace,
{
}

/// The JSON-RPC methods that the MCP server tells apart.
#[derive(Debug, Clone, Copy, PartialEq, Eq, Structural)]
pub enum RpcMethod {
    Initialize,
    /// `notifications/initialized` and `notifications/cancelled`: no reply.
    Notification,
    Ping,
    ToolsList,
    ToolsCall,
    Unknown,
}

/// The JSON-RPC method that a method name denotes.
pub open spec fn rpc_method_of(m: Seq<char>) -> RpcMethod {
    if m == "initialize"@ {
        RpcMethod::Initialize
    } else if m == "notifications/initialized"@ || m == "notifications/cancelled"@ {
        RpcMethod::Notification
    } else if m == "ping"@ {
        RpcMethod::Ping
    } else if m == "tools/list"@ {
        RpcMethod::ToolsList
    } else if m == "tools/call"@ {
        RpcMethod::ToolsCall
    } else {
        RpcMethod::Unknown
    }
}

/// Classifies a JSON-RPC method name (exact match).
pub fn rpc_method(m: &str) -> (r: RpcMethod)
    ensures
        r == rpc_method_of(m@),
{
    if text_eq(m, "initialize") {
        RpcMethod::Initialize
    } else if text_eq(m, "notifications/initialized") || text_eq(m, "notifications/cancelled") {
        RpcMethod::Notification
    } else if text_eq(m, "ping") {
        RpcMethod::Ping
    } else if text_eq(m, "tools/list") {
        RpcMethod::ToolsList
    } else if text_eq(m, "tools/call") {
        RpcMethod::ToolsCall
    } else {
        RpcMethod::Unknown
    }
}

/// The error message for a method the server does not know.
pub fn method_not_found(m: &str) -> (r: String)
    ensures
        r@ == "method not found: "@ + m@,
{
    cat("method not found: ", m)
}

/// Whether an unknown method is answered: only requests (with an id) are;
/// notifications are dropped.
pub fn answers_unknown(has_id: bool) -> (r: bool)
    ensures
        r == has_id,
{
    has_id
}

/// The MCP tools.
#[derive(Debug, Clone, Copy, PartialEq, Eq, Structural)]
pub enum McpTool {
    Compress,
    Probe,
    Estimate,
    History,
}

/// The MCP tool that a tool name denotes (exact match).
pub open spec fn mcp_tool_of(name: Seq<char>) -> Option<McpTool> {
    if name == "probe"@ {
        Some(McpTool::Probe)
    } else if name == "history"@ {
        Some(McpTool::History)
    } else if name == "estimate"@ {
        Some(McpTool::Estimate)
    } else if name == "compress"@ {
        Some(McpTool::Compress)
    } else {
        None
    }
}

/// Resolves an MCP tool name, or gives the error for an unknown one.
pub fn mcp_tool(name: &str) -> (r: Result<McpTool, String>)
    ensures
        match mcp_tool_of(name@) {
            Some(t) => r == Ok::<McpTool, String>(t),
            None => r matches Err(e) && e@ == "unknown tool "@ + name@,
        },
{
    if text_eq(name, "probe") {
        Ok(McpTool::Probe)
    } else if text_eq(name, "history") {
        Ok(McpTool::History)
    } else if text_eq(name, "estimate") {
        Ok(McpTool::Estimate)
    } else if text_eq(name, "compress") {
        Ok(McpTool::Compress)
    } else {
        Err(cat("unknown tool ", name))
    }
}

/// The `compress` tool needs at least one path.
pub fn require_paths(paths: &Vec<String>) -> (r: Result<(), String>)
    ensures
        r is Ok <==> paths@.len() > 0,
        r matches Err(e) ==> e@ == "paths is required"@,
{
    if paths.len() == 0 {
        Err(String::from_str("paths is required"))
    } else {
        Ok(())
    }
}

/// Where the last `limit` history items start in a history of `len` items.
pub fn history_start(len: usize, limit: usize) -> (r: usize)
    ensures
        r == (if len >= limit { len - limit } else { 0 }),
{
    len.saturating_sub(limit)
}

/// Folder entries that the command line does not descend into or compress:
/// hidden ones and `node_modules`.
pub fn walk_skips(name: &str) -> (r: bool)
    ensures
        r == (crate::text::has_prefix(name@, "."@) || name@ == "node_modules"@),
{
    crate::text::starts_with(name, ".") || text_eq(name, "node_modules")
}

/// The deepest folder level that the command line walks into.
pub const CLI_WALK_DEPTH: usize = 8;

} // verus!
