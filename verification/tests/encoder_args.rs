use feather::gif;
use feather::pdf;
use feather::probe::{FrameRate, MediaInfo, MediaKind};
use feather::settings::{GifSettings, Quality, Resize, ResizeMode, VideoCodec, VideoFormat, VideoSettings};
use feather::thumb::{md5ish, plan_thumbnail, thumb_file_name, thumb_key, ThumbTool};
use feather::video::{self, Platform};

const LINUX: Platform = Platform { macos: false, windows: false };
const MAC: Platform = Platform { macos: true, windows: false };

fn strs(v: &[&str]) -> Vec<String> {
    v.iter().map(|s| s.to_string()).collect()
}

fn video_info(path: &str, audio: Option<&str>) -> MediaInfo {
    let mut i = MediaInfo::basic(path, 50_000_000);
    i.width = Some(1920);
    i.height = Some(1080);
    i.fps = Some(FrameRate { num: 30, den: 1 });
    i.duration_ms = Some(10_000);
    i.video_codec = Some("h264".to_string());
    i.has_audio = audio.is_some();
    i.audio_codec = audio.map(|a| a.to_string());
    i
}

#[test]
fn video_default_x264_with_resize() {
    let info = video_info("/v/a.mp4", Some("aac"));
    let mut s = VideoSettings::default();
    s.resize = Resize { mode: ResizeMode::Width, value: 1280 };
    let args = video::build_args(&info, &s, "/out/a_c.mp4", 0, None, LINUX);
    assert_eq!(
        args,
        strs(&[
            "-hide_banner", "-y", "-nostdin", "-i", "/v/a.mp4", "-vf", "scale=1280:720:flags=lanczos", "-c:v",
            "libx264", "-preset", "fast", "-crf", "26", "-pix_fmt", "yuv420p", "-c:a", "copy", "-movflags",
            "+faststart", "-map_metadata", "0", "-progress", "pipe:1", "-nostats", "/out/a_c.mp4",
        ])
    );
}

#[test]
fn video_videotoolbox_on_macos() {
    let info = video_info("/v/a.mp4", Some("opus"));
    let s = VideoSettings::default();
    let args = video::build_args(&info, &s, "/out/b.mp4", 0, None, MAC);
    assert_eq!(
        args,
        strs(&[
            "-hide_banner", "-y", "-nostdin", "-hwaccel", "videotoolbox", "-i", "/v/a.mp4", "-vf",
            "scale=trunc(iw/2)*2:trunc(ih/2)*2", "-c:v", "h264_videotoolbox", "-realtime", "0", "-prio_speed", "1",
            "-q:v", "50", "-pix_fmt", "yuv420p", "-c:a", "aac", "-b:a", "128k", "-movflags", "+faststart",
            "-map_metadata", "0", "-progress", "pipe:1", "-nostats", "/out/b.mp4",
        ])
    );
}

#[test]
fn video_h265_two_pass_target_size() {
    let info = video_info("/v/a.mp4", Some("aac"));
    let mut s = VideoSettings::default();
    s.codec = VideoCodec::H265;
    s.target_size_bytes = Some(10 * 1024 * 1024);
    assert_eq!(video::target_bitrate_k(&info, &s), Some(8008));
    let p = video::plan(&info, &s);
    assert!(p.two_pass);
    assert_eq!(p.codec_label, "h265");
    assert_eq!(p.ext, "mp4");
    let a1 = video::build_args(&info, &s, "/out/c.mp4", 1, Some("/tmp/log"), MAC);
    assert_eq!(
        a1,
        strs(&[
            "-hide_banner", "-y", "-nostdin", "-i", "/v/a.mp4", "-vf", "scale=trunc(iw/2)*2:trunc(ih/2)*2", "-c:v",
            "libx265", "-preset", "fast", "-b:v", "8008k", "-x265-params", "pass=1:stats=/tmp/log:log-level=error",
            "-tag:v", "hvc1", "-pix_fmt", "yuv420p", "-an", "-movflags", "+faststart", "-map_metadata", "0",
            "-progress", "pipe:1", "-nostats", "-f", "null", "/dev/null",
        ])
    );
    let a2 = video::build_args(&info, &s, "/out/c.mp4", 2, Some("/tmp/log"), Platform { macos: false, windows: true });
    assert_eq!(
        a2,
        strs(&[
            "-hide_banner", "-y", "-nostdin", "-i", "/v/a.mp4", "-vf", "scale=trunc(iw/2)*2:trunc(ih/2)*2", "-c:v",
            "libx265", "-preset", "fast", "-b:v", "8008k", "-x265-params", "pass=2:stats=/tmp/log:log-level=error",
            "-tag:v", "hvc1", "-pix_fmt", "yuv420p", "-c:a", "aac", "-b:a", "128k", "-movflags", "+faststart",
            "-map_metadata", "0", "-progress", "pipe:1", "-nostats", "/out/c.mp4",
        ])
    );
}

#[test]
fn video_x264_two_pass_uses_pass_flags_and_null_device() {
    let info = video_info("/v/a.mp4", None);
    let mut s = VideoSettings::default();
    s.target_size_bytes = Some(1_000_000);
    s.quality = Quality::Highest;
    let a1 = video::build_args(&info, &s, "/out/d.mp4", 1, Some("/tmp/pl"), Platform { macos: false, windows: true });
    assert_eq!(
        a1,
        strs(&[
            "-hide_banner", "-y", "-nostdin", "-i", "/v/a.mp4", "-vf", "scale=trunc(iw/2)*2:trunc(ih/2)*2", "-c:v",
            "libx264", "-preset", "medium", "-b:v", "776k", "-pix_fmt", "yuv420p", "-pass", "1", "-passlogfile",
            "/tmp/pl", "-an", "-movflags", "+faststart", "-map_metadata", "0", "-progress", "pipe:1", "-nostats",
            "-f", "null", "NUL",
        ])
    );
}

#[test]
fn video_vp9_webm_with_trim_and_fps_cap() {
    let info = video_info("/v/a.mp4", Some("aac"));
    let mut s = VideoSettings::default();
    s.codec = VideoCodec::Vp9;
    s.format = VideoFormat::Webm;
    s.quality = Quality::Acceptable;
    s.trim_start_ms = Some(1000);
    s.trim_end_ms = Some(3000);
    s.fps = Some(24);
    assert_eq!(video::output_ext(&info, &s), "webm");
    let args = video::build_args(&info, &s, "/out/v.webm", 0, None, LINUX);
    assert_eq!(
        args,
        strs(&[
            "-hide_banner", "-y", "-nostdin", "-ss", "1.000", "-i", "/v/a.mp4", "-t", "2.000", "-vf",
            "scale=trunc(iw/2)*2:trunc(ih/2)*2,fps=24", "-c:v", "libvpx-vp9", "-row-mt", "1", "-deadline", "good",
            "-cpu-used", "4", "-tile-columns", "2", "-crf", "42", "-b:v", "0", "-pix_fmt", "yuv420p", "-c:a",
            "libopus", "-b:a", "112k", "-map_metadata", "0", "-progress", "pipe:1", "-nostats", "/out/v.webm",
        ])
    );
}

#[test]
fn video_av1_mkv_copies_audio() {
    let info = video_info("/v/a.mkv", Some("flac"));
    let mut s = VideoSettings::default();
    s.codec = VideoCodec::Av1;
    s.threads = 4;
    let args = video::build_args(&info, &s, "/out/a.mkv", 0, None, LINUX);
    assert_eq!(
        args,
        strs(&[
            "-hide_banner", "-y", "-nostdin", "-i", "/v/a.mkv", "-vf", "scale=trunc(iw/2)*2:trunc(ih/2)*2", "-c:v",
            "libsvtav1", "-preset", "10", "-crf", "38", "-pix_fmt", "yuv420p10le", "-c:a", "copy", "-map_metadata",
            "0", "-progress", "pipe:1", "-nostats", "/out/a.mkv",
        ])
    );
}

#[test]
fn video_mp3_extracts_audio_only() {
    let info = video_info("/v/a.mov", Some("aac"));
    let mut s = VideoSettings::default();
    s.format = VideoFormat::Mp3;
    let p = video::plan(&info, &s);
    assert_eq!(p.ext, "mp3");
    assert!(!p.two_pass);
    let args = video::build_args(&info, &s, "/out/a.mp3", 0, None, MAC);
    assert_eq!(
        args,
        strs(&[
            "-hide_banner", "-y", "-nostdin", "-i", "/v/a.mov", "-vn", "-c:a", "libmp3lame", "-q:a", "2", "-progress",
            "pipe:1", "-nostats", "/out/a.mp3",
        ])
    );
}

#[test]
fn video_codec_choice_follows_container() {
    let mut info = video_info("/v/a.webm", None);
    info.video_codec = Some("hevc".to_string());
    let s = VideoSettings::default();
    // Auto keeps HEVC, but WebM only takes VP9 or AV1.
    assert_eq!(video::plan(&info, &s).codec_label, "vp9");
    let info2 = {
        let mut i = video_info("/v/a.mov", None);
        i.video_codec = Some("hevc".to_string());
        i
    };
    assert_eq!(video::plan(&info2, &s).codec_label, "h265");
    assert_eq!(video::plan(&info2, &s).ext, "mov");
    let mut vp9 = VideoSettings::default();
    vp9.codec = VideoCodec::Vp9;
    assert_eq!(video::plan(&info2, &vp9).codec_label, "h264");
}

#[test]
fn gif_from_video_with_trim() {
    let mut info = video_info("/v/a.mp4", None);
    info.width = Some(1280);
    info.height = Some(720);
    let s = GifSettings::default();
    assert_eq!(gif::resolution(&info, &s), Some((640, 360)));
    let args = gif::build_args(&info, &s, "/out/v.gif", Some((0, Some(2000))));
    assert_eq!(
        args,
        strs(&[
            "-hide_banner", "-y", "-nostdin", "-i", "/v/a.mp4", "-t", "2.000", "-filter_complex",
            "fps=15,scale=640:-1:flags=lanczos,split[s0][s1];[s0]palettegen=max_colors=160:stats_mode=diff[p];[s1][p]paletteuse=dither=bayer:bayer_scale=3:diff_mode=rectangle",
            "-loop", "0", "-an", "-progress", "pipe:1", "-nostats", "/out/v.gif",
        ])
    );
}

#[test]
fn gif_requantize_small_and_no_loop() {
    let mut info = MediaInfo::basic("/g/in.gif", 100_000);
    assert_eq!(info.kind, MediaKind::Gif);
    info.width = Some(320);
    info.height = Some(240);
    let s = GifSettings { quality: Quality::Acceptable, fps: 8, resize: Resize { mode: ResizeMode::Width, value: 240 }, loop_forever: true };
    let args = gif::build_args(&info, &s, "/out/g.gif", None);
    assert_eq!(
        args,
        strs(&[
            "-hide_banner", "-y", "-nostdin", "-i", "/g/in.gif", "-filter_complex",
            "fps=8,scale=240:-1:flags=lanczos,split[s0][s1];[s0]palettegen=max_colors=96:stats_mode=diff[p];[s1][p]paletteuse=dither=bayer:bayer_scale=5:diff_mode=rectangle",
            "-loop", "0", "-an", "-progress", "pipe:1", "-nostats", "/out/g.gif",
        ])
    );
    info.fps = Some(FrameRate { num: 30, den: 1 });
    let s2 = GifSettings { quality: Quality::Highest, fps: 30, resize: Resize { mode: ResizeMode::Off, value: 0 }, loop_forever: false };
    let args2 = gif::build_args(&info, &s2, "/out/h.gif", Some((1500, None)));
    assert_eq!(
        args2,
        strs(&[
            "-hide_banner", "-y", "-nostdin", "-ss", "1.500", "-i", "/g/in.gif", "-filter_complex",
            "split[s0][s1];[s0]palettegen=max_colors=256:stats_mode=diff[p];[s1][p]paletteuse=dither=sierra2_4a:diff_mode=rectangle",
            "-loop", "-1", "-an", "-progress", "pipe:1", "-nostats", "/out/h.gif",
        ])
    );
}

#[test]
fn pdf_args_per_quality() {
    assert_eq!(pdf::preset(Quality::Highest), "/prepress");
    assert_eq!(pdf::preset(Quality::Medium), "/ebook");
    let good = pdf::build_args("/d/in.pdf", "/d/out.pdf", Quality::Good);
    assert_eq!(
        good,
        strs(&[
            "-sDEVICE=pdfwrite", "-dCompatibilityLevel=1.5", "-dPDFSETTINGS=/ebook", "-dNOPAUSE", "-dBATCH", "-dSAFER",
            "-dDetectDuplicateImages=true", "-dCompressFonts=true", "-dSubsetFonts=true",
            "-dDownsampleColorImages=true", "-dDownsampleGrayImages=true", "-dDownsampleMonoImages=true",
            "-dColorImageResolution=150", "-dGrayImageResolution=150", "-dMonoImageResolution=300",
            "-sOutputFile=/d/out.pdf", "/d/in.pdf",
        ])
    );
    let best = pdf::build_args("/d/in.pdf", "/d/out.pdf", Quality::Highest);
    assert_eq!(best.len(), 11);
    assert_eq!(best[2], "-dPDFSETTINGS=/prepress");
    let small = pdf::build_args("/d/in.pdf", "/d/out.pdf", Quality::Acceptable);
    assert_eq!(small[14], "-dMonoImageResolution=150");
    assert_eq!(small[12], "-dColorImageResolution=72");
}

fn fnv(s: &str) -> u64 {
    let mut h: u64 = 0xcbf29ce484222325;
    for b in s.bytes() {
        h ^= b as u64;
        h = h.wrapping_mul(0x100000001b3);
    }
    h
}

#[test]
fn md5ish_is_fnv1a() {
    assert_eq!(md5ish(""), 0xcbf29ce484222325);
    assert_eq!(md5ish("a"), 0xaf63dc4c8601ec8c);
    assert_eq!(md5ish("/tmp/é.mp4|12|34"), fnv("/tmp/é.mp4|12|34"));
}

#[test]
fn thumbnail_key_and_commands() {
    let k = thumb_key("/v/clip.mp4", 1_700_000_000, 123_456);
    assert_eq!(k, format!("{:x}", fnv("/v/clip.mp4|1700000000|123456")));
    assert_ne!(k, thumb_key("/v/clip.mp4", 1_700_000_001, 123_456));
    assert_eq!(thumb_file_name("abc"), "abc.jpg");

    let (tool, args) = plan_thumbnail(MediaKind::Video, "/v/clip.mp4", "/c/k.jpg").unwrap();
    assert_eq!(tool, ThumbTool::Ffmpeg);
    assert_eq!(
        args,
        strs(&[
            "-hide_banner", "-y", "-nostdin", "-loglevel", "error", "-ss", "0.5", "-i", "/v/clip.mp4", "-frames:v",
            "1", "-vf", "scale='min(480,iw)':-2", "-q:v", "4", "/c/k.jpg",
        ])
    );
    let (_, img) = plan_thumbnail(MediaKind::Image, "/p.png", "/c/p.jpg").unwrap();
    assert!(!img.contains(&"-ss".to_string()));
    let (tool, gs) = plan_thumbnail(MediaKind::Pdf, "/d.pdf", "/c/d.jpg").unwrap();
    assert_eq!(tool, ThumbTool::Ghostscript);
    assert_eq!(
        gs,
        strs(&[
            "-q", "-dNOPAUSE", "-dBATCH", "-dSAFER", "-sDEVICE=jpeg", "-dFirstPage=1", "-dLastPage=1", "-r40",
            "-dJPEGQ=80", "-sOutputFile=/c/d.jpg", "/d.pdf",
        ])
    );
    assert!(plan_thumbnail(MediaKind::Unknown, "/x", "/y").is_none());
}

#[test]
fn video_auto_turns_av1_and_vp9_into_h264() {
    let s = VideoSettings::default();
    let mut av1 = video_info("/v/a.mp4", None);
    av1.video_codec = Some("av1".to_string());
    let p = video::plan(&av1, &s);
    assert_eq!(p.ext, "mp4");
    assert_eq!(p.codec_label, "h264");
    let mut vp9 = video_info("/v/a.mkv", None);
    vp9.video_codec = Some("vp9".to_string());
    assert_eq!(video::plan(&vp9, &s).codec_label, "h264");
}

#[test]
fn video_target_bitrate_never_exceeds_the_source() {
    let mut info = video_info("/v/a.mp4", None);
    info.bitrate = Some(100_000);
    let mut s = VideoSettings::default();
    s.target_size_bytes = Some(100 * 1024 * 1024);
    assert_eq!(video::target_bitrate_k(&info, &s), Some(100));
    let args = video::build_args(&info, &s, "/out/a.mp4", 2, Some("/tmp/log"), LINUX);
    let i = args.iter().position(|a| a == "-b:v").unwrap();
    assert_eq!(args[i + 1], "100k");
    info.bitrate = None;
    assert_eq!(video::target_bitrate_k(&info, &s), Some(81369));
}

#[test]
fn videotoolbox_quality_ladders() {
    let h265: Vec<u32> = [Quality::Highest, Quality::High, Quality::Good, Quality::Medium, Quality::Acceptable]
        .iter()
        .map(|q| video::vt_quality(VideoCodec::H265, *q))
        .collect();
    assert_eq!(h265, vec![66, 59, 53, 47, 41]);
    assert_eq!(video::vt_quality(VideoCodec::H264, Quality::Good), 50);
    assert_eq!(video::crf(VideoCodec::Av1, Quality::Medium), 44);
}
