use feather::text::{fmt_seconds3, fmt_u64};
use feather::probe::{kind_from_ext, parse_millis, parse_rate, parse_u64, probe_report, FrameRate, MediaInfo, MediaKind, ProbeFormat, ProbeStream};
use feather::settings::{
    GifSettings, ImageFormat, ImageSettings, OutputLocation, OutputSettings, PdfSettings, Quality, Resize, ResizeMode,
    Settings, VideoCodec, VideoFormat, VideoSettings, SETTINGS_VERSION,
};

fn rs(mode: ResizeMode, value: u32) -> Resize {
    Resize { mode, value }
}

#[test]
fn resize_width_halves_both_sides() {
    assert_eq!(rs(ResizeMode::Width, 640).target(1280, 720), Some((640, 360)));
}

#[test]
fn resize_long_and_short_edge() {
    assert_eq!(rs(ResizeMode::LongEdge, 1920).target(3840, 2160), Some((1920, 1080)));
    assert_eq!(rs(ResizeMode::LongEdge, 1920).target(2160, 3840), Some((1080, 1920)));
    assert_eq!(rs(ResizeMode::ShortEdge, 360).target(1280, 720), Some((640, 360)));
    assert_eq!(rs(ResizeMode::Height, 540).target(1920, 1080), Some((960, 540)));
}

#[test]
fn resize_percent_rounds_half_up() {
    assert_eq!(rs(ResizeMode::Percent, 50).target(101, 51), Some((51, 26)));
}

#[test]
fn resize_never_upscales_or_noops() {
    assert_eq!(rs(ResizeMode::Width, 2000).target(1280, 720), None);
    assert_eq!(rs(ResizeMode::Width, 1280).target(1280, 720), None);
    assert_eq!(rs(ResizeMode::Percent, 100).target(10, 10), None);
    assert_eq!(rs(ResizeMode::Off, 10).target(1280, 720), None);
    assert_eq!(rs(ResizeMode::Width, 0).target(1280, 720), None);
}

#[test]
fn resize_keeps_at_least_one_pixel() {
    assert_eq!(rs(ResizeMode::Width, 1).target(1000, 1), Some((1, 1)));
}

#[test]
fn defaults_match_the_app() {
    let v = VideoSettings::default();
    assert_eq!(v.quality, Quality::Good);
    assert_eq!(v.codec, VideoCodec::Auto);
    assert_eq!(v.format, VideoFormat::Same);
    assert!(v.hw_accel);
    assert_eq!(v.resize, rs(ResizeMode::Off, 0));
    assert_eq!(v.fps, None);
    assert!(!v.remove_audio);
    assert_eq!(v.target_size_bytes, None);
    assert_eq!(v.trim_start_ms, None);
    assert_eq!(v.trim_end_ms, None);
    assert_eq!(v.threads, 0);

    let i = ImageSettings::default();
    assert_eq!(i.quality, Quality::Good);
    assert_eq!(i.format, ImageFormat::Same);
    assert!(!i.keep_metadata);

    let g = GifSettings::default();
    assert_eq!(g.fps, 15);
    assert_eq!(g.resize, rs(ResizeMode::Width, 640));
    assert!(g.loop_forever);

    assert_eq!(PdfSettings::default().quality, Quality::Good);

    let o = OutputSettings::default();
    assert_eq!(o.location, OutputLocation::SameFolder);
    assert_eq!(o.subfolder_name, "compressed");
    assert_eq!(o.custom_dir, "");
    assert_eq!(o.name_template, "{name}_compressed");
    assert!(!o.overwrite_original);
    assert!(!o.trash_original);
    assert!(o.keep_dates);
    assert!(!o.skip_if_larger);

    let s = Settings::default();
    assert_eq!(s.version, SETTINGS_VERSION);
    assert_eq!(s.version, 2);
    assert_eq!(s.concurrency, 2);
    assert!(s.notify_on_finish);
    assert_eq!(s.ffmpeg_path, None);
    assert_eq!(s.gs_path, None);
}

#[test]
fn migrate_from_version_one_resets_codec() {
    let mut s = Settings::default();
    s.version = 1;
    s.video.codec = VideoCodec::H265;
    s.video.hw_accel = false;
    let m = s.migrate();
    assert_eq!(m.version, 2);
    assert_eq!(m.video.codec, VideoCodec::Auto);
    assert!(m.video.hw_accel);
}

#[test]
fn migrate_keeps_current_codec_and_is_idempotent() {
    let mut s = Settings::default();
    s.video.codec = VideoCodec::Vp9;
    s.video.hw_accel = false;
    let m = s.migrate();
    assert_eq!(m.video.codec, VideoCodec::Vp9);
    assert!(m.video.hw_accel);
    let m2 = m.dup().migrate();
    assert_eq!(m2.video.codec, m.video.codec);
    assert_eq!(m2.version, m.version);
    assert_eq!(m2.video.hw_accel, m.video.hw_accel);
}

#[test]
fn kinds_from_extensions() {
    assert_eq!(kind_from_ext("/v/a.MP4"), MediaKind::Video);
    assert_eq!(kind_from_ext("clip.m2ts"), MediaKind::Video);
    assert_eq!(kind_from_ext("photo.HEIC"), MediaKind::Image);
    assert_eq!(kind_from_ext("scan.tiff"), MediaKind::Image);
    assert_eq!(kind_from_ext("anim.gif"), MediaKind::Gif);
    assert_eq!(kind_from_ext("doc.pdf"), MediaKind::Pdf);
    assert_eq!(kind_from_ext("notes.txt"), MediaKind::Unknown);
    assert_eq!(kind_from_ext("noext"), MediaKind::Unknown);
    assert_eq!(kind_from_ext(".mp4"), MediaKind::Unknown);
}

#[test]
fn parse_numbers() {
    assert_eq!(parse_u64("12345"), Some(12345));
    assert_eq!(parse_u64("+7"), Some(7));
    assert_eq!(parse_u64(""), None);
    assert_eq!(parse_u64("12a"), None);
    assert_eq!(parse_u64("18446744073709551616"), None);
}

#[test]
fn parse_frame_rates() {
    assert_eq!(parse_rate("30000/1001"), Some(FrameRate { num: 30000, den: 1001 }));
    assert_eq!(parse_rate("25"), Some(FrameRate { num: 25, den: 1 }));
    assert_eq!(parse_rate("0/0"), None);
    assert_eq!(parse_rate("x/2"), None);
}

#[test]
fn parse_seconds_to_millis() {
    assert_eq!(parse_millis("12.5"), Some(12500));
    assert_eq!(parse_millis("3.14159"), Some(3141));
    assert_eq!(parse_millis("7"), Some(7000));
    assert_eq!(parse_millis("abc"), None);
}

fn stream(kind: &str, codec: &str) -> ProbeStream {
    ProbeStream {
        codec_type: Some(kind.to_string()),
        codec_name: Some(codec.to_string()),
        width: None,
        height: None,
        avg_frame_rate: None,
        r_frame_rate: None,
        duration: None,
    }
}

#[test]
fn basic_info_from_path() {
    let i = MediaInfo::basic("/media/My Clip.MOV", 4096);
    assert_eq!(i.path, "/media/My Clip.MOV");
    assert_eq!(i.name, "My Clip.MOV");
    assert_eq!(i.kind, MediaKind::Video);
    assert_eq!(i.size, 4096);
    assert!(i.needs_probe());
    assert!(!MediaInfo::basic("/d/a.pdf", 1).needs_probe());
    let img = MediaInfo::basic("/d/a.png", 1).with_dimensions(800, 600);
    assert_eq!((img.width, img.height), (Some(800), Some(600)));
}

#[test]
fn probe_report_merges_first_video_stream_and_audio() {
    let info = MediaInfo::basic("/v/a.mp4", 1000);
    let mut v = stream("video", "h264");
    v.width = Some(1920);
    v.height = Some(1080);
    v.avg_frame_rate = Some("0/0".to_string());
    v.r_frame_rate = Some("30/1".to_string());
    let mut v2 = stream("video", "mjpeg");
    v2.width = Some(320);
    v2.height = Some(240);
    let a = stream("audio", "aac");
    let a2 = stream("audio", "opus");
    let fmt = ProbeFormat { duration: Some("10.5".to_string()), bit_rate: Some("800000".to_string()) };
    let r = info.apply_probe(Some(fmt), vec![v, v2, a, a2]);
    assert_eq!(r.width, Some(1920));
    assert_eq!(r.height, Some(1080));
    assert_eq!(r.video_codec.as_deref(), Some("h264"));
    assert_eq!(r.fps, Some(FrameRate { num: 30, den: 1 }));
    assert_eq!(r.duration_ms, Some(10500));
    assert_eq!(r.bitrate, Some(800000));
    assert!(r.has_audio);
    assert_eq!(r.audio_codec.as_deref(), Some("aac"));
}

#[test]
fn probe_report_takes_stream_duration_when_container_has_none() {
    let info = MediaInfo::basic("/v/a.webm", 10);
    let mut v = stream("video", "vp9");
    v.duration = Some("2.000".to_string());
    v.avg_frame_rate = Some("24/1".to_string());
    let r = info.apply_probe(None, vec![v]);
    assert_eq!(r.duration_ms, Some(2000));
    assert_eq!(r.fps, Some(FrameRate { num: 24, den: 1 }));
    assert!(!r.has_audio);
}

#[test]
fn printed_numbers_read_back() {
    for n in [0u64, 7, 10, 99, 1000, 123_456_789, u64::MAX] {
        assert_eq!(parse_u64(&fmt_u64(n)), Some(n));
    }
    for ms in [0u64, 1, 999, 1000, 1500, 61_007, 3_600_000_123] {
        assert_eq!(parse_millis(&fmt_seconds3(ms)), Some(ms));
    }
    assert_eq!(fmt_u64(u64::MAX), "18446744073709551615");
}

#[test]
fn ffprobe_json_report_is_merged() {
    let json = br#"{"streams":[
        {"codec_type":"video","codec_name":"h264","width":1920,"height":1080,"avg_frame_rate":"30000/1001","r_frame_rate":"30/1","duration":"9.5"},
        {"codec_type":"audio","codec_name":"aac"}],
        "format":{"duration":"12.345","bit_rate":"2500000"}}"#;
    let info = probe_report(MediaInfo::basic("/v/a.mp4", 1000), &json.to_vec()).unwrap();
    assert_eq!(info.duration_ms, Some(12345));
    assert_eq!(info.bitrate, Some(2_500_000));
    assert_eq!((info.width, info.height), (Some(1920), Some(1080)));
    assert_eq!(info.fps, Some(FrameRate { num: 30000, den: 1001 }));
    assert_eq!(info.video_codec.as_deref(), Some("h264"));
    assert!(info.has_audio);
    assert_eq!(info.audio_codec.as_deref(), Some("aac"));
}

#[test]
fn ffprobe_report_without_format_or_streams() {
    let info = probe_report(MediaInfo::basic("/v/a.mkv", 7), &b"{}".to_vec()).unwrap();
    assert_eq!(info.duration_ms, None);
    assert_eq!(info.width, None);
    assert!(!info.has_audio);
    assert_eq!(info.size, 7);
}

#[test]
fn ffprobe_garbage_is_an_error() {
    assert!(probe_report(MediaInfo::basic("/v/a.mp4", 1), &b"not json".to_vec()).is_err());
}

#[test]
fn kind_detection_ignores_case() {
    assert_eq!(kind_from_ext("a.MP4"), kind_from_ext("a.mp4"));
    assert_eq!(kind_from_ext("/x/B.HeIc"), MediaKind::Image);
    assert_eq!(kind_from_ext("/X/DOC.PDF"), MediaKind::Pdf);
}

#[test]
fn resize_settles_after_one_step() {
    for (mode, value) in [(ResizeMode::Width, 640), (ResizeMode::Height, 333), (ResizeMode::LongEdge, 1000), (ResizeMode::ShortEdge, 481)] {
        let r = rs(mode, value);
        let (w, h) = r.target(1920, 1081).unwrap();
        assert_eq!(r.target(w, h), None);
    }
    assert_eq!(rs(ResizeMode::Width, 640).target(1920, 1080), Some((640, 360)));
}

#[test]
fn decimal_frame_rates_and_exponents() {
    assert_eq!(parse_rate("29.97"), Some(FrameRate { num: 2997, den: 100 }));
    assert_eq!(parse_rate("2.5e1/1"), Some(FrameRate { num: 25, den: 1 }));
    assert_eq!(parse_rate("30/1.5"), Some(FrameRate { num: 300, den: 15 }));
    assert_eq!(parse_rate("24/x"), Some(FrameRate { num: 24, den: 1 }));
    assert_eq!(parse_rate("24/0.0"), None);
    assert_eq!(parse_rate("."), None);
}

#[test]
fn seconds_with_exponents() {
    assert_eq!(parse_millis("1e3"), Some(1_000_000));
    assert_eq!(parse_millis("1.5E-1"), Some(150));
    assert_eq!(parse_millis("+.5"), Some(500));
    assert_eq!(parse_millis("2."), Some(2000));
    assert_eq!(parse_millis("5e-9"), Some(0));
    assert_eq!(parse_millis("1e"), None);
    assert_eq!(parse_millis("1.2.3"), None);
    assert_eq!(parse_millis("-1"), None);
    assert_eq!(parse_millis("1e30"), None);
}
