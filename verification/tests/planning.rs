use feather::cli::{
    answers_unknown, apply_opts, history_start, mcp_tool, method_not_found, parse_quality, require_paths, rpc_method,
    walk_skips, McpTool, Opts, RpcMethod,
};
use feather::install::{
    best_build_url, ffmpeg_urls, gs_installer, installer_failure, needs_build_lookup, part_file_name, riedl_parts,
    running_message, tools_dir, wanted_binary, HostOs, PackageManagers,
};
use feather::jobs::ProducedLog;
use feather::path::{path_extension, path_file_name, path_file_stem, path_join, path_parent};
use feather::probe::{MediaInfo, MediaKind};
use feather::progress::{gs_progress, page_line, parse_i64, ProgressReport, ProgressTracker};
use feather::run::{
    effective_duration, ffmpeg_failure, gs_failure, page_count_of, page_count_script, plan_output, settings_for, tail,
};
use feather::settings::{ImageFormat, OutputLocation, Quality, Resize, ResizeMode, Settings, VideoCodec, VideoFormat};
use feather::text::{fmt_hex_padded, fmt_seconds3, replace, span_ms, trim};
use feather::tools::{first_found, tools_with_overrides, Tools};
use feather::watch::{Seen, WatchQueue, WatchRules};

fn opts() -> Opts {
    Opts {
        quality: None,
        format: None,
        max: None,
        out: None,
        replace: false,
        no_audio: false,
        codec: None,
        target_bytes: None,
    }
}

#[test]
fn text_helpers() {
    assert_eq!(fmt_seconds3(1500), "1.500");
    assert_eq!(fmt_seconds3(0), "0.000");
    assert_eq!(fmt_seconds3(61_007), "61.007");
    assert_eq!(fmt_hex_padded(0xab, 4), "00ab");
    assert_eq!(replace("a-b-c", "-", "+"), "a+b+c");
    assert_eq!(replace("aaa", "aa", "b"), "ba");
    assert_eq!(trim("  x y \t"), "x y");
    assert_eq!(span_ms(1000, 3500), 2500);
}

#[test]
fn path_pieces_follow_std_path() {
    assert_eq!(path_file_name("/a/b.txt/"), Some("b.txt".to_string()));
    assert_eq!(path_file_name("/"), None);
    assert_eq!(path_extension("/a/.bashrc"), None);
    assert_eq!(path_extension("/a/b.tar.gz"), Some("gz".to_string()));
    assert_eq!(path_file_stem("/a/b.tar.gz"), Some("b.tar".to_string()));
    assert_eq!(path_parent("/a/b"), Some("/a".to_string()));
    assert_eq!(path_parent("/a"), Some("/".to_string()));
    assert_eq!(path_parent("a"), Some(String::new()));
    assert_eq!(path_join("/a/", "b"), "/a/b");
    assert_eq!(path_join("/a", "/b"), "/b");
    assert_eq!(path_join("", "b"), "b");
    assert_eq!(path_parent("C:\\Users\\a\\clip.mp4"), Some("C:\\Users\\a".to_string()));
    assert_eq!(path_file_name("C:\\Users\\a\\clip.mp4"), Some("clip.mp4".to_string()));
    assert_eq!(path_parent("\\a.mp4"), Some("\\".to_string()));
    assert_eq!(path_join("C:\\out\\", "b.mp4"), "C:\\out\\b.mp4");
    assert_eq!(path_join("C:\\out", "b.mp4"), "C:\\out/b.mp4");
}

#[test]
fn cli_options_change_settings() {
    let mut base = Settings::default();
    base.output.trash_original = true;
    base.output.overwrite_original = true;
    let o = Opts {
        quality: Some("HIGH".to_string()),
        format: Some("webp".to_string()),
        max: Some(1920),
        out: Some("/o".to_string()),
        replace: false,
        no_audio: true,
        codec: Some("hevc".to_string()),
        target_bytes: Some(5_000_000),
    };
    let s = apply_opts(base, &o).unwrap();
    assert_eq!(s.video.quality, Quality::High);
    assert_eq!(s.image.quality, Quality::High);
    assert_eq!(s.gif.quality, Quality::High);
    assert_eq!(s.pdf.quality, Quality::High);
    assert_eq!(s.image.format, ImageFormat::Webp);
    assert_eq!(s.video.format, VideoFormat::Same);
    let r = Resize { mode: ResizeMode::LongEdge, value: 1920 };
    assert_eq!((s.video.resize, s.image.resize, s.gif.resize), (r, r, r));
    assert_eq!(s.output.location, OutputLocation::Custom);
    assert_eq!(s.output.custom_dir, "/o");
    assert!(!s.output.overwrite_original);
    assert!(!s.output.trash_original);
    assert!(s.video.remove_audio);
    assert_eq!(s.video.codec, VideoCodec::H265);
    assert_eq!(s.video.target_size_bytes, Some(5_000_000));
}

#[test]
fn cli_formats_and_replace() {
    let mut o = opts();
    o.format = Some("JPEG".to_string());
    o.replace = true;
    let s = apply_opts(Settings::default(), &o).unwrap();
    assert_eq!(s.image.format, ImageFormat::Jpg);
    assert!(s.output.overwrite_original);
    let mut o2 = opts();
    o2.format = Some("mp3".to_string());
    assert_eq!(apply_opts(Settings::default(), &o2).unwrap().video.format, VideoFormat::Mp3);
    let mut o3 = opts();
    o3.format = Some("same".to_string());
    let mut b = Settings::default();
    b.video.format = VideoFormat::Mkv;
    b.image.format = ImageFormat::Png;
    let s3 = apply_opts(b, &o3).unwrap();
    assert_eq!((s3.video.format, s3.image.format), (VideoFormat::Same, ImageFormat::Same));
}

#[test]
fn cli_option_errors() {
    assert_eq!(parse_quality("Smallest"), Ok(Quality::Acceptable));
    assert_eq!(parse_quality("low"), Ok(Quality::Acceptable));
    let mut o = opts();
    o.quality = Some("Best".to_string());
    o.format = Some("tiff".to_string());
    assert_eq!(
        apply_opts(Settings::default(), &o).err(),
        Some("unknown quality 'best' (highest|high|good|medium|acceptable)".to_string())
    );
    let mut o2 = opts();
    o2.format = Some("TIFF".to_string());
    assert_eq!(apply_opts(Settings::default(), &o2).err(), Some("unknown format 'tiff'".to_string()));
    let mut o3 = opts();
    o3.codec = Some("XVID".to_string());
    assert_eq!(apply_opts(Settings::default(), &o3).err(), Some("unknown codec 'xvid'".to_string()));
}

#[test]
fn mcp_dispatch() {
    assert_eq!(rpc_method("initialize"), RpcMethod::Initialize);
    assert_eq!(rpc_method("notifications/cancelled"), RpcMethod::Notification);
    assert_eq!(rpc_method("ping"), RpcMethod::Ping);
    assert_eq!(rpc_method("tools/list"), RpcMethod::ToolsList);
    assert_eq!(rpc_method("tools/call"), RpcMethod::ToolsCall);
    assert_eq!(rpc_method("Ping"), RpcMethod::Unknown);
    assert_eq!(method_not_found("x/y"), "method not found: x/y");
    assert!(answers_unknown(true));
    assert!(!answers_unknown(false));
    assert_eq!(mcp_tool("compress"), Ok(McpTool::Compress));
    assert_eq!(mcp_tool("history"), Ok(McpTool::History));
    assert_eq!(mcp_tool("zip"), Err("unknown tool zip".to_string()));
    assert_eq!(require_paths(&vec![]), Err("paths is required".to_string()));
    assert_eq!(require_paths(&vec!["/a".to_string()]), Ok(()));
    assert_eq!(history_start(120, 50), 70);
    assert_eq!(history_start(10, 50), 0);
    assert!(walk_skips(".git"));
    assert!(walk_skips("node_modules"));
    assert!(!walk_skips("clips"));
}

#[test]
fn ffmpeg_downloads_per_platform() {
    let mac = ffmpeg_urls("macos", "aarch64").unwrap();
    assert_eq!(
        mac,
        vec![
            ("ffmpeg".to_string(), "https://ffmpeg.martin-riedl.de/redirect/latest/macos/arm64/release/ffmpeg.zip".to_string()),
            ("ffprobe".to_string(), "https://ffmpeg.martin-riedl.de/redirect/latest/macos/arm64/release/ffprobe.zip".to_string()),
        ]
    );
    assert_eq!(ffmpeg_urls("macos", "x86_64").unwrap()[0].1, "https://ffmpeg.martin-riedl.de/redirect/latest/macos/amd64/release/ffmpeg.zip");
    assert_eq!(ffmpeg_urls("linux", "aarch64").unwrap()[1].1, "https://ffmpeg.martin-riedl.de/redirect/latest/linux/arm64/release/ffprobe.zip");
    let win = ffmpeg_urls("windows", "x86_64").unwrap();
    assert_eq!(win.len(), 1);
    assert_eq!(win[0].0, "bundle");
    assert_eq!(ffmpeg_urls("freebsd", "x86_64"), Err("no FFmpeg download available for freebsd/x86_64".to_string()));
    assert_eq!(tools_dir("/data"), "/data/bin");
    assert!(needs_build_lookup("https://ffmpeg.martin-riedl.de/redirect/x"));
    assert!(!needs_build_lookup("https://github.com/x"));
    assert_eq!(part_file_name("ffmpeg"), ".ffmpeg.zip.part");
}

#[test]
fn newest_release_build_is_picked() {
    let html = [
        "<a href=\"/download/macos/arm64/1700000000_8.0/ffmpeg.zip\">a</a>",
        "<a href=\"/download/macos/arm64/1800000000_N-1234/ffmpeg.zip\">b</a>",
        "<a href=\"/download/macos/arm64/1600000000_7.1/ffmpeg.zip\">c</a>",
        "<a href=\"/download/macos/arm64/1750000000_8.1/ffprobe.zip\">d</a>",
        "<a href=\"/download/linux/amd64/1900000000_9.0/ffmpeg.zip\">e</a>",
    ]
    .join("");
    let html = html.as_str();
    assert_eq!(
        best_build_url(html, "macos", "arm64", "ffmpeg.zip"),
        Some("https://ffmpeg.martin-riedl.de/download/macos/arm64/1700000000_8.0/ffmpeg.zip".to_string())
    );
    assert_eq!(best_build_url(html, "windows", "arm64", "ffmpeg.zip"), None);
    let (os, arch, file) = riedl_parts("https://ffmpeg.martin-riedl.de/redirect/latest/linux/amd64/release/ffprobe.zip");
    assert_eq!((os.as_str(), arch.as_str(), file.as_str()), ("linux", "amd64", "ffprobe.zip"));
}

#[test]
fn archive_entries_that_are_wanted() {
    let wanted = vec!["ffmpeg".to_string(), "ffprobe".to_string()];
    assert_eq!(wanted_binary("ffmpeg-master/bin/ffmpeg.exe", &wanted), Some("ffmpeg.exe".to_string()));
    assert_eq!(wanted_binary("ffprobe", &wanted), Some("ffprobe".to_string()));
    assert_eq!(wanted_binary("bin/ffplay.exe", &wanted), None);
    assert_eq!(wanted_binary("README.txt", &wanted), None);
}

#[test]
fn ghostscript_installer_choice() {
    let none = PackageManagers { winget: false, brew: false, apt_get: false };
    assert_eq!(
        gs_installer(HostOs::MacOs, &none),
        Err("Homebrew not found. Install Homebrew (https://brew.sh) and try again, or download Ghostscript from https://www.ghostscript.com/releases/gsdnld.html".to_string())
    );
    assert_eq!(
        gs_installer(HostOs::Windows, &PackageManagers { winget: false, brew: true, apt_get: true }),
        Err("No supported package manager found. Install Ghostscript from https://www.ghostscript.com/releases/gsdnld.html".to_string())
    );
    let (p, a) = gs_installer(HostOs::Linux, &PackageManagers { winget: false, brew: false, apt_get: true }).unwrap();
    assert_eq!(p, "pkexec");
    assert_eq!(a, vec!["apt-get", "install", "-y", "ghostscript"]);
    let (p, a) = gs_installer(HostOs::MacOs, &PackageManagers { winget: false, brew: true, apt_get: false }).unwrap();
    assert_eq!(p, "brew");
    assert_eq!(running_message(&p, &a), "Running brew install ghostscript\u{2026}");
    let (p, a) = gs_installer(HostOs::Windows, &PackageManagers { winget: true, brew: false, apt_get: false }).unwrap();
    assert_eq!(p, "winget");
    assert_eq!(a[3], "ArtifexSoftware.GhostScript");
    assert_eq!(installer_failure("brew", "Error: x"), "brew failed: Error: x");
}

#[test]
fn ffmpeg_progress_reports() {
    assert_eq!(parse_i64("-5"), Some(-5));
    assert_eq!(parse_i64("12"), Some(12));
    assert_eq!(parse_i64("x"), None);
    let mut t = ProgressTracker::new(0);
    assert_eq!(t.on_line("speed=2.00x", 10, Some(10_000), 0, 100), None);
    assert_eq!(t.on_line("out_time_us=5000000", 20, Some(10_000), 0, 100), None);
    let r = t.on_line("progress=continue", 1000, Some(10_000), 0, 100);
    assert_eq!(r, Some(ProgressReport { permille: 500, speed_centi: Some(200), eta_ms: Some(2500) }));
    // Within 150 ms of the last report: nothing.
    assert_eq!(t.on_line("progress=continue", 1100, Some(10_000), 0, 100), None);
    // Unknown duration: nothing.
    assert_eq!(t.on_line("progress=continue", 5000, None, 0, 100), None);
    // First pass of two (0..50): the remaining time includes the second pass.
    let mut u = ProgressTracker::new(0);
    u.on_line("speed=1.0x", 1, Some(10_000), 0, 50);
    u.on_line("out_time_ms=2000000", 2, Some(10_000), 0, 50);
    let r2 = u.on_line("progress=continue", 500, Some(10_000), 0, 50);
    assert_eq!(r2, Some(ProgressReport { permille: 100, speed_centi: Some(100), eta_ms: Some(18_000) }));
}

#[test]
fn ghostscript_progress() {
    assert!(page_line("Page 3"));
    assert!(page_line("   Page 12"));
    assert!(!page_line("Processing pages 1 through 3."));
    assert_eq!(gs_progress(3, Some(4)), 750);
    assert_eq!(gs_progress(3, None), 90);
    assert_eq!(gs_progress(40, None), 900);
    assert_eq!(gs_progress(2, Some(0)), 60);
}

#[test]
fn ghostscript_progress_stops_at_all_pages() {
    assert_eq!(gs_progress(2, Some(2)), 1000);
    assert_eq!(gs_progress(3, Some(2)), 1000);
}

#[test]
fn failure_messages_and_page_count() {
    assert_eq!(tail("a\n\n  \nb\nc\n", 2), "b\nc");
    assert_eq!(tail("x", 8), "x");
    assert_eq!(tail("", 8), "");
    assert_eq!(ffmpeg_failure(Some(1), "l1\nl2"), "ffmpeg failed (1):\nl1\nl2");
    assert_eq!(ffmpeg_failure(None, ""), "ffmpeg failed (-1):\n");
    assert_eq!(gs_failure("out1", "err1"), "ghostscript failed:\nout1\nerr1");
    assert_eq!(page_count_script("C:\\a(b).pdf"), "(C:/a\\(b\\).pdf) (r) file runpdfbegin pdfpagecount = quit");
    assert_eq!(page_count_of("GPL Ghostscript\n  12  \n"), Some(12));
    assert_eq!(page_count_of(""), None);
    assert_eq!(page_count_of("abc"), None);
}

#[test]
fn output_plans_per_kind() {
    let s = Settings::default();
    let unknown = MediaInfo::basic("/x/readme.txt", 1);
    assert_eq!(plan_output(&unknown, &s).err(), Some("unsupported file type".to_string()));
    let pdf = plan_output(&MediaInfo::basic("/x/a.pdf", 1), &s).unwrap();
    assert_eq!((pdf.ext, pdf.codec_label, pdf.resolution), ("pdf", "gs", None));
    let mut v = MediaInfo::basic("/x/a.mp4", 1);
    v.width = Some(1920);
    v.height = Some(1080);
    let mut sg = Settings::default();
    sg.video.format = VideoFormat::Gif;
    sg.gif.quality = Quality::Medium;
    let g = plan_output(&v, &sg).unwrap();
    assert_eq!((g.ext, g.quality, g.codec_label, g.resolution), ("gif", Quality::Medium, "gif", Some((640, 360))));
    let plain = plan_output(&v, &s).unwrap();
    assert_eq!((plain.ext, plain.codec_label, plain.resolution), ("mp4", "h264", None));
    let mut img = MediaInfo::basic("/x/a.heic", 1);
    assert_eq!(img.kind, MediaKind::Image);
    img.width = Some(4000);
    img.height = Some(3000);
    let mut si = Settings::default();
    si.image.resize = Resize { mode: ResizeMode::LongEdge, value: 2000 };
    let i = plan_output(&img, &si).unwrap();
    assert_eq!((i.ext, i.codec_label, i.resolution), ("jpg", "", Some((2000, 1500))));
}

#[test]
fn progress_duration_and_overrides() {
    let mut v = MediaInfo::basic("/x/a.mp4", 1);
    let mut s = Settings::default();
    assert_eq!(effective_duration(&v, &s.video), None);
    v.duration_ms = Some(10_000);
    s.video.trim_start_ms = Some(2000);
    s.video.trim_end_ms = Some(20_000);
    assert_eq!(effective_duration(&v, &s.video), Some(8000));
    s.video.trim_start_ms = Some(9999);
    s.video.trim_end_ms = None;
    assert_eq!(effective_duration(&v, &s.video), Some(10));

    let mut special = Settings::default();
    special.video.quality = Quality::Highest;
    let overrides = vec![("/x/a.mp4".to_string(), special)];
    assert_eq!(settings_for("/x/a.mp4", &overrides, &Settings::default()).video.quality, Quality::Highest);
    assert_eq!(settings_for("/x/b.mp4", &overrides, &Settings::default()).video.quality, Quality::Good);
}

#[test]
fn missing_tools_explain_themselves() {
    let t = Tools { ffmpeg: None, ffprobe: None, ghostscript: Some("/usr/bin/gs".to_string()) };
    assert_eq!(t.ffmpeg().err(), Some("FFmpeg not found. Install it (brew install ffmpeg) or set the path in Settings.".to_string()));
    assert_eq!(t.ffprobe().err(), Some("ffprobe not found (comes with FFmpeg).".to_string()));
    assert_eq!(t.gs().ok().map(|s| s.as_str()), Some("/usr/bin/gs"));
    let none = Tools { ffmpeg: None, ffprobe: None, ghostscript: None };
    assert_eq!(none.gs().err(), Some("Ghostscript not found. Install it (brew install ghostscript) to compress PDFs.".to_string()));
}

#[test]
fn program_lookup_prefers_path_hits() {
    let hits = vec![None, Some("/usr/bin/gswin64c".to_string())];
    let cands = vec!["/opt/a".to_string(), "/opt/b".to_string()];
    assert_eq!(first_found(&hits, &cands, &vec![true, true]), Some("/usr/bin/gswin64c".to_string()));
    assert_eq!(first_found(&vec![None], &cands, &vec![false, true]), Some("/opt/b".to_string()));
    assert_eq!(first_found(&vec![None], &cands, &vec![false, false]), None);
}

#[test]
fn user_set_program_paths_win_when_they_exist() {
    // The root folder always exists; blank overrides are ignored.
    let t = tools_with_overrides(&Some("  /  ".to_string()), &Some("   ".to_string()), false);
    assert_eq!(t.ffmpeg.as_deref(), Some("/"));
    let g = tools_with_overrides(&None, &Some("/".to_string()), true);
    assert_eq!(g.ghostscript.as_deref(), Some("/"));
    let missing = tools_with_overrides(&Some("/nonexistent/feather/ffmpeg".to_string()), &None, false);
    assert_ne!(missing.ffmpeg.as_deref(), Some("/nonexistent/feather/ffmpeg"));
}

#[test]
fn watcher_follows_settles_and_hands_over() {
    let rules = WatchRules { settle_secs: 2, videos: true, images: false, gifs: false, pdfs: true };
    let mut log = ProducedLog::new();
    log.mark_produced("/w/p.mp4", 0);
    let mut q = WatchQueue::new();
    assert!(q.on_event(&rules, &log, "/w/a.mp4".to_string(), true, 100, 0));
    assert!(!q.on_event(&rules, &log, "/w/.hidden.mp4".to_string(), true, 100, 0));
    assert!(!q.on_event(&rules, &log, "/w/b.jpg".to_string(), true, 100, 0));
    assert!(!q.on_event(&rules, &log, "/w/c.pdf.part".to_string(), true, 100, 0));
    assert!(!q.on_event(&rules, &log, "/w/p.mp4".to_string(), true, 100, 0));
    assert!(!q.on_event(&rules, &log, "/w/dir.mp4".to_string(), false, 0, 0));
    assert!(q.on_event(&rules, &log, "/w/a.mp4".to_string(), true, 200, 500));
    assert!(q.on_event(&rules, &log, "/w/e.pdf".to_string(), true, 0, 600));
    assert_eq!(q.entries.len(), 2);
    assert_eq!((q.entries[0].since_ms, q.entries[0].size), (500, 200));

    let seen = |size: Option<u64>, exists: bool| Seen { size, exists };
    let h = q.on_tick(&rules, &log, &vec![seen(Some(200), true), seen(Some(0), true)], 1000);
    assert!(h.is_empty());
    assert_eq!(q.entries.len(), 2);

    let h = q.on_tick(&rules, &log, &vec![seen(Some(200), true), seen(Some(50), true)], 2600);
    assert_eq!(h, vec!["/w/a.mp4".to_string()]);
    assert_eq!(q.entries.len(), 1);
    assert_eq!(q.entries[0].path, "/w/e.pdf");
    assert_eq!((q.entries[0].since_ms, q.entries[0].size), (2600, 50));

    let h = q.on_tick(&rules, &log, &vec![seen(None, false)], 3000);
    assert!(h.is_empty());
    assert!(q.entries.is_empty());
}

#[test]
fn watcher_drops_settled_files_it_wrote_itself() {
    let rules = WatchRules { settle_secs: 0, videos: true, images: true, gifs: true, pdfs: true };
    let mut log = ProducedLog::new();
    let mut q = WatchQueue::new();
    assert!(q.on_event(&rules, &log, "/w/out.mp4".to_string(), true, 10, 0));
    log.mark_produced("/w/out.mp4", 5);
    let h = q.on_tick(&rules, &log, &vec![Seen { size: Some(10), exists: true }], 1000);
    assert!(h.is_empty());
    assert!(q.entries.is_empty());
}
