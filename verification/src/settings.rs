//! User-facing compression settings, their defaults, forward migration of stored
//! settings, and the resize rule shared by every media kind.
//!
//! Times and sizes that the settings file stores as fractional numbers are held
//! here as integers: trims in milliseconds and the target size in bytes.
use vstd::prelude::*;
use vstd::string::*;

verus! {

/// Quality preset, from the largest output to the smallest.
#[derive(Debug, Clone, Copy, PartialEq, Eq, Structural)]
pub enum Quality {
    Highest,
    High,
    Good,
    Medium,
    Acceptable,
}

/// The position of a quality preset on the ladder, `0` being the best quality.
pub open spec fn quality_rank(q: Quality) -> int {
    match q {
        Quality::Highest => 0,
        Quality::High => 1,
        Quality::Good => 2,
        Quality::Medium => 3,
        Quality::Acceptable => 4,
    }
}

impl Default for Quality {
    fn default() -> (q: Self)
        ensures
            q == Quality::Good,
    {
        Quality::Good
    }
}

/// Requested video codec. `Auto` keeps the source codec family (HEVC stays HEVC,
/// everything else becomes H.264).
#[derive(Debug, Clone, Copy, PartialEq, Eq, Structural)]
pub enum VideoCodec {
    Auto,
    H264,
    H265,
    Vp9,
    Av1,
}

impl Default for VideoCodec {
    fn default() -> (c: Self)
        ensures
            c == VideoCodec::Auto,
    {
        VideoCodec::Auto
    }
}

/// Requested video container (or GIF / MP3 extraction).
#[derive(Debug, Clone, Copy, PartialEq, Eq, Structural)]
pub enum VideoFormat {
    Same,
    Mp4,
    Webm,
    Mov,
    Mkv,
    Gif,
    Mp3,
}

impl Default for VideoFormat {
    fn default() -> (f: Self)
        ensures
            f == VideoFormat::Same,
    {
        VideoFormat::Same
    }
}

/// Requested image format.
#[derive(Debug, Clone, Copy, PartialEq, Eq, Structural)]
pub enum ImageFormat {
    Same,
    Jpg,
    Png,
    Webp,
    Avif,
}

impl Default for ImageFormat {
    fn default() -> (f: Self)
        ensures
            f == ImageFormat::Same,
    {
        ImageFormat::Same
    }
}

/// Which dimension a resize value refers to.
#[derive(Debug, Clone, Copy, PartialEq, Eq, Structural)]
pub enum ResizeMode {
    /// No resize (stored as `none` in settings files).
    Off,
    Width,
    Height,
    LongEdge,
    ShortEdge,
    Percent,
}

impl Default for ResizeMode {
    fn default() -> (m: Self)
        ensures
            m == ResizeMode::Off,
    {
        ResizeMode::Off
    }
}

/// A resize request: the mode and its value (pixels, or percent).
#[derive(Debug, Clone, Copy, PartialEq, Eq, Structural)]
pub struct Resize {
    pub mode: ResizeMode,
    pub value: u32,
}

impl Default for Resize {
    fn default() -> (r: Self)
        ensures
            r == (Resize { mode: ResizeMode::Off, value: 0 }),
    {
        Resize { mode: ResizeMode::Off, value: 0 }
    }
}

/// The source length that the resize value is measured against.
pub open spec fn resize_base(mode: ResizeMode, w: int, h: int) -> Option<int> {
    match mode {
        ResizeMode::Off => None,
        ResizeMode::Width => Some(w),
        ResizeMode::Height => Some(h),
        ResizeMode::LongEdge => Some(if w >= h { w } else { h }),
        ResizeMode::ShortEdge => Some(if w <= h { w } else { h }),
        ResizeMode::Percent => Some(100),
    }
}

/// `a / b` rounded to the nearest integer, halves away from zero (for `a >= 0`, `b > 0`).
pub open spec fn round_div(a: int, b: int) -> int {
    (2 * a + b) / (2 * b)
}

/// A source length scaled by `v / d`, rounded, and at least one pixel.
pub open spec fn scaled_len(x: int, v: int, d: int) -> int {
    let r = round_div(x * v, d);
    if r >= 1 { r } else { 1 }
}

/// The target dimensions for a `w`×`h` source: `None` when no resize applies,
/// which includes every request that would not shrink the image.
pub open spec fn resize_target(r: Resize, w: int, h: int) -> Option<(int, int)> {
    if r.value == 0 {
        None
    } else {
        match resize_base(r.mode, w, h) {
            None => None,
            Some(d) => if r.value >= d {
                None
            } else {
                Some((scaled_len(w, r.value as int, d), scaled_len(h, r.value as int, d)))
            },
        }
    }
}

proof fn lemma_round_div_le(x: int, v: int, d: int)
    requires
        0 <= x,
        0 <= v < d,
    ensures
        0 <= round_div(x * v, d) <= x,
{
    assert(0 <= x * v) by (nonlinear_arith)
        requires
            0 <= x,
            0 <= v,
    ;
    assert(x * v <= x * d) by (nonlinear_arith)
        requires
            0 <= x,
            v < d,
    ;
    assert((2 * (x * v) + d) / (2 * d) <= x) by (nonlinear_arith)
        requires
            0 <= x,
            x * v <= x * d,
            0 < d,
    ;
    assert(0 <= (2 * (x * v) + d) / (2 * d)) by (nonlinear_arith)
        requires
            0 <= x * v,
            0 < d,
    ;
}

fn scale_len(x: u32, v: u32, d: u64) -> (r: u32)
    requires
        (v as int) < d,
        d <= u32::MAX + 100,
    ensures
        r == scaled_len(x as int, v as int, d as int),
{
    proof {
        lemma_round_div_le(x as int, v as int, d as int);
        assert((x as int) * (v as int) <= 0xffff_ffff * 0xffff_ffff) by (nonlinear_arith)
            requires
                x <= 0xffff_ffff,
                v <= 0xffff_ffff,
        ;
    }
    let a: u128 = (x as u128) * (v as u128);
    assert(a == (x as int) * (v as int));
    let q: u128 = (2 * a + d as u128) / (2 * d as u128);
    let r = q as u32;
    if r >= 1 {
        r
    } else {
        1
    }
}

impl Resize {
    /// Target (w, h) for a `w`×`h` source. Never upscales: a request that would not
    /// shrink the source gives `None`.
    pub fn target(&self, w: u32, h: u32) -> (r: Option<(u32, u32)>)
        ensures
            match resize_target(*self, w as int, h as int) {
                None => r is None,
                Some(t) => r is Some && r.unwrap().0 == t.0 && r.unwrap().1 == t.1,
            },
    {
        if self.value == 0 {
            return None;
        }
        let d: u64 = match self.mode {
            ResizeMode::Off => return None,
            ResizeMode::Width => w as u64,
            ResizeMode::Height => h as u64,
            ResizeMode::LongEdge => if w >= h { w as u64 } else { h as u64 },
            ResizeMode::ShortEdge => if w <= h { w as u64 } else { h as u64 },
            ResizeMode::Percent => 100,
        };
        if self.value as u64 >= d {
            return None;
        }
        Some((scale_len(w, self.value, d), scale_len(h, self.value, d)))
    }
}

/// A resize never produces a dimension larger than a non-empty source dimension,
/// and never one below a single pixel.
pub proof fn law_resize_never_upscales(r: Resize, w: u32, h: u32)
    requires
        w >= 1,
        h >= 1,
    ensures
        resize_target(r, w as int, h as int) matches Some(t) ==> {
            &&& 1 <= t.0 <= w
            &&& 1 <= t.1 <= h
        },
{
    if let Some(d) = resize_base(r.mode, w as int, h as int) {
        if (r.value as int) < d {
            lemma_round_div_le(w as int, r.value as int, d);
            lemma_round_div_le(h as int, r.value as int, d);
        }
    }
}

/// Scaling a length by `v / x` where `x` is that length itself gives `v` exactly.
proof fn lemma_round_div_exact(x: int, v: int)
    requires
        0 < x,
        0 <= v,
    ensures
        round_div(x * v, x) == v,
{
    assert((2 * (x * v) + x) / (2 * x) == v) by (nonlinear_arith)
        requires
            0 < x,
            0 <= v,
    ;
}

/// Rounded scaling keeps the order of the lengths it scales.
proof fn lemma_round_div_mono(a: int, b: int, v: int, d: int)
    requires
        0 <= a <= b,
        0 <= v,
        0 < d,
    ensures
        round_div(a * v, d) <= round_div(b * v, d),
{
    assert(a * v <= b * v) by (nonlinear_arith)
        requires
            0 <= a <= b,
            0 <= v,
    ;
    assert((2 * (a * v) + d) / (2 * d) <= (2 * (b * v) + d) / (2 * d)) by (nonlinear_arith)
        requires
            a * v <= b * v,
            0 < d,
    ;
}

/// A resize by width, height, long edge or short edge settles at once: applied
/// again to the dimensions it produced, it asks for no further resize.
pub proof fn law_resize_settles(r: Resize, w: u32, h: u32)
    requires
        r.mode is Width || r.mode is Height || r.mode is LongEdge || r.mode is ShortEdge,
    ensures
        resize_target(r, w as int, h as int) matches Some(t) ==> resize_target(r, t.0, t.1) is None,
{
    if let Some(t) = resize_target(r, w as int, h as int) {
        let v = r.value as int;
        let d = resize_base(r.mode, w as int, h as int).unwrap();
        assert(0 < v < d);
        if d == w as int {
            lemma_round_div_exact(w as int, v);
        }
        if d == h as int {
            lemma_round_div_exact(h as int, v);
        }
        if w <= h {
            lemma_round_div_mono(w as int, h as int, v, d);
        } else {
            lemma_round_div_mono(h as int, w as int, v, d);
        }
        match r.mode {
            ResizeMode::Width => assert(t.0 == v),
            ResizeMode::Height => assert(t.1 == v),
            ResizeMode::LongEdge => {
                if w >= h {
                    assert(t.0 == v && t.1 <= v);
                } else {
                    assert(t.1 == v && t.0 <= v);
                }
            },
            _ => {
                if w <= h {
                    assert(t.0 == v && t.1 >= v);
                } else {
                    assert(t.1 == v && t.0 >= v);
                }
            },
        }
    }
}

/// Video settings.
#[derive(Debug, Clone, Copy, PartialEq, Eq, Structural)]
pub struct VideoSettings {
    pub quality: Quality,
    pub codec: VideoCodec,
    pub format: VideoFormat,
    /// Always on where available; kept for settings-file compatibility only.
    pub hw_accel: bool,
    pub resize: Resize,
    pub fps: Option<u32>,
    pub remove_audio: bool,
    /// Target output size in bytes (two-pass bitrate mode; overrides quality).
    pub target_size_bytes: Option<u64>,
    /// Trim start, in milliseconds.
    pub trim_start_ms: Option<i64>,
    /// Trim end, in milliseconds.
    pub trim_end_ms: Option<i64>,
    /// Encoder threads; 0 = auto.
    pub threads: u32,
}

/// The default video settings.
pub open spec fn default_video() -> VideoSettings {
    VideoSettings {
        quality: Quality::Good,
        codec: VideoCodec::Auto,
        format: VideoFormat::Same,
        hw_accel: true,
        resize: Resize { mode: ResizeMode::Off, value: 0 },
        fps: None,
        remove_audio: false,
        target_size_bytes: None,
        trim_start_ms: None,
        trim_end_ms: None,
        threads: 0,
    }
}

impl Default for VideoSettings {
    fn default() -> (s: Self)
        ensures
            s == default_video(),
    {
        VideoSettings {
            quality: Quality::Good,
            codec: VideoCodec::Auto,
            format: VideoFormat::Same,
            hw_accel: true,
            resize: Resize { mode: ResizeMode::Off, value: 0 },
            fps: None,
            remove_audio: false,
            target_size_bytes: None,
            trim_start_ms: None,
            trim_end_ms: None,
            threads: 0,
        }
    }
}

/// Image settings.
#[derive(Debug, Clone, Copy, PartialEq, Eq, Structural)]
pub struct ImageSettings {
    pub quality: Quality,
    pub format: ImageFormat,
    pub resize: Resize,
    pub keep_metadata: bool,
}

impl Default for ImageSettings {
    fn default() -> (s: Self)
        ensures
            s == (ImageSettings {
                quality: Quality::Good,
                format: ImageFormat::Same,
                resize: Resize { mode: ResizeMode::Off, value: 0 },
                keep_metadata: false,
            }),
    {
        ImageSettings {
            quality: Quality::Good,
            format: ImageFormat::Same,
            resize: Resize { mode: ResizeMode::Off, value: 0 },
            keep_metadata: false,
        }
    }
}

/// GIF settings.
#[derive(Debug, Clone, Copy, PartialEq, Eq, Structural)]
pub struct GifSettings {
    pub quality: Quality,
    pub fps: u32,
    pub resize: Resize,
    pub loop_forever: bool,
}

impl Default for GifSettings {
    fn default() -> (s: Self)
        ensures
            s == (GifSettings {
                quality: Quality::Good,
                fps: 15,
                resize: Resize { mode: ResizeMode::Width, value: 640 },
                loop_forever: true,
            }),
    {
        GifSettings {
            quality: Quality::Good,
            fps: 15,
            resize: Resize { mode: ResizeMode::Width, value: 640 },
            loop_forever: true,
        }
    }
}

/// PDF settings.
#[derive(Debug, Clone, Copy, PartialEq, Eq, Structural)]
pub struct PdfSettings {
    pub quality: Quality,
}

impl Default for PdfSettings {
    fn default() -> (s: Self)
        ensures
            s == (PdfSettings { quality: Quality::Good }),
    {
        PdfSettings { quality: Quality::Good }
    }
}

/// Where outputs are written.
#[derive(Debug, Clone, Copy, PartialEq, Eq, Structural)]
pub enum OutputLocation {
    SameFolder,
    Subfolder,
    Custom,
}

impl Default for OutputLocation {
    fn default() -> (l: Self)
        ensures
            l == OutputLocation::SameFolder,
    {
        OutputLocation::SameFolder
    }
}

/// Output placement and naming.
#[derive(Debug, Clone)]
pub struct OutputSettings {
    pub location: OutputLocation,
    pub subfolder_name: String,
    pub custom_dir: String,
    /// Template vars: {name} {ext} {quality} {resolution} {date} {time} {codec}
    pub name_template: String,
    pub overwrite_original: bool,
    pub trash_original: bool,
    pub keep_dates: bool,
    /// If the output isn't smaller, keep a copy of the original instead.
    pub skip_if_larger: bool,
}

impl Default for OutputSettings {
    fn default() -> (s: Self)
        ensures
            s.location == OutputLocation::SameFolder,
            s.subfolder_name@ == "compressed"@,
            s.custom_dir@ == Seq::<char>::empty(),
            s.name_template@ == "{name}_compressed"@,
            !s.overwrite_original,
            !s.trash_original,
            s.keep_dates,
            !s.skip_if_larger,
    {
        OutputSettings {
            location: OutputLocation::SameFolder,
            subfolder_name: String::from_str("compressed"),
            custom_dir: String::new(),
            name_template: String::from_str("{name}_compressed"),
            overwrite_original: false,
            trash_original: false,
            keep_dates: true,
            skip_if_larger: false,
        }
    }
}

/// The settings format version that this library writes.
pub const SETTINGS_VERSION: u32 = 2;

/// All settings.
#[derive(Debug, Clone)]
pub struct Settings {
    /// Bumped when defaults change in a way existing settings files should adopt.
    pub version: u32,
    pub video: VideoSettings,
    pub image: ImageSettings,
    pub gif: GifSettings,
    pub pdf: PdfSettings,
    pub output: OutputSettings,
    pub concurrency: usize,
    pub notify_on_finish: bool,
    pub ffmpeg_path: Option<String>,
    pub gs_path: Option<String>,
}

impl Default for Settings {
    fn default() -> (s: Self)
        ensures
            s.version == SETTINGS_VERSION,
            s.video == default_video(),
            s.image == (ImageSettings {
                quality: Quality::Good,
                format: ImageFormat::Same,
                resize: Resize { mode: ResizeMode::Off, value: 0 },
                keep_metadata: false,
            }),
            s.gif == (GifSettings {
                quality: Quality::Good,
                fps: 15,
                resize: Resize { mode: ResizeMode::Width, value: 640 },
                loop_forever: true,
            }),
            s.pdf == (PdfSettings { quality: Quality::Good }),
            s.output.location == OutputLocation::SameFolder,
            s.output.subfolder_name@ == "compressed"@,
            s.output.custom_dir@ == Seq::<char>::empty(),
            s.output.name_template@ == "{name}_compressed"@,
            !s.output.overwrite_original,
            !s.output.trash_original,
            s.output.keep_dates,
            !s.output.skip_if_larger,
            s.concurrency == 2,
            s.notify_on_finish,
            s.ffmpeg_path is None,
            s.gs_path is None,
    {
        Settings {
            version: SETTINGS_VERSION,
            video: VideoSettings::default(),
            image: ImageSettings::default(),
            gif: GifSettings::default(),
            pdf: PdfSettings::default(),
            output: OutputSettings::default(),
            concurrency: 2,
            notify_on_finish: true,
            ffmpeg_path: None,
            gs_path: None,
        }
    }
}

/// Settings after the forward migrations: files older than version 2 adopt the
/// `Auto` codec; hardware encoding is always on; the version is current.
pub open spec fn migrated(s: Settings) -> Settings {
    Settings {
        version: SETTINGS_VERSION,
        video: VideoSettings {
            codec: if s.version < 2 { VideoCodec::Auto } else { s.video.codec },
            hw_accel: true,
            ..s.video
        },
        ..s
    }
}

impl Settings {
    /// Apply forward migrations to a settings file loaded from disk.
    pub fn migrate(self) -> (r: Self)
        ensures
            r == migrated(self),
    {
        let mut s = self;
        if s.version < 2 {
            s.video.codec = VideoCodec::Auto;
        }
        s.video.hw_accel = true;
        s.version = SETTINGS_VERSION;
        s
    }
}

/// Migration is idempotent: a migrated file is current and migrating it again
/// changes nothing.
pub proof fn law_migrate_idempotent(s: Settings)
    ensures
        migrated(s).version == SETTINGS_VERSION,
        migrated(s).video.hw_accel,
        migrated(migrated(s)) == migrated(s),
{
}


fn dup_opt(o: &Option<String>) -> (r: Option<String>)
    ensures
        r == *o,
{
    match o {
        Some(s) => Some(s.clone()),
        None => None,
    }
}

impl OutputSettings {
    /// An identical copy.
    pub fn dup(&self) -> (r: OutputSettings)
        ensures
            r == *self,
    {
        OutputSettings {
            location: self.location,
            subfolder_name: self.subfolder_name.clone(),
            custom_dir: self.custom_dir.clone(),
            name_template: self.name_template.clone(),
            overwrite_original: self.overwrite_original,
            trash_original: self.trash_original,
            keep_dates: self.keep_dates,
            skip_if_larger: self.skip_if_larger,
        }
    }
}

impl Settings {
    /// An identical copy.
    pub fn dup(&self) -> (r: Settings)
        ensures
            r == *self,
    {
        Settings {
            version: self.version,
            video: self.video,
            image: self.image,
            gif: self.gif,
            pdf: self.pdf,
            output: self.output.dup(),
            concurrency: self.concurrency,
            notify_on_finish: self.notify_on_finish,
            ffmpeg_path: dup_opt(&self.ffmpeg_path),
            gs_path: dup_opt(&self.gs_path),
        }
    }
}

} // verus!
