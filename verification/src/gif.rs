//! FFmpeg argument planning for video→GIF and GIF→GIF conversion with a per-file
//! palette, in a single run.
use vstd::prelude::*;
use vstd::string::*;
use crate::probe::{FrameRate, MediaInfo};
use crate::settings::{GifSettings, Quality, resize_target};
use crate::text::{
    append_args, cat, cat_u64, decimal, fmt_seconds3, push_arg, push_lit, seconds3, span_ms,
    texts,
};

verus! {

/// Palette size for a quality.
pub open spec fn palette_colors(q: Quality) -> u32 {
    match q {
        Quality::Highest => 256,
        Quality::High => 200,
        Quality::Good => 160,
        Quality::Medium => 128,
        Quality::Acceptable => 96,
    }
}

fn colors(q: Quality) -> (r: u32)
    ensures
        r == palette_colors(q),
{
    match q {
        Quality::Highest => 256,
        Quality::High => 200,
        Quality::Good => 160,
        Quality::Medium => 128,
        Quality::Acceptable => 96,
    }
}

/// Dithering mode for a quality.
pub open spec fn dither_mode(q: Quality) -> Seq<char> {
    match q {
        Quality::Highest => "sierra2_4a"@,
        Quality::High => "sierra2_4a"@,
        Quality::Good => "bayer:bayer_scale=3"@,
        Quality::Medium => "bayer:bayer_scale=4"@,
        Quality::Acceptable => "bayer:bayer_scale=5"@,
    }
}

fn dither(q: Quality) -> (r: &'static str)
    ensures
        r@ == dither_mode(q),
{
    match q {
        Quality::Highest | Quality::High => "sierra2_4a",
        Quality::Good => "bayer:bayer_scale=3",
        Quality::Medium => "bayer:bayer_scale=4",
        Quality::Acceptable => "bayer:bayer_scale=5",
    }
}

/// The source dimensions of a file, when both are known.
pub open spec fn dims(info: MediaInfo) -> Option<(int, int)> {
    match (info.width, info.height) {
        (Some(w), Some(h)) => Some((w as int, h as int)),
        _ => None,
    }
}

/// The GIF's resized dimensions, when the source dimensions are known and a resize applies.
pub open spec fn gif_resolution(info: MediaInfo, s: GifSettings) -> Option<(int, int)> {
    match dims(info) {
        Some(d) => resize_target(s.resize, d.0, d.1),
        None => None,
    }
}

/// The GIF's resized dimensions, when the source dimensions are known and a resize applies.
pub fn resolution(info: &MediaInfo, s: &GifSettings) -> (r: Option<(u32, u32)>)
    ensures
        match gif_resolution(*info, *s) {
            None => r is None,
            Some(t) => r matches Some(x) && x.0 == t.0 && x.1 == t.1,
        },
{
    match (info.width, info.height) {
        (Some(w), Some(h)) => s.resize.target(w, h),
        _ => None,
    }
}

/// Whether `f` frames per second is below the rate `r`.
pub open spec fn below_rate(f: int, r: FrameRate) -> bool {
    f * r.den < r.num
}

/// Whether `f` frames per second is below the rate `r`.
pub fn is_below_rate(f: u32, r: FrameRate) -> (b: bool)
    ensures
        b == below_rate(f as int, r),
{
    assert((f as int) * (r.den as int) <= 0xffff_ffff * 0xffff_ffff_ffff_ffff) by (nonlinear_arith)
        requires
            f <= 0xffff_ffff,
            r.den <= 0xffff_ffff_ffff_ffff,
    ;
    (f as u128) * (r.den as u128) < r.num as u128
}

/// The output frame rate: the setting, or 15 when it is 0.
pub open spec fn gif_fps(s: GifSettings) -> u32 {
    if s.fps == 0 { 15 } else { s.fps }
}

/// The source frame rate, 30 when unknown.
pub open spec fn source_rate(info: MediaInfo) -> FrameRate {
    match info.fps {
        Some(r) => r,
        None => FrameRate { num: 30, den: 1 },
    }
}

/// The filters that run before palette generation.
pub open spec fn gif_chain(info: MediaInfo, s: GifSettings) -> Seq<Seq<char>> {
    (if below_rate(gif_fps(s) as int, source_rate(info)) {
        seq!["fps="@ + decimal(gif_fps(s) as nat)]
    } else {
        Seq::empty()
    }) + match gif_resolution(info, s) {
        Some(t) => seq!["scale="@ + decimal(t.0 as nat) + ":-1:flags=lanczos"@],
        None => Seq::empty(),
    }
}

/// The filter graph: optional pre-filters, then a diff-based palette and its use.
pub open spec fn gif_filter(info: MediaInfo, s: GifSettings) -> Seq<char> {
    let chain = gif_chain(info, s);
    let pre = if chain.len() == 0 {
        Seq::empty()
    } else if chain.len() == 1 {
        chain[0] + ","@
    } else {
        chain[0] + ","@ + chain[1] + ","@
    };
    pre + "split[s0][s1];[s0]palettegen=max_colors="@ + decimal(palette_colors(s.quality) as nat)
        + ":stats_mode=diff[p];[s1][p]paletteuse=dither="@ + dither_mode(s.quality)
        + ":diff_mode=rectangle"@
}

/// The GIF filter graph runs every pre-filter that applies, in order, each
/// followed by a comma, before the palette is built and used: the frame-rate
/// cap `fps=<fps>` whenever the GIF's rate is below the source's, then the
/// resize `scale=<width>:-1:flags=lanczos` whenever a resize applies.
pub proof fn law_gif_filter_runs_every_prefilter(info: MediaInfo, s: GifSettings)
    ensures
        gif_filter(info, s) == (if below_rate(gif_fps(s) as int, source_rate(info)) {
            "fps="@ + decimal(gif_fps(s) as nat) + ","@
        } else {
            Seq::empty()
        }) + (match gif_resolution(info, s) {
            Some(t) => "scale="@ + decimal(t.0 as nat) + ":-1:flags=lanczos"@ + ","@,
            None => Seq::empty(),
        }) + "split[s0][s1];[s0]palettegen=max_colors="@ + decimal(palette_colors(s.quality) as nat)
            + ":stats_mode=diff[p];[s1][p]paletteuse=dither="@ + dither_mode(s.quality)
            + ":diff_mode=rectangle"@,
{
    let f = if below_rate(gif_fps(s) as int, source_rate(info)) {
        seq!["fps="@ + decimal(gif_fps(s) as nat)]
    } else {
        Seq::empty()
    };
    let r = match gif_resolution(info, s) {
        Some(t) => seq!["scale="@ + decimal(t.0 as nat) + ":-1:flags=lanczos"@],
        None => Seq::<Seq<char>>::empty(),
    };
    let chain = gif_chain(info, s);
    assert(chain == f + r);
    let fp = if below_rate(gif_fps(s) as int, source_rate(info)) {
        "fps="@ + decimal(gif_fps(s) as nat) + ","@
    } else {
        Seq::empty()
    };
    let rp = match gif_resolution(info, s) {
        Some(t) => "scale="@ + decimal(t.0 as nat) + ":-1:flags=lanczos"@ + ","@,
        None => Seq::empty(),
    };
    let tail = "split[s0][s1];[s0]palettegen=max_colors="@ + decimal(palette_colors(s.quality) as nat)
        + ":stats_mode=diff[p];[s1][p]paletteuse=dither="@ + dither_mode(s.quality)
        + ":diff_mode=rectangle"@;
    if f.len() == 0 && r.len() == 0 {
        assert(gif_filter(info, s) =~= fp + rp + tail);
    } else if f.len() == 0 {
        assert(chain[0] == r[0]);
        assert(gif_filter(info, s) =~= fp + rp + tail);
    } else if r.len() == 0 {
        assert(chain[0] == f[0]);
        assert(gif_filter(info, s) =~= fp + rp + tail);
    } else {
        assert(chain[0] == f[0]);
        assert(chain[1] == r[0]);
        assert(gif_filter(info, s) =~= fp + rp + tail);
    }
}

/// The seek and duration arguments for a trim `(start, end)` in milliseconds.
pub open spec fn trim_args(trim: Option<(i64, Option<i64>)>) -> Seq<Seq<char>> {
    match trim {
        Some((st, _)) if st > 0 => seq!["-ss"@, seconds3(st as nat)],
        _ => Seq::empty(),
    }
}

/// The duration argument for a trim `(start, end)` in milliseconds.
pub open spec fn duration_args(trim: Option<(i64, Option<i64>)>) -> Seq<Seq<char>> {
    match trim {
        Some((st, Some(en))) if en > st => seq!["-t"@, seconds3((en - st) as nat)],
        _ => Seq::empty(),
    }
}

/// The FFmpeg arguments that write `info` as a GIF to `out`.
pub open spec fn gif_args(
    info: MediaInfo,
    s: GifSettings,
    out: Seq<char>,
    trim: Option<(i64, Option<i64>)>,
) -> Seq<Seq<char>> {
    seq!["-hide_banner"@, "-y"@, "-nostdin"@] + trim_args(trim) + seq!["-i"@, info.path@]
        + duration_args(trim) + seq![
        "-filter_complex"@,
        gif_filter(info, s),
        "-loop"@,
        if s.loop_forever { "0"@ } else { "-1"@ },
        "-an"@,
        "-progress"@,
        "pipe:1"@,
        "-nostats"@,
        out,
    ]
}

fn chain(info: &MediaInfo, s: &GifSettings) -> (r: Vec<String>)
    ensures
        texts(r@) == gif_chain(*info, *s),
{
    let mut c: Vec<String> = Vec::new();
    let fps = if s.fps == 0 { 15 } else { s.fps };
    let src = match info.fps {
        Some(r) => r,
        None => FrameRate { num: 30, den: 1 },
    };
    if is_below_rate(fps, src) {
        push_arg(&mut c, cat_u64("fps=", fps as u64));
    }
    let ghost first = texts(c@);
    if let Some((w, _)) = resolution(info, s) {
        let a = cat_u64("scale=", w as u64);
        push_arg(&mut c, cat(a.as_str(), ":-1:flags=lanczos"));
    }
    assert(texts(c@) =~= gif_chain(*info, *s));
    c
}

fn filter(info: &MediaInfo, s: &GifSettings) -> (r: String)
    ensures
        r@ == gif_filter(*info, *s),
{
    let c = chain(info, s);
    let ghost cv = texts(c@);
    assert(cv.len() <= 2);
    let mut f = String::new();
    let mut i: usize = 0;
    while i < c.len()
        invariant
            cv == texts(c@),
            cv.len() <= 2,
            i <= cv.len(),
            f@ == (if i == 0 {
                Seq::empty()
            } else if i == 1 {
                cv[0] + ","@
            } else {
                cv[0] + ","@ + cv[1] + ","@
            }),
        decreases cv.len() - i,
    {
        assert(cv[i as int] == c@[i as int]@);
        f.append(c[i].as_str());
        f.append(",");
        i = i + 1;
    }
    f.append("split[s0][s1];[s0]palettegen=max_colors=");
    f.append(crate::text::fmt_u64(colors(s.quality) as u64).as_str());
    f.append(":stats_mode=diff[p];[s1][p]paletteuse=dither=");
    f.append(dither(s.quality));
    f.append(":diff_mode=rectangle");
    assert(f@ =~= gif_filter(*info, *s));
    f
}

/// Seek and duration arguments for a trim.
fn trim_parts(trim: Option<(i64, Option<i64>)>) -> (r: (Vec<String>, Vec<String>))
    ensures
        texts(r.0@) == trim_args(trim),
        texts(r.1@) == duration_args(trim),
{
    let mut ss: Vec<String> = Vec::new();
    let mut t: Vec<String> = Vec::new();
    if let Some((st, _)) = trim {
        if st > 0 {
            push_lit(&mut ss, "-ss");
            push_arg(&mut ss, fmt_seconds3(st as u64));
        }
    }
    if let Some((st, Some(en))) = trim {
        if en > st {
            push_lit(&mut t, "-t");
            push_arg(&mut t, fmt_seconds3(span_ms(st, en)));
        }
    }
    assert(texts(ss@) =~= trim_args(trim));
    assert(texts(t@) =~= duration_args(trim));
    (ss, t)
}

/// Builds the FFmpeg arguments for a GIF: video→GIF or GIF→GIF re-quantization.
pub fn build_args(
    info: &MediaInfo,
    s: &GifSettings,
    out: &str,
    trim: Option<(i64, Option<i64>)>,
) -> (r: Vec<String>)
    ensures
        texts(r@) == gif_args(*info, *s, out@, trim),
{
    let (ss, t) = trim_parts(trim);
    let mut a: Vec<String> = Vec::new();
    push_lit(&mut a, "-hide_banner");
    push_lit(&mut a, "-y");
    push_lit(&mut a, "-nostdin");
    append_args(&mut a, ss);
    push_lit(&mut a, "-i");
    push_lit(&mut a, info.path.as_str());
    append_args(&mut a, t);
    push_lit(&mut a, "-filter_complex");
    push_arg(&mut a, filter(info, s));
    push_lit(&mut a, "-loop");
    push_lit(&mut a, if s.loop_forever { "0" } else { "-1" });
    push_lit(&mut a, "-an");
    push_lit(&mut a, "-progress");
    push_lit(&mut a, "pipe:1");
    push_lit(&mut a, "-nostats");
    push_lit(&mut a, out);
    assert(texts(a@) =~= gif_args(*info, *s, out@, trim));
    a
}

} // verus!
