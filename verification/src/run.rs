//! Planning one compression: what the output will be, which encoder runs make
//! it (with their share of the progress bar), and the error tail shown when an
//! encoder fails.
use vstd::prelude::*;
use vstd::string::*;
use crate::gif::{self, dims, gif_args, gif_resolution};
use crate::image_enc::{self, image_ext};
use crate::pdf::{self, pdf_args};
use crate::probe::{MediaInfo, MediaKind};
use crate::settings::{Quality, Settings, VideoSettings, resize_target};
use crate::text::{chars_of, is_blank, string_of_range, text_eq, texts, trimmed};
use crate::video::{self, Platform, codec_for, is_two_pass, label_of, video_args, video_ext, video_resolution};

verus! {

/// What a finished compression produced: the file, its size, and its pixel
/// dimensions where they are known.
#[derive(Debug, Clone)]
pub struct DoneInfo {
    pub path: String,
    pub size: u64,
    pub dims: Option<(u32, u32)>,
}

/// What a compression will produce.
pub struct OutputPlan {
    pub ext: &'static str,
    pub quality: Quality,
    pub codec_label: &'static str,
    pub resolution: Option<(u32, u32)>,
}

/// The resized image dimensions, when the source dimensions are known and a resize applies.
pub open spec fn image_resolution(info: MediaInfo, s: Settings) -> Option<(int, int)> {
    match dims(info) {
        Some(d) => resize_target(s.image.resize, d.0, d.1),
        None => None,
    }
}

/// The planned output of a compression as (extension, quality, codec label,
/// resolution); `None` for files of unknown kind.
pub open spec fn output_plan(info: MediaInfo, s: Settings) -> Option<(Seq<char>, Quality, Seq<char>, Option<(int, int)>)> {
    match info.kind {
        MediaKind::Video => if video_ext(info, s.video) == "gif"@ {
            Some(("gif"@, s.gif.quality, "gif"@, gif_resolution(info, s.gif)))
        } else {
            Some((
                video_ext(info, s.video),
                s.video.quality,
                label_of(codec_for(info, video_ext(info, s.video), s.video)),
                video_resolution(info, s.video),
            ))
        },
        MediaKind::Gif => Some(("gif"@, s.gif.quality, "gif"@, gif_resolution(info, s.gif))),
        MediaKind::Image => Some((image_ext(info, s.image), s.image.quality, ""@, image_resolution(info, s))),
        MediaKind::Pdf => Some(("pdf"@, s.pdf.quality, "gs"@, None)),
        MediaKind::Unknown => None,
    }
}

/// Whether a plan's resolution equals the spec's.
pub open spec fn same_res(a: Option<(u32, u32)>, b: Option<(int, int)>) -> bool {
    match (a, b) {
        (None, None) => true,
        (Some(x), Some(y)) => x.0 == y.0 && x.1 == y.1,
        _ => false,
    }
}

/// Plans the output of a compression.
pub fn plan_output(info: &MediaInfo, s: &Settings) -> (r: Result<OutputPlan, String>)
    ensures
        match output_plan(*info, *s) {
            None => r matches Err(e) && e@ == "unsupported file type"@,
            Some(p) => r matches Ok(o) && o.ext@ == p.0 && o.quality == p.1 && o.codec_label@ == p.2
                && same_res(o.resolution, p.3),
        },
{
    match info.kind {
        MediaKind::Video => {
            let p = video::plan(info, &s.video);
            if text_eq(p.ext, "gif") {
                Ok(OutputPlan {
                    ext: "gif",
                    quality: s.gif.quality,
                    codec_label: "gif",
                    resolution: gif::resolution(info, &s.gif),
                })
            } else {
                Ok(OutputPlan {
                    ext: p.ext,
                    quality: s.video.quality,
                    codec_label: p.codec_label,
                    resolution: p.resolution,
                })
            }
        },
        MediaKind::Gif => Ok(OutputPlan {
            ext: "gif",
            quality: s.gif.quality,
            codec_label: "gif",
            resolution: gif::resolution(info, &s.gif),
        }),
        MediaKind::Image => Ok(OutputPlan {
            ext: image_enc::output_ext(info, &s.image),
            quality: s.image.quality,
            codec_label: "",
            resolution: match (info.width, info.height) {
                (Some(w), Some(h)) => s.image.resize.target(w, h),
                _ => None,
            },
        }),
        MediaKind::Pdf => Ok(OutputPlan { ext: "pdf", quality: s.pdf.quality, codec_label: "gs", resolution: None }),
        MediaKind::Unknown => Err(String::from_str("unsupported file type")),
    }
}

/// The duration that progress is measured against, in milliseconds: the trimmed
/// span within the file (at least 10 ms), when the duration is known.
pub open spec fn effective_ms(info: MediaInfo, v: VideoSettings) -> Option<u64> {
    match info.duration_ms {
        None => None,
        Some(d) => {
            let st = match v.trim_start_ms {
                Some(x) => if x > 0 { x as int } else { 0 },
                None => 0,
            };
            let en = match v.trim_end_ms {
                Some(x) => if x < d { x as int } else { d as int },
                None => d as int,
            };
            Some(if en - st >= 10 { (en - st) as u64 } else { 10 })
        },
    }
}

/// The duration that progress is measured against, in milliseconds.
pub fn effective_duration(info: &MediaInfo, v: &VideoSettings) -> (r: Option<u64>)
    ensures
        r == effective_ms(*info, *v),
{
    let d = match info.duration_ms {
        Some(d) => d,
        None => return None,
    };
    let st: i128 = match v.trim_start_ms {
        Some(x) => if x > 0 { x as i128 } else { 0 },
        None => 0,
    };
    let en: i128 = match v.trim_end_ms {
        Some(x) => if (x as i128) < (d as i128) { x as i128 } else { d as i128 },
        None => d as i128,
    };
    Some(if en - st >= 10 { (en - st) as u64 } else { 10 })
}

/// The trim of a video→GIF conversion: the video trim, with a missing start
/// counted as 0 when only an end is set.
pub open spec fn gif_trim_of(v: VideoSettings) -> Option<(i64, Option<i64>)> {
    match v.trim_start_ms {
        Some(st) => Some((st, v.trim_end_ms)),
        None => match v.trim_end_ms {
            Some(en) => Some((0, Some(en))),
            None => None,
        },
    }
}

fn gif_trim(v: &VideoSettings) -> (r: Option<(i64, Option<i64>)>)
    ensures
        r == gif_trim_of(*v),
{
    match v.trim_start_ms {
        Some(st) => Some((st, v.trim_end_ms)),
        None => match v.trim_end_ms {
            Some(en) => Some((0, Some(en))),
            None => None,
        },
    }
}

/// One FFmpeg run: its arguments, the duration its progress is measured against,
/// and the share of the progress bar (`from_pct..to_pct`) that it fills.
pub struct FfmpegRun {
    pub args: Vec<String>,
    pub duration_ms: Option<u64>,
    pub from_pct: u32,
    pub to_pct: u32,
}

/// The encoder work of a compression.
pub enum Work {
    /// FFmpeg runs, one after the other.
    Ffmpeg(Vec<FfmpegRun>),
    /// An image re-encode.
    Image,
    /// A Ghostscript run with these arguments.
    Pdf(Vec<String>),
}

/// The view of an FFmpeg run.
pub open spec fn run_view(r: FfmpegRun) -> (Seq<Seq<char>>, Option<u64>, u32, u32) {
    (texts(r.args@), r.duration_ms, r.from_pct, r.to_pct)
}

/// The encoder work for a compression of `info` into the temporary file `tmp`
/// (`passlog` names the pass log of two-pass runs).
pub open spec fn work_plan(
    info: MediaInfo,
    s: Settings,
    tmp: Seq<char>,
    passlog: &str,
    p: Platform,
) -> Option<Seq<(Seq<Seq<char>>, Option<u64>, u32, u32)>> {
    let ext = video_ext(info, s.video);
    let dur = effective_ms(info, s.video);
    match info.kind {
        MediaKind::Video => if ext == "gif"@ {
            Some(seq![(gif_args(info, s.gif, tmp, gif_trim_of(s.video)), dur, 0u32, 100u32)])
        } else if ext == "mp3"@ {
            Some(seq![(video_args(info, s.video, tmp, 0, None, p), dur, 0u32, 100u32)])
        } else if is_two_pass(info, s.video) {
            Some(seq![
                (video_args(info, s.video, tmp, 1, Some(passlog), p), dur, 0u32, 50u32),
                (video_args(info, s.video, tmp, 2, Some(passlog), p), dur, 50u32, 100u32),
            ])
        } else {
            Some(seq![(video_args(info, s.video, tmp, 0, None, p), dur, 0u32, 100u32)])
        },
        MediaKind::Gif => Some(seq![(gif_args(info, s.gif, tmp, None), info.duration_ms, 0u32, 100u32)]),
        _ => None,
    }
}

/// Plans the encoder work of a compression into `tmp`.
pub fn plan_work(info: &MediaInfo, s: &Settings, tmp: &str, passlog: &str, p: Platform) -> (w: Work)
    ensures
        match info.kind {
            MediaKind::Image => w is Image,
            MediaKind::Pdf => w matches Work::Pdf(a) && texts(a@) == pdf_args(info.path@, tmp@, s.pdf.quality),
            MediaKind::Unknown => w matches Work::Ffmpeg(runs) && runs@.len() == 0,
            _ => w matches Work::Ffmpeg(runs) && work_plan(*info, *s, tmp@, passlog, p) == Some(
                runs@.map_values(|r: FfmpegRun| run_view(r)),
            ),
        },
{
    match info.kind {
        MediaKind::Image => Work::Image,
        MediaKind::Pdf => Work::Pdf(pdf::build_args(info.path.as_str(), tmp, s.pdf.quality)),
        MediaKind::Unknown => Work::Ffmpeg(Vec::new()),
        MediaKind::Gif => {
            let mut runs: Vec<FfmpegRun> = Vec::new();
            runs.push(FfmpegRun { args: gif::build_args(info, &s.gif, tmp, None), duration_ms: info.duration_ms, from_pct: 0, to_pct: 100 });
            assert(runs@.map_values(|r: FfmpegRun| run_view(r)) =~= work_plan(*info, *s, tmp@, passlog, p)->0);
            Work::Ffmpeg(runs)
        },
        MediaKind::Video => {
            let ext = video::output_ext(info, &s.video);
            let dur = effective_duration(info, &s.video);
            let mut runs: Vec<FfmpegRun> = Vec::new();
            if text_eq(ext, "gif") {
                runs.push(FfmpegRun { args: gif::build_args(info, &s.gif, tmp, gif_trim(&s.video)), duration_ms: dur, from_pct: 0, to_pct: 100 });
            } else if text_eq(ext, "mp3") {
                runs.push(FfmpegRun { args: video::build_args(info, &s.video, tmp, 0, None, p), duration_ms: dur, from_pct: 0, to_pct: 100 });
            } else if video::plan(info, &s.video).two_pass {
                runs.push(FfmpegRun { args: video::build_args(info, &s.video, tmp, 1, Some(passlog), p), duration_ms: dur, from_pct: 0, to_pct: 50 });
                runs.push(FfmpegRun { args: video::build_args(info, &s.video, tmp, 2, Some(passlog), p), duration_ms: dur, from_pct: 50, to_pct: 100 });
            } else {
                runs.push(FfmpegRun { args: video::build_args(info, &s.video, tmp, 0, None, p), duration_ms: dur, from_pct: 0, to_pct: 100 });
            }
            assert(runs@.map_values(|r: FfmpegRun| run_view(r)) =~= work_plan(*info, *s, tmp@, passlog, p)->0);
            Work::Ffmpeg(runs)
        },
    }
}

/// The output dimensions reported for FFmpeg and Ghostscript work: the planned
/// resolution, falling back to the source's (not for video→GIF, MP3 and PDF).
pub open spec fn reported_dims(info: MediaInfo, s: Settings, planned: Option<(u32, u32)>) -> Option<(u32, u32)> {
    let src = match (info.width, info.height) {
        (Some(w), Some(h)) => Some((w, h)),
        _ => None,
    };
    match info.kind {
        MediaKind::Video => if video_ext(info, s.video) == "gif"@ {
            planned
        } else if video_ext(info, s.video) == "mp3"@ {
            None
        } else if planned is Some {
            planned
        } else {
            src
        },
        MediaKind::Gif => if planned is Some { planned } else { src },
        _ => None,
    }
}

/// The output dimensions reported once FFmpeg or Ghostscript work succeeds.
pub fn result_dims(info: &MediaInfo, s: &Settings, planned: Option<(u32, u32)>) -> (r: Option<(u32, u32)>)
    ensures
        r == reported_dims(*info, *s, planned),
{
    let src = match (info.width, info.height) {
        (Some(w), Some(h)) => Some((w, h)),
        _ => None,
    };
    match info.kind {
        MediaKind::Video => {
            let ext = video::output_ext(info, &s.video);
            if text_eq(ext, "gif") {
                planned
            } else if text_eq(ext, "mp3") {
                None
            } else if planned.is_some() {
                planned
            } else {
                src
            }
        },
        MediaKind::Gif => if planned.is_some() { planned } else { src },
        _ => None,
    }
}


/// The lines of a text, as `str::lines` gives them: split at `\n`, a `\r` right
/// before a `\n` dropped, and no empty last line after a final `\n`.
pub open spec fn lines_of(s: Seq<char>) -> Seq<Seq<char>>
    decreases s.len(),
{
    if s.len() == 0 {
        Seq::empty()
    } else {
        let k = crate::probe::first_index(s, '\n');
        if k < s.len() {
            proof {
                lemma_first_index(s, '\n');
            }
            let l = s.take(k);
            let l = if l.len() > 0 && l.last() == '\r' { l.drop_last() } else { l };
            seq![l] + lines_of(s.skip(k + 1))
        } else {
            seq![s]
        }
    }
}

/// The lines that hold more than white space, in order.
pub open spec fn nonblank(ls: Seq<Seq<char>>) -> Seq<Seq<char>>
    decreases ls.len(),
{
    if ls.len() == 0 {
        ls
    } else if trimmed(ls[0]).len() > 0 {
        seq![ls[0]] + nonblank(ls.skip(1))
    } else {
        nonblank(ls.skip(1))
    }
}

/// Lines joined with `\n` between them.
pub open spec fn joined(ls: Seq<Seq<char>>) -> Seq<char>
    decreases ls.len(),
{
    if ls.len() == 0 {
        Seq::empty()
    } else if ls.len() == 1 {
        ls[0]
    } else {
        joined(ls.drop_last()) + seq!['\n'] + ls.last()
    }
}

/// The last `n` non-blank lines of `s`, joined with `\n`.
pub open spec fn tail_text(s: Seq<char>, n: nat) -> Seq<char> {
    let ls = nonblank(lines_of(s));
    joined(ls.skip(if ls.len() > n { ls.len() - n } else { 0 }))
}

pub proof fn lemma_first_index(s: Seq<char>, c: char)
    ensures
        0 <= crate::probe::first_index(s, c) <= s.len(),
        crate::probe::first_index(s, c) < s.len() ==> s[crate::probe::first_index(s, c)] == c,
        forall|j: int| 0 <= j < crate::probe::first_index(s, c) ==> s[j] != c,
    decreases s.len(),
{
    if s.len() > 0 && s[0] != c {
        lemma_first_index(s.skip(1), c);
        assert forall|j: int| 0 <= j < crate::probe::first_index(s, c) implies s[j] != c by {
            if j > 0 {
                assert(s[j] == s.skip(1)[j - 1]);
            }
        }
    }
}

proof fn lemma_first_index_is(s: Seq<char>, c: char, k: int)
    requires
        0 <= k <= s.len(),
        forall|j: int| 0 <= j < k ==> s[j] != c,
        k < s.len() ==> s[k] == c,
    ensures
        crate::probe::first_index(s, c) == k,
    decreases k,
{
    if k > 0 {
        assert forall|j: int| 0 <= j < k - 1 implies s.skip(1)[j] != c by {
            assert(s.skip(1)[j] == s[j + 1]);
        }
        lemma_first_index_is(s.skip(1), c, k - 1);
    }
}

/// The lines of `s`.
fn split_lines(s: &str) -> (r: Vec<String>)
    ensures
        texts(r@) == lines_of(s@),
{
    let v = chars_of(s);
    let n = v.len();
    let mut out: Vec<String> = Vec::new();
    let mut i: usize = 0;
    assert(v@.skip(0) =~= v@);
    assert(texts(out@) + lines_of(v@) =~= lines_of(s@));
    while i < n
        invariant
            v@ == s@,
            n == v@.len(),
            i <= n,
            texts(out@) + lines_of(v@.skip(i as int)) == lines_of(s@),
        decreases n - i,
    {
        let ghost rest = v@.skip(i as int);
        let mut k = i;
        while k < n && v[k] != '\n'
            invariant
                i <= k <= n,
                n == v@.len(),
                forall|j: int| i <= j < k ==> v@[j] != '\n',
            decreases n - k,
        {
            k = k + 1;
        }
        proof {
            assert forall|j: int| 0 <= j < k - i implies rest[j] != '\n' by {
                assert(rest[j] == v@[i + j]);
            }
            lemma_first_index_is(rest, '\n', k - i);
        }
        let ghost before = texts(out@);
        if k < n {
            let end = if k > i && v[k - 1] == '\r' { k - 1 } else { k };
            assert(rest.take(k - i) =~= v@.subrange(i as int, k as int));
            assert(v@.subrange(i as int, end as int) =~= if rest.take(k - i).len() > 0
                && rest.take(k - i).last() == '\r' {
                rest.take(k - i).drop_last()
            } else {
                rest.take(k - i)
            });
            out.push(string_of_range(&v, i, end));
            assert(rest.skip(k - i + 1) =~= v@.skip(k + 1));
            assert(texts(out@) =~= before.push(v@.subrange(i as int, end as int)));
            i = k + 1;
        } else {
            assert(rest =~= v@.subrange(i as int, n as int));
            out.push(string_of_range(&v, i, n));
            assert(texts(out@) =~= before.push(rest));
            assert(v@.skip(n as int) =~= Seq::<char>::empty());
            i = n;
        }
    }
    assert(v@.skip(i as int) =~= Seq::<char>::empty());
    assert(texts(out@) + Seq::<Seq<char>>::empty() =~= texts(out@));
    out
}

/// The last `n` non-blank lines of `s`, joined with `\n` (the error excerpt shown
/// when an encoder fails).
pub fn tail(s: &str, n: usize) -> (r: String)
    ensures
        r@ == tail_text(s@, n as nat),
{
    let lines = split_lines(s);
    let ghost all = texts(lines@);
    let mut keep: Vec<String> = Vec::new();
    let mut rest = lines;
    let total = rest.len();
    let mut i: usize = 0;
    assert(all.skip(0) =~= all);
    assert(texts(keep@) + nonblank(all) =~= nonblank(all));
    while rest.len() > 0
        invariant
            all.len() == total,
            i + rest@.len() == total,
            texts(rest@) == all.skip(i as int),
            texts(keep@) + nonblank(texts(rest@)) == nonblank(all),
        decreases rest@.len(),
    {
        let ghost before = texts(rest@);
        let l = rest.remove(0);
        assert(before.skip(1) =~= texts(rest@));
        assert(before[0] == l@);
        let ghost k0 = texts(keep@);
        if !is_blank(l.as_str()) {
            keep.push(l);
            assert(texts(keep@) =~= k0.push(l@));
            assert(texts(keep@) + nonblank(texts(rest@)) =~= k0 + nonblank(before));
        }
        i = i + 1;
        assert(texts(rest@) =~= all.skip(i as int));
    }
    assert(nonblank(texts(rest@)) =~= Seq::<Seq<char>>::empty());
    assert(texts(keep@) =~= nonblank(all));
    let ghost ls = texts(keep@);
    let last = crate::jobs::last_items(keep, n);
    assert(texts(last@) =~= ls.skip(if ls.len() > n { ls.len() - n } else { 0 }));
    let ghost sel = texts(last@);
    let mut out = String::new();
    let mut j: usize = 0;
    while j < last.len()
        invariant
            sel == texts(last@),
            j <= last@.len(),
            out@ == joined(sel.take(j as int)),
        decreases last@.len() - j,
    {
        if j > 0 {
            out.append("\n");
        }
        out.append(last[j].as_str());
        proof {
            reveal_strlit("\n");
            assert(sel.take(j + 1).drop_last() =~= sel.take(j as int));
        }
        j = j + 1;
        assert(out@ =~= joined(sel.take(j as int)));
    }
    assert(sel.take(j as int) =~= sel);
    out
}


/// An integer in decimal, with a leading `-` when negative.
pub open spec fn signed_decimal(i: int) -> Seq<char> {
    if i < 0 { "-"@ + crate::text::decimal((0 - i) as nat) } else { crate::text::decimal(i as nat) }
}

/// The error for a failed FFmpeg run: its exit code (-1 when killed by a signal)
/// and the last 8 lines of its error output.
pub open spec fn ffmpeg_failure_text(code: Option<i32>, stderr: Seq<char>) -> Seq<char> {
    let c: int = match code {
        Some(c) => c as int,
        None => -1,
    };
    "ffmpeg failed ("@ + signed_decimal(c) + "):\n"@ + tail_text(stderr, 8)
}

/// The error for a failed FFmpeg run.
pub fn ffmpeg_failure(code: Option<i32>, stderr: &str) -> (r: String)
    ensures
        r@ == ffmpeg_failure_text(code, stderr@),
{
    let c: i32 = match code {
        Some(c) => c,
        None => -1,
    };
    let mut s = String::from_str("ffmpeg failed (");
    if c < 0 {
        s.append("-");
        s.append(crate::text::fmt_u64((0 - (c as i64)) as u64).as_str());
    } else {
        s.append(crate::text::fmt_u64(c as u64).as_str());
    }
    s.append("):\n");
    s.append(tail(stderr, 8).as_str());
    s
}

/// The error for a failed Ghostscript run: the last 8 lines of its output and
/// error output together.
pub open spec fn gs_failure_text(stdout: Seq<char>, stderr: Seq<char>) -> Seq<char> {
    "ghostscript failed:\n"@ + tail_text(stdout + "\n"@ + stderr, 8)
}

/// The error for a failed Ghostscript run.
pub fn gs_failure(stdout: &str, stderr: &str) -> (r: String)
    ensures
        r@ == gs_failure_text(stdout@, stderr@),
{
    let mut both = String::from_str(stdout);
    both.append("\n");
    both.append(stderr);
    let mut s = String::from_str("ghostscript failed:\n");
    s.append(tail(both.as_str(), 8).as_str());
    s
}

/// The PostScript program that prints a PDF's page count: the path as a
/// PostScript string, with `\` turned into `/` and parentheses escaped.
pub open spec fn page_count_program(input: Seq<char>) -> Seq<char> {
    let a = crate::text::replace_all(input, "\\"@, "/"@);
    let b = crate::text::replace_all(a, "("@, "\\("@);
    let c = crate::text::replace_all(b, ")"@, "\\)"@);
    "("@ + c + ") (r) file runpdfbegin pdfpagecount = quit"@
}

/// The PostScript program that prints a PDF's page count.
pub fn page_count_script(input: &str) -> (r: String)
    ensures
        r@ == page_count_program(input@),
{
    proof {
        reveal_strlit("\\");
        reveal_strlit("(");
        reveal_strlit(")");
    }
    let a = crate::text::replace(input, "\\", "/");
    let b = crate::text::replace(a.as_str(), "(", "\\(");
    let c = crate::text::replace(b.as_str(), ")", "\\)");
    let mut s = String::from_str("(");
    s.append(c.as_str());
    s.append(") (r) file runpdfbegin pdfpagecount = quit");
    s
}

/// The page count that Ghostscript printed: the last line of its trimmed output,
/// trimmed, as a number.
pub open spec fn printed_page_count(out: Seq<char>) -> Option<u32> {
    let ls = lines_of(trimmed(out));
    if ls.len() == 0 {
        None
    } else {
        match crate::probe::parsed_u64(trimmed(ls.last())) {
            Some(n) => if n <= u32::MAX { Some(n as u32) } else { None },
            None => None,
        }
    }
}

/// Reads the page count that Ghostscript printed.
pub fn page_count_of(out: &str) -> (r: Option<u32>)
    ensures
        r == printed_page_count(out@),
{
    let t = crate::text::trim(out);
    let ls = split_lines(t.as_str());
    if ls.len() == 0 {
        return None;
    }
    let last = &ls[ls.len() - 1];
    assert(texts(ls@).last() == last@);
    let l = crate::text::trim(last.as_str());
    match crate::probe::parse_u64(l.as_str()) {
        Some(n) => if n <= u32::MAX as u64 { Some(n as u32) } else { None },
        None => None,
    }
}

/// The first position of `path` among the per-file overrides; their length
/// where there is none.
pub open spec fn override_index(overrides: Seq<(String, Settings)>, path: Seq<char>) -> int
    decreases overrides.len(),
{
    if overrides.len() == 0 {
        0
    } else if overrides[0].0@ == path {
        0
    } else {
        1 + override_index(overrides.drop_first(), path)
    }
}

/// The settings a file is compressed with: its own override where one is
/// given for its path, else the shared settings.
pub open spec fn settings_of(overrides: Seq<(String, Settings)>, path: Seq<char>, base: Settings) -> Settings {
    let i = override_index(overrides, path);
    if i < overrides.len() { overrides[i].1 } else { base }
}

proof fn lemma_override_index(overrides: Seq<(String, Settings)>, path: Seq<char>)
    ensures
        0 <= override_index(overrides, path) <= overrides.len(),
        override_index(overrides, path) < overrides.len() ==> overrides[override_index(overrides, path)].0@ == path,
        forall|k: int| 0 <= k < override_index(overrides, path) ==> (#[trigger] overrides[k]).0@ != path,
    decreases overrides.len(),
{
    if overrides.len() > 0 && overrides[0].0@ != path {
        lemma_override_index(overrides.drop_first(), path);
        assert forall|k: int| 0 <= k < override_index(overrides, path) implies (#[trigger] overrides[k]).0@ != path by {
            if k > 0 {
                assert(overrides[k] == overrides.drop_first()[k - 1]);
            }
        }
    }
}

/// The settings a file is compressed with.
pub fn settings_for(path: &str, overrides: &Vec<(String, Settings)>, base: &Settings) -> (r: Settings)
    ensures
        r == settings_of(overrides@, path@, *base),
{
    proof {
        lemma_override_index(overrides@, path@);
    }
    let mut i: usize = 0;
    while i < overrides.len()
        invariant
            i <= overrides@.len(),
            forall|k: int| 0 <= k < i ==> (#[trigger] overrides@[k]).0@ != path@,
            0 <= override_index(overrides@, path@) <= overrides@.len(),
            override_index(overrides@, path@) < overrides@.len() ==> overrides@[override_index(overrides@, path@)].0@ == path@,
            forall|k: int| 0 <= k < override_index(overrides@, path@) ==> (#[trigger] overrides@[k]).0@ != path@,
        decreases overrides@.len() - i,
    {
        if crate::text::text_eq(overrides[i].0.as_str(), path) {
            return overrides[i].1.dup();
        }
        i = i + 1;
    }
    base.dup()
}

} // verus!
