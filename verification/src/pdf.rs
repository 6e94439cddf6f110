//! Ghostscript argument planning for PDF compression.
use vstd::prelude::*;
use vstd::string::*;
use crate::settings::{quality_rank, Quality};
use crate::text::{append_args, cat, cat_u64, decimal, push_arg, push_lit, texts};

verus! {

/// The Ghostscript `PDFSETTINGS` preset for a quality.
pub open spec fn preset_name(q: Quality) -> Seq<char> {
    match q {
        Quality::Highest => "/prepress"@,
        Quality::High => "/printer"@,
        Quality::Good => "/ebook"@,
        Quality::Medium => "/ebook"@,
        Quality::Acceptable => "/screen"@,
    }
}

/// The Ghostscript `PDFSETTINGS` preset for a quality.
pub fn preset(q: Quality) -> (r: &'static str)
    ensures
        r@ == preset_name(q),
{
    match q {
        Quality::Highest => "/prepress",
        Quality::High => "/printer",
        Quality::Good => "/ebook",
        Quality::Medium => "/ebook",
        Quality::Acceptable => "/screen",
    }
}

/// How far a Ghostscript preset goes in shrinking a PDF: `/prepress` least,
/// then `/printer`, `/ebook`, and `/screen` most.
pub open spec fn preset_strength(p: Seq<char>) -> int {
    if p == "/prepress"@ {
        0
    } else if p == "/printer"@ {
        1
    } else if p == "/ebook"@ {
        2
    } else {
        3
    }
}

/// The presets follow the quality ladder: Highest uses `/prepress`, High
/// `/printer`, Good and Medium `/ebook`, Acceptable `/screen`; so a better
/// quality never gets a more aggressive preset. The third Ghostscript argument
/// names the preset.
pub proof fn law_preset_follows_quality(a: Quality, b: Quality, input: Seq<char>, out: Seq<char>)
    ensures
        quality_rank(a) == 0 ==> preset_name(a) == "/prepress"@,
        quality_rank(a) == 1 ==> preset_name(a) == "/printer"@,
        quality_rank(a) == 2 || quality_rank(a) == 3 ==> preset_name(a) == "/ebook"@,
        quality_rank(a) == 4 ==> preset_name(a) == "/screen"@,
        quality_rank(a) <= quality_rank(b) ==> preset_strength(preset_name(a)) <= preset_strength(preset_name(b)),
        pdf_args(input, out, a)[2] == "-dPDFSETTINGS="@ + preset_name(a),
{
    assert("/printer"@ != "/prepress"@) by {
        reveal_strlit("/printer");
        reveal_strlit("/prepress");
        assert("/printer"@[2] == 'r' && "/prepress"@[2] == 'r' && "/printer"@[3] == 'i' && "/prepress"@[3] == 'e');
    }
    assert("/ebook"@ != "/prepress"@ && "/ebook"@ != "/printer"@) by {
        reveal_strlit("/ebook");
        reveal_strlit("/prepress");
        reveal_strlit("/printer");
        assert("/ebook"@.len() == 6 && "/prepress"@.len() == 9 && "/printer"@.len() == 8);
    }
    assert("/screen"@ != "/prepress"@ && "/screen"@ != "/printer"@ && "/screen"@ != "/ebook"@) by {
        reveal_strlit("/screen");
        reveal_strlit("/ebook");
        reveal_strlit("/prepress");
        reveal_strlit("/printer");
        assert("/screen"@.len() == 7 && "/ebook"@.len() == 6 && "/prepress"@.len() == 9 && "/printer"@.len() == 8);
    }
}

/// Extra image-downsampling resolution, so that Good and Medium differ meaningfully.
pub open spec fn image_dpi(q: Quality) -> Option<u32> {
    match q {
        Quality::Highest => None,
        Quality::High => Some(200),
        Quality::Good => Some(150),
        Quality::Medium => Some(110),
        Quality::Acceptable => Some(72),
    }
}

fn dpi(q: Quality) -> (r: Option<u32>)
    ensures
        r == image_dpi(q),
{
    match q {
        Quality::Highest => None,
        Quality::High => Some(200),
        Quality::Good => Some(150),
        Quality::Medium => Some(110),
        Quality::Acceptable => Some(72),
    }
}

/// The monochrome resolution that goes with a colour resolution.
pub open spec fn mono_dpi(d: int) -> int {
    if 2 * d >= 150 { 2 * d } else { 150 }
}

/// The downsampling arguments for a quality.
pub open spec fn downsample_args(q: Quality) -> Seq<Seq<char>> {
    match image_dpi(q) {
        None => Seq::empty(),
        Some(d) => seq![
            "-dDownsampleColorImages=true"@,
            "-dDownsampleGrayImages=true"@,
            "-dDownsampleMonoImages=true"@,
            "-dColorImageResolution="@ + decimal(d as nat),
            "-dGrayImageResolution="@ + decimal(d as nat),
            "-dMonoImageResolution="@ + decimal(mono_dpi(d as int) as nat),
        ],
    }
}

/// The Ghostscript arguments that rewrite `input` into `out` at quality `q`.
pub open spec fn pdf_args(input: Seq<char>, out: Seq<char>, q: Quality) -> Seq<Seq<char>> {
    seq![
        "-sDEVICE=pdfwrite"@,
        "-dCompatibilityLevel=1.5"@,
        "-dPDFSETTINGS="@ + preset_name(q),
        "-dNOPAUSE"@,
        "-dBATCH"@,
        "-dSAFER"@,
        "-dDetectDuplicateImages=true"@,
        "-dCompressFonts=true"@,
        "-dSubsetFonts=true"@,
    ] + downsample_args(q) + seq!["-sOutputFile="@ + out, input]
}

fn downsample(q: Quality) -> (r: Vec<String>)
    ensures
        texts(r@) == downsample_args(q),
{
    let mut a: Vec<String> = Vec::new();
    if let Some(d) = dpi(q) {
        push_lit(&mut a, "-dDownsampleColorImages=true");
        push_lit(&mut a, "-dDownsampleGrayImages=true");
        push_lit(&mut a, "-dDownsampleMonoImages=true");
        push_arg(&mut a, cat_u64("-dColorImageResolution=", d as u64));
        push_arg(&mut a, cat_u64("-dGrayImageResolution=", d as u64));
        let m: u32 = if d * 2 >= 150 { d * 2 } else { 150 };
        push_arg(&mut a, cat_u64("-dMonoImageResolution=", m as u64));
    }
    assert(texts(a@) =~= downsample_args(q));
    a
}

/// Builds the Ghostscript argument list for compressing `input` into `out`.
pub fn build_args(input: &str, out: &str, q: Quality) -> (r: Vec<String>)
    ensures
        texts(r@) == pdf_args(input@, out@, q),
{
    let mut a: Vec<String> = Vec::new();
    push_lit(&mut a, "-sDEVICE=pdfwrite");
    push_lit(&mut a, "-dCompatibilityLevel=1.5");
    push_arg(&mut a, cat("-dPDFSETTINGS=", preset(q)));
    push_lit(&mut a, "-dNOPAUSE");
    push_lit(&mut a, "-dBATCH");
    push_lit(&mut a, "-dSAFER");
    push_lit(&mut a, "-dDetectDuplicateImages=true");
    push_lit(&mut a, "-dCompressFonts=true");
    push_lit(&mut a, "-dSubsetFonts=true");
    let ghost head = texts(a@);
    append_args(&mut a, downsample(q));
    push_arg(&mut a, cat("-sOutputFile=", out));
    push_lit(&mut a, input);
    assert(texts(a@) =~= pdf_args(input@, out@, q));
    a
}

} // verus!
