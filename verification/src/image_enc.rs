//! Image planning: output format, encoder quality for each format, and the rule
//! that an image is never handed back larger than it came in.
use vstd::prelude::*;
use vstd::string::*;
use crate::path::{ext_lower, extension, lower};
use crate::probe::MediaInfo;
use crate::settings::{resize_target, ImageFormat, ImageSettings, Quality, quality_rank};
use crate::text::text_eq;
use image::ImageEncoder;

verus! {

/// The output extension for an image: the requested format, or for `Same` the
/// source's own (PNG, WebP, AVIF) with everything else (HEIC, TIFF, BMP, JPEG)
/// becoming `jpg`.
pub open spec fn image_ext(info: MediaInfo, s: ImageSettings) -> Seq<char> {
    match s.format {
        ImageFormat::Jpg => "jpg"@,
        ImageFormat::Png => "png"@,
        ImageFormat::Webp => "webp"@,
        ImageFormat::Avif => "avif"@,
        ImageFormat::Same => {
            let e = ext_lower(info.path@);
            if e == "png"@ {
                "png"@
            } else if e == "webp"@ {
                "webp"@
            } else if e == "avif"@ {
                "avif"@
            } else {
                "jpg"@
            }
        },
    }
}

/// The output extension for an image.
pub fn output_ext(info: &MediaInfo, s: &ImageSettings) -> (r: &'static str)
    ensures
        r@ == image_ext(*info, *s),
{
    match s.format {
        ImageFormat::Jpg => "jpg",
        ImageFormat::Png => "png",
        ImageFormat::Webp => "webp",
        ImageFormat::Avif => "avif",
        ImageFormat::Same => {
            let e = crate::path::path_ext_lower(info.path.as_str());
            if text_eq(e.as_str(), "png") {
                "png"
            } else if text_eq(e.as_str(), "webp") {
                "webp"
            } else if text_eq(e.as_str(), "avif") {
                "avif"
            } else {
                "jpg"
            }
        },
    }
}

/// The output format of an image: an explicit format gives its own extension;
/// with `Same`, a PNG, WebP or AVIF source (extension compared without case)
/// keeps its own format, and every other source becomes a JPEG.
pub proof fn law_image_output_format(info: MediaInfo, s: ImageSettings)
    ensures
        s.format is Jpg ==> image_ext(info, s) == "jpg"@,
        s.format is Png ==> image_ext(info, s) == "png"@,
        s.format is Webp ==> image_ext(info, s) == "webp"@,
        s.format is Avif ==> image_ext(info, s) == "avif"@,
        s.format is Same ==> ({
            let e = ext_lower(info.path@);
            &&& (e == "png"@ || e == "webp"@ || e == "avif"@) ==> image_ext(info, s) == e
            &&& !(e == "png"@ || e == "webp"@ || e == "avif"@) ==> image_ext(info, s) == "jpg"@
        }),
{
}

/// JPEG quality (0..100) for a preset.
pub open spec fn jpeg_quality(q: Quality) -> u8 {
    seq![92u8, 85, 78, 70, 60][quality_rank(q)]
}

/// WebP quality (0..100) for a preset.
pub open spec fn webp_quality(q: Quality) -> u8 {
    seq![92u8, 85, 78, 70, 60][quality_rank(q)]
}

/// AVIF quality (0..100) for a preset.
pub open spec fn avif_quality(q: Quality) -> u8 {
    seq![85u8, 75, 65, 55, 45][quality_rank(q)]
}

/// JPEG quality for a preset.
pub fn q_jpeg(q: Quality) -> (r: u8)
    ensures
        r == jpeg_quality(q),
{
    match q {
        Quality::Highest => 92,
        Quality::High => 85,
        Quality::Good => 78,
        Quality::Medium => 70,
        Quality::Acceptable => 60,
    }
}

/// WebP quality for a preset.
pub fn q_webp(q: Quality) -> (r: u8)
    ensures
        r == webp_quality(q),
{
    match q {
        Quality::Highest => 92,
        Quality::High => 85,
        Quality::Good => 78,
        Quality::Medium => 70,
        Quality::Acceptable => 60,
    }
}

/// AVIF quality for a preset.
pub fn q_avif(q: Quality) -> (r: u8)
    ensures
        r == avif_quality(q),
{
    match q {
        Quality::Highest => 85,
        Quality::High => 75,
        Quality::Good => 65,
        Quality::Medium => 55,
        Quality::Acceptable => 45,
    }
}

/// Better presets never get a lower encoder quality.
pub proof fn law_image_quality_monotone(a: Quality, b: Quality)
    requires
        quality_rank(a) <= quality_rank(b),
    ensures
        jpeg_quality(a) >= jpeg_quality(b),
        webp_quality(a) >= webp_quality(b),
        avif_quality(a) >= avif_quality(b),
{
}

/// The oxipng preset level: 3 for the highest quality, 2 otherwise.
pub open spec fn png_level(q: Quality) -> u8 {
    if q == Quality::Highest { 3 } else { 2 }
}

/// The oxipng preset level for a preset.
pub fn png_preset(q: Quality) -> (r: u8)
    ensures
        r == png_level(q),
{
    if q == Quality::Highest { 3 } else { 2 }
}

/// The AVIF encoder speed: 6 for the highest quality, 8 otherwise.
pub open spec fn avif_speed_of(q: Quality) -> u8 {
    if q == Quality::Highest { 6 } else { 8 }
}

/// The AVIF encoder speed for a preset.
pub fn avif_speed(q: Quality) -> (r: u8)
    ensures
        r == avif_speed_of(q),
{
    if q == Quality::Highest { 6 } else { 8 }
}

/// Whether the source already has the output format (`jpeg` counts as `jpg`).
pub open spec fn same_format(path: Seq<char>, ext: Seq<char>) -> bool {
    match extension(path) {
        Some(e) => lower(e) == ext || (ext == "jpg"@ && lower(e) == "jpeg"@),
        None => false,
    }
}

/// Whether to keep the original bytes instead of the encoded ones: the encoding
/// is not smaller than the original file.
pub open spec fn keeps_original(info: MediaInfo, encoded_len: nat) -> bool {
    encoded_len >= info.size
}

/// The length of what is written for an encoding of `encoded_len` bytes: the
/// encoding, or the original's bytes where the encoding is not smaller.
pub open spec fn written_len(info: MediaInfo, encoded_len: nat) -> nat {
    if keeps_original(info, encoded_len) { info.size as nat } else { encoded_len }
}

/// Decides whether to keep the original bytes for an encoded image of
/// `encoded_len` bytes.
pub fn keep_original(info: &MediaInfo, encoded_len: usize) -> (r: bool)
    ensures
        r == keeps_original(*info, encoded_len as nat),
{
    encoded_len as u64 >= info.size
}

/// An image is never handed back larger than it came in, whatever its output
/// format or size: what is written is either a smaller encoding or the original.
pub proof fn law_never_larger(info: MediaInfo, encoded_len: nat)
    ensures
        written_len(info, encoded_len) <= info.size,
        !keeps_original(info, encoded_len) ==> written_len(info, encoded_len) == encoded_len,
{
}

/// One pixel channel blended over white with alpha `a`:
/// `round(c * a/255 + 255 * (1 - a/255))`.
pub open spec fn over_white(c: int, a: int) -> int {
    round_div_255(c * a + 255 * (255 - a))
}

/// `x / 255` rounded to the nearest integer (for `x >= 0`; ties cannot occur).
pub open spec fn round_div_255(x: int) -> int {
    (2 * x + 255) / 510
}

/// Flattens an RGBA pixel buffer onto a white background, giving an RGB buffer.
pub fn flatten_on_white(rgba: &Vec<u8>) -> (rgb: Vec<u8>)
    requires
        rgba@.len() % 4 == 0,
    ensures
        rgb@.len() == rgba@.len() / 4 * 3,
        forall|p: int, c: int|
            0 <= p < rgba@.len() / 4 && 0 <= c < 3 ==> #[trigger] rgb@[3 * p + c] == over_white(
                rgba@[4 * p + c] as int,
                rgba@[4 * p + 3] as int,
            ),
{
    let total = rgba.len();
    let n = total / 4;
    let mut out: Vec<u8> = Vec::new();
    let mut p: usize = 0;
    while p < n
        invariant
            n == rgba@.len() / 4,
            total == rgba@.len(),
            4 * n <= total,
            rgba@.len() % 4 == 0,
            p <= n,
            out@.len() == 3 * p,
            3 * p <= 3 * n,
            forall|q: int, c: int|
                0 <= q < p && 0 <= c < 3 ==> #[trigger] out@[3 * q + c] == over_white(
                    rgba@[4 * q + c] as int,
                    rgba@[4 * q + 3] as int,
                ),
        decreases n - p,
    {
        let a = rgba[4 * p + 3] as u32;
        let mut c: usize = 0;
        while c < 3
            invariant
                n == rgba@.len() / 4,
                total == rgba@.len(),
                4 * n <= total,
            total == rgba@.len(),
            4 * n <= total,
                rgba@.len() % 4 == 0,
                p < n,
                c <= 3,
                a == rgba@[4 * p + 3],
                out@.len() == 3 * p + c,
                forall|q: int, c2: int|
                    0 <= q < p && 0 <= c2 < 3 ==> #[trigger] out@[3 * q + c2] == over_white(
                        rgba@[4 * q + c2] as int,
                        rgba@[4 * q + 3] as int,
                    ),
                forall|c2: int|
                    0 <= c2 < c ==> #[trigger] out@[3 * p + c2] == over_white(
                        rgba@[4 * p + c2] as int,
                        a as int,
                    ),
            decreases 3 - c,
        {
            let v = rgba[4 * p + c] as u32;
            proof {
                assert(v * a <= 255 * 255) by (nonlinear_arith)
                    requires
                        v <= 255,
                        a <= 255,
                ;
                assert(0 <= (2 * (v * a + 255 * (255 - a)) + 255) / 510 <= 255) by (nonlinear_arith)
                    requires
                        v <= 255,
                        a <= 255,
                        v * a <= 255 * 255,
                        v * a >= 0,
                ;
            }
            let x = v * a + 255 * (255 - a);
            let r = ((2 * x + 255) / 510) as u8;
            out.push(r);
            c = c + 1;
        }
        p = p + 1;
    }
    out
}

/// Whether any pixel of an RGBA buffer is not fully opaque.
pub open spec fn has_transparency(rgba: Seq<u8>) -> bool {
    exists|p: int| 0 <= p < rgba.len() / 4 && #[trigger] rgba[4 * p + 3] != 255
}

/// Whether any pixel of an RGBA buffer is not fully opaque.
pub fn any_transparent(rgba: &Vec<u8>) -> (r: bool)
    requires
        rgba@.len() % 4 == 0,
    ensures
        r == has_transparency(rgba@),
{
    let total = rgba.len();
    let n = total / 4;
    let mut p: usize = 0;
    while p < n
        invariant
            n == rgba@.len() / 4,
            total == rgba@.len(),
            4 * n <= total,
            p <= n,
            forall|q: int| 0 <= q < p ==> #[trigger] rgba@[4 * q + 3] == 255,
        decreases n - p,
    {
        if rgba[4 * p + 3] != 255 {
            return true;
        }
        p = p + 1;
    }
    false
}

/// Drops the alpha channel of an RGBA buffer.
pub fn drop_alpha(rgba: &Vec<u8>) -> (rgb: Vec<u8>)
    requires
        rgba@.len() % 4 == 0,
    ensures
        rgb@.len() == rgba@.len() / 4 * 3,
        forall|p: int, c: int|
            0 <= p < rgba@.len() / 4 && 0 <= c < 3 ==> #[trigger] rgb@[3 * p + c] == rgba@[4 * p + c],
{
    let total = rgba.len();
    let n = total / 4;
    let mut out: Vec<u8> = Vec::new();
    let mut p: usize = 0;
    while p < n
        invariant
            n == rgba@.len() / 4,
            total == rgba@.len(),
            4 * n <= total,
            p <= n,
            out@.len() == 3 * p,
            3 * p <= 3 * n,
            forall|q: int, c: int|
                0 <= q < p && 0 <= c < 3 ==> #[trigger] out@[3 * q + c] == rgba@[4 * q + c],
        decreases n - p,
    {
        out.push(rgba[4 * p]);
        out.push(rgba[4 * p + 1]);
        out.push(rgba[4 * p + 2]);
        p = p + 1;
    }
    out
}

/// The RGB channels of an RGBA buffer, pixel by pixel.
pub open spec fn rgb_of(rgba: Seq<u8>) -> Seq<u8> {
    Seq::new(rgba.len() / 4 * 3, |i: int| rgba[4 * (i / 3) + i % 3])
}

/// `rgb` is the RGBA buffer `rgba` blended over white.
pub open spec fn flattens(rgba: Seq<u8>, rgb: Seq<u8>) -> bool {
    &&& rgb.len() == rgba.len() / 4 * 3
    &&& forall|p: int, c: int|
        0 <= p < rgba.len() / 4 && 0 <= c < 3 ==> #[trigger] rgb[3 * p + c] == over_white(
            rgba[4 * p + c] as int,
            rgba[4 * p + 3] as int,
        )
}

proof fn lemma_rgb_of(rgba: Seq<u8>, rgb: Seq<u8>)
    requires
        rgba.len() % 4 == 0,
        rgb.len() == rgba.len() / 4 * 3,
        forall|p: int, c: int|
            0 <= p < rgba.len() / 4 && 0 <= c < 3 ==> #[trigger] rgb[3 * p + c] == rgba[4 * p + c],
    ensures
        rgb == rgb_of(rgba),
{
    let n = rgba.len() / 4;
    assert forall|i: int| 0 <= i < rgb.len() implies rgb[i] == rgb_of(rgba)[i] by {
        let p = i / 3;
        let c = i % 3;
        assert(i == 3 * p + c && 0 <= c < 3 && 0 <= p < n) by (nonlinear_arith)
            requires
                0 <= i < n * 3,
                p == i / 3,
                c == i % 3,
        ;
        assert(rgb[3 * p + c] == rgba[4 * p + c]);
    }
    assert(rgb =~= rgb_of(rgba));
}

/// How the decoder laid out the source pixels: 8-bit RGB, 8-bit RGBA, or some
/// other layout, with or without an alpha channel.
#[derive(Debug, Clone, Copy, PartialEq, Eq, Structural)]
pub enum SourceColor {
    Rgb8,
    Rgba8,
    OtherOpaque,
    OtherAlpha,
}

/// Whether the source layout carries an alpha channel.
pub open spec fn color_has_alpha(c: SourceColor) -> bool {
    c == SourceColor::Rgba8 || c == SourceColor::OtherAlpha
}

/// A decoded image: `width`×`height` pixels as RGBA bytes, row by row.
pub struct Raster {
    pub width: u32,
    pub height: u32,
    pub rgba: Vec<u8>,
    pub color: SourceColor,
}

impl Raster {
    /// The pixel buffer holds exactly four bytes per pixel.
    pub open spec fn wf(&self) -> bool {
        self.rgba@.len() == self.width as int * self.height as int * 4
    }
}

/// What the `image` crate decodes from a file's bytes (format guessed from
/// the content): width, height, RGBA pixels and source layout; `None` where
/// it cannot decode them.
pub uninterp spec fn decoded_image(bytes: Seq<u8>) -> Option<(u32, u32, Seq<u8>, SourceColor)>;

/// `image::load_from_memory`, converted to 8-bit RGBA with `to_rgba8`.
/// Trusted: the outcome is named, as a function of the bytes; the pixel
/// buffer holds four bytes per pixel, as `to_rgba8` builds it; the error text
/// is the crate's and is not stated.
#[verifier::external_body]
fn decode_bytes(bytes: &Vec<u8>) -> (r: Result<Raster, String>)
    ensures
        match r {
            Ok(img) => img.wf() && decoded_image(bytes@) == Some((img.width, img.height, img.rgba@, img.color)),
            Err(_) => decoded_image(bytes@) is None,
        },
{
    let img = image::load_from_memory(bytes.as_slice()).map_err(|e| e.to_string())?;
    let color = match &img {
        image::DynamicImage::ImageRgb8(_) => SourceColor::Rgb8,
        image::DynamicImage::ImageRgba8(_) => SourceColor::Rgba8,
        other => if other.color().has_alpha() { SourceColor::OtherAlpha } else { SourceColor::OtherOpaque },
    };
    let rgba = img.to_rgba8();
    Ok(Raster { width: rgba.width(), height: rgba.height(), rgba: rgba.into_raw(), color })
}

/// Decodes an image file's bytes into RGBA pixels.
pub fn decode_image(bytes: &Vec<u8>) -> (r: Result<Raster, String>)
    ensures
        match r {
            Ok(img) => img.wf() && decoded_image(bytes@) == Some((img.width, img.height, img.rgba@, img.color)),
            Err(_) => decoded_image(bytes@) is None,
        },
{
    decode_bytes(bytes)
}

/// `image::load_from_memory` followed by `DynamicImage::resize_exact` with
/// the Lanczos3 filter (at the source's own sample depth), converted to 8-bit
/// RGBA. Trusted for what holds of every outcome: decoding fails exactly where
/// `decoded_image` says so; otherwise the result has the requested size, four
/// bytes a pixel, and the source's layout (`resize_exact` keeps it). The pixel
/// values are not stated: the filter computes with `f32::sin`, whose precision
/// std leaves to the platform.
#[verifier::external_body]
fn decode_resized(bytes: &Vec<u8>, nw: u32, nh: u32) -> (r: Result<Raster, String>)
    requires
        nw as int * nh as int * 4 <= usize::MAX,
    ensures
        match r {
            Ok(img) => img.wf() && img.width == nw && img.height == nh && (match decoded_image(bytes@) {
                Some(d) => img.color == d.3,
                None => false,
            }),
            Err(_) => decoded_image(bytes@) is None,
        },
{
    let img = image::load_from_memory(bytes.as_slice()).map_err(|e| e.to_string())?;
    let img = img.resize_exact(nw, nh, image::imageops::FilterType::Lanczos3);
    let color = match &img {
        image::DynamicImage::ImageRgb8(_) => SourceColor::Rgb8,
        image::DynamicImage::ImageRgba8(_) => SourceColor::Rgba8,
        other => if other.color().has_alpha() { SourceColor::OtherAlpha } else { SourceColor::OtherOpaque },
    };
    let rgba = img.to_rgba8();
    Ok(Raster { width: rgba.width(), height: rgba.height(), rgba: rgba.into_raw(), color })
}

/// What the `image` crate's PNG encoder, with fast compression and adaptive
/// filtering, writes for 8-bit RGB (or RGBA) pixels; `None` where it fails.
pub uninterp spec fn png_fast_adaptive(pixels: Seq<u8>, w: u32, h: u32, alpha: bool) -> Option<Seq<u8>>;

/// `image::codecs::png::PngEncoder::new_with_quality(.., Fast, Adaptive).write_image`
/// on 8-bit RGB or RGBA pixels. Trusted: the outcome is named, as a function
/// of the pixels, the dimensions and the layout; the error text is the
/// crate's and is not stated.
#[verifier::external_body]
fn png_encode(pixels: &Vec<u8>, w: u32, h: u32, alpha: bool) -> (r: Result<Vec<u8>, String>)
    requires
        pixels@.len() == w as int * h as int * (if alpha { 4int } else { 3int }),
    ensures
        match r {
            Ok(b) => png_fast_adaptive(pixels@, w, h, alpha) == Some(b@),
            Err(_) => png_fast_adaptive(pixels@, w, h, alpha) is None,
        },
{
    let mut out: Vec<u8> = Vec::new();
    let enc = image::codecs::png::PngEncoder::new_with_quality(
        &mut out,
        image::codecs::png::CompressionType::Fast,
        image::codecs::png::FilterType::Adaptive,
    );
    let ct = if alpha { image::ExtendedColorType::Rgba8 } else { image::ExtendedColorType::Rgb8 };
    match enc.write_image(pixels.as_slice(), w, h, ct) {
        Ok(()) => Ok(out),
        Err(e) => Err(e.to_string()),
    }
}

/// What `oxipng::optimize_from_memory` makes of a PNG file with the options of
/// preset `level`, chunks stripped safely (or kept), and alpha optimisation
/// switched on or off; `None` where it fails.
pub uninterp spec fn oxipng_optimized(png: Seq<u8>, level: u8, strip_safe: bool, optimize_alpha: bool) -> Option<Seq<u8>>;

/// `oxipng::optimize_from_memory` with `Options::from_preset(level)`.
/// Trusted: the outcome is named, as a function of the input and the options;
/// the error text is the crate's and is not stated.
#[verifier::external_body]
fn optimize_png(png: &Vec<u8>, level: u8, strip_safe: bool, optimize_alpha: bool) -> (r: Result<Vec<u8>, String>)
    ensures
        match r {
            Ok(b) => oxipng_optimized(png@, level, strip_safe, optimize_alpha) == Some(b@),
            Err(_) => oxipng_optimized(png@, level, strip_safe, optimize_alpha) is None,
        },
{
    let mut opts = oxipng::Options::from_preset(level);
    opts.strip = if strip_safe { oxipng::StripChunks::Safe } else { oxipng::StripChunks::None };
    opts.optimize_alpha = optimize_alpha;
    oxipng::optimize_from_memory(png.as_slice(), &opts).map_err(|e| e.to_string())
}

/// Whether the PNG is written with an alpha channel: the source has one and
/// some pixel is not fully opaque.
pub open spec fn png_alpha(rgba: Seq<u8>, color: SourceColor) -> bool {
    color_has_alpha(color) && has_transparency(rgba)
}

/// The PNG bytes for an image: encoded as 8-bit RGB, or RGBA where
/// transparency is used, then optimised losslessly by oxipng at the preset
/// for the quality, stripping metadata unless it is kept.
pub open spec fn png_bytes(rgba: Seq<u8>, w: u32, h: u32, color: SourceColor, s: ImageSettings) -> Option<Seq<u8>> {
    let alpha = png_alpha(rgba, color);
    let px = if alpha { rgba } else { rgb_of(rgba) };
    match png_fast_adaptive(px, w, h, alpha) {
        None => None,
        Some(b) => oxipng_optimized(b, png_level(s.quality), !s.keep_metadata, true),
    }
}

/// Encodes an RGBA image as an optimised PNG.
pub fn encode_png(rgba: &Vec<u8>, w: u32, h: u32, color: SourceColor, s: &ImageSettings) -> (r: Result<Vec<u8>, String>)
    requires
        rgba@.len() == w as int * h as int * 4,
    ensures
        match r {
            Ok(b) => png_bytes(rgba@, w, h, color, *s) == Some(b@),
            Err(_) => png_bytes(rgba@, w, h, color, *s) is None,
        },
{
    let has_alpha_channel = color == SourceColor::Rgba8 || color == SourceColor::OtherAlpha;
    assert(rgba@.len() % 4 == 0) by (nonlinear_arith)
        requires
            rgba@.len() == w as int * h as int * 4,
    ;
    let alpha = has_alpha_channel && any_transparent(rgba);
    let first = if alpha {
        png_encode(rgba, w, h, true)
    } else {
        let rgb = drop_alpha(rgba);
        proof {
            lemma_rgb_of(rgba@, rgb@);
            assert(rgb@.len() == w as int * h as int * 3) by (nonlinear_arith)
                requires
                    rgb@.len() == rgba@.len() / 4 * 3,
                    rgba@.len() == w as int * h as int * 4,
            ;
        }
        png_encode(&rgb, w, h, false)
    };
    match first {
        Ok(b) => optimize_png(&b, png_preset(s.quality), !s.keep_metadata, true),
        Err(e) => Err(e),
    }
}

/// The encoder work for an image, with its pixels ready. PNG is encoded here;
/// JPEG, WebP and AVIF are encoded by the caller with the given pixels and
/// integer quality (mozjpeg, libwebp and ravif take it as a float).
pub enum Encoding {
    /// mozjpeg, progressive with optimised scans, from RGB blended over white.
    Jpeg { rgb: Vec<u8>, quality: u8 },
    /// The finished PNG file.
    Png { bytes: Vec<u8> },
    /// libwebp, lossy, from RGB or RGBA as the source was laid out.
    Webp { pixels: Vec<u8>, alpha: bool, quality: u8 },
    /// ravif, with the same quality for colour and alpha.
    Avif { rgba: Vec<u8>, quality: u8, speed: u8 },
}

/// An image ready for its encoder: final dimensions, output extension, work.
pub struct Prepared {
    pub width: u32,
    pub height: u32,
    pub ext: &'static str,
    pub encoding: Encoding,
}

/// Whether preparing an image fails: its PNG encoding fails, or WebP is asked
/// of a layout that the WebP encoder does not take.
pub open spec fn prepare_fails(rgba: Seq<u8>, w: u32, h: u32, color: SourceColor, s: ImageSettings, ext: Seq<char>) -> bool {
    ||| ext == "png"@ && png_bytes(rgba, w, h, color, s) is None
    ||| ext == "webp"@ && (color == SourceColor::OtherOpaque || color == SourceColor::OtherAlpha)
}

/// Whether `e` is the encoder work for the RGBA pixels `rgba` with output `ext`.
pub open spec fn encoding_for(e: Encoding, rgba: Seq<u8>, w: u32, h: u32, color: SourceColor, s: ImageSettings, ext: Seq<char>) -> bool {
    if ext == "jpg"@ {
        e matches Encoding::Jpeg { rgb, quality } && flattens(rgba, rgb@) && quality == jpeg_quality(s.quality)
    } else if ext == "png"@ {
        e matches Encoding::Png { bytes } && png_bytes(rgba, w, h, color, s) == Some(bytes@)
    } else if ext == "webp"@ {
        &&& e matches Encoding::Webp { pixels, alpha, quality }
        &&& quality == webp_quality(s.quality)
        &&& (color == SourceColor::Rgb8 ==> !alpha && pixels@ == rgb_of(rgba))
        &&& (color == SourceColor::Rgba8 ==> alpha && pixels@ == rgba)
    } else {
        e matches Encoding::Avif { rgba: px, quality, speed } && px@ == rgba && quality == avif_quality(s.quality)
            && speed == avif_speed_of(s.quality)
    }
}

/// Prepares already-resized RGBA pixels of `w`×`h` for the output format that
/// the settings choose for `info`.
pub fn plan_encoding(rgba: Vec<u8>, w: u32, h: u32, color: SourceColor, info: &MediaInfo, s: &ImageSettings) -> (r: Result<Prepared, String>)
    requires
        rgba@.len() == w as int * h as int * 4,
    ensures
        r is Err <==> prepare_fails(rgba@, w, h, color, *s, image_ext(*info, *s)),
        r matches Ok(p) ==> {
            &&& p.width == w
            &&& p.height == h
            &&& p.ext@ == image_ext(*info, *s)
            &&& encoding_for(p.encoding, rgba@, w, h, color, *s, image_ext(*info, *s))
        },
        r matches Err(e) ==> (image_ext(*info, *s) == "webp"@ && (color == SourceColor::OtherOpaque || color
            == SourceColor::OtherAlpha) ==> e@ == "Unimplemented"@),
{
    assert(rgba@.len() % 4 == 0) by (nonlinear_arith)
        requires
            rgba@.len() == w as int * h as int * 4,
    ;
    let ext = output_ext(info, s);
    proof {
        reveal_strlit("jpg");
        reveal_strlit("png");
        reveal_strlit("webp");
        reveal_strlit("avif");
        assert("jpg"@ != "png"@ && "jpg"@ != "webp"@ && "png"@ != "webp"@ && "avif"@ != "png"@ && "avif"@ != "webp"@
            && "avif"@ != "jpg"@) by {
            assert("jpg"@[0] != "png"@[0]);
            assert("jpg"@.len() != "webp"@.len());
            assert("png"@.len() != "webp"@.len());
            assert("avif"@.len() != "png"@.len());
            assert("avif"@[0] != "webp"@[0]);
            assert("avif"@.len() != "jpg"@.len());
        }
        assert(ext@ == "jpg"@ || ext@ == "png"@ || ext@ == "webp"@ || ext@ == "avif"@);
    }
    let encoding = if text_eq(ext, "jpg") {
        Encoding::Jpeg { rgb: flatten_on_white(&rgba), quality: q_jpeg(s.quality) }
    } else if text_eq(ext, "png") {
        match encode_png(&rgba, w, h, color, s) {
            Ok(bytes) => Encoding::Png { bytes },
            Err(e) => return Err(e),
        }
    } else if text_eq(ext, "webp") {
        match color {
            SourceColor::Rgb8 => {
                let rgb = drop_alpha(&rgba);
                proof {
                    lemma_rgb_of(rgba@, rgb@);
                }
                Encoding::Webp { pixels: rgb, alpha: false, quality: q_webp(s.quality) }
            },
            SourceColor::Rgba8 => Encoding::Webp { pixels: rgba, alpha: true, quality: q_webp(s.quality) },
            _ => return Err(String::from_str("Unimplemented")),
        }
    } else {
        Encoding::Avif { rgba, quality: q_avif(s.quality), speed: avif_speed(s.quality) }
    };
    Ok(Prepared { width: w, height: h, ext, encoding })
}

/// `r` is what preparing the pixels `px` of `w`×`h` gives: an error exactly
/// where preparing fails, else the prepared encoding.
pub open spec fn planned(r: Result<Prepared, String>, px: Seq<u8>, w: u32, h: u32, color: SourceColor, info: MediaInfo, s: ImageSettings) -> bool {
    let ext = image_ext(info, s);
    &&& r is Err <==> prepare_fails(px, w, h, color, s, ext)
    &&& r matches Ok(p) ==> {
        &&& p.width == w
        &&& p.height == h
        &&& p.ext@ == ext
        &&& encoding_for(p.encoding, px, w, h, color, s, ext)
    }
}

/// Whether the resized image would not fit in memory at four bytes a pixel.
pub open spec fn resize_overflows(w: u32, h: u32, s: ImageSettings) -> bool {
    resize_target(s.resize, w as int, h as int) matches Some(t) && t.0 * t.1 * 4 > usize::MAX
}

/// Decodes an image file's bytes, resizes it as the settings ask (Lanczos3, at
/// the source's sample depth), and prepares it for its output format. Bytes
/// that do not decode, and a resize that cannot be held in memory, fail.
pub fn prepare_image(bytes: &Vec<u8>, info: &MediaInfo, s: &ImageSettings) -> (r: Result<Prepared, String>)
    ensures
        match decoded_image(bytes@) {
            None => r is Err,
            Some(d) => match resize_target(s.resize, d.0 as int, d.1 as int) {
                None => planned(r, d.2, d.0, d.1, d.3, *info, *s),
                Some(t) => if resize_overflows(d.0, d.1, *s) {
                    r is Err
                } else {
                    exists|px: Seq<u8>|
                        #![trigger planned(r, px, t.0 as u32, t.1 as u32, d.3, *info, *s)]
                        px.len() == t.0 * t.1 * 4 && planned(r, px, t.0 as u32, t.1 as u32, d.3, *info, *s)
                },
            },
        },
{
    let img = match decode_image(bytes) {
        Ok(i) => i,
        Err(e) => return Err(e),
    };
    let ghost d = (img.width, img.height, img.rgba@, img.color);
    assert(decoded_image(bytes@) == Some(d));
    let Raster { width, height, rgba, color } = img;
    assert(rgba@ == d.2);
    match s.resize.target(width, height) {
        Some((nw, nh)) => {
            assert(nw as int * nh as int * 4 <= 0xffff_ffff * 0xffff_ffff * 4) by (nonlinear_arith)
                requires
                    nw <= 0xffff_ffff,
                    nh <= 0xffff_ffff,
            ;
            let need: u128 = nw as u128 * nh as u128 * 4;
            if need > usize::MAX as u128 {
                return Err(String::from_str("image too large to resize"));
            }
            assert(!resize_overflows(width, height, *s));
            let small = match decode_resized(bytes, nw, nh) {
                Ok(x) => x,
                Err(e) => return Err(e),
            };
            assert(small.color == color);
            let ghost px = small.rgba@;
            let r = plan_encoding(small.rgba, nw, nh, small.color, info, s);
            assert(planned(r, px, nw, nh, small.color, *info, *s));
            assert(px.len() == nw * nh * 4);
            let ghost t = resize_target(s.resize, width as int, height as int)->0;
            assert(t.0 as u32 == nw && t.1 as u32 == nh);
            assert(planned(r, px, t.0 as u32, t.1 as u32, d.3, *info, *s));
            r
        },
        None => plan_encoding(rgba, width, height, color, info, s),
    }
}

} // verus!
