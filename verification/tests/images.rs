use feather::image_enc::{
    any_transparent, avif_speed, drop_alpha, encode_png, flatten_on_white, keep_original, output_ext, plan_encoding,
    png_preset, prepare_image, q_avif, q_jpeg, q_webp, Encoding, SourceColor,
};
use feather::probe::MediaInfo;
use feather::settings::{ImageFormat, ImageSettings, Quality, Resize, ResizeMode};

fn settings(format: ImageFormat) -> ImageSettings {
    let mut s = ImageSettings::default();
    s.format = format;
    s
}

fn pixels(w: u32, h: u32) -> Vec<u8> {
    let mut v = Vec::new();
    for i in 0..(w * h) {
        v.extend_from_slice(&[(i * 40 % 256) as u8, (i * 90 % 256) as u8, (255 - i * 30 % 256) as u8, 255]);
    }
    v
}

#[test]
fn quality_numbers_per_format() {
    assert_eq!(q_jpeg(Quality::Highest), 92);
    assert_eq!(q_jpeg(Quality::Acceptable), 60);
    assert_eq!(q_webp(Quality::Good), 78);
    assert_eq!(q_avif(Quality::Highest), 85);
    assert_eq!(q_avif(Quality::Medium), 55);
    assert_eq!(png_preset(Quality::Highest), 3);
    assert_eq!(png_preset(Quality::Good), 2);
    assert_eq!(avif_speed(Quality::Highest), 6);
    assert_eq!(avif_speed(Quality::High), 8);
}

#[test]
fn output_extensions() {
    let png = MediaInfo::basic("/p/a.PNG", 1);
    let heic = MediaInfo::basic("/p/a.heic", 1);
    let jpeg = MediaInfo::basic("/p/a.jpeg", 1);
    assert_eq!(output_ext(&png, &settings(ImageFormat::Same)), "png");
    assert_eq!(output_ext(&heic, &settings(ImageFormat::Same)), "jpg");
    assert_eq!(output_ext(&jpeg, &settings(ImageFormat::Same)), "jpg");
    assert_eq!(output_ext(&png, &settings(ImageFormat::Avif)), "avif");
    assert_eq!(output_ext(&heic, &settings(ImageFormat::Webp)), "webp");
}

#[test]
fn flatten_blends_over_white() {
    let rgba = vec![255, 0, 0, 0, 10, 20, 30, 255, 100, 100, 100, 128];
    let rgb = flatten_on_white(&rgba);
    // 100 * 128/255 + 255 * 127/255 = 177.2... rounds to 177
    assert_eq!(rgb, vec![255, 255, 255, 10, 20, 30, 177, 177, 177]);
    assert_eq!(drop_alpha(&rgba), vec![255, 0, 0, 10, 20, 30, 100, 100, 100]);
    assert!(any_transparent(&rgba));
    assert!(!any_transparent(&vec![1, 2, 3, 255]));
}

#[test]
fn png_is_lossless_and_valid() {
    let rgba = pixels(4, 2);
    let s = settings(ImageFormat::Png);
    let bytes = encode_png(&rgba, 4, 2, SourceColor::Rgba8, &s).unwrap();
    assert_eq!(&bytes[..8], &[0x89, b'P', b'N', b'G', 0x0d, 0x0a, 0x1a, 0x0a]);
    let back = image::load_from_memory(&bytes).unwrap().to_rgba8();
    assert_eq!(back.dimensions(), (4, 2));
    assert_eq!(back.into_raw(), rgba);
}

#[test]
fn png_keeps_transparency_only_where_used() {
    let mut rgba = pixels(2, 2);
    rgba[3] = 0;
    let s = settings(ImageFormat::Png);
    let bytes = encode_png(&rgba, 2, 2, SourceColor::Rgba8, &s).unwrap();
    let img = image::load_from_memory(&bytes).unwrap();
    assert!(img.color().has_alpha());
    let mut opaque = rgba.clone();
    opaque[3] = 255;
    let bytes = encode_png(&opaque, 2, 2, SourceColor::Rgba8, &s).unwrap();
    let back = image::load_from_memory(&bytes).unwrap().to_rgba8().into_raw();
    assert_eq!(back, opaque);
}

#[test]
fn prepare_resizes_before_encoding() {
    let mut s = settings(ImageFormat::Png);
    s.resize = Resize { mode: ResizeMode::Width, value: 2 };
    let info = MediaInfo::basic("/p/a.png", 10_000);
    let img = image::RgbaImage::from_raw(4, 2, pixels(4, 2)).unwrap();
    let mut buf = std::io::Cursor::new(Vec::new());
    img.write_to(&mut buf, image::ImageFormat::Png).unwrap();
    let p = prepare_image(&buf.into_inner(), &info, &s).unwrap();
    assert_eq!((p.width, p.height), (2, 1));
    assert_eq!(p.ext, "png");
    match p.encoding {
        Encoding::Png { bytes } => {
            let back = image::load_from_memory(&bytes).unwrap();
            assert_eq!((back.width(), back.height()), (2, 1));
        }
        _ => panic!("expected a PNG"),
    }
}

#[test]
fn plans_for_lossy_formats() {
    let info = MediaInfo::basic("/p/a.png", 10_000);
    let rgba = vec![255, 0, 0, 0, 10, 20, 30, 255];
    let p = plan_encoding(rgba.clone(), 2, 1, SourceColor::Rgba8, &info, &settings(ImageFormat::Jpg)).unwrap();
    assert_eq!(p.ext, "jpg");
    match p.encoding {
        Encoding::Jpeg { rgb, quality } => {
            assert_eq!(rgb, vec![255, 255, 255, 10, 20, 30]);
            assert_eq!(quality, 78);
        }
        _ => panic!("expected JPEG"),
    }
    let w = plan_encoding(rgba.clone(), 2, 1, SourceColor::Rgb8, &info, &settings(ImageFormat::Webp)).unwrap();
    match w.encoding {
        Encoding::Webp { pixels, alpha, quality } => {
            assert_eq!(pixels, vec![255, 0, 0, 10, 20, 30]);
            assert!(!alpha);
            assert_eq!(quality, 78);
        }
        _ => panic!("expected WebP"),
    }
    let w2 = plan_encoding(rgba.clone(), 2, 1, SourceColor::Rgba8, &info, &settings(ImageFormat::Webp)).unwrap();
    assert!(matches!(w2.encoding, Encoding::Webp { alpha: true, .. }));
    let err = plan_encoding(rgba.clone(), 2, 1, SourceColor::OtherOpaque, &info, &settings(ImageFormat::Webp));
    assert_eq!(err.err(), Some("Unimplemented".to_string()));
    let mut best = settings(ImageFormat::Avif);
    best.quality = Quality::Highest;
    let a = plan_encoding(rgba.clone(), 2, 1, SourceColor::Rgba8, &info, &best).unwrap();
    match a.encoding {
        Encoding::Avif { rgba: px, quality, speed } => {
            assert_eq!(px, rgba);
            assert_eq!((quality, speed), (85, 6));
        }
        _ => panic!("expected AVIF"),
    }
}

#[test]
fn never_hand_back_a_larger_file() {
    let info = MediaInfo::basic("/p/a.png", 100);
    assert!(keep_original(&info, 150));
    assert!(keep_original(&info, 100));
    assert!(!keep_original(&info, 99));
    // Whatever the format: a larger WebP of a PNG keeps the PNG's bytes too.
    let jpeg = MediaInfo::basic("/p/a.JPEG", 10);
    assert!(keep_original(&jpeg, 10));
    assert!(!keep_original(&jpeg, 9));
}

#[test]
fn prepare_rejects_undecodable_bytes() {
    let info = MediaInfo::basic("/p/a.png", 1);
    assert!(prepare_image(&vec![1, 2, 3], &info, &settings(ImageFormat::Png)).is_err());
}
