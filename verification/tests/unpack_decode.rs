use feather::image_enc::{decode_image, SourceColor};
use feather::install::unzip_wanted;
use std::io::{Cursor, Write};

fn archive() -> Vec<u8> {
    let mut z = zip::ZipWriter::new(Cursor::new(Vec::new()));
    let o = zip::write::SimpleFileOptions::default();
    z.add_directory("bin/", o).unwrap();
    z.start_file("bin/ffmpeg.exe", o).unwrap();
    z.write_all(b"FFMPEG").unwrap();
    z.start_file("bin/ffplay.exe", o).unwrap();
    z.write_all(b"FFPLAY").unwrap();
    z.start_file("README.txt", o).unwrap();
    z.write_all(b"hello").unwrap();
    z.start_file("ffprobe", o).unwrap();
    z.write_all(b"FFPROBE").unwrap();
    z.finish().unwrap().into_inner()
}

#[test]
fn unzip_keeps_only_wanted_programs() {
    let wanted = vec!["ffmpeg".to_string(), "ffprobe".to_string()];
    let files = unzip_wanted(&archive(), &wanted).unwrap();
    assert_eq!(
        files,
        vec![("ffmpeg.exe".to_string(), b"FFMPEG".to_vec()), ("ffprobe".to_string(), b"FFPROBE".to_vec())]
    );
    let none = unzip_wanted(&archive(), &vec!["gs".to_string()]).unwrap();
    assert!(none.is_empty());
}

#[test]
fn unzip_rejects_what_is_not_an_archive() {
    assert!(unzip_wanted(&b"not a zip".to_vec(), &vec!["ffmpeg".to_string()]).is_err());
}

fn png_of(w: u32, h: u32, rgba: Vec<u8>) -> Vec<u8> {
    let img = image::RgbaImage::from_raw(w, h, rgba).unwrap();
    let mut out = Cursor::new(Vec::new());
    img.write_to(&mut out, image::ImageFormat::Png).unwrap();
    out.into_inner()
}

#[test]
fn decode_gives_rgba_pixels_and_layout() {
    let px = vec![1, 2, 3, 4, 250, 251, 252, 253];
    let r = decode_image(&png_of(2, 1, px.clone())).unwrap();
    assert_eq!((r.width, r.height), (2, 1));
    assert_eq!(r.rgba, px);
    assert_eq!(r.color, SourceColor::Rgba8);

    let rgb = image::RgbImage::from_raw(1, 2, vec![9, 8, 7, 6, 5, 4]).unwrap();
    let mut out = Cursor::new(Vec::new());
    rgb.write_to(&mut out, image::ImageFormat::Png).unwrap();
    let r2 = decode_image(&out.into_inner()).unwrap();
    assert_eq!((r2.width, r2.height), (1, 2));
    assert_eq!(r2.rgba, vec![9, 8, 7, 255, 6, 5, 4, 255]);
    assert_eq!(r2.color, SourceColor::Rgb8);
}

#[test]
fn decode_rejects_garbage() {
    assert!(decode_image(&vec![0u8, 1, 2, 3]).is_err());
}
