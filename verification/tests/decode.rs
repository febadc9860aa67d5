use pic_process::decode::{
    apply_orientation, box_downsample, build_analysis_image, decode_jpeg_to_rgb, is_jpeg_head,
    orientation_of, rgb_of_decoded, to_analysis_size, RgbImage, ANALYSIS_MAX_DIM,
};
use pic_process::index::{exif_text, read_exif};
use pic_process::load::{
    is_jpeg_name, load_analysis_image, prepare_picture, read_orientation, to_measured,
};
use pic_process::pixels::{contact_picture, make_thumbnail, model_input};

fn grid() -> RgbImage {
    RgbImage::from_raw(2, 2, vec![1, 1, 1, 2, 2, 2, 3, 3, 3, 4, 4, 4]).unwrap()
}

fn values(img: &RgbImage) -> Vec<u8> {
    img.data.chunks(3).map(|p| p[0]).collect()
}

fn gradient(w: u32, h: u32) -> RgbImage {
    let mut data = Vec::new();
    for y in 0..h {
        for x in 0..w {
            data.extend_from_slice(&[(x % 251) as u8, (y % 241) as u8, ((x + y) % 239) as u8]);
        }
    }
    RgbImage { width: w, height: h, data }
}

fn encoded(img: &RgbImage) -> Vec<u8> {
    let mut buf = Vec::new();
    let mut enc = image::codecs::jpeg::JpegEncoder::new_with_quality(&mut buf, 95);
    enc.encode(&img.data, img.width, img.height, image::ExtendedColorType::Rgb8).unwrap();
    buf
}

#[test]
fn orientation_transforms_match_exif() {
    assert_eq!(values(&apply_orientation(grid(), 1)), vec![1, 2, 3, 4]);
    assert_eq!(values(&apply_orientation(grid(), 2)), vec![2, 1, 4, 3]);
    assert_eq!(values(&apply_orientation(grid(), 3)), vec![4, 3, 2, 1]);
    assert_eq!(values(&apply_orientation(grid(), 4)), vec![3, 4, 1, 2]);
    assert_eq!(values(&apply_orientation(grid(), 5)), vec![1, 3, 2, 4]);
    assert_eq!(values(&apply_orientation(grid(), 6)), vec![3, 1, 4, 2]);
    assert_eq!(values(&apply_orientation(grid(), 7)), vec![4, 2, 3, 1]);
    assert_eq!(values(&apply_orientation(grid(), 8)), vec![2, 4, 1, 3]);
}

#[test]
fn orientation_agrees_with_the_image_crate() {
    let img = gradient(5, 3);
    let p = image::RgbImage::from_raw(5, 3, img.data.clone()).unwrap();
    let r90 = image::imageops::rotate90(&p);
    let r270 = image::imageops::rotate270(&p);
    let want = [
        p.clone(),
        p.clone(),
        image::imageops::flip_horizontal(&p),
        image::imageops::rotate180(&p),
        image::imageops::flip_vertical(&p),
        image::imageops::flip_horizontal(&r90),
        r90.clone(),
        image::imageops::flip_horizontal(&r270),
        r270.clone(),
        p.clone(),
    ];
    for (o, w) in want.iter().enumerate() {
        let got = apply_orientation(gradient(5, 3), o as u16);
        assert_eq!((got.width, got.height), w.dimensions());
        assert_eq!(&got.data, w.as_raw());
    }
}

#[test]
fn orientation_can_be_taken_back() {
    for (o, back) in [(1, 1), (2, 2), (3, 3), (4, 4), (5, 5), (6, 8), (7, 7), (8, 6)] {
        let img = apply_orientation(apply_orientation(gradient(4, 3), o), back);
        assert_eq!((img.width, img.height), (4, 3));
        assert_eq!(img.data, gradient(4, 3).data);
    }
}

#[test]
fn orientation_values() {
    assert_eq!(orientation_of(None), 1);
    assert_eq!(orientation_of(Some(6)), 6);
    assert_eq!(orientation_of(Some(0)), 1);
    assert_eq!(orientation_of(Some(9)), 1);
    assert_eq!(orientation_of(Some(65539)), 3);
    assert!(is_jpeg_head(&[0xff, 0xd8, 0xff, 0xe0]));
    assert!(!is_jpeg_head(&[0xff, 0xd8, 0x00, 0xe0]));
}

#[test]
fn raw_bytes_have_to_fill_the_picture() {
    assert!(RgbImage::from_raw(2, 1, vec![0; 5]).is_none());
    assert_eq!(RgbImage::from_raw(2, 1, vec![7; 8]).unwrap().data, vec![7; 6]);
}

#[test]
fn blocks_become_their_mean() {
    let rgb: Vec<u8> = (0..27).collect();
    let (w, h, out) = box_downsample(&rgb, 3, 3, 2);
    assert_eq!((w, h), (1, 1));
    // Pixels 0, 1, 3 and 4: red 0, 3, 9, 12.
    assert_eq!(out, vec![6, 7, 8]);
    let (w, h, out) = box_downsample(&rgb, 3, 3, 4);
    assert_eq!((w, h, out.len()), (0, 0, 0));
}

#[test]
fn large_pictures_are_made_smaller() {
    let img = gradient(2049, 10);
    let small = to_analysis_size(img.data, 2049, 10).unwrap();
    assert_eq!((small.width, small.height), (683, 3));
    assert!(small.width <= ANALYSIS_MAX_DIM);
    assert_eq!(small.data[0], 1);
    let img = gradient(1024, 2);
    let same = to_analysis_size(img.data.clone(), 1024, 2).unwrap();
    assert_eq!(same.data, img.data);
    assert!(to_analysis_size(vec![0; 10], 2, 2).is_none());
    assert!(to_analysis_size(vec![0; 10], 0, 2).is_none());
    assert!(to_analysis_size(vec![0; 10], 2000, 2).is_none());
}

#[test]
fn jpeg_files_are_decoded() {
    let img = gradient(40, 30);
    let got = decode_jpeg_to_rgb(&encoded(&img)).unwrap();
    assert_eq!((got.width, got.height), (40, 30));
    let off: i64 =
        got.data.iter().zip(img.data.iter()).map(|(a, b)| (*a as i64 - *b as i64).abs()).sum();
    assert!(off / (got.data.len() as i64) < 6);
    assert!(decode_jpeg_to_rgb(b"no picture").is_none());
    assert!(decode_jpeg_to_rgb(&[]).is_none());
    let big = decode_jpeg_to_rgb(&encoded(&gradient(1500, 20))).unwrap();
    assert_eq!((big.width, big.height), (750, 10));
}

#[test]
fn brightness_and_histogram() {
    let img = RgbImage::from_raw(2, 1, vec![255, 255, 255, 100, 50, 200]).unwrap();
    let a = build_analysis_image(img);
    assert_eq!(a.luma, vec![255, 82]);
    assert_eq!(a.histogram[255], 1);
    assert_eq!(a.histogram[82], 1);
    assert_eq!(a.histogram.iter().sum::<u64>(), 2);
    // Half the difference, squared.
    assert_eq!(a.luma_variance, 7_482_250_000);
    let none = build_analysis_image(RgbImage { width: 0, height: 0, data: Vec::new() });
    assert_eq!(none.luma_variance, 0);
}

#[test]
fn detectors_get_a_square() {
    let img = gradient(40, 30);
    let p = image::RgbImage::from_raw(40, 30, img.data.clone()).unwrap();
    let want = image::DynamicImage::ImageRgb8(p)
        .resize_exact(64, 64, image::imageops::FilterType::Triangle)
        .into_rgb8();
    let got = model_input(&img.data, 40, 30, 64).unwrap();
    assert_eq!(&got, want.as_raw());
    assert_eq!(got.len(), 64 * 64 * 3);
    assert!(model_input(&img.data, 41, 30, 64).is_none());
}

#[test]
fn thumbnails_fit_their_square() {
    let a = build_analysis_image(gradient(640, 480));
    let jpeg = make_thumbnail(a).unwrap();
    let t = decode_jpeg_to_rgb(&jpeg).unwrap();
    assert_eq!((t.width, t.height), (320, 240));
    assert!(make_thumbnail(build_analysis_image(RgbImage { width: 0, height: 4, data: vec![] })).is_none());
    let jpeg = contact_picture(build_analysis_image(gradient(640, 480)), 100).unwrap();
    let t = decode_jpeg_to_rgb(&jpeg).unwrap();
    assert_eq!((t.width, t.height), (100, 75));
    assert!(contact_picture(build_analysis_image(gradient(64, 48)), 64).is_none());
}

fn entry(tag: u16, kind: u16, count: u32, value: [u8; 4]) -> Vec<u8> {
    let mut e = Vec::new();
    e.extend_from_slice(&tag.to_le_bytes());
    e.extend_from_slice(&kind.to_le_bytes());
    e.extend_from_slice(&count.to_le_bytes());
    e.extend_from_slice(&value);
    e
}

/// A JPEG file whose EXIF data name a maker, an orientation, a capture time, a sensitivity and an
/// aperture.
fn with_exif(jpeg: &[u8], orientation: u8) -> Vec<u8> {
    let mut tiff = b"II*\0\x08\0\0\0".to_vec();
    // First directory at 8, with three entries: it ends at 50.
    tiff.extend_from_slice(&3u16.to_le_bytes());
    tiff.extend(entry(0x010f, 2, 5, 92u32.to_le_bytes()));
    tiff.extend(entry(0x0112, 3, 1, [orientation, 0, 0, 0]));
    tiff.extend(entry(0x8769, 4, 1, 50u32.to_le_bytes()));
    tiff.extend_from_slice(&[0; 4]);
    // Second directory at 50, with three entries: it ends at 92.
    tiff.extend_from_slice(&3u16.to_le_bytes());
    tiff.extend(entry(0x829d, 5, 1, 97u32.to_le_bytes()));
    tiff.extend(entry(0x8827, 3, 1, [200, 0, 0, 0]));
    tiff.extend(entry(0x9003, 2, 20, 105u32.to_le_bytes()));
    tiff.extend_from_slice(&[0; 4]);
    tiff.extend_from_slice(b"SONY\0");
    tiff.extend_from_slice(&28u32.to_le_bytes());
    tiff.extend_from_slice(&10u32.to_le_bytes());
    tiff.extend_from_slice(b"2026:07:19 13:56:32\0");
    let mut out = jpeg[..2].to_vec();
    out.extend_from_slice(&[0xff, 0xe1]);
    out.extend_from_slice(&((tiff.len() + 8) as u16).to_be_bytes());
    out.extend_from_slice(b"Exif\0\0");
    out.extend(tiff);
    out.extend_from_slice(&jpeg[2..]);
    out
}

#[test]
fn exif_fields_are_read_from_bytes() {
    let bytes = with_exif(&encoded(&gradient(40, 30)), 6);
    let f = read_exif(&bytes);
    assert_eq!(exif_text(&f.date_time_original), "2026:07:19 13:56:32");
    assert_eq!(exif_text(&f.camera_make), "SONY");
    assert_eq!(exif_text(&f.iso), "200");
    assert_eq!(exif_text(&f.f_number), "2.8");
    assert_eq!(exif_text(&f.lens_model), "");
    assert_eq!(read_orientation(&bytes), 6);
    assert_eq!(read_orientation(&with_exif(&bytes[..2], 9)), 1);
    let none = read_exif(b"no picture");
    assert_eq!(exif_text(&none.date_time_original), "");
    assert_eq!(read_orientation(b"no picture"), 1);
}

#[test]
fn pictures_are_loaded_upright() {
    let plain = encoded(&gradient(40, 30));
    let a = load_analysis_image(&plain, "jpg").unwrap();
    assert_eq!((a.width, a.height), (40, 30));
    let up = load_analysis_image(&with_exif(&plain, 6), "JPG").unwrap();
    assert_eq!((up.width, up.height), (30, 40));
    let want = apply_orientation(RgbImage { width: 40, height: 30, data: a.rgb }, 6);
    assert_eq!(up.rgb, want.data);
    assert!(load_analysis_image(b"no picture", "jpg").is_none());
    assert!(load_analysis_image(&[], "").is_none());
    // A header that names sides from 65529 on.
    for at in [2, 4] {
        let mut wide = plain.clone();
        let sof = wide.windows(2).position(|p| p == [0xff, 0xc0]).unwrap() + 3;
        wide[sof + at] = 0xff;
        wide[sof + at + 1] = 0xfa;
        assert!(decode_jpeg_to_rgb(&wide).is_none());
        assert!(load_analysis_image(&wide, "jpg").is_none());
    }
}

#[test]
fn other_pictures_are_loaded_too() {
    // A gray JPEG picture has one byte for each pixel.
    let mut gray = Vec::new();
    let mut enc = image::codecs::jpeg::JpegEncoder::new_with_quality(&mut gray, 95);
    enc.encode(&vec![77u8; 2000 * 10], 2000, 10, image::ExtendedColorType::L8).unwrap();
    let a = load_analysis_image(&gray, "jpg").unwrap();
    assert_eq!((a.width, a.height), (1000, 5));
    assert!(a.luma.iter().all(|v| (*v as i64 - 77).abs() <= 1));
    // A file that starts as a JPEG file does is read as one.
    assert!(load_analysis_image(&gray, "arw").is_some());
    let mut small = Vec::new();
    let mut enc = image::codecs::jpeg::JpegEncoder::new_with_quality(&mut small, 95);
    enc.encode(&vec![77u8; 20 * 10], 20, 10, image::ExtendedColorType::L8).unwrap();
    let b = load_analysis_image(&small, "jpg").unwrap();
    assert_eq!((b.width, b.height), (20, 10));
    assert!(b.rgb.chunks(3).all(|p| p[0] == p[1] && p[1] == p[2] && (p[0] as i64 - 77).abs() <= 1));
    let mut png = std::io::Cursor::new(Vec::new());
    let img = gradient(7, 5);
    let p = image::RgbImage::from_raw(7, 5, img.data.clone()).unwrap();
    p.write_to(&mut png, image::ImageFormat::Png).unwrap();
    let b = load_analysis_image(png.get_ref(), "PNG").unwrap();
    assert_eq!((b.width, b.height, &b.rgb), (7, 5, &img.data));
    assert!(load_analysis_image(png.get_ref(), "jpg").is_none());
    let wide = to_measured(gradient(2048, 3)).unwrap();
    assert_eq!((wide.width, wide.height), (1024, 2));
    assert!(to_measured(RgbImage { width: 0, height: 3, data: Vec::new() }).is_none());
    let up = prepare_picture(gradient(2048, 4), 6).unwrap();
    assert_eq!((up.width, up.height), (2, 1024));
    assert!(prepare_picture(RgbImage { width: 0, height: 3, data: Vec::new() }, 1).is_none());
    assert!(is_jpeg_name("JPG") && is_jpeg_name("jpeg") && is_jpeg_name("jfif"));
    assert!(!is_jpeg_name("png") && !is_jpeg_name(""));
}

#[test]
fn decoded_bytes_have_to_fit_their_size() {
    assert!(rgb_of_decoded(vec![9; 12], 2, 2, 3).is_some());
    assert_eq!(rgb_of_decoded((0..16).collect(), 2, 2, 4).unwrap().data, (0..12).collect::<Vec<u8>>());
    let gray = rgb_of_decoded(vec![7, 8, 9, 10], 2, 2, 1).unwrap();
    assert_eq!(gray.data, vec![7, 7, 7, 8, 8, 8, 9, 9, 9, 10, 10, 10]);
    assert!(rgb_of_decoded(vec![9; 3], 2, 2, 1).is_none());
    assert!(rgb_of_decoded(vec![9; 24], 2, 2, 3).is_none());
    assert!(rgb_of_decoded(vec![9; 8], 2, 2, 2).is_none());
    assert!(rgb_of_decoded(Vec::new(), 0, 2, 3).is_none());
}
