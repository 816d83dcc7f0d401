use image::{GenericImageView, ImageFormat, Rgba, RgbaImage};
use win_wallpaper::manager::ThumbnailManager;
use win_wallpaper::thumbnail::{target_dimensions, ResizeFilter, ThumbnailError};

fn manager() -> ThumbnailManager {
    ThumbnailManager::new("w".to_string(), "c".to_string())
}

fn png_bytes(width: u32, height: u32) -> Vec<u8> {
    let img = RgbaImage::from_pixel(width, height, Rgba([10, 20, 30, 255]));
    let mut out = std::io::Cursor::new(Vec::new());
    image::DynamicImage::ImageRgba8(img).write_to(&mut out, ImageFormat::Png).unwrap();
    out.into_inner()
}

#[test]
fn landscape_keeps_aspect_ratio() {
    let (w, h) = target_dimensions(4000, 2000, 320, 180);
    assert!(w <= 320 && h <= 180);
    assert_eq!((w, h), (320, 160));
    assert!((w as f64 / h as f64 - 2.0).abs() < 1e-9);
}

#[test]
fn small_source_is_not_upscaled() {
    assert_eq!(target_dimensions(100, 50, 320, 180), (100, 50));
    assert_eq!(target_dimensions(50, 100, 320, 180), (50, 100));
}

#[test]
fn portrait_fixes_height_first() {
    assert_eq!(target_dimensions(1000, 2000, 320, 180), (90, 180));
}

#[test]
fn tie_fixes_width_first() {
    assert_eq!(target_dimensions(1000, 1000, 320, 180), (320, 180));
    assert_eq!(target_dimensions(500, 500, 100, 200), (100, 100));
}

#[test]
fn derived_side_is_capped_by_its_bound() {
    assert_eq!(target_dimensions(4000, 3900, 320, 180), (320, 180));
}

#[test]
fn empty_source_gives_empty_size() {
    assert_eq!(target_dimensions(0, 0, 320, 180), (0, 0));
    assert_eq!(target_dimensions(10, 0, 320, 180), (10, 0));
}

#[test]
fn render_downscales_and_encodes_png() {
    let (path, t) = manager().create_thumbnail("w/x.png", &png_bytes(8, 4), 4, 4, ResizeFilter::Nearest).unwrap();
    assert_eq!(path, "c/thumb_x.png");
    assert_eq!((t.source_width, t.source_height), (8, 4));
    assert_eq!((t.width, t.height), (4, 2));
    let back = image::load_from_memory(&t.png).unwrap();
    assert_eq!(back.dimensions(), (4, 2));
}

#[test]
fn resize_reports_source_and_target_size() {
    let r = manager().resize_image(&png_bytes(40, 20), 320, 180, ResizeFilter::Triangle).unwrap();
    assert_eq!((r.source_width, r.source_height, r.width, r.height), (40, 20, 40, 20));
    assert_eq!(r.pixels.len(), 40 * 20 * 4);
}

#[test]
fn resize_scales_the_pixels() {
    let r = manager().resize_image(&png_bytes(400, 100), 40, 40, ResizeFilter::Lanczos3).unwrap();
    assert_eq!((r.width, r.height), (40, 10));
    assert_eq!(r.pixels.len(), 40 * 10 * 4);
}

#[test]
fn undecodable_source_is_a_decode_error() {
    assert_eq!(
        manager().create_thumbnail("w/bad.png", b"not an image", 320, 180, ResizeFilter::Nearest).err(),
        Some(ThumbnailError::Decode)
    );
}

#[test]
fn zero_side_thumbnail_is_an_encode_error() {
    let m = manager();
    assert_eq!(target_dimensions(1000, 1, 320, 180), (320, 0));
    assert_eq!(
        m.create_thumbnail("w/line.png", &png_bytes(1000, 1), 320, 180, ResizeFilter::Nearest).err(),
        Some(ThumbnailError::Encode)
    );
}

#[test]
fn equal_bytes_give_equal_thumbnails() {
    let m = manager();
    let bytes = png_bytes(50, 30);
    let (_, a) = m.create_thumbnail("w/a.png", &bytes, 20, 20, ResizeFilter::CatmullRom).unwrap();
    let (_, b) = m.create_thumbnail("w/a.png", &bytes, 20, 20, ResizeFilter::CatmullRom).unwrap();
    assert_eq!((a.width, a.height, a.png.clone()), (b.width, b.height, b.png));
    assert_eq!((a.width, a.height), (20, 12));
}
