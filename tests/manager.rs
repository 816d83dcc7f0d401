use win_wallpaper::manager::{record_outcomes, ThumbnailManager};
use win_wallpaper::scan::ScanEntry;

fn entry(path: &str, depth: usize, is_file: bool) -> ScanEntry {
    ScanEntry { path: path.to_string(), depth, is_file }
}

fn names(v: &[&str]) -> Vec<String> {
    v.iter().map(|s| s.to_string()).collect()
}

fn png_bytes(width: u32, height: u32) -> Vec<u8> {
    let img = image::RgbaImage::from_pixel(width, height, image::Rgba([1, 2, 3, 255]));
    let mut out = std::io::Cursor::new(Vec::new());
    image::DynamicImage::ImageRgba8(img).write_to(&mut out, image::ImageFormat::Png).unwrap();
    out.into_inner()
}

fn manager() -> ThumbnailManager {
    ThumbnailManager::new("/src".to_string(), "/cache".to_string())
}

#[test]
fn thumbnail_path_is_in_cache_dir() {
    assert_eq!(manager().get_thumbnail_path("/src/forest.png"), "/cache/thumb_forest.png");
}

#[test]
fn source_images_filter_depth_and_extension() {
    let walk = vec![
        entry("/src/a.png", 0, true),
        entry("/src/b.JPEG", 0, true),
        entry("/src/notes.txt", 0, true),
        entry("/src/s/nested.png", 1, true),
        entry("/src/s/t/deep.png", 2, true),
        entry("/src/s", 0, false),
    ];
    assert_eq!(manager().source_images(&walk), names(&["/src/a.png", "/src/b.JPEG"]));
}

#[test]
fn orphans_are_managed_entries_without_source() {
    let walk = vec![entry("/src/A.png", 0, true), entry("/src/B.png", 0, true)];
    let cache = names(&["thumb_A.png", "thumb_B.png", "thumb_C.png", "stray.txt"]);
    let orphans = manager().cleanup_orphaned_thumbnails(&walk, &cache);
    assert_eq!(orphans, names(&["thumb_C.png"]));
    let remaining: Vec<String> = cache.into_iter().filter(|c| !orphans.contains(c)).collect();
    assert_eq!(remaining, names(&["thumb_A.png", "thumb_B.png", "stray.txt"]));
}

#[test]
fn without_sources_every_managed_entry_is_orphan() {
    let cache = names(&["thumb_A.png", "other.png"]);
    assert_eq!(manager().cleanup_orphaned_thumbnails(&vec![], &cache), names(&["thumb_A.png"]));
}

#[test]
fn pending_skips_cached_sources() {
    let walk = vec![entry("/src/A.png", 0, true), entry("/src/B.png", 0, true)];
    let cache = names(&["thumb_A.png"]);
    assert_eq!(manager().pending_thumbnails(&walk, &cache), names(&["/src/B.png"]));
}

#[test]
fn second_population_has_nothing_to_do() {
    let m = manager();
    let walk = vec![entry("/src/A.png", 0, true), entry("/src/B.jpg", 0, true)];
    let mut cache: Vec<String> = Vec::new();
    let first = m.pending_thumbnails(&walk, &cache);
    assert_eq!(first.len(), 2);
    for p in &first {
        cache.push(win_wallpaper::naming::thumbnail_file_name(p));
    }
    assert!(m.pending_thumbnails(&walk, &cache).is_empty());
}

#[test]
fn one_corrupt_source_fails_alone() {
    let m = manager();
    let sources = vec![
        ("/src/a.png", png_bytes(64, 32)),
        ("/src/bad.png", b"corrupt".to_vec()),
        ("/src/c.png", png_bytes(16, 48)),
    ];
    let results: Vec<_> = sources.iter().map(|(p, b)| m.create_preview_thumbnail(p, b)).collect();
    let created: Vec<String> = results.iter().filter_map(|r| r.as_ref().ok().map(|(p, _)| p.clone())).collect();
    assert_eq!(created, names(&["/cache/thumb_a.png", "/cache/thumb_c.png"]));
    assert_eq!(results.iter().filter(|r| r.is_err()).count(), 1);
    let outcomes: Vec<(String, bool)> =
        sources.iter().zip(results.iter()).map(|((p, _), r)| (p.to_string(), r.is_ok())).collect();
    let report = record_outcomes(&outcomes);
    assert_eq!(report.created, names(&["/src/a.png", "/src/c.png"]));
    assert_eq!(report.failed, names(&["/src/bad.png"]));
}

#[test]
fn population_order_does_not_change_cache_contents() {
    let m = manager();
    let sources = vec![
        ("/src/a.png", png_bytes(30, 10)),
        ("/src/b.jpg", png_bytes(10, 30)),
        ("/src/c.jpeg", png_bytes(5, 5)),
    ];
    let run = |order: Vec<usize>| {
        let mut written: Vec<(String, Vec<u8>)> = Vec::new();
        for i in order {
            let (p, t) = m.create_preview_thumbnail(sources[i].0, &sources[i].1).unwrap();
            written.push((p, t.png));
        }
        written.sort();
        written
    };
    assert_eq!(run(vec![0, 1, 2]), run(vec![2, 0, 1]));
}

#[test]
fn report_of_no_outcomes_is_empty() {
    let report = record_outcomes(&vec![]);
    assert!(report.created.is_empty() && report.failed.is_empty());
}

#[test]
fn preview_is_bounded() {
    let (path, t) = manager().create_preview_thumbnail("/src/wide.png", &png_bytes(1000, 100)).unwrap();
    assert_eq!(path, "/cache/thumb_wide.png");
    assert_eq!((t.width, t.height), (320, 32));
}
