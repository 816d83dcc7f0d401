use win_wallpaper::scan::{select_files, str_eq_ignore_ascii_case, ScanEntry};

fn entry(path: &str, depth: usize, is_file: bool) -> ScanEntry {
    ScanEntry { path: path.to_string(), depth, is_file }
}

#[test]
fn extension_filter_is_case_insensitive() {
    let walk = vec![entry("r/a.png", 0, true), entry("r/b.txt", 0, true), entry("r/c.JPG", 0, true)];
    let exts = vec!["png".to_string(), "jpg".to_string()];
    assert_eq!(select_files(&walk, None, Some(&exts)), vec!["r/a.png".to_string(), "r/c.JPG".to_string()]);
}

#[test]
fn without_filter_every_file_is_yielded() {
    let walk = vec![entry("r/a.png", 0, true), entry("r/sub", 0, false), entry("r/noext", 0, true)];
    assert_eq!(select_files(&walk, None, None), vec!["r/a.png".to_string(), "r/noext".to_string()]);
}

#[test]
fn filter_excludes_files_without_extension() {
    let walk = vec![entry("r/png", 0, true), entry("r/.png", 0, true)];
    let exts = vec!["png".to_string()];
    assert!(select_files(&walk, None, Some(&exts)).is_empty());
}

#[test]
fn depth_limit_is_applied() {
    let walk = vec![
        entry("r/a.png", 0, true),
        entry("r/s/b.png", 1, true),
        entry("r/s/t/c.png", 2, true),
    ];
    assert_eq!(
        select_files(&walk, Some(1), None),
        vec!["r/a.png".to_string(), "r/s/b.png".to_string()]
    );
    assert_eq!(select_files(&walk, Some(0), None), vec!["r/a.png".to_string()]);
}

#[test]
fn directories_are_not_yielded() {
    let walk = vec![entry("r/dir.png", 0, false)];
    assert!(select_files(&walk, None, None).is_empty());
}

#[test]
fn ascii_case_comparison() {
    assert!(str_eq_ignore_ascii_case("JpEg", "jpeg"));
    assert!(!str_eq_ignore_ascii_case("jpg", "jpeg"));
    assert!(!str_eq_ignore_ascii_case("png", "pnh"));
    assert!(str_eq_ignore_ascii_case("", ""));
}
