use win_wallpaper::naming::{file_extension, join_path, thumbnail_file_name, wallpaper_file_name};

#[test]
fn thumbnail_name_of_nested_path() {
    assert_eq!(thumbnail_file_name("wallpapers/forest.png"), "thumb_forest.png");
}

#[test]
fn thumbnail_name_is_deterministic() {
    let p = "some/dir/sunset.jpeg";
    assert_eq!(thumbnail_file_name(p), thumbnail_file_name(p));
    assert_eq!(thumbnail_file_name(p), "thumb_sunset.jpeg");
}

#[test]
fn thumbnail_name_ignores_parent_directory() {
    assert_eq!(thumbnail_file_name("a/x.png"), thumbnail_file_name("b/c/x.png"));
}

#[test]
fn thumbnail_name_uses_last_dot() {
    assert_eq!(thumbnail_file_name("b.tar.gz"), "thumb_b.tar.gz");
}

#[test]
fn thumbnail_name_without_extension() {
    assert_eq!(thumbnail_file_name("dir/README"), "thumb_README.");
}

#[test]
fn thumbnail_name_of_hidden_file() {
    assert_eq!(thumbnail_file_name(".bashrc"), "thumb_.bashrc.");
}

#[test]
fn thumbnail_name_of_degenerate_paths() {
    assert_eq!(thumbnail_file_name(""), "thumb_.");
    assert_eq!(thumbnail_file_name(".."), "thumb_.");
}

#[test]
fn extension_of_paths() {
    assert_eq!(file_extension("a/b.PNG"), Some("PNG".to_string()));
    assert_eq!(file_extension("a/.hidden"), None);
    assert_eq!(file_extension("a/noext"), None);
    assert_eq!(file_extension("a.b/c"), None);
}

#[test]
fn join_inserts_one_separator() {
    assert_eq!(join_path("/tmp/thumbs", "x.png"), "/tmp/thumbs/x.png");
    assert_eq!(join_path("/tmp/thumbs/", "x.png"), "/tmp/thumbs/x.png");
    assert_eq!(join_path("", "x.png"), "x.png");
}

#[test]
fn thumbnail_name_of_windows_path() {
    assert_eq!(
        thumbnail_file_name("C:\\Users\\u\\Documents/win-wallpaper/wallpapers\\forest.png"),
        "thumb_forest.png"
    );
}

#[test]
fn trailing_separators_and_dots_are_ignored() {
    assert_eq!(thumbnail_file_name("dir/forest.png/"), "thumb_forest.png");
    assert_eq!(thumbnail_file_name("dir/forest.png/."), "thumb_forest.png");
    assert_eq!(thumbnail_file_name("dir\\forest.png\\"), "thumb_forest.png");
    assert_eq!(thumbnail_file_name("/"), "thumb_.");
}

#[test]
fn join_after_backslash() {
    assert_eq!(join_path("C:\\thumbs\\", "x.png"), "C:\\thumbs\\x.png");
}

#[test]
fn wallpaper_name_of_thumbnail() {
    assert_eq!(wallpaper_file_name("thumb_forest.png"), "forest.png");
    assert_eq!(wallpaper_file_name("thumb_thumb_a.png"), "a.png");
    assert_eq!(wallpaper_file_name("my_thumb_x.jpg"), "my_x.jpg");
    assert_eq!(wallpaper_file_name("thumb"), "thumb");
    assert_eq!(wallpaper_file_name(""), "");
}
