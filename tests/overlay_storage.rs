use win_wallpaper::overlay::{
    get_mouse_passthrough_state, set_mouse_passthrough_state, store_window_hwnd, sync_visibility, window_alpha,
    HotkeyListener, KeyEvent, OverlayState,
};
use win_wallpaper::storage::StorageLayout;

#[test]
fn passthrough_state_round_trip() {
    let mut s = OverlayState::new();
    assert!(!get_mouse_passthrough_state(&s));
    set_mouse_passthrough_state(&mut s, true);
    assert!(get_mouse_passthrough_state(&s));
    store_window_hwnd(&mut s, 42);
    assert_eq!(s.window_hwnd, Some(42));
    assert!(get_mouse_passthrough_state(&s));
}

#[test]
fn alt_w_toggles_passthrough() {
    let mut s = OverlayState::new();
    let mut h = HotkeyListener::new();
    assert_eq!(h.on_event(&mut s, KeyEvent::WPressed), None);
    assert_eq!(h.on_event(&mut s, KeyEvent::AltPressed), None);
    assert_eq!(h.on_event(&mut s, KeyEvent::WPressed), Some(true));
    assert!(s.mouse_passthrough);
    assert_eq!(h.on_event(&mut s, KeyEvent::Other), None);
    assert_eq!(h.on_event(&mut s, KeyEvent::WPressed), Some(false));
    assert_eq!(h.on_event(&mut s, KeyEvent::AltReleased), None);
    assert_eq!(h.on_event(&mut s, KeyEvent::WPressed), None);
    assert!(!s.mouse_passthrough);
}

#[test]
fn alpha_and_visibility() {
    assert_eq!(window_alpha(true), 0);
    assert_eq!(window_alpha(false), 255);
    assert_eq!(sync_visibility(false, false), Some(true));
    assert_eq!(sync_visibility(true, true), Some(false));
    assert_eq!(sync_visibility(true, false), None);
}

#[test]
fn storage_layout_paths() {
    let l = StorageLayout::under("/home/u/.local/share", "/home/u/Documents");
    assert_eq!(l.app_dir, "/home/u/.local/share/com.lsoapps.winwallpaper");
    assert_eq!(l.thumb_dir, "/home/u/.local/share/com.lsoapps.winwallpaper/thumbnails");
    assert_eq!(l.config_dir, "/home/u/Documents/win-wallpaper");
    assert_eq!(l.wallpapers_dir, "/home/u/Documents/win-wallpaper/wallpapers");
    assert_eq!(l.config_file, "/home/u/Documents/win-wallpaper/config.json");
    assert_eq!(l.directories().len(), 4);
}
