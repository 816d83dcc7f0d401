//! Thumbnail cache for a directory of wallpaper images, with the small
//! amount of state that the overlay window keeps.

pub mod naming;
pub mod scan;
pub mod thumbnail;
pub mod manager;
pub mod storage;
pub mod overlay;
