//! Where the application keeps its data: the thumbnail cache under the
//! user's data directory, the configuration and the wallpapers under the
//! user's documents.
use vstd::prelude::*;
use crate::naming::{join_path, path_join};

verus! {

pub const APP_DIR_NAME: &'static str = "com.lsoapps.winwallpaper";

pub const THUMB_DIR_NAME: &'static str = "thumbnails";

pub const CONFIG_DIR_NAME: &'static str = "win-wallpaper";

pub const WALLPAPERS_DIR_NAME: &'static str = "wallpapers";

pub const CONFIG_FILE_NAME: &'static str = "config.json";

/// Relies on dirs::data_dir: the user's data directory, if the platform has one.
#[verifier::external_body]
fn user_data_dir() -> (r: Option<String>) {
    match dirs::data_dir() {
        Some(p) => Some(p.to_string_lossy().into_owned()),
        None => None,
    }
}

/// Relies on dirs::document_dir: the user's documents directory, if the
/// platform has one.
#[verifier::external_body]
fn user_document_dir() -> (r: Option<String>) {
    match dirs::document_dir() {
        Some(p) => Some(p.to_string_lossy().into_owned()),
        None => None,
    }
}

/// Relies on std::path::Path::exists: whether something is at the path now.
#[verifier::external_body]
fn path_exists(path: &str) -> (r: bool) {
    std::path::Path::new(path).exists()
}

/// The paths of the application's storage.
pub struct StorageLayout {
    pub data_dir: String,
    pub document_dir: String,
    pub app_dir: String,
    pub thumb_dir: String,
    pub config_dir: String,
    pub wallpapers_dir: String,
    pub config_file: String,
}

pub open spec fn app_dir_of(data: Seq<char>) -> Seq<char> {
    path_join(data, APP_DIR_NAME@)
}

pub open spec fn thumb_dir_of(data: Seq<char>) -> Seq<char> {
    path_join(app_dir_of(data), THUMB_DIR_NAME@)
}

pub open spec fn config_dir_of(docs: Seq<char>) -> Seq<char> {
    path_join(docs, CONFIG_DIR_NAME@)
}

pub open spec fn wallpapers_dir_of(docs: Seq<char>) -> Seq<char> {
    path_join(config_dir_of(docs), WALLPAPERS_DIR_NAME@)
}

impl StorageLayout {
    /// The layout under a data directory and a documents directory.
    pub open spec fn is_under(&self, data: Seq<char>, docs: Seq<char>) -> bool {
        &&& self.data_dir@ == data
        &&& self.document_dir@ == docs
        &&& self.app_dir@ == app_dir_of(data)
        &&& self.thumb_dir@ == thumb_dir_of(data)
        &&& self.config_dir@ == config_dir_of(docs)
        &&& self.wallpapers_dir@ == wallpapers_dir_of(docs)
        &&& self.config_file@ == path_join(config_dir_of(docs), CONFIG_FILE_NAME@)
    }

    /// The storage paths under the given data and documents directories.
    pub fn under(data_dir: &str, document_dir: &str) -> (r: StorageLayout)
        ensures
            r.is_under(data_dir@, document_dir@),
    {
        let app_dir = join_path(data_dir, APP_DIR_NAME);
        let thumb_dir = join_path(app_dir.as_str(), THUMB_DIR_NAME);
        let config_dir = join_path(document_dir, CONFIG_DIR_NAME);
        let wallpapers_dir = join_path(config_dir.as_str(), WALLPAPERS_DIR_NAME);
        let config_file = join_path(config_dir.as_str(), CONFIG_FILE_NAME);
        StorageLayout {
            data_dir: String::from_str(data_dir),
            document_dir: String::from_str(document_dir),
            app_dir,
            thumb_dir, config_dir, wallpapers_dir, config_file }
    }

    /// The directories to create, parents first.
    pub fn directories(&self) -> (r: Vec<String>)
        ensures
            r@.len() == 4,
            r@[0]@ == self.app_dir@,
            r@[1]@ == self.thumb_dir@,
            r@[2]@ == self.config_dir@,
            r@[3]@ == self.wallpapers_dir@,
    {
        vec![
            self.app_dir.clone(),
            self.thumb_dir.clone(),
            self.config_dir.clone(),
            self.wallpapers_dir.clone(),
        ]
    }
}

/// The storage layout of this user, when the platform names both a data
/// and a documents directory.
pub fn storage_layout() -> (r: Option<StorageLayout>)
    ensures
        r matches Some(l) ==> l.is_under(l.data_dir@, l.document_dir@),
{
    let data = user_data_dir();
    let docs = user_document_dir();
    if let (Some(d), Some(e)) = (data, docs) {
        let l = StorageLayout::under(d.as_str(), e.as_str());
        Some(l)
    } else {
        None
    }
}

/// Keeps a path only if something is there.
fn existing(path: String) -> (r: Option<String>)
    ensures
        r matches Some(p) ==> p@ == path@,
{
    if path_exists(path.as_str()) {
        Some(path)
    } else {
        None
    }
}

/// The application's data directory, if it exists.
pub fn app_dir() -> (r: Option<String>)
    ensures
        r matches Some(p) ==> exists|data: Seq<char>| p@ == app_dir_of(data),
{
    match user_data_dir() {
        Some(data) => {
            let r = existing(join_path(data.as_str(), APP_DIR_NAME));
            assert(r matches Some(p) ==> p@ == app_dir_of(data@));
            r
        },
        None => None,
    }
}

/// The thumbnail cache directory, if it exists.
pub fn thumb_dir() -> (r: Option<String>)
    ensures
        r matches Some(p) ==> exists|data: Seq<char>| p@ == thumb_dir_of(data),
{
    match user_data_dir() {
        Some(data) => {
            let app = join_path(data.as_str(), APP_DIR_NAME);
            let r = existing(join_path(app.as_str(), THUMB_DIR_NAME));
            assert(r matches Some(p) ==> p@ == thumb_dir_of(data@));
            r
        },
        None => None,
    }
}

/// The configuration directory, if it exists.
pub fn config_dir() -> (r: Option<String>)
    ensures
        r matches Some(p) ==> exists|docs: Seq<char>| p@ == config_dir_of(docs),
{
    match user_document_dir() {
        Some(docs) => {
            let r = existing(join_path(docs.as_str(), CONFIG_DIR_NAME));
            assert(r matches Some(p) ==> p@ == config_dir_of(docs@));
            r
        },
        None => None,
    }
}

/// The directory of the source wallpapers, if it exists.
pub fn wallpapers_dir() -> (r: Option<String>)
    ensures
        r matches Some(p) ==> exists|docs: Seq<char>| p@ == wallpapers_dir_of(docs),
{
    match user_document_dir() {
        Some(docs) => {
            let config = join_path(docs.as_str(), CONFIG_DIR_NAME);
            let r = existing(join_path(config.as_str(), WALLPAPERS_DIR_NAME));
            assert(r matches Some(p) ==> p@ == wallpapers_dir_of(docs@));
            r
        },
        None => None,
    }
}

} // verus!
