//! File-system rules: allowed roots, path checks, upload names, bash output
//! files and the directory browser.

pub mod allowed_roots;
pub mod atomic_file;
pub mod bash_output;
pub mod directory_browser;
pub mod file_access;
pub mod file_dirent;
pub mod file_upload;
pub mod models_config_store;
pub mod path_security;

pub use allowed_roots::{allow_file_root, get_additional_allowed_roots, normalize_slashes};
pub use file_access::{
    invalidate_allowed_roots_cache, is_file_path_allowed, is_windows_absolute_path,
};
pub use file_dirent::resolve_dirent_is_directory;
pub use file_upload::{
    parse_upload_conflict_strategy, validate_upload_file_names, UploadConflictStrategy,
    UploadTargetInspection,
};
pub use path_security::is_path_within_roots;
