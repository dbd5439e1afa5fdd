//! Whether a directory entry is a directory.

use vstd::prelude::*;

verus! {

/// Whether an entry is a directory: what the directory listing says when it
/// knows (directory, or file), else what `stat` said (`None` when `stat`
/// failed, for example because the entry disappeared).
pub fn resolve_dirent_is_directory(
    dirent_is_directory: bool,
    dirent_is_file: bool,
    stat_is_directory: Option<bool>,
) -> (r: Option<bool>)
    ensures
        r == if dirent_is_directory {
            Some(true)
        } else if dirent_is_file {
            Some(false)
        } else {
            stat_is_directory
        },
{
    if dirent_is_directory {
        return Some(true);
    }
    if dirent_is_file {
        return Some(false);
    }
    stat_is_directory
}

/// Whether `stat` is needed: the listing knows neither way.
pub fn needs_stat(dirent_is_directory: bool, dirent_is_file: bool) -> (b: bool)
    ensures
        b == (!dirent_is_directory && !dirent_is_file),
{
    !dirent_is_directory && !dirent_is_file
}

} // verus!
