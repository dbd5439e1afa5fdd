//! Shapes of the git status and diff responses.

use vstd::prelude::*;

verus! {

/// Kind of change of a file.
#[derive(Debug, Clone, Copy, PartialEq, Eq, Structural)]
pub enum GitFileStatusKind {
    Modified,
    Added,
    Deleted,
    Renamed,
    Untracked,
    Conflict,
}

/// One-letter code of a change (`M`, `A`, `D`, `R`, `U`, `C`).
#[derive(Debug, Clone, Copy, PartialEq, Eq, Structural)]
pub enum GitStatusCode {
    Modified,
    Added,
    Deleted,
    Renamed,
    Untracked,
    Conflict,
}

impl GitStatusCode {
    /// The code's letter.
    pub fn letter(&self) -> (c: char)
        ensures
            c == match *self {
                GitStatusCode::Modified => 'M',
                GitStatusCode::Added => 'A',
                GitStatusCode::Deleted => 'D',
                GitStatusCode::Renamed => 'R',
                GitStatusCode::Untracked => 'U',
                GitStatusCode::Conflict => 'C',
            },
    {
        match self {
            GitStatusCode::Modified => 'M',
            GitStatusCode::Added => 'A',
            GitStatusCode::Deleted => 'D',
            GitStatusCode::Renamed => 'R',
            GitStatusCode::Untracked => 'U',
            GitStatusCode::Conflict => 'C',
        }
    }
}

/// A changed file of the status response.
#[derive(Debug, Clone)]
pub struct GitFileStatus {
    pub file_path: String,
    pub status: GitFileStatusKind,
    pub code: GitStatusCode,
    pub index_status: String,
    pub worktree_status: String,
}

/// The git status of a session directory.
#[derive(Debug, Clone)]
pub struct GitStatusResponse {
    pub is_git_repository: bool,
    pub repository_root: Option<String>,
    pub files: Vec<GitFileStatus>,
    pub additions: u64,
    pub deletions: u64,
}

/// The diff of one file.
#[derive(Debug, Clone)]
pub struct GitFileDiffResponse {
    pub supported: bool,
    pub status: Option<GitFileStatusKind>,
    pub patch: Option<String>,
}

} // verus!
