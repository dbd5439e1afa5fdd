//! Git status parsing, change classification and patches for new files.

pub mod changes;
pub mod worktree;
pub mod status;
pub mod types;

pub use status::{classify_git_status, parse_git_porcelain_v1, GitPorcelainEntry};
pub use types::{
    GitFileDiffResponse, GitFileStatus, GitFileStatusKind, GitStatusCode, GitStatusResponse,
};
