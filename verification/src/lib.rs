//! Verified core logic of the pi web backend: path and file-name helpers,
//! `@` mention completion, unified-diff parsing, git status and worktree
//! handling, HTTP basic authentication, request routing and bodies, the
//! models configuration, session records and the session export page.

pub mod text;
pub mod json;
pub mod paths;
pub mod diff;
pub mod auth;
pub mod file;
pub mod app_update;
pub mod image;
pub mod http;
pub mod git;
pub mod compaction;
pub mod fs;
pub mod api;
