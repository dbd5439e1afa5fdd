//! The HTTP API surface: routes and command arguments, the agent RPC,
//! session records and state, model discovery, files, error values,
//! transport requests and the session export page.

pub mod commands;
pub mod cwd;
pub mod export;
pub mod file_listing;
pub mod file_ops;
pub mod files;
pub mod model_list;
pub mod models;
pub mod routes;
pub mod rpc;
pub mod session_meta;
pub mod session_state;
pub mod sessions;
pub mod types;
pub mod worktrees;

pub use types::{ApiError, FetchResponse, FetchSpec, NoopHooks};
