//! Request bodies and the HTTP dispatcher configuration.

pub mod bounded_form_data;
pub mod dispatcher;

pub use bounded_form_data::{
    check_declared_content_length, collect_body_within_limit, declared_content_length,
    BodyCollector, BodyLimitError, RequestBodyTooLarge,
};
pub use dispatcher::{
    http_dispatcher_configured, reset_dispatcher_guard, DispatcherGuard, HttpDispatcherConfig,
    DEFAULT_HTTP_IDLE_TIMEOUT_MS,
};
