//! The process-wide HTTP dispatcher configuration: set once, then fixed.

use vstd::prelude::*;

verus! {

/// Default keep-alive idle timeout, in milliseconds.
pub const DEFAULT_HTTP_IDLE_TIMEOUT_MS: u64 = 300_000;

/// Dispatcher settings; an idle timeout of 0 means no timeout.
#[derive(Debug, Clone, Copy, PartialEq, Eq, Structural)]
pub struct HttpDispatcherConfig {
    pub idle_timeout_ms: u64,
}

/// Guard that keeps the first successful configuration.
#[derive(Debug)]
pub struct DispatcherGuard {
    configured: Option<HttpDispatcherConfig>,
}

impl DispatcherGuard {
    /// The configuration in force, if any.
    pub closed spec fn current(&self) -> Option<HttpDispatcherConfig> {
        self.configured
    }

    /// A guard with nothing configured.
    pub fn new() -> (g: DispatcherGuard)
        ensures
            g.current() is None,
    {
        DispatcherGuard { configured: None }
    }

    /// Configures the dispatcher with an idle timeout that the caller has
    /// already normalised (`None` when the requested value was invalid).
    /// Once configured, every later call returns the first configuration.
    pub fn configure(&mut self, normalized_timeout_ms: Option<u64>) -> (r: Result<
        HttpDispatcherConfig,
        (),
    >)
        ensures
            match old(self).current() {
                Some(c) => r == Ok::<HttpDispatcherConfig, ()>(c) && final(self).current() == Some(
                    c,
                ),
                None => match normalized_timeout_ms {
                    Some(t) => r == Ok::<HttpDispatcherConfig, ()>(
                        HttpDispatcherConfig { idle_timeout_ms: t },
                    ) && final(self).current() == Some(HttpDispatcherConfig { idle_timeout_ms: t }),
                    None => r is Err && final(self).current() is None,
                },
            },
    {
        if let Some(existing) = self.configured {
            return Ok(existing);
        }
        match normalized_timeout_ms {
            Some(t) => {
                let config = HttpDispatcherConfig { idle_timeout_ms: t };
                self.configured = Some(config);
                Ok(config)
            },
            None => Err(()),
        }
    }
}

/// Whether the dispatcher has been configured.
pub fn http_dispatcher_configured(guard: &DispatcherGuard) -> (b: bool)
    ensures
        b == guard.current() is Some,
{
    guard.configured.is_some()
}

/// Forgets the configuration (for tests and restarts).
pub fn reset_dispatcher_guard(guard: &mut DispatcherGuard)
    ensures
        final(guard).current() is None,
{
    guard.configured = None;
}

} // verus!
