//! The service's settings and their defaults.
use vstd::prelude::*;

verus! {

/// How much the service logs.
#[allow(non_camel_case_types, clippy::upper_case_acronyms)]
#[derive(Clone, Copy, Debug, PartialEq, Eq, Structural)]
pub enum LogLevel {
    TRACE,
    DEBUG,
    INFO,
    WARN,
    ERROR,
}

/// Checks run when the service starts.
#[derive(Clone, Copy, Debug, PartialEq, Eq, Structural)]
pub struct Startup {
    pub skip_validate: bool,
    pub skip_clean: bool,
}

/// Settings of the user interface.
#[derive(Clone, Copy, Debug, PartialEq, Eq, Structural)]
pub struct Frontend {
    pub dismissed_docs: bool,
}

/// Settings of the service.
#[derive(Debug)]
pub struct Backend {
    pub port: u16,
    /// Milliseconds between two reconciliation ticks.
    pub scan_interval: u64,
    pub store_file: String,
    pub log_file: String,
    pub log_level: LogLevel,
    pub startup: Startup,
}

/// All settings.
#[derive(Debug)]
pub struct Config {
    pub backend: Backend,
    pub frontend: Frontend,
}

impl Default for Backend {
    /// Port 12412, a tick every 5 s, the store in `store`, the log in
    /// `microsdeck.log` at level INFO, no startup check skipped.
    fn default() -> (r: Backend)
        ensures
            r.port == 12412,
            r.scan_interval == 5000,
            r.store_file@ == "store"@,
            r.log_file@ == "microsdeck.log"@,
            r.log_level == LogLevel::INFO,
            r.startup == (Startup { skip_validate: false, skip_clean: false }),
    {
        Backend {
            port: 12412,
            scan_interval: 5000,
            store_file: "store".to_owned(),
            log_file: "microsdeck.log".to_owned(),
            log_level: LogLevel::INFO,
            startup: Startup { skip_validate: false, skip_clean: false },
        }
    }
}

impl Config {
    /// The default settings.
    pub fn new() -> (r: Config)
        ensures
            r.backend.port == 12412,
            r.backend.scan_interval == 5000,
            r.backend.store_file@ == "store"@,
            r.backend.log_file@ == "microsdeck.log"@,
            r.backend.log_level == LogLevel::INFO,
            r.backend.startup == (Startup { skip_validate: false, skip_clean: false }),
            r.frontend == (Frontend { dismissed_docs: false }),
    {
        Config { backend: Backend::default(), frontend: Frontend { dismissed_docs: false } }
    }
}

} // verus!
