//! Ephemeral Python environments: a private package directory, the commands
//! that install into it and run code against it, the scan of source text for
//! imports that are not installed yet, and the line splitting that turns a
//! child process's output into lines for the caller's sinks.
pub mod lines;
pub mod env;
pub mod scan;

pub use env::{
    install_requests, run_outcome, unmet_dependencies, Error, ErrorKind, Invocation, PyEnv,
    PyResult, RunReport,
};
pub use lines::LineSplitter;
pub use scan::{missing, rip_deps, split_words, trim_syntax};
