//! Verified decision logic for turning a Unix process into a daemon.

pub mod calls;
pub mod cli;
pub mod cli_laws;
pub mod config;
pub mod context;
pub mod context_laws;
pub mod descriptor_laws;
pub mod errno;
pub mod error;
pub mod fds;
pub mod host;
pub mod identity;
pub mod install;
pub mod launch;
pub mod notify;
pub mod output;
pub mod path;
pub mod privilege_laws;
pub mod privileges;
pub mod progress_laws;
pub mod sequence;
pub mod sequence_laws;
pub mod signals;
pub mod text;
pub mod text_laws;
pub mod thread_count;
pub mod validate;
pub mod view_laws;

pub use config::DaemonConfig;
pub use context::DaemonContext;
pub use error::DaemonizeError;
pub use sequence::{daemonize, daemonize_unchecked};
