//! Guards for an agent that inspects a source tree: path confinement, a
//! policy for shell commands, and readers for the output of search and
//! listing tools.

pub mod exec;
pub mod listing;
pub mod path;
pub mod policy;
pub mod read;
pub mod search;
pub mod text;

pub use crate::exec::ExecuteResponse;
pub use crate::listing::FileInfo;
pub use crate::path::resolve_safe_path;
pub use crate::policy::validate_command;
pub use crate::search::GrepMatch;
