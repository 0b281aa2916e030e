//! Safe extraction planning for ZIP archives, with the small helpers of the
//! command-line tool built around it.

pub mod archive;
pub mod digest;
pub mod entry;
pub mod error;
pub mod extract;
pub mod laws;
pub mod path;
pub mod phase;
pub mod plan;
pub mod prefix;
pub mod remote;
pub mod schedule;
pub mod text;
pub mod timeouts;
pub mod tool;
pub mod tree;
pub mod url;
pub mod writer;

pub use crate::entry::{MemEntry, RawEntry};
pub use crate::error::{ErrorKind, ExtractError};
pub use crate::extract::{extract_zip, Extraction};
pub use crate::path::RelPath;
pub use crate::schedule::{WriteStrategy, PARALLEL_THRESHOLD_BYTES};
pub use crate::timeouts::max_timeout_secs;
pub use crate::url::parse_github_url;
pub use crate::writer::{write_entry, WriteStep};
