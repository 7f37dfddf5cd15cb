//! A workflow engine for HPC clusters.
//!
//! A project's work is organized as a flat set of workspace directories, each
//! optionally carrying a small JSON value document. User-declared actions are
//! executed against subsets of those directories. The engine tracks which
//! directories are completed, submitted, eligible, or waiting, groups eligible
//! directories into batches, and builds the scripts that cluster schedulers
//! execute.

use vstd::prelude::*;

pub mod builtin;
pub mod cluster;
pub mod error;
pub mod expr;
pub mod grouping;
pub mod launcher;
pub mod numeric;
pub mod project;
pub mod scheduler;
pub mod state;
pub mod text;
pub mod value;
pub mod workspace;
pub mod workflow;

verus! {

/// Name of the per-project data directory that holds the caches.
pub const DATA_DIRECTORY_NAME: &'static str = ".row";

/// Name of the staging directory (inside the data directory) for completion packs.
pub const COMPLETED_DIRECTORY_NAME: &'static str = "completed";

/// File name of the directory value cache.
pub const VALUE_CACHE_FILE_NAME: &'static str = "directories.json";

/// File name of the completed cache.
pub const COMPLETED_CACHE_FILE_NAME: &'static str = "completed.postcard";

/// File name of the submitted cache.
pub const SUBMITTED_CACHE_FILE_NAME: &'static str = "submitted.postcard";

} // verus!
