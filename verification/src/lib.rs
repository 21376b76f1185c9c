//! Finds the top-level `node_modules` directories below a root and accounts
//! for their removal.

use vstd::prelude::*;
use vstd::string::StringExecFns;

pub mod cleaner;
pub mod cli;
pub mod driver;
pub mod format;
pub mod path;
pub mod patterns;
pub mod scanner;
pub mod text;

pub use crate::driver::cleanup_node_modules;
pub use crate::format::format_bytes;

verus! {

/// What a cleanup run is asked to do.
#[derive(Debug, Clone)]
pub struct Config {
    /// Glob patterns; a directory whose path matches one is left alone.
    pub exclude_patterns: Vec<String>,
    /// Report what would be deleted, and delete nothing.
    pub dry_run: bool,
    /// Do not ask before deleting.
    pub no_confirm: bool,
    /// Print nothing but errors.
    pub quiet: bool,
    /// The number of worker threads; `None` for one per logical CPU.
    pub threads: Option<usize>,
}

impl Default for Config {
    fn default() -> (config: Self)
        ensures
            config.exclude_patterns@.len() == 0,
            !config.dry_run,
            !config.no_confirm,
            !config.quiet,
            config.threads is None,
    {
        Config {
            exclude_patterns: Vec::new(),
            dry_run: false,
            no_confirm: false,
            quiet: false,
            threads: None,
        }
    }
}

/// Why a run stops before it deletes anything.
#[derive(Debug)]
pub enum CleanupError {
    /// A directory handed over for deletion is not named `node_modules`.
    UnsafeTarget { path: String },
    /// The walk below the root failed.
    ScanFailed { message: String },
    /// The root of the scan is not an absolute path.
    RelativeRoot { root: String },
}

/// The text of the error for a deletion target with the wrong name.
pub open spec fn unsafe_target_text(path: Seq<char>) -> Seq<char> {
    "Safety check failed: path '"@ + path + "' does not end with 'node_modules'"@
}

/// The text of the error for a scan whose root is not absolute.
pub open spec fn relative_root_text(root: Seq<char>) -> Seq<char> {
    "Scan root '"@ + root + "' is not an absolute path"@
}

impl CleanupError {
    /// The text of the error.
    pub open spec fn text(&self) -> Seq<char> {
        match self {
            CleanupError::UnsafeTarget { path } => unsafe_target_text(path@),
            CleanupError::ScanFailed { message } => message@,
            CleanupError::RelativeRoot { root } => relative_root_text(root@),
        }
    }

    /// The error as one line of text.
    pub fn message(&self) -> (line: String)
        ensures
            line@ == self.text(),
    {
        match self {
            CleanupError::UnsafeTarget { path } => String::from_str(
                "Safety check failed: path '",
            ).concat(path.as_str()).concat("' does not end with 'node_modules'"),
            CleanupError::ScanFailed { message } => message.clone(),
            CleanupError::RelativeRoot { root } => String::from_str("Scan root '").concat(
                root.as_str(),
            ).concat("' is not an absolute path"),
        }
    }
}

/// Statistics of one cleanup run.
#[derive(Debug)]
pub struct CleanupStats {
    /// Number of directories found.
    pub directories_found: usize,
    /// Number of directories deleted.
    pub directories_deleted: usize,
    /// Number of directories whose deletion failed.
    pub directories_failed: usize,
    /// Bytes reclaimed by the deletions that succeeded.
    pub bytes_freed: u64,
}

impl Default for CleanupStats {
    fn default() -> (stats: Self)
        ensures
            stats.directories_found == 0,
            stats.directories_deleted == 0,
            stats.directories_failed == 0,
            stats.bytes_freed == 0,
    {
        CleanupStats {
            directories_found: 0,
            directories_deleted: 0,
            directories_failed: 0,
            bytes_freed: 0,
        }
    }
}

} // verus!
